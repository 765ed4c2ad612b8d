//! Messages hidden in the lowest bits of an image.
//!
//! An image is a row of pixels of four bytes each: red, green, blue and
//! alpha. The three colours of each pixel carry one bit each, in their
//! lowest bit; alpha carries none. The bits are the length of the message in
//! bytes, as 32 bits from the highest down, and then the bytes of the
//! message, each from its highest bit down.

use vstd::prelude::*;
use vstd::utf8::{decode_utf8, encode_utf8, valid_utf8};

verus! {

/// The error of `String::from_utf8`. Nothing is known of what is inside.
#[verifier::external_type_specification]
#[verifier::external_body]
pub struct ExFromUtf8Error(std::string::FromUtf8Error);

/// `String::from_utf8` of the standard library makes a string of bytes that
/// are UTF-8, and fails on bytes that are not. Trusted.
pub assume_specification[ String::from_utf8 ](vec: Vec<u8>) -> (r: Result<
    String,
    std::string::FromUtf8Error,
>)
    ensures
        r is Ok <==> valid_utf8(vec@),
        r matches Ok(s) ==> s@ == decode_utf8(vec@),
;

/// Why a message could not be hidden or brought back.
#[derive(Debug, Clone, Copy, PartialEq, Eq)]
pub enum StegoError {
    /// The image has too few pixels for the message and its length.
    MessageTooLarge,
    /// The bytes found in the image are no text in UTF-8.
    NotUtf8,
}

impl StegoError {
    /// The error in words.
    pub fn message(&self) -> (r: &'static str)
        ensures
            r@ == match self {
                StegoError::MessageTooLarge => "Message is too large to fit in the image."@,
                StegoError::NotUtf8 => "The hidden bytes are not valid UTF-8."@,
            },
    {
        match self {
            StegoError::MessageTooLarge => "Message is too large to fit in the image.",
            StegoError::NotUtf8 => "The hidden bytes are not valid UTF-8.",
        }
    }
}

/// Where the `k`-th carrier lies among the bytes of an image: colour `k % 3`
/// of pixel `k / 3`.
pub open spec fn carrier(k: int) -> int {
    (k / 3) * 4 + k % 3
}

/// Which carrier the byte at `offset` is, counted over the colours only.
pub open spec fn carrier_index(offset: int) -> int {
    (offset / 4) * 3 + offset % 4
}

/// Whether the byte at `offset` is a colour, not alpha.
pub open spec fn is_colour(offset: int) -> bool {
    offset % 4 < 3
}

/// How many bits an image of `len` bytes carries: three for each whole pixel.
pub open spec fn capacity(len: int) -> int {
    (len / 4) * 3
}

/// How many bits a message takes: 32 for its length and 8 for each byte.
pub open spec fn payload_len(message: Seq<u8>) -> int {
    32 + 8 * (message.len() as int)
}

/// The `k`-th bit of the length of `message` followed by `message`, as a
/// number of 32 bits: 0 or 1.
pub open spec fn payload_bit_wide(message: Seq<u8>, k: int) -> u32 {
    if k < 32 {
        ((message.len() as u32) >> ((31 - k) as u32)) & 1
    } else {
        ((message[(k - 32) / 8] as u32) >> ((7 - (k - 32) % 8) as u32)) & 1
    }
}

/// The `k`-th bit of the length of `message` followed by `message`.
pub open spec fn payload_bit(message: Seq<u8>, k: int) -> u8 {
    payload_bit_wide(message, k) as u8
}

/// `byte` with its lowest bit set to `bit`.
pub open spec fn with_bit(byte: u8, bit: u8) -> u8 {
    (byte & 0xFE) | bit
}

/// Whether `message` fits in an image of `len` bytes: its bits within the
/// capacity, and its length within 32 bits.
pub open spec fn fits(len: int, message: Seq<u8>) -> bool {
    payload_len(message) <= capacity(len) && message.len() <= u32::MAX
}

/// `data` with the first `n` bits of the payload of `message` in its first
/// `n` carriers.
pub open spec fn hidden_upto(data: Seq<u8>, message: Seq<u8>, n: int) -> Seq<u8> {
    Seq::new(
        data.len(),
        |offset: int|
            if is_colour(offset) && carrier_index(offset) < n {
                with_bit(data[offset], payload_bit(message, carrier_index(offset)))
            } else {
                data[offset]
            },
    )
}

/// `data` with `message` hidden in it: every carrier that the payload
/// reaches has its lowest bit replaced, every other byte is as it was.
pub open spec fn hidden(data: Seq<u8>, message: Seq<u8>) -> Seq<u8> {
    hidden_upto(data, message, payload_len(message))
}

/// The bit that the `k`-th carrier holds.
pub open spec fn carried_bit(data: Seq<u8>, k: int) -> u32 {
    (data[carrier(k)] & 1) as u32
}

/// The number that `count` carriers from the `from`-th on hold, the highest
/// bit first.
pub open spec fn carried(data: Seq<u8>, from: int, count: int) -> u32
    decreases count,
{
    if count <= 0 {
        0
    } else {
        (carried(data, from, count - 1) << 1) | carried_bit(data, from + count - 1)
    }
}

/// The length that the first 32 carriers announce.
pub open spec fn hidden_length(data: Seq<u8>) -> int {
    carried(data, 0, 32) as int
}

/// The `j`-th byte after the length.
pub open spec fn hidden_byte(data: Seq<u8>, j: int) -> u8 {
    carried(data, 32 + 8 * j, 8) as u8
}

/// Whether an image of these bytes holds all the bits that it announces: the
/// 32 of the length, and 8 for each byte of that length.
pub open spec fn holds_message(data: Seq<u8>) -> bool {
    32 <= capacity(data.len() as int) && 32 + 8 * hidden_length(data) <= capacity(
        data.len() as int,
    )
}

/// The bytes hidden in `data`.
pub open spec fn revealed(data: Seq<u8>) -> Seq<u8> {
    Seq::new(hidden_length(data) as nat, |j: int| hidden_byte(data, j))
}

fn payload_bit_at(message: &[u8], k: usize) -> (r: u8)
    requires
        message.len() <= u32::MAX,
        k < payload_len(message@),
    ensures
        r == payload_bit(message@, k as int),
        r <= 1,
{
    if k < 32 {
        let length = message.len() as u32;
        let shift = (31 - k) as u32;
        assert(((length >> shift) & 1) <= 1) by (bit_vector);
        ((length >> shift) & 1) as u8
    } else {
        let byte = message[(k - 32) / 8] as u32;
        let shift = (7 - (k - 32) % 8) as u32;
        assert(((byte >> shift) & 1) <= 1) by (bit_vector);
        ((byte >> shift) & 1) as u8
    }
}

/// Hides `message` in `data`.
pub fn embed(data: &mut Vec<u8>, message: &[u8])
    requires
        fits(old(data).len() as int, message@),
    ensures
        final(data)@ == hidden(old(data)@, message@),
{
    let total: usize = 32 + 8 * message.len();
    let mut k: usize = 0;
    assert(data@ =~= hidden_upto(old(data)@, message@, 0));
    while k < total
        invariant
            k <= total,
            total == payload_len(message@),
            message.len() <= u32::MAX,
            total <= capacity(data.len() as int),
            data.len() == old(data).len(),
            data@ == hidden_upto(old(data)@, message@, k as int),
        decreases total - k,
    {
        let bit = payload_bit_at(message, k);
        let offset = (k / 3) * 4 + k % 3;
        let byte = data[offset];
        data.set(offset, (byte & 0xFE) | bit);
        assert(data@ =~= hidden_upto(old(data)@, message@, k + 1)) by {
            assert(is_colour(offset as int) && carrier_index(offset as int) == k);
            assert forall|o: int| 0 <= o < data.len() && o != offset implies !(is_colour(o)
                && carrier_index(o) == k) by {}
        }
        k = k + 1;
    }
}

fn read_bits(data: &[u8], from: usize, count: usize) -> (r: u32)
    requires
        count <= 32,
        from + count <= capacity(data.len() as int),
    ensures
        r == carried(data@, from as int, count as int),
        count == 8 ==> r <= 255,
{
    let mut acc: u32 = 0;
    let mut i: usize = 0;
    assert(0u32 >> 0u32 == 0) by (bit_vector);
    while i < count
        invariant
            i <= count <= 32,
            from + count <= capacity(data.len() as int),
            acc == carried(data@, from as int, i as int),
            i < 32 ==> acc >> (i as u32) == 0,
        decreases count - i,
    {
        let k = from + i;
        let offset = (k / 3) * 4 + k % 3;
        let bit = (data[offset] & 1) as u32;
        assert(bit <= 1) by {
            let byte = data[offset as int];
            assert(byte & 1 <= 1) by (bit_vector);
        }
        let next = (acc << 1) | bit;
        assert(i + 1 < 32 ==> next >> ((i + 1) as u32) == 0) by {
            let shift = i as u32;
            assert(shift < 31 && acc >> shift == 0 && bit <= 1 ==> ((acc << 1) | bit) >> (
            (shift + 1) as u32) == 0) by (bit_vector);
        }
        acc = next;
        i = i + 1;
    }
    assert(count == 8 ==> acc <= 255) by {
        assert(acc >> 8u32 == 0 ==> acc <= 255) by (bit_vector);
    }
    acc
}

/// Whether `data` holds all the bits that it announces.
pub fn can_extract(data: &[u8]) -> (r: bool)
    ensures
        r == holds_message(data@),
{
    let bits: usize = (data.len() / 4) * 3;
    if bits < 32 {
        return false;
    }
    let length = read_bits(data, 0, 32) as usize;
    length <= (bits - 32) / 8
}

/// The bytes hidden in `data`.
pub fn extract(data: &[u8]) -> (r: Vec<u8>)
    requires
        holds_message(data@),
    ensures
        r@ == revealed(data@),
{
    let length = read_bits(data, 0, 32) as usize;
    let mut out: Vec<u8> = Vec::new();
    let mut j: usize = 0;
    while j < length
        invariant
            j <= length,
            length == hidden_length(data@),
            holds_message(data@),
            32 + 8 * length <= data.len(),
            out.len() == j,
            forall|i: int| 0 <= i < j ==> out@[i] == hidden_byte(data@, i),
        decreases length - j,
    {
        let byte = read_bits(data, 32 + 8 * j, 8);
        out.push(byte as u8);
        j = j + 1;
    }
    assert(out@ =~= revealed(data@));
    out
}

/// Hides `message` in the pixels of an image, given as the bytes of its
/// pixels in rows, four bytes to the pixel. A message that does not fit,
/// with the 32 bits of its length, leaves the image as it was.
pub fn hide_message(pixels: &mut Vec<u8>, message: &str) -> (r: Result<(), StegoError>)
    ensures
        match r {
            Ok(_) => fits(old(pixels).len() as int, encode_utf8(message@)) && final(pixels)@
                == hidden(old(pixels)@, encode_utf8(message@)),
            Err(e) => e == StegoError::MessageTooLarge && !fits(
                old(pixels).len() as int,
                encode_utf8(message@),
            ) && final(pixels)@ == old(pixels)@,
        },
{
    let bytes = message.as_bytes();
    let bits: usize = (pixels.len() / 4) * 3;
    if bits < 32 || bytes.len() > (bits - 32) / 8 || bytes.len() > 0xFFFF_FFFF {
        return Err(StegoError::MessageTooLarge);
    }
    embed(pixels, bytes);
    Ok(())
}

/// Brings back the message hidden in the pixels of an image.
///
/// The image must hold all the bits that it announces, which `can_extract`
/// tells.
pub fn retrieve_message(pixels: &[u8]) -> (r: Result<String, StegoError>)
    requires
        holds_message(pixels@),
    ensures
        match r {
            Ok(message) => valid_utf8(revealed(pixels@)) && message@ == decode_utf8(
                revealed(pixels@),
            ),
            Err(e) => e == StegoError::NotUtf8 && !valid_utf8(revealed(pixels@)),
        },
{
    match String::from_utf8(extract(pixels)) {
        Ok(message) => Ok(message),
        Err(_) => Err(StegoError::NotUtf8),
    }
}

/// Every carrier that the payload reaches holds its bit of the payload.
pub proof fn lemma_hidden_bits(data: Seq<u8>, message: Seq<u8>, k: int)
    requires
        fits(data.len() as int, message),
        0 <= k < payload_len(message),
    ensures
        0 <= carrier(k) < data.len(),
        carried_bit(hidden(data, message), k) == payload_bit_wide(message, k),
        payload_bit(message, k) == payload_bit_wide(message, k),
        payload_bit(message, k) <= 1,
{
    let offset = carrier(k);
    assert(is_colour(offset) && carrier_index(offset) == k);
    let byte = data[offset];
    let wide = payload_bit_wide(message, k);
    assert(wide <= 1) by {
        let length = message.len() as u32;
        let high = (31 - k) as u32;
        assert(((length >> high) & 1) <= 1) by (bit_vector);
        if k >= 32 {
            let value = message[(k - 32) / 8] as u32;
            let low = (7 - (k - 32) % 8) as u32;
            assert(((value >> low) & 1) <= 1) by (bit_vector);
        }
    }
    let bit = wide as u8;
    assert(bit == payload_bit(message, k));
    assert(bit <= 1 ==> ((byte & 0xFE) | bit) & 1 == bit) by (bit_vector);
}

/// Carriers that hold the bits of `value`, a number of `width` bits, from
/// the highest down, spell `value`.
proof fn lemma_carried_spells(data: Seq<u8>, from: int, value: u32, width: int, count: int)
    requires
        1 <= count <= width <= 32,
        (value >> ((width - 1) as u32)) & 1 == value >> ((width - 1) as u32),
        forall|i: int|
            0 <= i < width ==> #[trigger] carried_bit(data, from + i) == (value >> ((width - 1
                - i) as u32)) & 1,
    ensures
        carried(data, from, count) == value >> ((width - count) as u32),
    decreases count,
{
    let top = (width - 1) as u32;
    if count == 1 {
        assert(carried(data, from, 0) == 0);
        assert(carried_bit(data, from + 0) == (value >> top) & 1);
        assert((0u32 << 1) | (value >> top) == value >> top) by (bit_vector);
    } else {
        lemma_carried_spells(data, from, value, width, count - 1);
        let s = (width - count + 1) as u32;
        assert(carried_bit(data, from + (count - 1)) == (value >> ((s - 1) as u32)) & 1);
        assert(1 <= s <= 31 ==> ((value >> s) << 1) | ((value >> ((s - 1) as u32)) & 1) == value
            >> ((s - 1) as u32)) by (bit_vector);
    }
}

/// What was hidden is what is revealed: an image in which a message was
/// hidden holds all the bits that it announces, and they are the message.
pub proof fn lemma_reveal_hidden(data: Seq<u8>, message: Seq<u8>)
    requires
        fits(data.len() as int, message),
    ensures
        holds_message(hidden(data, message)),
        revealed(hidden(data, message)) == message,
{
    let h = hidden(data, message);
    let length = message.len() as u32;
    assert forall|i: int| 0 <= i < 32 implies #[trigger] carried_bit(h, 0 + i) == (length >> ((32
        - 1 - i) as u32)) & 1 by {
        lemma_hidden_bits(data, message, i);
    }
    assert((length >> 31u32) & 1 == length >> 31u32) by (bit_vector);
    lemma_carried_spells(h, 0, length, 32, 32);
    assert(length >> 0u32 == length) by (bit_vector);
    assert(hidden_length(h) == message.len());
    assert forall|j: int| 0 <= j < message.len() implies hidden_byte(h, j) == message[j] by {
        let value = message[j] as u32;
        let from = 32 + 8 * j;
        assert forall|i: int| 0 <= i < 8 implies #[trigger] carried_bit(h, from + i) == (value >> (
        (8 - 1 - i) as u32)) & 1 by {
            lemma_hidden_bits(data, message, from + i);
            assert((from + i - 32) / 8 == j && (from + i - 32) % 8 == i);
        }
        assert(value <= 255 ==> (value >> 7u32) & 1 == value >> 7u32) by (bit_vector);
        lemma_carried_spells(h, from, value, 8, 8);
        assert(value >> 0u32 == value) by (bit_vector);
    }
    assert(revealed(h) =~= message);
}

/// A text that was hidden is the text that is brought back.
pub proof fn lemma_retrieve_hidden_text(data: Seq<u8>, text: Seq<char>)
    requires
        fits(data.len() as int, encode_utf8(text)),
    ensures
        holds_message(hidden(data, encode_utf8(text))),
        valid_utf8(revealed(hidden(data, encode_utf8(text)))),
        decode_utf8(revealed(hidden(data, encode_utf8(text)))) == text,
{
    broadcast use vstd::utf8::encode_utf8_valid_utf8, vstd::utf8::encode_utf8_decode_utf8;

    lemma_reveal_hidden(data, encode_utf8(text));
}

/// Hiding changes nothing but the lowest bit of a colour: the length of the
/// image, its alpha bytes and the seven upper bits of every byte stay.
pub proof fn lemma_hidden_keeps(data: Seq<u8>, message: Seq<u8>, offset: int)
    requires
        0 <= offset < data.len(),
    ensures
        hidden(data, message).len() == data.len(),
        hidden(data, message)[offset] & 0xFE == data[offset] & 0xFE,
        !is_colour(offset) ==> hidden(data, message)[offset] == data[offset],
{
    let byte = data[offset];
    let wide = payload_bit_wide(message, carrier_index(offset));
    let bit = payload_bit(message, carrier_index(offset));
    assert(wide <= 1) by {
        let k = carrier_index(offset);
        let length = message.len() as u32;
        let high = (31 - k) as u32;
        assert(((length >> high) & 1) <= 1) by (bit_vector);
        let value = message[(k - 32) / 8] as u32;
        let low = (7 - (k - 32) % 8) as u32;
        assert(((value >> low) & 1) <= 1) by (bit_vector);
    }
    assert(bit <= 1 ==> ((byte & 0xFE) | bit) & 0xFE == byte & 0xFE) by (bit_vector);
}

} // verus!
