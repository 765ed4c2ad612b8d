//! The Caesar cipher on the letters of ASCII.

use vstd::prelude::*;

verus! {

/// The letter `shift` places after `c` in the alphabet that starts at
/// `first`, going round from the last letter to the first.
pub open spec fn rotated(c: char, first: char, shift: int) -> char {
    (((c as int - first as int + shift) % 26) + first as int) as char
}

/// One character under a shift of `shift` places: a letter of ASCII moves
/// within its own case, anything else stays.
pub open spec fn shifted(c: char, shift: int) -> char {
    if 'a' <= c && c <= 'z' {
        rotated(c, 'a', shift)
    } else if 'A' <= c && c <= 'Z' {
        rotated(c, 'A', shift)
    } else {
        c
    }
}

/// `message` with every character shifted by `shift` places; the shift counts
/// modulo 26.
pub open spec fn encrypted(message: Seq<char>, shift: u8) -> Seq<char> {
    Seq::new(message.len(), |i: int| shifted(message[i], (shift % 26) as int))
}

/// `message` with every character shifted back by `shift` places: a shift
/// forward by what is missing to 26.
pub open spec fn decrypted(message: Seq<char>, shift: u8) -> Seq<char> {
    encrypted(message, (26 - shift % 26) as u8)
}

fn shift_char(c: char, shift: u8) -> (r: char)
    requires
        shift < 26,
    ensures
        r == shifted(c, shift as int),
{
    if c >= 'a' && c <= 'z' {
        let first: u8 = 97;
        assert('a' as int == 97);
        ((c as u8 - first + shift) % 26 + first) as char
    } else if c >= 'A' && c <= 'Z' {
        let first: u8 = 65;
        assert('A' as int == 65);
        ((c as u8 - first + shift) % 26 + first) as char
    } else {
        c
    }
}

/// Encrypts `message` by shifting its letters `shift` places forward.
pub fn caesar_cipher_encrypt(message: &str, shift: u8) -> (r: String)
    ensures
        r@ == encrypted(message@, shift),
{
    let places = shift % 26;
    let mut out = String::new();
    for c in it: message.chars()
        invariant
            places == shift % 26,
            out@.len() == it.index(),
            forall|k: int| 0 <= k < it.index() ==> out@[k] == shifted(it.seq()[k], places as int),
    {
        out.push(shift_char(c, places));
    }
    assert(out@ =~= encrypted(message@, shift));
    out
}

/// Decrypts `message` by shifting its letters `shift` places back.
pub fn caesar_cipher_decrypt(message: &str, shift: u8) -> (r: String)
    ensures
        r@ == decrypted(message@, shift),
{
    caesar_cipher_encrypt(message, 26 - (shift % 26))
}

/// Shifting back undoes shifting forward, one character at a time.
pub proof fn lemma_shift_back(c: char, shift: u8)
    ensures
        shifted(shifted(c, (shift % 26) as int), ((26 - shift % 26) as u8 % 26) as int) == c,
{
    let s = (shift % 26) as int;
    let back = ((26 - shift % 26) as u8 % 26) as int;
    assert(back == (26 - s) % 26);
    assert('a' as int == 97 && 'z' as int == 122 && 'A' as int == 65 && 'Z' as int == 90);
    if 'a' <= c && c <= 'z' {
        let x = c as int - 97;
        let y = (x + s) % 26;
        let d = rotated(c, 'a', s);
        assert(d as int == y + 97);
        assert((y + back) % 26 == x);
        assert(rotated(d, 'a', back) as int == c as int);
    } else if 'A' <= c && c <= 'Z' {
        let x = c as int - 65;
        let y = (x + s) % 26;
        let d = rotated(c, 'A', s);
        assert(d as int == y + 65);
        assert((y + back) % 26 == x);
        assert(rotated(d, 'A', back) as int == c as int);
    }
}

/// Decrypting what was encrypted with the same shift gives the message back.
pub proof fn lemma_decrypt_inverts_encrypt(message: Seq<char>, shift: u8)
    ensures
        decrypted(encrypted(message, shift), shift) == message,
{
    let sent = encrypted(message, shift);
    let back = decrypted(sent, shift);
    assert forall|i: int| 0 <= i < message.len() implies back[i] == message[i] by {
        lemma_shift_back(message[i], shift);
    }
    assert(back =~= message);
}

/// Encrypting keeps the length, and leaves alone whatever is no letter of
/// ASCII.
pub proof fn lemma_encrypt_keeps_others(message: Seq<char>, shift: u8, i: int)
    requires
        0 <= i < message.len(),
        !(('a' <= message[i] && message[i] <= 'z') || ('A' <= message[i] && message[i] <= 'Z')),
    ensures
        encrypted(message, shift).len() == message.len(),
        encrypted(message, shift)[i] == message[i],
{
}

} // verus!
