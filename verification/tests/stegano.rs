use minitools::stegano::{can_extract, embed, extract, hide_message, retrieve_message, StegoError};

fn image(pixels: usize, fill: u8) -> Vec<u8> {
    vec![fill; pixels * 4]
}

#[test]
fn hide_then_retrieve() {
    let mut pixels = image(100, 0x80);
    assert_eq!(hide_message(&mut pixels, "Hello, world!"), Ok(()));
    assert!(can_extract(&pixels));
    assert_eq!(retrieve_message(&pixels), Ok("Hello, world!".to_string()));
}

#[test]
fn hide_then_retrieve_beyond_ascii() {
    let mut pixels: Vec<u8> = (0..4000u32).map(|i| (i * 7 % 256) as u8).collect();
    let message = "héllo wörld 京 💝";
    assert_eq!(hide_message(&mut pixels, message), Ok(()));
    assert_eq!(retrieve_message(&pixels), Ok(message.to_string()));
}

#[test]
fn the_empty_message() {
    let mut pixels = image(11, 0xFF);
    assert_eq!(hide_message(&mut pixels, ""), Ok(()));
    assert_eq!(retrieve_message(&pixels), Ok(String::new()));
    for (offset, byte) in pixels.iter().enumerate() {
        let expected = if offset % 4 < 3 && (offset / 4) * 3 + offset % 4 < 32 { 0xFE } else { 0xFF };
        assert_eq!(*byte, expected, "offset {}", offset);
    }
}

#[test]
fn exact_bytes_of_a_hidden_letter() {
    // 14 pixels carry 42 bits: 32 for the length and 8 for the letter.
    let mut pixels = image(14, 0xFF);
    assert_eq!(hide_message(&mut pixels, "A"), Ok(()));
    // The length 1, then 0x41 = 0100 0001.
    let mut bits = vec![0u8; 31];
    bits.push(1);
    bits.extend_from_slice(&[0, 1, 0, 0, 0, 0, 0, 1]);
    let mut expected = image(14, 0xFF);
    for (k, bit) in bits.iter().enumerate() {
        expected[(k / 3) * 4 + k % 3] = 0xFE | bit;
    }
    assert_eq!(pixels, expected);
    // Carriers 40 and 41 and every alpha byte are untouched.
    assert_eq!(pixels[13 * 4 + 1], 0xFF);
    assert_eq!(pixels[13 * 4 + 2], 0xFF);
    assert_eq!(pixels[3], 0xFF);
}

#[test]
fn only_lowest_bits_change() {
    let before: Vec<u8> = (0..400u32).map(|i| (i * 37 % 256) as u8).collect();
    let mut after = before.clone();
    assert_eq!(hide_message(&mut after, "secret"), Ok(()));
    assert_eq!(after.len(), before.len());
    for i in 0..before.len() {
        assert_eq!(after[i] & 0xFE, before[i] & 0xFE);
        if i % 4 == 3 {
            assert_eq!(after[i], before[i]);
        }
    }
}

#[test]
fn a_message_that_just_fits() {
    // "ab" takes 32 + 16 = 48 bits: 16 pixels.
    let mut pixels = image(16, 0);
    assert_eq!(hide_message(&mut pixels, "ab"), Ok(()));
    assert_eq!(retrieve_message(&pixels), Ok("ab".to_string()));
}

#[test]
fn a_message_too_large_leaves_the_image() {
    let mut pixels = image(15, 0x55);
    assert_eq!(hide_message(&mut pixels, "ab"), Err(StegoError::MessageTooLarge));
    assert_eq!(pixels, image(15, 0x55));
    let mut none: Vec<u8> = Vec::new();
    assert_eq!(hide_message(&mut none, ""), Err(StegoError::MessageTooLarge));
    let mut small = image(10, 0);
    assert_eq!(hide_message(&mut small, ""), Err(StegoError::MessageTooLarge));
}

#[test]
fn bytes_past_the_last_whole_pixel_carry_nothing() {
    let mut pixels = vec![0u8; 11 * 4 + 3];
    assert_eq!(hide_message(&mut pixels, ""), Ok(()));
    let mut short = vec![0u8; 10 * 4 + 3];
    assert_eq!(hide_message(&mut short, ""), Err(StegoError::MessageTooLarge));
}

#[test]
fn an_image_must_hold_what_it_announces() {
    assert!(!can_extract(&[]));
    assert!(!can_extract(&image(10, 0)));
    assert!(can_extract(&image(11, 0)));
    // All ones announce a length of 2^32 - 1.
    assert!(!can_extract(&image(1000, 0xFF)));
    let mut pixels = image(16, 0);
    assert_eq!(hide_message(&mut pixels, "ab"), Ok(()));
    assert!(can_extract(&pixels));
    pixels.truncate(15 * 4);
    assert!(!can_extract(&pixels));
}

#[test]
fn bytes_that_are_no_text() {
    let mut pixels = image(20, 0);
    embed(&mut pixels, &[0xFF, 0xFE]);
    assert!(can_extract(&pixels));
    assert_eq!(extract(&pixels), vec![0xFF, 0xFE]);
    assert_eq!(retrieve_message(&pixels), Err(StegoError::NotUtf8));
}

#[test]
fn embed_then_extract_any_bytes() {
    let message: Vec<u8> = (0..=255u8).collect();
    let mut pixels = image(2048 / 3 + 12, 0xAA);
    embed(&mut pixels, &message);
    assert_eq!(extract(&pixels), message);
}

#[test]
fn stego_errors_in_words() {
    assert_eq!(StegoError::MessageTooLarge.message(), "Message is too large to fit in the image.");
    assert_eq!(StegoError::NotUtf8.message(), "The hidden bytes are not valid UTF-8.");
}
