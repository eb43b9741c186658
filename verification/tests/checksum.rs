use ups::text::{escape_non_ascii, hex_char, preamble_message, push_hex_byte};
use ups::Checksum;

#[test]
fn checksum_from_bytes_is_crc32() {
    assert_eq!(Checksum::from_bytes(b"123456789"), Checksum(0xcbf4_3926));
    assert_eq!(Checksum::from_bytes(b"hello"), Checksum(0x3610_a686));
    assert_eq!(Checksum::from_bytes(b""), Checksum(0));
    assert_ne!(Checksum::from_bytes(b"hello"), Checksum::from_bytes(b"hellp"));
}

#[test]
fn checksum_is_shown_in_storage_order() {
    let sum = Checksum(0xcbf4_3926);
    assert_eq!(sum.to_string(), "0x2639F4CB");
    assert_eq!(sum.to_upper_hex(), "0x2639F4CB");
    assert_eq!(sum.to_lower_hex(), "0x2639f4cb");
    assert_eq!(Checksum(0).to_string(), "0x00000000");
    assert_eq!(Checksum(1).to_string(), "0x01000000");
    assert_eq!(Checksum(0xa0b0_c0d0).to_lower_hex(), "0xd0c0b0a0");
    assert_eq!(Checksum(u32::MAX).to_string(), "0xFFFFFFFF");
}

#[test]
fn checksum_little_endian_bytes() {
    assert_eq!(Checksum(0x0102_0304).to_le_bytes(), [4, 3, 2, 1]);
    assert_eq!(Checksum::from_le_bytes(&[4, 3, 2, 1]), Checksum(0x0102_0304));
    assert_eq!(Checksum::from_le_bytes(&[0xff, 0, 0, 0x80, 9, 9]), Checksum(0x8000_00ff));
    for x in [0u32, 1, 0xdead_beef, u32::MAX, 0x8000_0000] {
        assert_eq!(Checksum(x).to_le_bytes(), x.to_le_bytes());
        assert_eq!(Checksum::from_le_bytes(&x.to_le_bytes()), Checksum(x));
    }
}

#[test]
fn checksum_equality_is_value_equality() {
    assert_eq!(Checksum(7), Checksum(7));
    assert_ne!(Checksum(7), Checksum(8));
}

#[test]
fn hex_digits() {
    assert_eq!(hex_char(0, true), '0');
    assert_eq!(hex_char(9, false), '9');
    assert_eq!(hex_char(10, true), 'A');
    assert_eq!(hex_char(10, false), 'a');
    assert_eq!(hex_char(15, true), 'F');
    assert_eq!(hex_char(15, false), 'f');
    let mut text = String::from("x");
    push_hex_byte(&mut text, 0x0b, true);
    push_hex_byte(&mut text, 0xe7, false);
    assert_eq!(text, "x0Be7");
}

#[test]
fn escaping_of_bytes() {
    assert_eq!(escape_non_ascii(b""), "");
    assert_eq!(escape_non_ascii(b"U"), "U");
    assert_eq!(escape_non_ascii(b"UPS1"), "U P S 1");
    assert_eq!(escape_non_ascii(&[0xff, 0x41, 0x80, 0x7f]), "FF A 80 \u{7f}");
    assert_eq!(escape_non_ascii(&[0x00, 0xab]), "\u{0} AB");
}

#[test]
fn preamble_message_text() {
    assert_eq!(
        preamble_message(b"UPS1", &[0x50, 0x4b, 0x03, 0xfe]),
        "invalid preamble, expected \"U P S 1\", found \"P K \u{3} FE\""
    );
    assert_eq!(preamble_message(b"UPS1", b""), "invalid preamble, expected \"U P S 1\", found \"\"");
}
