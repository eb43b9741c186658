use ups::varint::{read_bytes, to_vec, varint_add_shifted, write_bytes};

fn varint_to_vec(varint: usize) -> Vec<u8> {
    let mut result = Vec::new();
    write_bytes(&mut result, varint);
    result
}

#[test]
fn varint_test_overflow() {
    let mut serialized = varint_to_vec(usize::MAX);
    // Unset bit flag for last byte and append another one se we go over usize::MAX
    let last = serialized.len() - 1;
    serialized[last] &= 0x7f;
    serialized.push(1);
    assert_eq!(read_bytes(&mut serialized.as_ref()), None);
}

#[test]
fn varint_exact_encodings() {
    assert_eq!(to_vec(0), vec![0x80]);
    assert_eq!(to_vec(1), vec![0x81]);
    assert_eq!(to_vec(127), vec![0xff]);
    assert_eq!(to_vec(128), vec![0x00, 0x80]);
    assert_eq!(to_vec(129), vec![0x01, 0x80]);
    assert_eq!(to_vec(255), vec![0x7f, 0x80]);
    assert_eq!(to_vec(256), vec![0x00, 0x81]);
    assert_eq!(to_vec(300), vec![0x2c, 0x81]);
    assert_eq!(to_vec(16511), vec![0x7f, 0xff]);
    assert_eq!(to_vec(16512), vec![0x00, 0x00, 0x80]);
}

#[test]
fn varint_write_appends() {
    let mut buf = vec![1, 2, 3];
    write_bytes(&mut buf, 300);
    assert_eq!(buf, vec![1, 2, 3, 0x2c, 0x81]);
}

#[test]
fn varint_exact_decodings() {
    let bytes = [0x2c, 0x81, 0xaa, 0xbb];
    let mut buf: &[u8] = &bytes;
    assert_eq!(read_bytes(&mut buf), Some(300));
    assert_eq!(buf, &[0xaa, 0xbb]);
    let mut buf: &[u8] = &[0x80];
    assert_eq!(read_bytes(&mut buf), Some(0));
    assert!(buf.is_empty());
    let mut buf: &[u8] = &[0x00, 0x00, 0x80];
    assert_eq!(read_bytes(&mut buf), Some(16512));
    assert!(buf.is_empty());
}

#[test]
fn varint_roundtrip_many() {
    let mut x: u64 = 0x9e37_79b9_7f4a_7c15;
    let mut values: Vec<usize> = vec![0, 1, 127, 128, 16511, 16512, usize::MAX, usize::MAX - 1];
    for shift in 0..usize::BITS {
        values.push(1usize << shift);
        values.push((1usize << shift) - 1);
    }
    for _ in 0..2000 {
        x ^= x << 13;
        x ^= x >> 7;
        x ^= x << 17;
        values.push((x >> (x % 64)) as usize);
    }
    for v in values {
        let mut serialized = to_vec(v);
        let len = serialized.len();
        serialized.extend_from_slice(&[0x55, 0x00]);
        let mut buf: &[u8] = &serialized;
        assert_eq!(read_bytes(&mut buf), Some(v));
        assert_eq!(buf.len(), 2);
        assert_eq!(serialized[len - 1] & 0x80, 0x80);
    }
}

#[test]
fn varint_truncated_input_fails_and_stays() {
    let mut buf: &[u8] = &[];
    assert_eq!(read_bytes(&mut buf), None);
    let bytes = [0x01, 0x02, 0x03];
    let mut buf: &[u8] = &bytes;
    assert_eq!(read_bytes(&mut buf), None);
    assert_eq!(buf, &bytes);
}

#[test]
fn varint_overflow_does_not_wrap() {
    // The last byte carries 2 at a place worth 2^63: too much for 64 bits, though
    // a plain shift would drop the bit and find 0.
    let bytes = [0u8, 0, 0, 0, 0, 0, 0, 0, 0, 0x82];
    let mut buf: &[u8] = &bytes;
    assert_eq!(read_bytes(&mut buf), None);
    assert_eq!(buf, &bytes);
    // Many bytes with nothing to end them.
    let long = [0x7fu8; 64];
    let mut buf: &[u8] = &long;
    assert_eq!(read_bytes(&mut buf), None);
}

#[test]
fn varint_add_shifted_values() {
    assert_eq!(varint_add_shifted(5, 3, 4), Some(53));
    assert_eq!(varint_add_shifted(0, 0, 200), Some(0));
    assert_eq!(varint_add_shifted(7, 0, 64), Some(7));
    assert_eq!(varint_add_shifted(0, 1, usize::BITS - 1), Some(1usize << (usize::BITS - 1)));
    assert_eq!(varint_add_shifted(0, 2, usize::BITS - 1), None);
    assert_eq!(varint_add_shifted(0, 1, usize::BITS), None);
    assert_eq!(varint_add_shifted(usize::MAX, 1, 0), None);
    assert_eq!(varint_add_shifted(usize::MAX - 1, 1, 0), Some(usize::MAX));
    assert_eq!(varint_add_shifted(1, 0xff, usize::BITS - 8), Some((0xffusize << (usize::BITS - 8)) + 1));
    assert_eq!(varint_add_shifted(0, 0xff, usize::BITS - 7), None);
}
