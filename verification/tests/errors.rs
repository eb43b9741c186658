use ups::text::push_decimal;
use ups::{Checksum, MetadataMismatch, Patch, UpsParseError, UpsPatchError, UpsPatchErrors};

#[test]
fn decimal_numbers() {
    for (n, expected) in [
        (0usize, "0"),
        (7, "7"),
        (10, "10"),
        (99, "99"),
        (100, "100"),
        (1234567890, "1234567890"),
    ] {
        let mut text = String::from("n=");
        push_decimal(&mut text, n);
        assert_eq!(text, format!("n={}", expected));
    }
    let mut text = String::new();
    push_decimal(&mut text, usize::MAX);
    assert_eq!(text, format!("{}", usize::MAX));
}

#[test]
fn metadata_mismatch_in_words() {
    assert_eq!(
        MetadataMismatch::Size { expected: 3, actual: 1234567890 }.to_string(),
        "size mismatch: expected 3, got 1234567890"
    );
    assert_eq!(
        MetadataMismatch::Size { expected: 0, actual: 10 }.to_string(),
        "size mismatch: expected 0, got 10"
    );
    assert_eq!(
        MetadataMismatch::Checksum { expected: Checksum(1), actual: Checksum(0xcbf4_3926) }
            .to_string(),
        "checksum mismatch: expected 0x01000000, got 0x2639F4CB"
    );
}

#[test]
fn patch_error_names_the_file() {
    let size = MetadataMismatch::Size { expected: 3, actual: 4 };
    assert_eq!(
        UpsPatchError::SourceMetadataMismatch(size).to_string(),
        "source file size mismatch: expected 3, got 4"
    );
    assert_eq!(
        UpsPatchError::DestMetadataMismatch(size).to_string(),
        "destination file size mismatch: expected 3, got 4"
    );
}

#[test]
fn patch_errors_in_words() {
    let a = UpsPatchError::SourceMetadataMismatch(MetadataMismatch::Size { expected: 1, actual: 2 });
    let b = UpsPatchError::SourceMetadataMismatch(MetadataMismatch::Checksum {
        expected: Checksum(3),
        actual: Checksum(4),
    });
    let c = UpsPatchError::DestMetadataMismatch(MetadataMismatch::Checksum {
        expected: Checksum(5),
        actual: Checksum(6),
    });
    let one = UpsPatchErrors::check_errors(vec![], vec![a]).unwrap_err();
    assert_eq!(one.to_string(), "source file size mismatch: expected 1, got 2");
    let three = UpsPatchErrors::check_errors(vec![], vec![a, b, c]).unwrap_err();
    assert_eq!(
        three.to_string(),
        "multiple errors: destination file checksum mismatch: expected 0x05000000, got 0x06000000, \
         source file size mismatch: expected 1, got 2, \
         source file checksum mismatch: expected 0x03000000, got 0x04000000"
    );
}

#[test]
fn parse_error_in_words() {
    assert_eq!(
        Patch::parse(b"UPS1\x80\x80").unwrap_err().to_string(),
        "this doesn't seem to be an UPS file: failed to read checksums"
    );
    assert_eq!(
        Patch::parse(b"ups").unwrap_err().to_string(),
        "this doesn't seem to be an UPS file: invalid preamble, expected \"U P S 1\", found \"u p s\""
    );
    assert_eq!(
        Patch::parse(b"UPS1\x80\x80\x01\0\0\0\0\0\0\0\0\0\0\0\0").unwrap_err().to_string(),
        "this doesn't seem to be an UPS file: error reading block offset"
    );
    let file = [85u8, 80, 83, 49, 128, 128, 0, 0, 0, 0, 0, 0, 0, 0, 0, 0, 0, 0];
    let err = Patch::parse(&file).unwrap_err();
    assert!(matches!(err, UpsParseError::PatchChecksumMismatch { .. }));
    assert_eq!(
        err.to_string(),
        "checksum mismatch for patch file: expected 0x00000000, got 0x28FEC859"
    );
}
