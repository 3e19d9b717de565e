use static_malware_analysis::error::ParseError;
use static_malware_analysis::reader::ByteReader;

#[test]
fn numbers_are_little_endian() {
    let r = ByteReader::new(&[0x01, 0x02, 0x03, 0x04, 0x05, 0x06, 0x07, 0x88]);
    assert_eq!(r.u16_le(0).unwrap(), 0x0201);
    assert_eq!(r.u32_le(1).unwrap(), 0x0504_0302);
    assert_eq!(r.u64_le(0).unwrap(), 0x8807_0605_0403_0201);
    assert_eq!(r.bytes(6, 2).unwrap(), &[0x07, 0x88]);
}

#[test]
fn reads_past_the_end_are_errors() {
    let r = ByteReader::new(&[0; 4]);
    assert_eq!(
        r.u32_le(1).unwrap_err(),
        ParseError::TooShort { offset: 1, needed: 4, have: 4 }
    );
    assert_eq!(
        r.u16_le(usize::MAX).unwrap_err(),
        ParseError::TooShort { offset: usize::MAX, needed: 2, have: 4 }
    );
    assert!(r.bytes(usize::MAX, usize::MAX).is_err());
    assert_eq!(r.bytes(4, 0).unwrap().len(), 0);
}

#[test]
fn sums_of_offsets_cannot_overflow() {
    let r = ByteReader::new(&[7, 0, 0, 0]);
    assert_eq!(r.u32_or_zero(0, 0), 7);
    assert_eq!(r.u32_or_zero(u64::MAX, u64::MAX), 0);
    assert_eq!(r.u16_near(u64::MAX, 1), None);
    assert_eq!(r.u16_near(1, 1), Some(0));
}

#[test]
fn every_error_has_its_message() {
    let text = |e: ParseError| e.message();
    assert_eq!(
        text(ParseError::TooShort { offset: 60, needed: 4, have: 10 }),
        "buffer too short: need 4 byte(s) at offset 0x3c, but file is only 10 bytes"
    );
    assert_eq!(text(ParseError::BadDosMagic), "not a PE file: missing 'MZ' magic");
    assert_eq!(text(ParseError::BadPeSignature), "not a PE file: missing 'PE\\0\\0' signature");
    assert_eq!(text(ParseError::UnknownOptionalMagic(0x107)), "unknown optional-header magic: 0x0107");
    assert_eq!(text(ParseError::BadElfMagic), "not an ELF file: missing '\\x7fELF' magic");
    assert_eq!(
        text(ParseError::UnsupportedElfClass(3)),
        "unsupported ELF class byte: 3 (want 1=32-bit or 2=64-bit)"
    );
    assert_eq!(text(ParseError::UnsupportedElfEndian), "big-endian ELF is not supported");
    assert_eq!(
        text(ParseError::UnknownFormat),
        "unrecognized file format (not PE 'MZ' or ELF '\\x7fELF')"
    );
}
