use static_malware_analysis::binary::{find_overlay, Binary, Format, Section};
use static_malware_analysis::entropy::Entropy;
use static_malware_analysis::strings::StringScan;

fn sec(file_offset: u64, file_size: u64) -> Section {
    Section {
        name: ".text".into(),
        virtual_addr: 0x1000,
        virtual_size: file_size,
        file_offset,
        file_size,
        readable: true,
        writable: false,
        executable: true,
        entropy: Entropy::zero(),
    }
}

#[test]
fn no_overlay_when_the_file_ends_at_the_last_section() {
    let file = vec![0u8; 0x600];
    assert!(find_overlay(&file, &[sec(0x200, 0x400)], None).is_none());
}

#[test]
fn appended_bytes_are_an_overlay() {
    let mut file = vec![0u8; 0x600];
    file.extend_from_slice(&[0xAA; 0x100]);
    let ov = find_overlay(&file, &[sec(0x200, 0x400)], None).expect("overlay");
    assert_eq!(ov.file_offset, 0x600);
    assert_eq!(ov.size, 0x100);
}

#[test]
fn a_signature_is_not_an_overlay() {
    // The regression this guards: an Authenticode signature also lives past
    // the last section and is also high-entropy, so counting it would report
    // an "encrypted appended payload" on every signed binary in System32.
    let mut file = vec![0u8; 0x600];
    file.extend_from_slice(&[0xAA; 0x100]); // the certificate table
    assert!(find_overlay(&file, &[sec(0x200, 0x400)], Some((0x600, 0x100))).is_none());
}

#[test]
fn data_before_a_signature_is_still_an_overlay() {
    let mut file = vec![0u8; 0x600];
    file.extend_from_slice(&[0xBB; 0x80]); // real appended data
    file.extend_from_slice(&[0xAA; 0x100]); // then the signature
    let ov = find_overlay(&file, &[sec(0x200, 0x400)], Some((0x680, 0x100))).expect("overlay");
    assert_eq!(ov.file_offset, 0x600);
    assert_eq!(ov.size, 0x80, "the signature must not be counted");
}

#[test]
fn va_maps_to_a_file_offset_only_where_bytes_exist() {
    let mut s = sec(0x200, 0x400);
    s.virtual_size = 0x1000; // larger in memory than on disk
    let bin = Binary {
        format: Format::Pe,
        arch: "x86-64 (AMD64)",
        bits: 64,
        kind: "executable",
        attributes: vec![],
        entry_point: 0x1000,
        image_base: 0,
        sections: vec![s],
        imports: vec![],
        exports: vec![],
        overlay: None,
        pe_meta: None,
        strings: StringScan::default(),
    };
    assert_eq!(bin.va_to_file_offset(0x1000), Some(0x200));
    assert_eq!(bin.va_to_file_offset(0x1100), Some(0x300));
    // Inside the section virtually, but past its bytes on disk: a packer's
    // unpack buffer looks exactly like this.
    assert_eq!(bin.va_to_file_offset(0x1500), None);
    assert_eq!(bin.va_to_file_offset(0x9999), None);
}
