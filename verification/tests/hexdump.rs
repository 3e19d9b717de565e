use static_malware_analysis::binary::{Binary, Format, Section};
use static_malware_analysis::entropy::Entropy;
use static_malware_analysis::hexdump::{dump, dump_to, resolve_window, HexWindow};
use static_malware_analysis::strings::StringScan;

#[test]
fn formats_offset_hex_and_ascii() {
    let d = dump(b"MZ", 0);
    assert!(d.starts_with("00000000  4d 5a"), "got: {d}");
    assert!(d.contains("|MZ|"), "got: {d}");
}

#[test]
fn dump_to_matches_dump() {
    // The streaming and convenience paths must produce identical output.
    let data: Vec<u8> = (0..50).collect();
    let mut streamed = Vec::new();
    dump_to(&mut streamed, &data, 0x1000);
    assert_eq!(String::from_utf8(streamed).unwrap(), dump(&data, 0x1000));
}

#[test]
fn base_offset_appears_in_address_column() {
    let d = dump(&[0x00], 0x400);
    assert!(d.starts_with("00000400  00"), "got: {d}");
}

#[test]
fn non_printable_bytes_become_dots() {
    let d = dump(&[0x00, 0x41, 0xff], 0);
    assert!(d.contains("|.A.|"), "got: {d}");
}

#[test]
fn wraps_every_16_bytes() {
    let data: Vec<u8> = (0..32).collect();
    let d = dump(&data, 0);
    // Two rows: addresses 0x00000000 and 0x00000010.
    assert!(d.contains("00000000  "));
    assert!(d.contains("00000010  "));
    assert_eq!(d.lines().count(), 2);
}

#[test]
fn empty_input_is_empty_output() {
    assert_eq!(dump(&[], 0), "");
}


// Headers at 0..0x200, then .text loaded at RVA 0x1000 from file offset 0x200.
fn fixture() -> (Vec<u8>, Binary) {
    let file = vec![0u8; 0x600];
    let bin = Binary {
        format: Format::Pe,
        arch: "x86-64 (AMD64)",
        bits: 64,
        kind: "executable",
        attributes: vec![],
        entry_point: 0x1000,
        image_base: 0,
        sections: vec![Section {
            name: ".text".into(),
            virtual_addr: 0x1000,
            virtual_size: 0x400,
            file_offset: 0x200,
            file_size: 0x400,
            readable: true,
            writable: false,
            executable: true,
            entropy: Entropy::zero(),
        }],
        imports: vec![],
        exports: vec![],
        overlay: None,
        pe_meta: None,
        strings: StringScan::default(),
    };
    (file, bin)
}

#[test]
fn an_address_window_resolves_through_the_section_table() {
    let (file, bin) = fixture();
    // RVA 0x1080 is 0x80 into .text, so file offset 0x280.
    assert_eq!(resolve_window(&file, &bin, &HexWindow::At(0x1080), None, 256).unwrap(), (0x280, 256));
}

#[test]
fn a_window_is_clamped_to_the_end_of_the_file() {
    let (file, bin) = fixture();
    let (off, len) = resolve_window(&file, &bin, &HexWindow::At(0x1300), None, 0x400).unwrap();
    assert_eq!(off, 0x500);
    assert_eq!(len, 0x100, "must not read past the end of a 0x600-byte file");
}

#[test]
fn the_header_window_stops_at_the_first_section() {
    let (file, bin) = fixture();
    assert_eq!(resolve_window(&file, &bin, &HexWindow::Headers, None, 256).unwrap(), (0, 0x200));
    // An explicit --len still narrows it.
    assert_eq!(resolve_window(&file, &bin, &HexWindow::Headers, Some(16), 256).unwrap(), (0, 16));
}

#[test]
fn a_section_window_starts_at_its_bytes_and_matches_case_insensitively() {
    let (file, bin) = fixture();
    let by_name = resolve_window(&file, &bin, &HexWindow::Section(".text".into()), None, 64).unwrap();
    let by_case = resolve_window(&file, &bin, &HexWindow::Section(".TEXT".into()), None, 64).unwrap();
    assert_eq!(by_name, (0x200, 64));
    assert_eq!(by_case, by_name);
}

#[test]
fn unknown_windows_explain_what_is_available() {
    let (file, bin) = fixture();
    let err = resolve_window(&file, &bin, &HexWindow::Section(".nope".into()), None, 64).unwrap_err();
    assert!(err.contains(".text"), "error should list real section names: {err}");

    let err = resolve_window(&file, &bin, &HexWindow::At(0x99999), None, 64).unwrap_err();
    assert!(err.contains("no section maps address"), "got: {err}");
}
