use static_malware_analysis::binary::{Binary, Format};
use static_malware_analysis::entropy::Entropy;
use static_malware_analysis::error::ParseError;
use static_malware_analysis::parse;
use static_malware_analysis::pe;

const OPT: usize = 0x80 + 24;

fn put16(f: &mut [u8], at: usize, v: u16) {
    f[at..at + 2].copy_from_slice(&v.to_le_bytes());
}
fn put32(f: &mut [u8], at: usize, v: u32) {
    f[at..at + 4].copy_from_slice(&v.to_le_bytes());
}
fn put64(f: &mut [u8], at: usize, v: u64) {
    f[at..at + 8].copy_from_slice(&v.to_le_bytes());
}

fn put_directory(f: &mut [u8], index: usize, rva: u32, size: u32) {
    put32(f, OPT + 112 + index * 8, rva);
    put32(f, OPT + 116 + index * 8, size);
}

// A 64-bit image: headers, then .text at file offset 0x400 and RVA 0x1000, then
// .data at file offset 0x600 and RVA 0x2000. All 16 directories are counted and
// empty.
fn image() -> Vec<u8> {
    let mut f = vec![0u8; 0x800];
    f[0] = b'M';
    f[1] = b'Z';
    put32(&mut f, 0x3c, 0x80);
    f[0x80..0x84].copy_from_slice(b"PE\0\0");
    put16(&mut f, 0x84, 0x8664); // machine
    put16(&mut f, 0x86, 2); // sections
    put32(&mut f, 0x88, 1_600_000_000); // timestamp
    put16(&mut f, 0x94, 240); // size of the optional header
    put16(&mut f, 0x96, 0x0022); // executable, large addresses
    put16(&mut f, OPT, 0x20b);
    put32(&mut f, OPT + 16, 0x1000); // entry point
    put64(&mut f, OPT + 24, 0x1_4000_0000); // image base
    put16(&mut f, OPT + 68, 3); // console
    put16(&mut f, OPT + 70, 0x0160); // mitigations
    put32(&mut f, OPT + 108, 16); // directories
    let table = OPT + 240;
    f[table..table + 5].copy_from_slice(b".text");
    put32(&mut f, table + 8, 0x1f0);
    put32(&mut f, table + 12, 0x1000);
    put32(&mut f, table + 16, 0x200);
    put32(&mut f, table + 20, 0x400);
    put32(&mut f, table + 36, 0x6000_0020); // code, execute, read
    let second = table + 40;
    f[second..second + 8].copy_from_slice(b".data123");
    put32(&mut f, second + 8, 0x1000);
    put32(&mut f, second + 12, 0x2000);
    put32(&mut f, second + 16, 0x200);
    put32(&mut f, second + 20, 0x600);
    put32(&mut f, second + 36, 0xc000_0040); // data, read, write
    f
}

fn parsed(f: &[u8]) -> Binary {
    parse(f).unwrap()
}

#[test]
fn headers_and_sections_are_read() {
    let b = parsed(&image());
    assert_eq!(b.format, Format::Pe);
    assert_eq!(b.arch, "x86-64 (AMD64)");
    assert_eq!(b.bits, 64);
    assert_eq!(b.kind, "executable");
    assert_eq!(b.attributes, vec!["EXECUTABLE_IMAGE", "LARGE_ADDRESS_AWARE"]);
    assert_eq!(b.entry_point, 0x1000);
    assert_eq!(b.image_base, 0x1_4000_0000);
    assert_eq!(b.sections.len(), 2);
    let s = &b.sections[0];
    assert_eq!(s.name, ".text");
    assert_eq!((s.virtual_addr, s.virtual_size), (0x1000, 0x1f0));
    assert_eq!((s.file_offset, s.file_size), (0x400, 0x200));
    assert!(s.is_readable() && s.is_executable() && !s.is_writable());
    let s = &b.sections[1];
    assert_eq!(s.name, ".data123", "a name may fill all eight bytes");
    assert!(s.is_readable() && !s.is_executable() && s.is_writable());
    assert!(b.imports.is_empty() && b.exports.is_empty() && b.overlay.is_none());
}

#[test]
fn metadata_is_read() {
    let m = parsed(&image()).pe_meta.unwrap();
    assert_eq!(m.timestamp, 1_600_000_000);
    assert_eq!(m.subsystem, "Windows console");
    assert_eq!(m.dll_characteristics, vec!["HIGH_ENTROPY_VA", "ASLR", "DEP"]);
    assert!(!m.reproducible_build && !m.is_dotnet && !m.signed && !m.has_resources);
    assert!(m.tls_callbacks.is_empty());
}

#[test]
fn directories_that_are_not_counted_are_not_read() {
    let mut f = image();
    put_directory(&mut f, 2, 0x2000, 0x10);
    put_directory(&mut f, 14, 0x2000, 0x48);
    let m = parsed(&f).pe_meta.unwrap();
    assert!(m.has_resources && m.is_dotnet);
    put32(&mut f, OPT + 108, 14);
    let m = parsed(&f).pe_meta.unwrap();
    assert!(m.has_resources && !m.is_dotnet);
}

#[test]
fn a_debug_entry_marks_a_reproducible_build() {
    let mut f = image();
    put_directory(&mut f, 6, 0x2000, 56);
    put32(&mut f, 0x600 + 28 + 12, 16); // the second entry
    assert!(parsed(&f).pe_meta.unwrap().reproducible_build);
    put_directory(&mut f, 6, 0x2000, 55); // only one entry is whole
    assert!(!parsed(&f).pe_meta.unwrap().reproducible_build);
}

#[test]
fn a_signature_past_the_sections_is_no_overlay() {
    let mut f = image();
    f.extend_from_slice(&[0xaa; 0x40]);
    let o = parsed(&f).overlay.unwrap();
    assert_eq!((o.file_offset, o.size), (0x800, 0x40));
    put_directory(&mut f, 4, 0x820, 0x20);
    let b = parsed(&f);
    let o = b.overlay.unwrap();
    assert_eq!((o.file_offset, o.size), (0x800, 0x20));
    assert!(b.pe_meta.unwrap().signed);
}

#[test]
fn imports_exports_and_callbacks_are_found() {
    let mut f = image();
    // Imports: a descriptor at 0x2000, its thunks at 0x2040 and 0x2060.
    put_directory(&mut f, 1, 0x2000, 40);
    put32(&mut f, 0x600, 0x2040);
    put32(&mut f, 0x600 + 12, 0x2080);
    put32(&mut f, 0x600 + 16, 0x2060);
    put64(&mut f, 0x640, 0x2090);
    f[0x680..0x68c].copy_from_slice(b"KERNEL32.dll");
    f[0x692..0x69d].copy_from_slice(b"ExitProcess");
    // Exports: a directory at 0x20c0 with one function by number.
    put_directory(&mut f, 0, 0x20c0, 0x28);
    put32(&mut f, 0x6c0 + 16, 7);
    put32(&mut f, 0x6c0 + 20, 1);
    put32(&mut f, 0x6c0 + 28, 0x2100);
    put32(&mut f, 0x700, 0x1010);
    // TLS: a directory at 0x2110, its array at 0x2140.
    put_directory(&mut f, 9, 0x2110, 0x28);
    put64(&mut f, 0x710 + 24, 0x1_4000_2140);
    put64(&mut f, 0x740, 0x1_4000_1020);
    let b = parsed(&f);
    assert_eq!(b.imports.len(), 1);
    assert_eq!(b.imports[0].dll, "KERNEL32.dll");
    assert_eq!(b.imports[0].names(), vec!["ExitProcess"]);
    assert_eq!(b.imports[0].functions[0].iat_rva, Some(0x2060));
    assert_eq!(b.total_imported_functions(), 1);
    assert_eq!(b.exports.len(), 1);
    assert_eq!(b.exports[0].name, "#7");
    assert_eq!((b.exports[0].rva, b.exports[0].ordinal), (0x1010, 7));
    assert_eq!(b.tls_callbacks(), &[0x1020]);
}

#[test]
fn a_32_bit_image_has_its_own_layout() {
    let mut f = image();
    put16(&mut f, 0x84, 0x014c);
    put16(&mut f, 0x96, 0x2102); // a library for a 32-bit machine
    put16(&mut f, OPT, 0x10b);
    put32(&mut f, OPT + 28, 0x40_0000);
    put32(&mut f, OPT + 92, 16);
    put32(&mut f, OPT + 96 + 2 * 8, 0x2000);
    let b = parsed(&f);
    assert_eq!((b.arch, b.bits, b.kind), ("x86 (I386)", 32, "DLL"));
    assert_eq!(b.image_base, 0x40_0000);
    assert_eq!(b.attributes, vec!["EXECUTABLE_IMAGE", "DLL", "32BIT_MACHINE"]);
    assert!(b.pe_meta.unwrap().has_resources);
}

#[test]
fn every_refusal_has_its_error() {
    let too_short = |offset, needed, have| ParseError::TooShort { offset, needed, have };
    let err = |f: &[u8]| pe::parse(f).unwrap_err();
    assert_eq!(err(b"M"), too_short(0, 2, 1));
    assert_eq!(err(b"ZM......"), ParseError::BadDosMagic);
    assert_eq!(err(b"MZ"), too_short(0x3c, 4, 2));
    let mut f = image();
    put32(&mut f, 0x3c, 0x9000_0000);
    assert_eq!(err(&f), too_short(0x9000_0000, 4, 0x800));
    let mut f = image();
    f[0x81] = b'F';
    assert_eq!(err(&f), ParseError::BadPeSignature);
    assert_eq!(err(&image()[..0x84]), too_short(0x84, 2, 0x84));
    assert_eq!(err(&image()[..0x95]), too_short(0x94, 2, 0x95));
    let mut f = image();
    put16(&mut f, OPT, 0x107);
    assert_eq!(err(&f), ParseError::UnknownOptionalMagic(0x107));
    assert_eq!(err(&image()[..OPT + 30]), too_short(OPT + 24, 8, OPT + 30));
    // The second table entry breaks off in its address.
    let second = OPT + 240 + 40;
    assert_eq!(err(&image()[..second + 14]), too_short(second + 12, 4, second + 14));
}

#[test]
fn the_first_bytes_decide_the_format() {
    assert_eq!(parse(b"").unwrap_err(), ParseError::UnknownFormat);
    assert_eq!(parse(b"\x7fEL").unwrap_err(), ParseError::UnknownFormat);
    assert_eq!(
        parse(b"MZ").unwrap_err(),
        ParseError::TooShort { offset: 0x3c, needed: 4, have: 2 }
    );
    assert_eq!(
        parse(b"\x7fELF").unwrap_err(),
        ParseError::TooShort { offset: 4, needed: 1, have: 4 }
    );
}

#[test]
fn names_that_are_no_text_are_replaced() {
    let mut f = image();
    f[OPT + 240] = 0xff;
    assert_eq!(parsed(&f).sections[0].name, "\u{fffd}text");
}

#[test]
fn measured_entropy_is_recorded() {
    let mut b = parsed(&image());
    let e = Entropy::from_bits(7.8f64.to_bits()).unwrap();
    assert!(b.packed_sections().is_empty());
    b.record_entropy(&[e], Entropy::zero());
    assert_eq!(b.sections[0].entropy, e);
    assert_eq!(b.sections[1].entropy, Entropy::zero());
    assert_eq!(b.packed_sections().len(), 1);
    assert_eq!(b.packed_sections()[0].name, ".text");
}
