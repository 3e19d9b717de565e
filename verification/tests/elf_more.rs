use static_malware_analysis::binary::Format;
use static_malware_analysis::elf::{parse, ELF_MAGIC};
use static_malware_analysis::error::ParseError;

fn put16(f: &mut [u8], at: usize, v: u16) {
    f[at..at + 2].copy_from_slice(&v.to_le_bytes());
}
fn put32(f: &mut [u8], at: usize, v: u32) {
    f[at..at + 4].copy_from_slice(&v.to_le_bytes());
}
fn put64(f: &mut [u8], at: usize, v: u64) {
    f[at..at + 8].copy_from_slice(&v.to_le_bytes());
}

// name, type, flags, address, offset, size, link, entry size
type Row = (u32, u32, u64, u64, u64, u64, u32, u64);

fn put_header(f: &mut [u8], at: usize, r: Row) {
    put32(f, at, r.0);
    put32(f, at + 4, r.1);
    put64(f, at + 8, r.2);
    put64(f, at + 16, r.3);
    put64(f, at + 24, r.4);
    put64(f, at + 32, r.5);
    put32(f, at + 40, r.6);
    put64(f, at + 56, r.7);
}

// A shared object with a dynamic table, dynamic symbols and their strings.
fn shared_object() -> Vec<u8> {
    let mut f = vec![0u8; 0x400];
    f[0..4].copy_from_slice(&ELF_MAGIC);
    f[4] = 2;
    f[5] = 1;
    put16(&mut f, 16, 3);
    put16(&mut f, 18, 183);
    put64(&mut f, 24, 0x1000);
    put64(&mut f, 40, 0x200);
    put16(&mut f, 58, 64);
    put16(&mut f, 60, 6);
    put16(&mut f, 62, 5);
    // Strings for symbols and libraries.
    f[0x100..0x113].copy_from_slice(b"\0libc.so.6\0puts\0me\0");
    // The dynamic table: one needed library, something else, the end.
    put64(&mut f, 0x140, 1);
    put64(&mut f, 0x148, 1);
    put64(&mut f, 0x150, 12);
    put64(&mut f, 0x158, 0x1000);
    // Symbols: the null one, an undefined one, a defined one.
    put32(&mut f, 0x180 + 24, 11);
    put32(&mut f, 0x180 + 48, 16);
    put16(&mut f, 0x180 + 48 + 6, 1);
    // Section names.
    f[0x1d0..0x1f2].copy_from_slice(b"\0.text\0.dynstr\0.dynamic\0.bss\0.shs\0");
    put_header(&mut f, 0x200 + 64, (1, 1, 6, 0x1000, 0x80, 0x20, 0, 0));
    put_header(&mut f, 0x200 + 128, (7, 3, 2, 0x800, 0x100, 0x20, 0, 0));
    put_header(&mut f, 0x200 + 192, (15, 6, 3, 0x2000, 0x140, 0x40, 2, 16));
    put_header(&mut f, 0x200 + 256, (24, 11, 2, 0x900, 0x180, 72, 2, 0));
    put_header(&mut f, 0x200 + 320, (0, 8, 3, 0x3000, 0x1d0, 0x100, 0, 0));
    f
}

#[test]
fn a_shared_object_is_read() {
    let b = parse(&shared_object()).unwrap();
    assert_eq!(b.format, Format::Elf);
    assert_eq!((b.arch, b.bits, b.kind), ("ARM64 (AArch64)", 64, "shared object / PIE"));
    assert_eq!(b.attributes, vec!["PIE / shared object", "dynamically linked", "stripped (no .symtab)"]);
    assert_eq!(b.entry_point, 0x1000);
    assert_eq!(b.image_base, 0x800, "the lowest address of a loaded section");
    let names: Vec<&str> = b.sections.iter().map(|s| s.name.as_str()).collect();
    assert_eq!(names, vec!["", ".text", ".dynstr", ".dynamic", ".bss", ""]);
    let bss = &b.sections[5];
    assert_eq!((bss.virtual_size, bss.file_size), (0x100, 0), "nothing on disk");
    assert!(bss.is_readable() && bss.is_writable() && !bss.is_executable());
    assert!(b.exports.is_empty() && b.overlay.is_none() && b.pe_meta.is_none());
}

#[test]
fn needed_libraries_and_undefined_symbols_are_imports() {
    let b = parse(&shared_object()).unwrap();
    assert_eq!(b.imports.len(), 2);
    assert_eq!(b.imports[0].dll, "libc.so.6");
    assert!(b.imports[0].functions.is_empty());
    assert_eq!(b.imports[1].dll, "(imported symbols)");
    assert_eq!(b.imports[1].names(), vec!["puts"]);
    assert_eq!(b.imports[1].functions[0].iat_rva, None);
}

#[test]
fn the_dynamic_table_ends_at_its_null_entry() {
    let mut f = shared_object();
    put64(&mut f, 0x140, 0);
    let b = parse(&f).unwrap();
    assert_eq!(b.imports.len(), 1);
    assert_eq!(b.imports[0].dll, "(imported symbols)");
}

#[test]
fn a_table_past_the_end_of_the_file_has_no_sections() {
    let mut f = shared_object();
    put64(&mut f, 40, u64::MAX - 10);
    let b = parse(&f).unwrap();
    assert!(b.sections.is_empty() && b.imports.is_empty());
    assert_eq!(b.image_base, 0);
    assert_eq!(b.attributes, vec!["PIE / shared object", "statically linked", "stripped (no .symtab)"]);
}

#[test]
fn a_32_bit_file_has_its_own_layout() {
    let mut f = vec![0u8; 0x100];
    f[0..4].copy_from_slice(&ELF_MAGIC);
    f[4] = 1;
    f[5] = 1;
    put16(&mut f, 16, 2);
    put16(&mut f, 18, 3);
    put32(&mut f, 24, 0x804_8000);
    put32(&mut f, 32, 0x80);
    put16(&mut f, 46, 40);
    put16(&mut f, 48, 2);
    put16(&mut f, 50, 0);
    // The second header: a symbol table at 0x804_9000.
    let at = 0x80 + 40;
    put32(&mut f, at + 4, 2);
    put32(&mut f, at + 8, 7);
    put32(&mut f, at + 12, 0x804_9000);
    put32(&mut f, at + 16, 0x40);
    put32(&mut f, at + 20, 0x10);
    let b = parse(&f).unwrap();
    assert_eq!((b.arch, b.bits, b.kind), ("x86 (I386)", 32, "executable"));
    assert_eq!(b.entry_point, 0x804_8000);
    assert_eq!(b.image_base, 0x804_9000);
    assert_eq!(b.attributes, vec!["statically linked"]);
    let s = &b.sections[1];
    assert_eq!((s.virtual_addr, s.file_offset, s.file_size), (0x804_9000, 0x40, 0x10));
    assert!(s.is_readable() && s.is_writable() && s.is_executable());
}

#[test]
fn each_bad_header_has_its_error() {
    let err = |f: &[u8]| parse(f).unwrap_err();
    assert_eq!(err(b"\x7fEL"), ParseError::TooShort { offset: 0, needed: 4, have: 3 });
    let mut f = shared_object();
    f[4] = 9;
    assert_eq!(err(&f), ParseError::UnsupportedElfClass(9));
    let mut f = shared_object();
    f[5] = 2;
    assert_eq!(err(&f), ParseError::UnsupportedElfEndian);
    let f = shared_object();
    assert_eq!(err(&f[..17]), ParseError::TooShort { offset: 16, needed: 2, have: 17 });
    assert_eq!(err(&f[..63]), ParseError::TooShort { offset: 62, needed: 2, have: 63 });
}
