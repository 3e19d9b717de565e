use static_malware_analysis::elf::{parse, EI_CLASS, EI_DATA, ELF_MAGIC, SHF_ALLOC, SHF_EXECINSTR};
use static_malware_analysis::error::ParseError;

// Build a minimal but valid 64-bit little-endian ELF: header + a section
// string table + one ".text" section flagged alloc+exec. Enough to exercise
// the header decode, section walk, name resolution, and R/W/X mapping.
fn minimal_elf() -> Vec<u8> {
    let mut f = vec![0u8; 0x200];
    // e_ident
    f[0..4].copy_from_slice(&ELF_MAGIC);
    f[EI_CLASS] = 2; // 64-bit
    f[EI_DATA] = 1; // little-endian
    // e_type = ET_EXEC (2), e_machine = x86-64 (62)
    f[16..18].copy_from_slice(&2u16.to_le_bytes());
    f[18..20].copy_from_slice(&62u16.to_le_bytes());
    // e_entry = 0x401000
    f[24..32].copy_from_slice(&0x401000u64.to_le_bytes());
    // e_shoff = 0x80, e_shentsize = 64, e_shnum = 3, e_shstrndx = 2
    f[40..48].copy_from_slice(&0x80u64.to_le_bytes());
    f[58..60].copy_from_slice(&64u16.to_le_bytes());
    f[60..62].copy_from_slice(&3u16.to_le_bytes());
    f[62..64].copy_from_slice(&2u16.to_le_bytes());

    // .shstrtab contents at file offset 0x180: "\0.text\0.shstrtab\0"
    let shstr = b"\0.text\0.shstrtab\0";
    f[0x180..0x180 + shstr.len()].copy_from_slice(shstr);

    let write_shdr = |f: &mut [u8], idx: usize, name_off: u32, sh_type: u32,
                      flags: u64, addr: u64, offset: u64, size: u64| {
        let b = 0x80 + idx * 64;
        f[b..b + 4].copy_from_slice(&name_off.to_le_bytes());
        f[b + 4..b + 8].copy_from_slice(&sh_type.to_le_bytes());
        f[b + 8..b + 16].copy_from_slice(&flags.to_le_bytes());
        f[b + 16..b + 24].copy_from_slice(&addr.to_le_bytes());
        f[b + 24..b + 32].copy_from_slice(&offset.to_le_bytes());
        f[b + 32..b + 40].copy_from_slice(&size.to_le_bytes());
    };
    // [0] null section, [1] .text (name_off 1, PROGBITS, ALLOC|EXEC), [2] .shstrtab
    write_shdr(&mut f, 1, 1, 1, SHF_ALLOC | SHF_EXECINSTR, 0x401000, 0x100, 0x10);
    write_shdr(&mut f, 2, 7, 3, 0, 0, 0x180, shstr.len() as u64);
    f
}

#[test]
fn parses_header_and_text_section() {
    let bin = parse(&minimal_elf()).unwrap();
    assert_eq!(bin.bits, 64);
    assert_eq!(bin.arch, "x86-64 (AMD64)");
    assert_eq!(bin.entry_point, 0x401000);
    let text = bin.sections.iter().find(|s| s.name == ".text").expect(".text");
    assert!(text.is_executable() && text.is_readable() && !text.is_writable());
}

#[test]
fn rejects_bad_magic() {
    let mut f = minimal_elf();
    f[1] = b'X'; // corrupt the magic
    assert!(matches!(parse(&f), Err(ParseError::BadElfMagic)));
}
