use static_malware_analysis::binary::{Binary, Format, Import, ImportedFn, Section};
use static_malware_analysis::entropy::Entropy;
use static_malware_analysis::strings::StringScan;
use static_malware_analysis::symbols::{trim_dll_suffix, Label, Symbols};

// One executable section holding `code` at `base`, plus one imported API
// whose IAT slot sits at `iat_rva`.
fn fixture(code: &[u8], base: u64, iat_rva: u64, image_base: u64) -> (Vec<u8>, Binary) {
    let sec = Section {
        name: ".text".into(),
        virtual_addr: base,
        virtual_size: code.len() as u64,
        file_offset: 0,
        file_size: code.len() as u64,
        readable: true,
        writable: false,
        executable: true,
        entropy: Entropy::zero(),
    };
    let bin = Binary {
        format: Format::Pe,
        arch: "x86-64 (AMD64)",
        bits: 64,
        kind: "executable",
        attributes: vec![],
        entry_point: base,
        image_base,
        sections: vec![sec],
        imports: vec![Import {
            dll: "KERNEL32.dll".into(),
            functions: vec![ImportedFn {
                name: "VirtualAlloc".into(),
                iat_rva: Some(iat_rva),
                ordinal: None,
            }],
        }],
        exports: vec![],
        overlay: None,
        pe_meta: None,
        strings: StringScan::default(),
    };
    (code.to_vec(), bin)
}

#[test]
fn resolves_a_rip_relative_thunk() {
    // At 0x1000:  ff 25 fa 0f 00 00   jmp qword ptr [rip + 0xffa]
    // Next instruction is 0x1006, so the slot is 0x1006 + 0xffa = 0x2000.
    let code = [0xff, 0x25, 0xfa, 0x0f, 0x00, 0x00];
    let (file, mut bin) = fixture(&code, 0x1000, 0x2000, 0x140000000);
    // Widen the section so the IAT address is inside the image.
    bin.sections[0].virtual_size = 0x2000;

    let syms = Symbols::build(&file, &bin);
    assert_eq!(syms.describe(0x1000).as_deref(), Some("KERNEL32!VirtualAlloc"));
}

#[test]
fn resolves_a_direct_slot_hit() {
    let (file, bin) = fixture(&[0x90], 0x1000, 0x2000, 0);
    let syms = Symbols::build(&file, &bin);
    assert_eq!(syms.describe(0x2000).as_deref(), Some("KERNEL32!VirtualAlloc"));
}

#[test]
fn resolves_an_absolute_thunk_after_subtracting_image_base() {
    // 32-bit form: ff 25 00 20 40 00  jmp dword ptr [0x402000]
    // With image base 0x400000 that slot is RVA 0x2000.
    let code = [0xff, 0x25, 0x00, 0x20, 0x40, 0x00];
    let (file, mut bin) = fixture(&code, 0x1000, 0x2000, 0x400000);
    bin.arch = "x86 (I386)";
    bin.bits = 32;
    bin.sections[0].virtual_size = 0x2000;

    let syms = Symbols::build(&file, &bin);
    assert_eq!(syms.describe(0x1000).as_deref(), Some("KERNEL32!VirtualAlloc"));
}

#[test]
fn ordinary_code_resolves_to_nothing() {
    // xor eax, eax; ret -- not a thunk.
    let code = [0x31, 0xc0, 0xc3];
    let (file, bin) = fixture(&code, 0x1000, 0x2000, 0);
    let syms = Symbols::build(&file, &bin);
    assert_eq!(syms.describe(0x1000), None);
}

#[test]
fn indirect_register_jumps_are_not_guessed() {
    // jmp qword ptr [rax] -- a computed target we must not pretend to know.
    let code = [0xff, 0x20];
    let (file, bin) = fixture(&code, 0x1000, 0x2000, 0);
    let syms = Symbols::build(&file, &bin);
    assert_eq!(syms.describe(0x1000), None);
}

#[test]
fn entry_point_is_labelled() {
    let (file, bin) = fixture(&[0x90], 0x1000, 0x2000, 0);
    let syms = Symbols::build(&file, &bin);
    assert_eq!(syms.label_at(0x1000), Some(&Label::Entry));
    assert_eq!(syms.label_at(0x1234), None);
}

#[test]
fn dll_suffix_is_trimmed_case_insensitively() {
    assert_eq!(trim_dll_suffix("KERNEL32.dll"), "KERNEL32");
    assert_eq!(trim_dll_suffix("ADVAPI32.DLL"), "ADVAPI32");
    assert_eq!(trim_dll_suffix("libc.so.6"), "libc.so.6");
    assert_eq!(trim_dll_suffix(".dll"), ".dll"); // too short to be a suffix
}
