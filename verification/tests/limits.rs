use static_malware_analysis::binary::{Binary, Format, Import, ImportedFn, Overlay, PeMeta, Section};
use static_malware_analysis::entropy::Entropy;
use static_malware_analysis::limits::{assess, wrap};
use static_malware_analysis::strings::StringScan;

fn section(name: &str, entropy: f64, exec: bool, write: bool) -> Section {
    Section {
        name: name.into(),
        virtual_addr: 0x1000,
        virtual_size: 0x1000,
        file_offset: 0x400,
        file_size: 0x1000,
        readable: true,
        writable: write,
        executable: exec,
        entropy: Entropy::from_bits(entropy.to_bits()).unwrap(),
    }
}

fn binary(sections: Vec<Section>, imports: Vec<Import>) -> Binary {
    Binary {
        format: Format::Pe,
        arch: "x86-64 (AMD64)",
        bits: 64,
        kind: "executable",
        attributes: vec![],
        entry_point: 0x1000,
        image_base: 0x400000,
        sections,
        imports,
        exports: vec![],
        overlay: None,
        pe_meta: None,
        strings: StringScan::default(),
    }
}

fn imports(names: &[&str]) -> Vec<Import> {
    vec![Import {
        dll: "kernel32.dll".into(),
        functions: names.iter().copied().map(ImportedFn::named).collect(),
    }]
}

#[test]
fn packed_plus_sparse_imports_reports_hidden_imports() {
    let bin = binary(vec![section(".text", 7.8, true, false)], imports(&["ExitProcess"]));
    let limits = assess(&bin, None);
    assert!(
        limits.iter().any(|l| l.obscured.contains("import table")),
        "expected a hidden-import limit, got: {:?}",
        limits.iter().map(|l| l.obscured).collect::<Vec<_>>()
    );
    // The evidence must carry the actual numbers, not a generality.
    let l = limits.iter().find(|l| l.obscured.contains("import table")).unwrap();
    assert!(l.evidence.contains('1'), "evidence should cite the import count: {}", l.evidence);
    assert!(l.evidence.contains(".text"), "evidence should name the section: {}", l.evidence);
}

#[test]
fn an_ordinary_binary_reports_no_limits() {
    let bin = binary(
        vec![section(".text", 6.1, true, false), section(".rdata", 4.5, false, false)],
        imports(&[
            "CreateFileW", "ReadFile", "WriteFile", "CloseHandle", "HeapAlloc", "HeapFree",
            "GetLastError", "SetFilePointer", "GetStdHandle", "ExitProcess", "GetModuleHandleW",
        ]),
    );
    assert!(assess(&bin, None).is_empty(), "clean binary should have no limits");
}

#[test]
fn packed_alone_reports_unreadable_code_not_hidden_imports() {
    let many: Vec<&str> = vec![
        "CreateFileW", "ReadFile", "WriteFile", "CloseHandle", "HeapAlloc", "HeapFree",
        "GetLastError", "SetFilePointer", "GetStdHandle", "ExitProcess", "GetModuleHandleW",
    ];
    let bin = binary(vec![section(".text", 7.6, true, false)], imports(&many));
    let limits = assess(&bin, None);
    assert!(limits.iter().any(|l| l.obscured.contains("packed section")));
    assert!(!limits.iter().any(|l| l.obscured.contains("import table")));
}

#[test]
fn runtime_resolution_is_reported_from_the_import_pair() {
    let bin = binary(
        vec![section(".text", 6.0, true, false)],
        imports(&["LoadLibraryW", "GetProcAddress", "CreateFileW", "ReadFile", "WriteFile",
                  "CloseHandle", "HeapAlloc", "HeapFree", "GetLastError", "ExitProcess",
                  "GetStdHandle"]),
    );
    let limits = assess(&bin, None);
    assert!(limits.iter().any(|l| l.obscured.contains("resolved by name at runtime")));
}

#[test]
fn a_writable_executable_entry_point_is_flagged() {
    let bin = binary(vec![section(".text", 6.0, true, true)], imports(&["ExitProcess"; 11]));
    let limits = assess(&bin, None);
    assert!(limits.iter().any(|l| l.obscured.contains("code at the entry point")));
}

#[test]
fn a_high_entropy_overlay_is_flagged_but_a_low_entropy_one_is_not() {
    let mut bin = binary(vec![section(".text", 6.0, true, false)], imports(&["ExitProcess"; 11]));
    bin.overlay = Some(Overlay { file_offset: 0x1400, size: 4096, entropy: Entropy::from_bits(7.9f64.to_bits()).unwrap() });
    assert!(assess(&bin, None).iter().any(|l| l.obscured.contains("appended data")));

    bin.overlay = Some(Overlay { file_offset: 0x1400, size: 4096, entropy: Entropy::from_bits(3.2f64.to_bits()).unwrap() });
    assert!(!assess(&bin, None).iter().any(|l| l.obscured.contains("appended data")));
}

#[test]
fn dotnet_assemblies_are_called_out() {
    let mut bin = binary(vec![section(".text", 6.0, true, false)], imports(&["ExitProcess"; 11]));
    bin.pe_meta = Some(PeMeta { is_dotnet: true, ..PeMeta::default() });
    let limits = assess(&bin, None);
    assert!(limits.iter().any(|l| l.next_step.contains("ILSpy")));
}

#[test]
fn indirect_heavy_call_graphs_are_reported() {
    let bin = binary(vec![section(".text", 6.0, true, false)], imports(&["ExitProcess"; 11]));
    assert!(assess(&bin, Some((10, 500))).iter().any(|l| l.obscured.contains("call graph")));
    // Direct-dominated, and small counts, stay quiet.
    assert!(!assess(&bin, Some((500, 10))).iter().any(|l| l.obscured.contains("call graph")));
    assert!(!assess(&bin, Some((1, 5))).iter().any(|l| l.obscured.contains("call graph")));
}

#[test]
fn wrap_breaks_on_words_and_indents_continuations() {
    let out = wrap("aaa bbb ccc ddd", 7, 2);
    assert_eq!(out, "aaa bbb\n  ccc ddd");
    assert_eq!(wrap("", 10, 2), "");
}
