use static_malware_analysis::binary::Section;
use static_malware_analysis::entropy::Entropy;
use static_malware_analysis::packers::{identify, SIGNATURES};

fn sections(names: &[&str]) -> Vec<Section> {
    names
        .iter()
        .map(|n| Section {
            name: (*n).to_string(),
            virtual_addr: 0,
            virtual_size: 0,
            file_offset: 0,
            file_size: 0,
            readable: true,
            writable: false,
            executable: false,
            entropy: Entropy::zero(),
        })
        .collect()
}

#[test]
fn upx_sections_are_recognized() {
    assert_eq!(identify(&sections(&["UPX0", "UPX1", ".rsrc"])), vec!["UPX"]);
}

#[test]
fn ordinary_sections_match_nothing() {
    // .pdata and .didat are standard in 64-bit PEs; a signature that fires
    // on notepad.exe would discredit every other reading in the report.
    assert!(identify(&sections(&[
        ".text", ".rdata", ".data", ".pdata", ".didat", ".rsrc", ".reloc", ".bss", ".tls",
        ".idata", ".edata", ".debug", ".adata", "fothk",
    ]))
    .is_empty());
}

#[test]
fn every_signature_is_distinctive() {
    // No signature may collide with a name a normal toolchain emits.
    const ORDINARY: &[&str] = &[
        ".text", ".rdata", ".data", ".pdata", ".xdata", ".didat", ".rsrc", ".reloc", ".bss",
        ".tls", ".idata", ".edata", ".debug", ".adata", ".sdata", ".init", ".fini", ".got",
        ".plt", ".comment", ".eh_frame", ".symtab", ".strtab", ".shstrtab", ".dynsym",
    ];
    for (packer, n) in SIGNATURES {
        assert!(
            !ORDINARY.iter().any(|o| o.eq_ignore_ascii_case(n)),
            "{packer} claims '{n}', which is an ordinary section name"
        );
    }
}

#[test]
fn matching_ignores_case() {
    // Some builders lowercase the whole section table.
    assert_eq!(identify(&sections(&["upx0", "upx1"])), vec!["UPX"]);
}

#[test]
fn each_packer_is_reported_once() {
    // UPX0 and UPX1 both match the same packer; it should not appear twice.
    assert_eq!(identify(&sections(&["UPX0", "UPX1", "UPX2"])).len(), 1);
}
