use static_malware_analysis::binary::{Binary, Format, Section};
use static_malware_analysis::entropy::Entropy;
use static_malware_analysis::json::{esc, report};
use static_malware_analysis::strings::StringScan;

#[test]
fn escapes_special_chars() {
    assert_eq!(esc(r#"a"b\c"#), r#"a\"b\\c"#);
    assert_eq!(esc("x\ty\n"), "x\\ty\\n");
    assert_eq!(esc("\u{0007}"), "\\u0007"); // a control char -> \u escape
}

fn tiny_binary() -> Binary {
    Binary {
        format: Format::Elf,
        arch: "x86-64 (AMD64)",
        bits: 64,
        kind: "executable",
        attributes: vec!["statically linked".into()],
        entry_point: 0x1000,
        image_base: 0,
        sections: vec![Section {
            name: ".text".into(),
            virtual_addr: 0x1000,
            virtual_size: 0x10,
            file_offset: 0x40,
            file_size: 0x10,
            readable: true,
            writable: false,
            executable: true,
            entropy: Entropy::from_bits(6.5f64.to_bits()).unwrap(),
        }],
        imports: vec![],
        exports: vec![],
        overlay: None,
        pe_meta: None,
        strings: StringScan::default(),
    }
}

#[test]
fn report_has_expected_keys_and_shape() {
    let out = report("/bin/x", 123, &tiny_binary(), &[]);
    for key in ["\"file\"", "\"format\"", "\"arch\"", "\"sections\"", "\"packing\"", "\"imports\"", "\"capabilities\"", "\"iocs\""] {
        assert!(out.contains(key), "missing {key} in:\n{out}");
    }
    assert!(out.contains("\"format\": \"ELF\""));
    assert!(out.contains("\"executable\": true"));
    // balanced braces/brackets is a cheap validity smoke test
    assert_eq!(out.matches('{').count(), out.matches('}').count());
    assert_eq!(out.matches('[').count(), out.matches(']').count());
}
