use static_malware_analysis::hexdump::{dump, resolve_window, HexWindow};
use static_malware_analysis::json::{arr, esc, q};
use static_malware_analysis::search::{parse_either, parse_number};
use static_malware_analysis::text::{decimal, hex_padded, hex_prefixed};
use static_malware_analysis::wrapping::{split_words, wrap};

#[test]
fn numbers_are_written_and_read_back() {
    for n in [0u64, 1, 9, 10, 255, 4096, u64::MAX] {
        assert_eq!(decimal(n), format!("{n}"));
        assert_eq!(hex_prefixed(n), format!("{n:#x}"));
        assert_eq!(hex_padded(n, 8), format!("{n:#010x}"));
        assert_eq!(parse_number(&decimal(n), 10, u64::MAX), Some(n));
        assert_eq!(parse_number(&format!("{n:x}"), 16, u64::MAX), Some(n));
    }
    assert_eq!(parse_number("18446744073709551616", 10, u64::MAX), None);
    assert_eq!(parse_number("256", 10, 255), None);
    assert_eq!(parse_number("+7", 10, 9), Some(7));
    assert_eq!(parse_number("", 10, 9), None);
    assert_eq!(parse_number("+", 10, 9), None);
    assert_eq!(parse_number("1a", 10, 99), None);
    assert_eq!(parse_either("0x10", u64::MAX), Some(16));
    assert_eq!(parse_either("10", u64::MAX), Some(10));
}

#[test]
fn wrapping_keeps_every_word() {
    let text = "one  two\tthree four-and-a-long-word five";
    let wrapped = wrap(text, 12, 3);
    assert_eq!(wrapped, "one two\n   three\n   four-and-a-long-word\n   five");
    assert_eq!(split_words(&wrapped), split_words(text));
    // Width is counted in bytes.
    assert_eq!(wrap("\u{e9}\u{e9} a", 5, 0), "\u{e9}\u{e9}\na");
    assert_eq!(wrap("\u{e9}\u{e9} a", 6, 0), "\u{e9}\u{e9} a");
}

#[test]
fn json_strings_can_be_read_back() {
    assert_eq!(q("a\"b\\c\u{1f}\u{7f}\u{e9}"), "\"a\\\"b\\\\c\\u001f\u{7f}\u{e9}\"");
    assert_eq!(esc("\r\n\t\u{0}"), "\\r\\n\\t\\u0000");
    assert_eq!(arr(&vec![]), "[]");
    assert_eq!(arr(&vec!["a".to_string(), "\"".to_string()]), "[\"a\", \"\\\"\"]");
}

#[test]
fn a_full_row_of_a_dump_is_exact() {
    let data: Vec<u8> = (0x3a..0x4c).collect();
    assert_eq!(
        dump(&data, 0xffff_fff0),
        "fffffff0  3a 3b 3c 3d 3e 3f 40 41  42 43 44 45 46 47 48 49  |:;<=>?@ABCDEFGHI|\n\
         00000000  4a 4b                                             |JK|\n"
    );
}

#[test]
fn a_window_past_the_end_of_the_file_is_refused() {
    let bin = static_malware_analysis::binary::Binary {
        format: static_malware_analysis::binary::Format::Pe,
        arch: "",
        bits: 32,
        kind: "",
        attributes: vec![],
        entry_point: 0,
        image_base: 0,
        sections: vec![static_malware_analysis::binary::Section {
            name: ".a".into(),
            virtual_addr: 0x1000,
            virtual_size: 0x10,
            file_offset: 0x100,
            file_size: 0x10,
            readable: true,
            writable: false,
            executable: false,
            entropy: static_malware_analysis::entropy::Entropy::zero(),
        }],
        imports: vec![],
        exports: vec![],
        overlay: None,
        pe_meta: None,
        strings: static_malware_analysis::strings::StringScan::default(),
    };
    assert_eq!(
        resolve_window(&[0; 8], &bin, &HexWindow::At(0x1004), None, 16).unwrap_err(),
        "that window starts at file offset 0x104, past the end of a 8-byte file"
    );
    assert_eq!(
        resolve_window(&[0; 0x200], &bin, &HexWindow::At(0x1004), None, 16).unwrap(),
        (0x104, 16)
    );
    assert_eq!(
        resolve_window(&[0; 0x200], &bin, &HexWindow::Headers, None, 16).unwrap(),
        (0, 0x100)
    );
}
