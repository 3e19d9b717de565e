use static_malware_analysis::binary::{Binary, Format, Section};
use static_malware_analysis::cfg::build;
use static_malware_analysis::entropy::Entropy;
use static_malware_analysis::strings::StringScan;

// Wrap raw code bytes in a one-section x86-64 Binary loaded at `base`.
fn code_binary(code: &[u8], base: u64) -> (Vec<u8>, Binary) {
    let sec = Section {
        name: ".text".into(),
        virtual_addr: base,
        virtual_size: code.len() as u64,
        file_offset: 0,
        file_size: code.len() as u64,
        readable: true,
        writable: false,
        executable: true,
        entropy: Entropy::zero(),
    };
    let bin = Binary {
        format: Format::Pe,
        arch: "x86-64 (AMD64)",
        bits: 64,
        kind: "executable",
        attributes: vec![],
        entry_point: base,
        image_base: 0,
        sections: vec![sec],
        imports: vec![],
        exports: vec![],
        overlay: None,
        pe_meta: None,
        strings: StringScan::default(),
    };
    (code.to_vec(), bin)
}

#[test]
fn conditional_branch_makes_three_blocks() {
    // test rcx,rcx | je +3 | mov al,1 | ret | mov al,0 | ret
    // A diamond with no join: entry splits into two ret-terminated blocks.
    let code = [0x48, 0x85, 0xc9, 0x74, 0x03, 0xb0, 0x01, 0xc3, 0xb0, 0x00, 0xc3];
    let (file, bin) = code_binary(&code, 0x1000);
    let g = build(&file, &bin, None).unwrap();

    assert_eq!(g.instruction_count(), 6); // test, je, mov, ret, mov, ret
    assert_eq!(g.block_count(), 3);

    // Entry block ends in a conditional jump => two successors.
    let entry = g.blocks().iter().find(|b| b.start == 0x1000).unwrap();
    assert_eq!(entry.succ.len(), 2);
    assert!(entry.succ.iter().any(|(t, _)| *t == 0x1008)); // taken target
    assert!(entry.succ.iter().any(|(t, _)| *t == 0x1005)); // fall-through

    // Both other blocks end in ret => no successors.
    for b in g.blocks().iter().filter(|b| b.start != 0x1000) {
        assert!(b.succ.is_empty());
    }
}

#[test]
fn straight_line_is_one_block() {
    // xor eax,eax | ret
    let code = [0x31, 0xc0, 0xc3];
    let (file, bin) = code_binary(&code, 0x2000);
    let g = build(&file, &bin, None).unwrap();
    assert_eq!(g.block_count(), 1);
    assert_eq!(g.instruction_count(), 2);
}
