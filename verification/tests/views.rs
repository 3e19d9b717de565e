// Graphs, listings and inventories of small pieces of code.
use static_malware_analysis::binary::{Binary, Export, Format, Import, ImportedFn, PeMeta, Section};
use static_malware_analysis::cfg::{build, disassemble, DisasmOpts};
use static_malware_analysis::disasm::list_batch;
use static_malware_analysis::engine::{Failure, Insn};
use static_malware_analysis::entropy::Entropy;
use static_malware_analysis::functions::{discover, write_json, write_text};
use static_malware_analysis::strings::StringScan;
use static_malware_analysis::symbols::{CallTarget, Label, Memo, Symbols};

// Code at RVA 0x1000, and one imported function whose slot is 0x2000.
fn program(code: &[u8]) -> Binary {
    Binary {
        format: Format::Pe,
        arch: "x86-64 (AMD64)",
        bits: 64,
        kind: "executable",
        attributes: vec![],
        entry_point: 0x1000,
        image_base: 0x1_4000_0000,
        sections: vec![Section {
            name: ".text".into(),
            virtual_addr: 0x1000,
            virtual_size: 0x2000,
            file_offset: 0,
            file_size: code.len() as u64,
            readable: true,
            writable: false,
            executable: true,
            entropy: Entropy::zero(),
        }],
        imports: vec![Import {
            dll: "KERNEL32.dll".into(),
            functions: vec![
                ImportedFn { name: "VirtualAlloc".into(), iat_rva: Some(0x2000), ordinal: None },
                ImportedFn { name: "Sleep".into(), iat_rva: Some(0x2008), ordinal: None },
            ],
        }],
        exports: vec![],
        overlay: None,
        pe_meta: None,
        strings: StringScan::default(),
    }
}

// test rcx,rcx | je 0x1008 | mov al,1 | ret | mov al,0 | ret
const BRANCH: [u8; 11] = [0x48, 0x85, 0xc9, 0x74, 0x03, 0xb0, 0x01, 0xc3, 0xb0, 0x00, 0xc3];

// call [rip+0xffa] | call 0x100c | ret | int3 | jmp [rip+0xfee]
// The first call goes through the slot, the second through a thunk to it.
const CALLS: [u8; 18] = [
    0xff, 0x15, 0xfa, 0x0f, 0x00, 0x00, 0xe8, 0x01, 0x00, 0x00, 0x00, 0xc3, 0xff, 0x25, 0xee, 0x0f,
    0x00, 0x00,
];

#[test]
fn a_graph_is_listed_block_by_block() {
    let bin = program(&BRANCH);
    let mut text = String::from("> ");
    build(&BRANCH, &bin, None).unwrap().to_text(&mut text, None);
    assert_eq!(
        text,
        "> function 0x1000  (6 instruction(s), 3 basic block(s))\n\
         \n\
         [block 0] 0x1000  (entry)\n\
         \x20   0x00001000  test rcx, rcx\n\
         \x20   0x00001003  je 0x1008\n\
         \x20   -> block 1 (0x1005) [fall]   -> block 2 (0x1008) [taken]\n\
         \n\
         [block 1] 0x1005\n\
         \x20   0x00001005  mov al, 1\n\
         \x20   0x00001007  ret\n\
         \x20   -> (end)\n\
         \n\
         [block 2] 0x1008\n\
         \x20   0x00001008  mov al, 0\n\
         \x20   0x0000100a  ret\n\
         \x20   -> (end)\n\
         \n"
    );
}

#[test]
fn a_graph_is_drawn() {
    let bin = program(&BRANCH);
    let syms = Symbols::build(&BRANCH, &bin);
    let mut text = String::new();
    build(&BRANCH, &bin, Some(0x1003)).unwrap().to_dot(&mut text, Some(&syms));
    assert_eq!(
        text,
        "digraph cfg {\n  labelloc=\"t\";\n  label=\"CFG of function 0x1003\";\n  \
         node [shape=box, fontname=\"monospace\", fontsize=10];\n  \
         \"0x1003\" [label=\"0x1003\\l0x1003  je 0x1008\\l\", style=filled, fillcolor=\"#d0e0ff\"];\n  \
         \"0x1005\" [label=\"0x1005\\l0x1005  mov al, 1\\l0x1007  ret\\l\"];\n  \
         \"0x1008\" [label=\"0x1008\\l0x1008  mov al, 0\\l0x100a  ret\\l\"];\n  \
         \"0x1003\" -> \"0x1005\" [label=\"fall\"];\n  \
         \"0x1003\" -> \"0x1008\" [label=\"taken\"];\n}\n"
    );
}

#[test]
fn a_jump_out_of_the_function_is_drawn_as_a_stub() {
    // jmp 0x9000
    let code = [0xe9, 0xfb, 0x7f, 0x00, 0x00];
    let bin = program(&code);
    let g = build(&code, &bin, None).unwrap();
    let mut text = String::new();
    g.to_dot(&mut text, None);
    assert!(text.contains(
        "  \"ext_0x9000\" [shape=oval, style=dashed, label=\"0x9000\\n(external)\"];\n  \
         \"0x1000\" -> \"ext_0x9000\" [label=\"jmp\"];\n"
    ));
    let mut text = String::new();
    g.to_text(&mut text, None);
    assert!(text.contains("    -> 0x9000 (external) [jmp]\n"), "{text}");
}

#[test]
fn calls_are_annotated_with_what_they_reach() {
    let bin = program(&CALLS);
    let syms = Symbols::build(&CALLS, &bin);
    let mut text = String::new();
    build(&CALLS, &bin, None).unwrap().to_text(&mut text, Some(&syms));
    assert_eq!(
        text,
        format!(
            "function 0x1000  [entry]  (3 instruction(s), 1 basic block(s))\n\
             \n\
             [block 0] 0x1000  (entry)\n    \
             0x00001000  {:<38} ; KERNEL32!VirtualAlloc\n    \
             0x00001006  {:<38} ; KERNEL32!VirtualAlloc\n    \
             0x0000100b  ret\n    \
             -> (end)\n\n",
            "call qword ptr [rip + 0xffa]", "call 0x100c"
        )
    );
}

#[test]
fn call_targets_are_told_apart() {
    let bin = program(&CALLS);
    let syms = Symbols::build(&CALLS, &bin);
    let api = || "KERNEL32!VirtualAlloc".to_string();
    assert_eq!(syms.classify_call("0x100c", 0), CallTarget::Import(api()));
    assert_eq!(syms.classify_call("qword ptr [rip + 0xffa]", 0x1006), CallTarget::Import(api()));
    assert_eq!(syms.classify_call("qword ptr [rip - 0x10]", 0x2010), CallTarget::Import(api()));
    assert_eq!(syms.classify_call("dword ptr [0x140002000]", 0), CallTarget::Import(api()));
    assert_eq!(syms.classify_call("0x1006", 0), CallTarget::Code(0x1006));
    assert_eq!(syms.classify_call("rax", 0), CallTarget::Unknown);
    assert_eq!(syms.classify_call("qword ptr [rax + 8]", 0), CallTarget::Unknown);
    assert_eq!(syms.import_at(0x2008), Some("KERNEL32!Sleep"));
    assert_eq!(syms.import_at(0x2001), None);
    assert!(syms.has_imports());
}

#[test]
fn a_section_is_listed_line_by_line() {
    // The last byte alone is no instruction.
    let mut code = CALLS.to_vec();
    code.push(0x06);
    let bin = program(&code);
    let syms = Symbols::build(&code, &bin);
    let mut text = String::new();
    let n = disassemble(&code, &bin, &mut text, &DisasmOpts::default(), Some(&syms)).unwrap();
    assert_eq!(n, 4);
    assert_eq!(
        text,
        "\n== section .text  (addr 0x1000, 19 bytes) ==\n\
         0x0000001000  call qword ptr [rip + 0xffa]        ; KERNEL32!VirtualAlloc\n\
         0x0000001006  call 0x100c        ; KERNEL32!VirtualAlloc\n\
         0x000000100b  ret\n\
         0x000000100c  jmp qword ptr [rip + 0xfee]        ; KERNEL32!VirtualAlloc\n\
         0x0000001012  06          .byte (bad)\n"
    );
}

#[test]
fn a_window_is_listed_up_to_its_count() {
    let bin = program(&BRANCH);
    let mut text = String::new();
    let opts = DisasmOpts { addr: Some(0x1003), count: Some(2), section: None };
    let n = disassemble(&BRANCH, &bin, &mut text, &opts, None).unwrap();
    assert_eq!(n, 2);
    assert_eq!(
        text,
        "== .text from 0x1003 ==\n\n0x0000001003  je 0x1008\n0x0000001005  mov al, 1\n"
    );
}

#[test]
fn a_listing_of_no_instructions_succeeds() {
    let bin = program(&BRANCH);
    let mut text = String::new();
    let opts = DisasmOpts { addr: Some(0x1003), count: Some(0), section: None };
    assert_eq!(disassemble(&BRANCH, &bin, &mut text, &opts, None), Ok(0));
    assert_eq!(text, "== .text from 0x1003 ==\n\n");

    // A listed section without bytes on disk.
    let empty = program(&[]);
    text.clear();
    assert_eq!(disassemble(&[], &empty, &mut text, &DisasmOpts::default(), None), Ok(0));
    assert_eq!(text, "");
}

#[test]
fn a_batch_is_listed_by_what_was_found() {
    let insn = |address, size, mnemonic: &str, operands: &str| Insn {
        address,
        size,
        mnemonic: mnemonic.into(),
        operands: operands.into(),
    };
    let code = [0x90, 0xb0, 0x01, 0xc3];
    let mut memo = Memo::new();
    let mut w = String::from("> ");

    let two = Ok(vec![insn(0x1000, 1, "nop", ""), insn(0x1001, 2, "mov", "al, 1")]);
    let done = list_batch(two, &code, 0x1000, &mut w, None, &mut memo);
    assert!(matches!(done, Ok((3, 2))));
    assert_eq!(w, "> 0x0000001000  nop\n0x0000001001  mov al, 1\n");

    w.clear();
    let done = list_batch(Ok(vec![]), &code, 0x1000, &mut w, None, &mut memo);
    assert!(matches!(done, Ok((1, 0))));
    assert_eq!(w, "0x0000001000  90          .byte (bad)\n");

    let failed = Err(Failure::Decode("out of memory".into()));
    let done = list_batch(failed, &code, 0x1000, &mut w, None, &mut memo);
    assert!(matches!(done, Err(Failure::Decode(why)) if why == "out of memory"));
    assert_eq!(w, "0x0000001000  90          .byte (bad)\n");
}

#[test]
fn what_cannot_be_listed_is_explained() {
    let mut bin = program(&BRANCH);
    let mut w = String::from("as it was");
    let mut fail = |bin: &Binary, addr, section| {
        let opts = DisasmOpts { addr, count: None, section };
        disassemble(&BRANCH, bin, &mut w, &opts, None).unwrap_err()
    };
    assert_eq!(fail(&bin, Some(0x10), None), "no section contains address 0x10");
    assert_eq!(
        fail(&bin, Some(0x1100), None),
        "address 0x1100 has no bytes on disk (it lands in the part of '.text' that only exists once loaded)"
    );
    assert_eq!(fail(&bin, None, Some(".nope")), "no executable section named '.nope'");
    bin.sections[0].executable = false;
    assert_eq!(fail(&bin, None, None), "this binary has no executable section with bytes on disk");
    bin.arch = "ARM64";
    assert_eq!(fail(&bin, None, None), "disassembly supports x86/x86-64 only (this is ARM64)");
    assert_eq!(w, "as it was");
}

#[test]
fn what_cannot_be_graphed_is_explained() {
    let mut bin = program(&BRANCH);
    let fail = |bin: &Binary, start| match build(&BRANCH, bin, start) {
        Ok(_) => panic!("a graph where there is none"),
        Err(e) => e,
    };
    assert_eq!(fail(&bin, Some(0)), "no section contains address 0x0");
    assert_eq!(fail(&bin, Some(0x1100)), "address 0x1100 has no on-disk bytes to disassemble");
    bin.entry_point = 0;
    assert!(fail(&bin, None).starts_with("this image declares no entry point (RVA 0)"));
    bin.arch = "RISC-V";
    assert_eq!(fail(&bin, None), "disassembly supports x86/x86-64 only (this is RISC-V)");
    let bad = [0x06u8];
    let bin = program(&bad);
    assert_eq!(build(&bad, &bin, None).err().unwrap(), "no decodable instructions at 0x1000");
}

#[test]
fn an_inventory_counts_and_attributes_calls() {
    let bin = program(&CALLS);
    let inv = discover(&CALLS, &bin, &Symbols::build(&CALLS, &bin)).unwrap();
    assert_eq!(inv.functions.len(), 1, "the thunk is no function");
    let f = &inv.functions[0];
    assert_eq!((f.rva, f.calls), (0x1000, 0));
    assert_eq!(f.label, Some(Label::Entry));
    assert_eq!(f.apis, vec!["KERNEL32!VirtualAlloc"]);
    assert_eq!(inv.api_calls, vec![("KERNEL32!VirtualAlloc".to_string(), 2)]);
    assert_eq!(inv.uncalled, vec!["KERNEL32!Sleep"]);
    assert_eq!((inv.direct_calls, inv.import_calls, inv.indirect_calls), (0, 2, 0));
    assert_eq!(inv.imported_total, 2);
    assert!(!inv.truncated);
}

#[test]
fn an_inventory_is_printed() {
    let bin = program(&CALLS);
    let inv = discover(&CALLS, &bin, &Symbols::build(&CALLS, &bin)).unwrap();
    let mut text = String::new();
    write_text(&mut text, &inv);
    assert_eq!(
        text,
        "functions      : 1 discovered  (1 entry, 0 export(s), 0 TLS callback(s))\n\
         call sites     : 0 to code, 2 to imported APIs, 0 computed at runtime\n\
         \n  \
         rva          calls  label                reaches (imported APIs)\n  \
         0x00001000       -  [entry]              KERNEL32!VirtualAlloc\n\
         \n\
         APIs called    : 1 of 2 imported function(s) are reached by a resolvable call\n       \
         2  KERNEL32!VirtualAlloc\n\
         \n\
         never called   : 1 import(s) declared but never reached by any call site found here\n                 \
         delay-loading, computed calls, dead declarations and padding all\n                 \
         look like this. it is an observation, not an accusation.\n      \
         KERNEL32!Sleep\n\
         \n  \
         inspect any function:  sma cfg <file> --addr <rva>\n  \
         function boundaries and API attribution are approximate: a function starts at a\n  \
         known address and is assumed to run until the next one.\n"
    );
    let mut text = String::new();
    write_json(&mut text, "a\"b", &inv);
    assert_eq!(
        text,
        "{\n  \"file\": \"a\\\"b\",\n  \"code_calls\": 0,\n  \"import_calls\": 2,\n  \
         \"indirect_calls\": 0,\n  \"imported_functions\": 2,\n  \
         \"attribution\": \"approximate\",\n  \"functions\": [\n    \
         {\"rva\": 4096, \"calls\": 0, \"label\": \"entry\", \"reaches\": [\"KERNEL32!VirtualAlloc\"]}\n  \
         ],\n  \"api_calls\": [\n    \
         {\"api\": \"KERNEL32!VirtualAlloc\", \"call_sites\": 2}\n  ],\n  \
         \"never_called\": [\"KERNEL32!Sleep\"]\n}\n"
    );
}

#[test]
fn exports_callbacks_and_callees_are_functions() {
    // call 0x1006 | ret | ret | ret | call rax
    let code = [0xe8, 0x01, 0x00, 0x00, 0x00, 0xc3, 0xc3, 0xc3, 0xff, 0xd0];
    let mut bin = program(&code);
    bin.exports = vec![
        Export { name: "Run".into(), rva: 0x1007, ordinal: 1, forwarder: None },
        Export { name: "Fwd".into(), rva: 0x1005, ordinal: 2, forwarder: Some("A.B".into()) },
        Export { name: "Far".into(), rva: 0x2fff, ordinal: 3, forwarder: None },
    ];
    bin.pe_meta = Some(PeMeta { tls_callbacks: vec![0x1008], ..PeMeta::default() });
    let syms = Symbols::build(&code, &bin);
    let inv = discover(&code, &bin, &syms).unwrap();
    let found: Vec<(u64, u64, Option<Label>)> =
        inv.functions.iter().map(|f| (f.rva, f.calls, f.label.clone())).collect();
    assert_eq!(
        found,
        vec![
            (0x1000, 0, Some(Label::Entry)),
            (0x1006, 1, None),
            (0x1007, 0, Some(Label::Export("Run".into()))),
            (0x1008, 0, Some(Label::TlsCallback)),
        ],
        "an export without bytes on disk is left out"
    );
    assert_eq!((inv.direct_calls, inv.import_calls, inv.indirect_calls), (1, 0, 1));
    assert_eq!((inv.entry_count(), inv.export_count(), inv.tls_count()), (1, 1, 1));
    assert_eq!(syms.label_at(0x2fff), Some(&Label::Export("Far".into())));
    assert_eq!(syms.label_at(0x1005), None);
}

#[test]
fn an_export_at_the_entry_point_names_it() {
    let code = [0xc3];
    let mut bin = program(&code);
    bin.exports = vec![Export { name: "Main".into(), rva: 0x1000, ordinal: 1, forwarder: None }];
    let syms = Symbols::build(&code, &bin);
    assert_eq!(syms.label_at(0x1000).unwrap().text(), "[export: Main]");
}

#[test]
fn graphs_cover_what_the_walk_reaches_and_no_more() {
    // jmp 0x1003 | <a byte that is jumped over> | ret
    let code = [0xeb, 0x01, 0x06, 0xc3];
    let bin = program(&code);
    let g = build(&code, &bin, None).unwrap();
    assert_eq!(g.instruction_count(), 2);
    let starts: Vec<u64> = g.blocks().iter().map(|b| b.start).collect();
    assert_eq!(starts, vec![0x1000, 0x1003]);
    assert_eq!(g.blocks()[0].succ, vec![(0x1003, "jmp")]);
    assert!(g.instrs().contains_key(&0x1003) && !g.instrs().contains_key(&0x1002));
    assert_eq!(g.func(), 0x1000);
}

#[test]
fn the_walk_stops_at_its_bound() {
    let sled = vec![0x90u8; 50_010];
    let mut bin = program(&sled);
    bin.sections[0].virtual_size = sled.len() as u64;
    let g = build(&sled, &bin, None).unwrap();
    assert_eq!(g.instruction_count(), 50_000);
    assert_eq!(g.block_count(), 1);
}

#[test]
fn the_ranking_accounts_for_every_call_to_an_import() {
    // call [rip+0xffa] | call [rip+0xffc] | call [rip+0xff6] | ret
    let code = [
        0xff, 0x15, 0xfa, 0x0f, 0x00, 0x00, 0xff, 0x15, 0xfc, 0x0f, 0x00, 0x00, 0xff, 0x15, 0xf6,
        0x0f, 0x00, 0x00, 0xc3,
    ];
    let bin = program(&code);
    let inv = discover(&code, &bin, &Symbols::build(&code, &bin)).unwrap();
    assert_eq!(
        inv.api_calls,
        vec![("KERNEL32!Sleep".to_string(), 2), ("KERNEL32!VirtualAlloc".to_string(), 1)]
    );
    assert_eq!(inv.api_calls.iter().map(|c| c.1).sum::<u64>(), inv.import_calls);
    assert!(inv.uncalled.is_empty());
}
