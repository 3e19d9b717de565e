// What each command shows, and what holds across commands.
use static_malware_analysis::binary::{Binary, Format, Import, ImportedFn, Section};
use static_malware_analysis::cfg::{build, graph_of, visit, Instr};
use static_malware_analysis::cli::{parse, Command};
use static_malware_analysis::engine::{Failure, Insn};
use static_malware_analysis::entropy::Entropy;
use static_malware_analysis::functions::{discover, write_json};
use static_malware_analysis::hexdump::{dump, HexWindow};
use static_malware_analysis::strings::{Ioc, IocKind, StringScan};
use static_malware_analysis::symbols::Symbols;
use static_malware_analysis::view::view;
use static_malware_analysis::{json, report, rules};
use std::collections::BTreeMap;

// call 0x1006 | ret | jmp [rip+0xff4]
const CODE: [u8; 12] = [0xe8, 0x01, 0x00, 0x00, 0x00, 0xc3, 0xff, 0x25, 0xf4, 0x0f, 0x00, 0x00];

fn program() -> Binary {
    Binary {
        format: Format::Pe,
        arch: "x86-64 (AMD64)",
        bits: 64,
        kind: "executable",
        attributes: vec![],
        entry_point: 0x1000,
        image_base: 0x1_4000_0000,
        sections: vec![Section {
            name: ".te\"xt\n".into(),
            virtual_addr: 0x1000,
            virtual_size: 0x1000,
            file_offset: 0,
            file_size: CODE.len() as u64,
            readable: true,
            writable: false,
            executable: true,
            entropy: Entropy::zero(),
        }],
        imports: vec![Import {
            dll: "KERNEL32.dll".into(),
            functions: vec![
                ImportedFn { name: "VirtualAllocEx".into(), iat_rva: Some(0x2000), ordinal: None },
                ImportedFn::named("WriteProcessMemory"),
                ImportedFn::named("IsDebuggerPresent"),
            ],
        }],
        exports: vec![],
        overlay: None,
        pe_meta: None,
        strings: StringScan {
            ascii_count: 1,
            wide_count: 0,
            iocs: vec![Ioc { kind: IocKind::Url, value: "http://a/\\".into() }],
        },
    }
}

// The place behind the JSON value that begins at `i`, blanks around it included.
fn value_end(s: &[char], i: usize) -> Option<usize> {
    let i = blanks_end(s, i);
    let end = match *s.get(i)? {
        '"' => string_end(s, i)?,
        '[' => list_end(s, i + 1, ']', false)?,
        '{' => list_end(s, i + 1, '}', true)?,
        c if c.is_ascii_digit() => {
            let mut j = i;
            while s.get(j).map_or(false, |c| c.is_ascii_digit() || *c == '.') {
                j += 1;
            }
            j
        }
        _ => {
            let word = ["true", "false", "null"]
                .into_iter()
                .find(|w| s[i..].starts_with(&w.chars().collect::<Vec<char>>()))?;
            i + word.len()
        }
    };
    Some(blanks_end(s, end))
}

fn blanks_end(s: &[char], mut i: usize) -> usize {
    while s.get(i).map_or(false, |c| c.is_ascii_whitespace()) {
        i += 1;
    }
    i
}

fn string_end(s: &[char], i: usize) -> Option<usize> {
    let mut j = i + 1;
    loop {
        match *s.get(j)? {
            '"' => return Some(j + 1),
            '\\' => j += 2,
            c if (c as u32) < 0x20 => return None,
            _ => j += 1,
        }
    }
}

fn list_end(s: &[char], i: usize, close: char, named: bool) -> Option<usize> {
    let mut j = blanks_end(s, i);
    if *s.get(j)? == close {
        return Some(j + 1);
    }
    loop {
        if named {
            j = blanks_end(s, j);
            if *s.get(j)? != '"' {
                return None;
            }
            j = blanks_end(s, string_end(s, j)?);
            if *s.get(j)? != ':' {
                return None;
            }
            j += 1;
        }
        j = value_end(s, j)?;
        match *s.get(j)? {
            ',' => j += 1,
            c if c == close => return Some(j + 1),
            _ => return None,
        }
    }
}

fn is_json(text: &str) -> bool {
    let s: Vec<char> = text.chars().collect();
    value_end(&s, 0) == Some(s.len())
}

#[test]
fn json_texts_are_well_formed() {
    assert!(is_json("{\"a\": [1, \"x\\\"\", true]}") && !is_json("{\"a\": [1,]}"));
    let bin = program();
    let findings = rules::assess_imports(&bin.imports);
    assert!(is_json(&json::report("C:\\\"odd\"\t", 12, &bin, &findings)));
    assert!(is_json(&json::report("", 0, &Binary { sections: vec![], imports: vec![], ..program() }, &[])));
    let inv = discover(&CODE, &bin, &Symbols::build(&CODE, &bin)).unwrap();
    let mut text = String::new();
    write_json(&mut text, "a\n", &inv);
    assert!(is_json(&text), "{text}");
}

#[test]
fn capabilities_are_reported_with_their_severities() {
    let mut text = String::new();
    report::write(&mut text, "a", 12, &program());
    assert!(text.contains(
        "\ncapabilities   : 2 finding(s), most severe first\n  \
         [HIGH] Process injection: VirtualAllocEx, WriteProcessMemory\n  \
         [LOW] Anti-debugging: IsDebuggerPresent\n\nstrings        : "
    ), "{text}");
}

#[test]
fn each_command_has_its_view() {
    let bin = program();
    let show = |c: Command| match view(&c, &CODE, &bin) {
        (text, Ok(())) => Ok(text),
        (text, Err(e)) => Err((text, e)),
    };
    let path = || "a".to_string();

    let mut text = String::new();
    report::write(&mut text, "a", CODE.len(), &bin);
    assert_eq!(show(Command::Scan { path: path(), json: false }), Ok(text));
    let findings = rules::assess_imports(&bin.imports);
    assert_eq!(
        show(Command::Scan { path: path(), json: true }),
        Ok(json::report("a", CODE.len(), &bin, &findings))
    );

    let syms = Symbols::build(&CODE, &bin);
    let inv = discover(&CODE, &bin, &syms).unwrap();
    let mut text = String::new();
    write_json(&mut text, "a", &inv);
    assert_eq!(show(Command::Functions { path: path(), json: true }), Ok(text));
    let listed: Vec<u64> = inv.functions.iter().map(|f| f.rva).collect();
    assert_eq!(listed, vec![0x1000], "a thunk is no function");

    let mut text = String::new();
    build(&CODE, &bin, None).unwrap().to_dot(&mut text, Some(&syms));
    assert!(text.contains("call 0x1006  ; KERNEL32!VirtualAllocEx"), "{text}");
    assert_eq!(show(Command::Cfg { path: path(), addr: None, dot: true }), Ok(text));

    let window = |count| Command::Disasm { path: path(), addr: Some(0x1005), count, section: None };
    assert_eq!(
        show(window(Some(1))),
        Ok("== .te\"xt\n from 0x1005 ==\n\n0x0000001005  ret\n".to_string())
    );
    assert_eq!(
        show(Command::Disasm { path: path(), addr: Some(0x10), count: None, section: None }),
        Err((String::new(), "no section contains address 0x10".to_string()))
    );

    let hex = Command::Hex { path: path(), window: HexWindow::At(0x1004), len: Some(3) };
    assert_eq!(show(hex), Ok(dump(&CODE[4..7], 4)));
}

#[test]
fn the_same_input_gives_the_same_view() {
    let bin = program();
    for c in [
        Command::Scan { path: "a".into(), json: false },
        Command::Functions { path: "a".into(), json: false },
        Command::Cfg { path: "a".into(), addr: None, dot: false },
        Command::Disasm { path: "a".into(), addr: None, count: None, section: None },
        Command::Hex { path: "a".into(), window: HexWindow::Headers, len: None },
        Command::Cfg { path: "a".into(), addr: Some(9), dot: false },
        Command::Hex { path: "a".into(), window: HexWindow::At(9), len: None },
    ] {
        assert_eq!(view(&c, &CODE, &bin), view(&c, &CODE, &bin));
    }
}

#[test]
fn the_path_stands_anywhere_among_the_options() {
    let ask = |s: &[&str]| parse(&s.iter().map(|x| x.to_string()).collect::<Vec<String>>());
    let first = ask(&["disasm", "f", "--addr", "0x10", "--count", "3"]);
    assert!(first.is_ok());
    assert_eq!(ask(&["disasm", "--addr", "0x10", "f", "--count", "3"]), first);
    assert_eq!(ask(&["disasm", "--addr", "0x10", "--count", "3", "f"]), first);
    assert_eq!(ask(&["cfg", "f", "--addr", "zz"]), ask(&["cfg", "--addr", "zz", "f"]));
}

#[test]
fn listed_addresses_ascend() {
    let bin = program();
    let (text, done) = view(
        &Command::Disasm { path: "a".into(), addr: None, count: None, section: None },
        &CODE,
        &bin,
    );
    assert_eq!(done, Ok(()));
    let addrs: Vec<u64> = text
        .lines()
        .filter_map(|l| u64::from_str_radix(l.strip_prefix("0x")?.get(..10)?, 16).ok())
        .collect();
    assert_eq!(addrs, vec![0x1000, 0x1005, 0x1006]);
}

#[test]
fn what_was_decoded_decides_the_walk() {
    let ret = Insn { address: 7, size: 1, mnemonic: "ret".into(), operands: String::new() };
    let found = visit(Ok(vec![ret]), 7).unwrap_or(None).unwrap();
    assert_eq!((found.addr, found.size, found.text.as_str()), (7, 1, "ret"));
    assert!(matches!(visit(Ok(vec![]), 7), Ok(None)));
    let why = || capstone::Error::OutOfMemory.to_string();
    assert!(matches!(visit(Err(Failure::Decode(why())), 7), Ok(None)));
    assert!(matches!(visit(Err(Failure::Init(why())), 7), Err(Failure::Init(e)) if e == why()));
    assert_eq!(Failure::Init("x".into()).message(), "capstone init failed: x");
    assert_eq!(Failure::Decode("y".into()).message(), "capstone: y");

    let mut instrs: BTreeMap<u64, Instr> = BTreeMap::new();
    assert!(matches!(graph_of(7, BTreeMap::new()), Err(e) if e == "no decodable instructions at 0x7"));
    instrs.insert(7, found);
    let g = graph_of(7, instrs).unwrap_or_else(|e| panic!("{e}"));
    assert_eq!((g.func(), g.instruction_count(), g.block_count()), (7, 1, 1));
}
