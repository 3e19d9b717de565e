use static_malware_analysis::cli::{help, looks_like_address, parse, Command, Invocation, FLAG_OWNERS};
use static_malware_analysis::hexdump::HexWindow;

fn args(s: &[&str]) -> Vec<String> {
    s.iter().map(|x| x.to_string()).collect()
}

fn run(s: &[&str]) -> Result<Invocation, String> {
    parse(&args(s))
}

#[test]
fn bare_path_defaults_to_scan() {
    let got = run(&["sample.exe"]).unwrap();
    assert_eq!(got, Invocation::Run(Command::Scan { path: "sample.exe".into(), json: false }));
}

#[test]
fn flag_before_bare_path_still_defaults_to_scan() {
    let got = run(&["--json", "sample.exe"]).unwrap();
    assert_eq!(got, Invocation::Run(Command::Scan { path: "sample.exe".into(), json: true }));
}

#[test]
fn verb_selects_the_command() {
    assert!(matches!(
        run(&["functions", "a.exe"]).unwrap(),
        Invocation::Run(Command::Functions { .. })
    ));
    assert!(matches!(run(&["cfg", "a.exe"]).unwrap(), Invocation::Run(Command::Cfg { .. })));
    assert!(matches!(run(&["disasm", "a.exe"]).unwrap(), Invocation::Run(Command::Disasm { .. })));
}

#[test]
fn a_file_named_like_a_verb_is_still_reachable() {
    // "scan" as the verb, "cfg" as the path -- the verb is only ever args[0].
    let got = run(&["scan", "cfg"]).unwrap();
    assert_eq!(got, Invocation::Run(Command::Scan { path: "cfg".into(), json: false }));
}

#[test]
fn flags_are_scoped_to_their_verb() {
    let err = run(&["scan", "a.exe", "--dot"]).unwrap_err();
    assert!(err.contains("--dot is not an option of 'scan'"), "got: {err}");
    assert!(err.contains("cfg"), "error should name the owning verb: {err}");

    let err = run(&["cfg", "a.exe", "--json"]).unwrap_err();
    assert!(err.contains("--json is not an option of 'cfg'"), "got: {err}");
}

#[test]
fn retired_flags_name_their_replacement() {
    for (flag, expect) in [
        ("-f", "sma hex"),
        ("--dump-sections", "sma hex"),
        ("--calls", "sma functions"),
        ("--all", "sma disasm"),
        ("-b", "static-only by design"),
        ("-s", "sma scan"),
    ] {
        let err = run(&[flag, "a.exe"]).unwrap_err();
        assert!(err.contains(expect), "{flag} should point at {expect}, got: {err}");
    }
}

#[test]
fn addr_accepts_both_hex_spellings_and_rejects_junk() {
    let with_prefix = run(&["cfg", "a.exe", "--addr", "0x1400"]).unwrap();
    let bare = run(&["cfg", "a.exe", "--addr", "1400"]).unwrap();
    assert_eq!(with_prefix, bare);
    assert!(matches!(
        with_prefix,
        Invocation::Run(Command::Cfg { addr: Some(0x1400), .. })
    ));

    let err = run(&["cfg", "a.exe", "--addr", "zzz"]).unwrap_err();
    assert!(err.contains("hex address"), "got: {err}");
}

#[test]
fn a_flag_missing_its_value_does_not_eat_the_path() {
    // `--addr` with nothing after it must error, not consume "a.exe".
    let err = run(&["cfg", "--addr"]).unwrap_err();
    assert!(err.contains("--addr needs a value"), "got: {err}");
}

#[test]
fn hex_requires_exactly_one_window() {
    let err = run(&["hex", "a.exe"]).unwrap_err();
    assert!(err.contains("needs a window"), "got: {err}");

    let err = run(&["hex", "a.exe", "--headers", "--at", "0x1000"]).unwrap_err();
    assert!(err.contains("exactly one"), "got: {err}");

    assert!(matches!(
        run(&["hex", "a.exe", "--section", ".text"]).unwrap(),
        Invocation::Run(Command::Hex { window: HexWindow::Section(_), .. })
    ));
}

#[test]
fn count_and_len_reject_zero_and_junk() {
    assert!(run(&["disasm", "a.exe", "--count", "0"]).unwrap_err().contains("greater than zero"));
    assert!(run(&["hex", "a.exe", "--headers", "--len", "x"]).unwrap_err().contains("positive number"));
    assert!(matches!(
        run(&["disasm", "a.exe", "--count", "40"]).unwrap(),
        Invocation::Run(Command::Disasm { count: Some(40), .. })
    ));
}

#[test]
fn a_positional_address_names_the_flag_it_needs() {
    // The mistake this guards: `sma disasm 0x510c8 file.exe` used to report
    // "unexpected extra argument 'file.exe' (already analyzing '0x510c8')",
    // which blames the file and never mentions --addr.
    let err = run(&["disasm", "0x510c8", "a.exe"]).unwrap_err();
    assert!(err.contains("--addr"), "got: {err}");
    assert!(err.contains("sma disasm --addr 0x510c8 \"a.exe\""), "got: {err}");

    // Either order, and hex takes --at rather than --addr.
    let err = run(&["cfg", "a.exe", "0x510c8"]).unwrap_err();
    assert!(err.contains("sma cfg --addr 0x510c8 \"a.exe\""), "got: {err}");
    let err = run(&["hex", "a.exe", "0x1000"]).unwrap_err();
    assert!(err.contains("sma hex --at 0x1000 \"a.exe\""), "got: {err}");

    // Verbs with no address flag keep the plain message.
    let err = run(&["scan", "a.exe", "0x510c8"]).unwrap_err();
    assert!(err.contains("extra argument"), "got: {err}");
}

#[test]
fn ordinary_filenames_are_not_mistaken_for_addresses() {
    for name in ["notepad.exe", "abc", "data.bin", "C:\\tmp\\beef", "face"] {
        assert!(!looks_like_address(name), "{name} should not read as an address");
    }
    for addr in ["0x1400", "0X1400", "510c8", "deadbeef"] {
        assert!(looks_like_address(addr), "{addr} should read as an address");
    }
    // Two real files still produce the plain duplicate-path error.
    let err = run(&["disasm", "a.exe", "b.exe"]).unwrap_err();
    assert!(err.contains("extra argument"), "got: {err}");
}

#[test]
fn missing_path_and_unknown_flags_are_errors() {
    assert!(run(&["scan"]).unwrap_err().contains("needs a path"));
    assert!(run(&["scan", "a.exe", "--nope"]).unwrap_err().contains("unknown option"));
    assert!(run(&["scan", "a.exe", "b.exe"]).unwrap_err().contains("extra argument"));
}

#[test]
fn help_and_version_short_circuit() {
    assert_eq!(run(&["--help"]).unwrap(), Invocation::Help);
    assert_eq!(run(&["scan", "a.exe", "-h"]).unwrap(), Invocation::Help);
    assert_eq!(run(&["--version"]).unwrap(), Invocation::Version);
    assert_eq!(run(&[]).unwrap(), Invocation::Help);
}

#[test]
fn every_flag_in_help_is_owned_by_a_verb() {
    // Guards the drift the old CLI had: help advertising a flag nothing accepts.
    let text = help();
    for (flag, _) in FLAG_OWNERS {
        assert!(text.contains(flag), "help never mentions {flag}");
    }
}
