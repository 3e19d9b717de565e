use static_malware_analysis::binary::{
    Binary, Export, Format, Import, ImportedFn, Overlay, PeMeta, Section,
};
use static_malware_analysis::entropy::Entropy;
use static_malware_analysis::json;
use static_malware_analysis::report::{self, format_timestamp, rwx};
use static_malware_analysis::rules::{assess_imports, max_severity, Finding, Severity};
use static_malware_analysis::strings::{Ioc, IocKind, StringScan};

fn entropy(x: f64) -> Entropy {
    Entropy::from_bits(x.to_bits()).unwrap()
}

fn section(name: &str, e: f64, writable: bool, executable: bool) -> Section {
    Section {
        name: name.into(),
        virtual_addr: 0x1000,
        virtual_size: 0x1000,
        file_offset: 0x400,
        file_size: 0x1000,
        readable: true,
        writable,
        executable,
        entropy: entropy(e),
    }
}

fn windows_program() -> Binary {
    Binary {
        format: Format::Pe,
        arch: "x86-64 (AMD64)",
        bits: 64,
        kind: "DLL",
        attributes: vec!["EXECUTABLE_IMAGE".into(), "DLL".into()],
        entry_point: 0x1234,
        image_base: 0x1_8000_0000,
        sections: vec![
            section(".text", 6.125, false, true),
            section("", 7.75, false, true),
            section(".rwx", 0.0, true, true),
        ],
        imports: vec![Import {
            dll: "KERNEL32.dll".into(),
            functions: vec![
                ImportedFn { name: "Sleep".into(), iat_rva: Some(0x2008), ordinal: None },
                ImportedFn::named("Beep"),
            ],
        }],
        exports: vec![
            Export { name: "Run".into(), rva: 0x1500, ordinal: 1, forwarder: None },
            Export { name: "Alloc".into(), rva: 0x20, ordinal: 2, forwarder: Some("NTDLL.X".into()) },
        ],
        overlay: Some(Overlay { file_offset: 0x1400, size: 16, entropy: entropy(5.5) }),
        pe_meta: Some(PeMeta {
            timestamp: 1_600_000_000,
            reproducible_build: false,
            subsystem: "Windows GUI",
            dll_characteristics: vec!["ASLR", "DEP"],
            is_dotnet: false,
            signed: true,
            has_resources: true,
            tls_callbacks: vec![0x1300, 0x1310],
        }),
        strings: StringScan {
            ascii_count: 3,
            wide_count: 1,
            iocs: vec![Ioc { kind: IocKind::Url, value: "http://a/".into() }],
        },
    }
}

#[test]
fn a_windows_program_is_reported_in_full() {
    let mut text = String::new();
    report::write(&mut text, "a.dll", 5136, &windows_program());
    let (body, limits) = text.split_at(text.find("limits ").unwrap());
    assert_eq!(
        body,
        "Binary Report\n\
         file           : a.dll (5136 bytes)\n\
         format         : PE (Windows)\n\
         arch           : x86-64 (AMD64) (64-bit)\n\
         kind           : DLL\n\
         attributes     : EXECUTABLE_IMAGE, DLL\n\
         entry point    : 0x1234 (RVA)\n\
         load base      : 0x180000000 (image base)\n\
         sections       : 3\n\
         \n\
         compiled       : 2020-09-13 12:26:40 UTC\n\
         subsystem      : Windows GUI\n\
         mitigations    : ASLR, DEP\n                 \
         embedded Authenticode signature present (not verified)\n                 \
         has resources\n                 \
         2 TLS callback(s) at 0x1300, 0x1310 -- these run BEFORE the entry point\n\
         \n  \
         name           entropy    filesize  flags reading           note\n  \
         .text            6.125        4096  R-X   code/data         \n  \
         (unnamed)        7.750        4096  R-X   packed/encrypted? <- PACKED? (exec + high entropy)\n  \
         .rwx             0.000        4096  RWX   uniform/empty     <- W+X\n\
         \n\
         packing        : WARNING - 1 section(s) look packed: \n\
         \n\
         imports        : 1 DLL(s), 2 function(s)\n                 \
         listed in full, in import-table order. slot addresses are where the\n                 \
         loader writes each function, which is what code calls through.\n\
         \n  \
         KERNEL32.dll (2 function(s))\n      \
         0x00002008  Sleep\n                  \
         Beep\n\
         \n\
         exports        : 2 function(s), 1 forwarded to another library\n  \
         Run                              0x1500\n  \
         Alloc                            -> NTDLL.X  (forwarder)\n\
         \n\
         capabilities   : none suggested by the imports\n\
         \n\
         strings        : 3 ascii, 1 wide\n\
         IOCs           : 1 unique (showing up to 15)\n  \
         [URL] http://a/\n\
         \n\
         overlay        : 16 byte(s) past the last section, at file offset 0x1400\n                 \
         entropy 5.500 (code/data) -- data no header describes and the loader never maps\n\
         \n"
    );
    assert!(limits.contains("cannot see"), "{limits}");
}

#[test]
fn an_empty_elf_file_is_reported() {
    let bin = Binary {
        format: Format::Elf,
        arch: "ARM",
        bits: 32,
        kind: "executable",
        attributes: vec![],
        entry_point: 0,
        image_base: 0,
        sections: vec![],
        imports: vec![],
        exports: vec![],
        overlay: None,
        pe_meta: None,
        strings: StringScan::default(),
    };
    let mut text = String::from("# ");
    report::write(&mut text, "x", 1, &bin);
    assert!(text.starts_with(
        "# Binary Report\n\
         file           : x (1 bytes)\n\
         format         : ELF (Linux/Unix)\n\
         arch           : ARM (32-bit)\n\
         kind           : executable\n\
         entry point    : 0x0 (virtual address)\n\
         load base      : 0x0 (load base, approx)\n\
         sections       : 0\n\
         \n  \
         name           entropy    filesize  flags reading           note\n\
         \n\
         packing        : no packed sections detected\n\
         \n\
         imports        : 0 library/symbol group(s), 0 function(s)\n                 \
         nothing imported -- see 'limits' below\n\
         \n\
         capabilities   : none suggested by the imports\n\
         \n\
         strings        : 0 ascii, 0 wide\n\
         IOCs           : none extracted\n\
         \n\
         overlay        : none (no unexplained data past the last section)\n\
         \n\
         limits "
    ));
}

#[test]
fn long_lists_are_cut_short() {
    let mut bin = windows_program();
    bin.exports = (0..23)
        .map(|i| Export { name: format!("e{i}"), rva: 1, ordinal: i, forwarder: None })
        .collect();
    bin.strings.iocs =
        (0..17).map(|i| Ioc { kind: IocKind::Ipv4, value: format!("1.2.3.{i}") }).collect();
    let mut text = String::new();
    report::write(&mut text, "a", 1, &bin);
    assert!(text.contains("exports        : 23 function(s)\n"));
    assert!(text.contains("  e19                              0x1\n  ... 3 more\n"));
    assert!(!text.contains("  e20"));
    assert!(text.contains("[IPv4] 1.2.3.14\n") && !text.contains("1.2.3.15"));
}

#[test]
fn timestamps_are_dates_only_where_that_is_plausible() {
    assert_eq!(
        format_timestamp(0xabc, true),
        "n/a - reproducible build, so this field is a content hash (0x00000abc), not a date"
    );
    assert_eq!(format_timestamp(0, false), "0 (stripped, deliberately or by the toolchain)");
    assert_eq!(
        format_timestamp(1, false),
        "1970-01-01 00:00:01 UTC  <- implausible, so this field is faked or is not a date"
    );
    assert_eq!(format_timestamp(725_846_400, false), "1993-01-01 00:00:00 UTC");
    assert_eq!(format_timestamp(2_177_452_799, false), "2038-12-31 23:59:59 UTC");
    assert_eq!(
        format_timestamp(2_177_452_800, false),
        "2039-01-01 00:00:00 UTC  <- implausible, so this field is faked or is not a date"
    );
}

#[test]
fn permissions_are_three_letters() {
    assert_eq!(rwx(&section("a", 0.0, false, false)), "R--");
    assert_eq!(rwx(&section("a", 0.0, true, true)), "RWX");
}

#[test]
fn the_json_report_is_exact() {
    let mut bin = windows_program();
    bin.sections.truncate(2);
    let findings = vec![Finding {
        capability: "Anti-debugging",
        severity: Severity::Low,
        matched: vec!["ptrace".into()],
    }];
    assert_eq!(
        json::report("C:\\a.dll", 7, &bin, &findings),
        "{\n  \"file\": \"C:\\\\a.dll\",\n  \"size\": 7,\n  \"format\": \"PE\",\n  \
         \"arch\": \"x86-64 (AMD64)\",\n  \"bits\": 64,\n  \"kind\": \"DLL\",\n  \
         \"attributes\": [\"EXECUTABLE_IMAGE\", \"DLL\"],\n  \"entry_point\": 4660,\n  \
         \"image_base\": 6442450944,\n  \"sections\": [\n    \
         {\"name\": \".text\", \"virtual_addr\": 4096, \"virtual_size\": 4096, \
         \"file_offset\": 1024, \"file_size\": 4096, \"readable\": true, \"writable\": false, \
         \"executable\": true, \"entropy\": 6.125, \"likely_packed\": false},\n    \
         {\"name\": \"\", \"virtual_addr\": 4096, \"virtual_size\": 4096, \
         \"file_offset\": 1024, \"file_size\": 4096, \"readable\": true, \"writable\": false, \
         \"executable\": true, \"entropy\": 7.750, \"likely_packed\": true}\n  ],\n  \
         \"packing\": {\"packed\": true, \"sections\": [\"\"]},\n  \"imports\": [\n    \
         {\"dll\": \"KERNEL32.dll\", \"functions\": [\"Sleep\", \"Beep\"]}\n  ],\n  \
         \"import_summary\": {\"libraries\": 1, \"functions\": 2},\n  \"capabilities\": [\n    \
         {\"capability\": \"Anti-debugging\", \"severity\": \"LOW\", \"matched\": [\"ptrace\"]}\n  \
         ],\n  \"strings\": {\"ascii\": 3, \"wide\": 1},\n  \"iocs\": [\n    \
         {\"kind\": \"URL\", \"value\": \"http://a/\"}\n  ]\n}\n"
    );
}

#[test]
fn findings_stand_most_severe_first() {
    let names = [
        "IsDebuggerPresent", "socket", "CONNECT", "virtualallocex", "WriteProcessMemory", "send",
        "RegSetValueExW", "RegSetValueExA",
    ];
    let imports = vec![Import {
        dll: "x".into(),
        functions: names.iter().map(|n| ImportedFn::named(n)).collect(),
    }];
    let f = assess_imports(&imports);
    let got: Vec<(&str, Severity)> = f.iter().map(|x| (x.capability, x.severity)).collect();
    assert_eq!(
        got,
        vec![
            ("Process injection", Severity::High),
            ("Networking / possible C2", Severity::Medium),
            ("Anti-debugging", Severity::Low),
            ("Persistence (registry / services)", Severity::Low),
        ]
    );
    assert_eq!(f[1].matched, vec!["socket", "connect", "send"]);
    assert_eq!(f[3].matched, vec!["RegSetValueEx"], "both spellings count once");
    assert_eq!(max_severity(&f), Some(Severity::High));
    assert_eq!(max_severity(&f[1..]), Some(Severity::Medium));
    assert_eq!(max_severity(&[]), None);
    assert_eq!(Severity::Medium.name(), "MEDIUM");
}

#[test]
fn a_rule_needs_enough_of_its_functions() {
    let one = vec![Import { dll: "x".into(), functions: vec![ImportedFn::named("CryptEncrypt")] }];
    assert!(assess_imports(&one).is_empty());
    let other = vec![Import { dll: "x".into(), functions: vec![ImportedFn::named("sockets")] }];
    assert!(assess_imports(&other).is_empty());
}

#[test]
fn limits_are_spelled_out() {
    let mut bin = windows_program();
    bin.pe_meta = None;
    bin.overlay = None;
    bin.entry_point = 0x1000;
    bin.sections = vec![section(".text", 7.8, false, true)];
    bin.imports[0].functions.push(ImportedFn::named("ExitProcess"));
    let mut text = String::new();
    report::write(&mut text, "a", 1, &bin);
    let at = text.find("limits ").unwrap();
    assert!(
        text[at..].starts_with(
            "limits         : 1 thing(s) static analysis cannot resolve here\n  \
             cannot see   : the real import table\n    \
             because    : 3 declared import(s) alongside packed section(s) [.text] -- too few to\n                 \
             account for a working program, so the rest are resolved at runtime\n    \
             next step  : run to the original entry point, then dump the unpacked image from memory\n"
        ),
        "{}",
        &text[at..]
    );
    bin.sections[0].entropy = entropy(6.0);
    for _ in 0..10 {
        bin.imports[0].functions.push(ImportedFn::named("Beep"));
    }
    let mut text = String::new();
    report::write(&mut text, "a", 1, &bin);
    assert!(text.ends_with(
        "limits         : nothing detected that static analysis cannot reach\n                 \
         (this says the structure is readable, not that the file is safe)\n"
    ));
}
