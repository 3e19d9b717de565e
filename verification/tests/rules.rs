use static_malware_analysis::binary::{Import, ImportedFn};
use static_malware_analysis::rules::{assess_imports, Severity};

fn imp(dll: &str, funcs: &[&str]) -> Import {
    Import {
        dll: dll.into(),
        functions: funcs.iter().map(|s| ImportedFn::named(s)).collect(),
    }
}

#[test]
fn injection_combo_flags_high() {
    let imports = vec![imp(
        "kernel32.dll",
        &["VirtualAllocEx", "WriteProcessMemory", "CreateRemoteThread"],
    )];
    let f = assess_imports(&imports);
    assert!(f.iter().any(|x| x.capability == "Process injection" && x.severity == Severity::High));
}

#[test]
fn benign_imports_do_not_flag_injection() {
    let imports = vec![imp("kernel32.dll", &["HeapAlloc", "HeapFree", "CreateFileW", "ReadFile"])];
    let f = assess_imports(&imports);
    assert!(!f.iter().any(|x| x.capability == "Process injection"));
}

#[test]
fn aw_suffix_is_tolerated() {
    // The real import is CreateProcessW; the rule lists "CreateProcess".
    let imports = vec![imp("kernel32.dll", &["CreateProcessW"])];
    let f = assess_imports(&imports);
    assert!(f.iter().any(|x| x.capability == "Process / command execution"));
}
