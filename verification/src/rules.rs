//! Capabilities that combinations of imported functions suggest.
//!
//! A finding is a reason to look closer: benign software trips these rules too.
use crate::binary::{Import, ImportModel};
use crate::search::{lowered, to_lower};
use crate::text::{lemma_models_push, lemma_views_push, models, same, views};
use vstd::prelude::*;

verus! {

#[derive(Debug, Clone, Copy, PartialEq, Eq, PartialOrd, Ord, Structural)]
pub enum Severity {
    Low,
    Medium,
    High,
}

/// The name of a severity.
pub open spec fn severity_name(s: Severity) -> Seq<char> {
    match s {
        Severity::Low => "LOW"@,
        Severity::Medium => "MEDIUM"@,
        Severity::High => "HIGH"@,
    }
}

/// Severities in order.
pub open spec fn severity_rank(s: Severity) -> int {
    match s {
        Severity::Low => 0,
        Severity::Medium => 1,
        Severity::High => 2,
    }
}

impl Severity {
    pub fn name(&self) -> (r: &'static str)
        ensures
            r@ == severity_name(*self),
    {
        match self {
            Severity::Low => "LOW",
            Severity::Medium => "MEDIUM",
            Severity::High => "HIGH",
        }
    }

    pub fn rank(&self) -> (r: u8)
        ensures
            r == severity_rank(*self),
    {
        match self {
            Severity::Low => 0,
            Severity::Medium => 1,
            Severity::High => 2,
        }
    }
}

/// A capability, and the imported functions that suggest it.
#[derive(Debug, Clone)]
pub struct Finding {
    pub capability: &'static str,
    pub severity: Severity,
    pub matched: Vec<String>,
}

pub ghost struct FindingModel {
    pub capability: Seq<char>,
    pub severity: Severity,
    pub matched: Seq<Seq<char>>,
}

impl DeepView for Finding {
    type V = FindingModel;

    open spec fn deep_view(&self) -> FindingModel {
        FindingModel {
            capability: self.capability@,
            severity: self.severity,
            matched: views(self.matched@),
        }
    }
}

/// The rules, most severe first: a capability, its severity, and how many of
/// its functions must be imported for it to be reported.
pub const RULES: [(&'static str, Severity, usize); 9] = [
    ("Process injection", Severity::High, 2),
    ("Keylogging / input capture", Severity::High, 2),
    ("Networking / possible C2", Severity::Medium, 2),
    ("Cryptography (possible ransomware)", Severity::Medium, 2),
    ("Runtime API resolution (import hiding)", Severity::Medium, 2),
    ("Privilege / token manipulation", Severity::Medium, 2),
    ("Anti-debugging", Severity::Low, 1),
    ("Persistence (registry / services)", Severity::Low, 1),
    ("Process / command execution", Severity::Low, 1),
];

/// The functions that the rules look for, each with the place of its rule.
pub const APIS: [(usize, &'static str); 67] = [
    (0, "VirtualAllocEx"),
    (0, "WriteProcessMemory"),
    (0, "CreateRemoteThread"),
    (0, "NtCreateThreadEx"),
    (0, "QueueUserAPC"),
    (0, "RtlCreateUserThread"),
    (0, "NtMapViewOfSection"),
    (0, "SetThreadContext"),
    (1, "SetWindowsHookEx"),
    (1, "GetAsyncKeyState"),
    (1, "GetKeyboardState"),
    (1, "GetRawInputData"),
    (1, "RegisterRawInputDevices"),
    (2, "socket"),
    (2, "connect"),
    (2, "send"),
    (2, "recv"),
    (2, "WSASocket"),
    (2, "WSAConnect"),
    (2, "WSASend"),
    (2, "WSARecv"),
    (2, "GetAddrInfo"),
    (2, "InternetOpen"),
    (2, "InternetConnect"),
    (2, "HttpSendRequest"),
    (2, "URLDownloadToFile"),
    (2, "WinHttpOpen"),
    (2, "WinHttpConnect"),
    (3, "CryptEncrypt"),
    (3, "CryptDecrypt"),
    (3, "CryptGenKey"),
    (3, "CryptGenRandom"),
    (3, "CryptAcquireContext"),
    (3, "CryptExportKey"),
    (3, "CryptImportKey"),
    (3, "BCryptEncrypt"),
    (3, "BCryptGenRandom"),
    (4, "LoadLibrary"),
    (4, "GetProcAddress"),
    (4, "LdrLoadDll"),
    (4, "LdrGetProcedureAddress"),
    (4, "dlopen"),
    (4, "dlsym"),
    (5, "AdjustTokenPrivileges"),
    (5, "OpenProcessToken"),
    (5, "LookupPrivilegeValue"),
    (5, "GetTokenInformation"),
    (5, "DuplicateTokenEx"),
    (6, "IsDebuggerPresent"),
    (6, "CheckRemoteDebuggerPresent"),
    (6, "NtQueryInformationProcess"),
    (6, "OutputDebugString"),
    (6, "ptrace"),
    (7, "RegSetValueEx"),
    (7, "RegCreateKeyEx"),
    (7, "CreateService"),
    (7, "StartService"),
    (8, "CreateProcess"),
    (8, "ShellExecute"),
    (8, "WinExec"),
    (8, "system"),
    (8, "popen"),
    (8, "execve"),
    (8, "execl"),
    (8, "execlp"),
    (8, "execvp"),
    (8, "fork"),
];

/// Does a name in lower case stand for the function? The character-set suffixes
/// `A` and `W` do not count.
pub open spec fn stands_for(name: Seq<char>, api: Seq<char>) -> bool {
    ||| name == lowered(api)
    ||| name == lowered(api) + "a"@
    ||| name == lowered(api) + "w"@
}

fn name_matches(imported_lower: &str, api: &str) -> (r: bool)
    ensures
        r == stands_for(imported_lower@, api@),
{
    let plain = to_lower(api);
    let mut narrow = plain.clone();
    narrow.append("a");
    let mut wide = plain.clone();
    wide.append("w");
    same(imported_lower, plain.as_str()) || same(imported_lower, narrow.as_str()) || same(
        imported_lower,
        wide.as_str(),
    )
}

/// Is the function imported, by whatever library and in whatever case?
pub open spec fn imports_api(imports: Seq<ImportModel>, api: Seq<char>) -> bool {
    exists|i: int, j: int|
        0 <= i < imports.len() && 0 <= j < imports[i].functions.len() && stands_for(
            lowered((#[trigger] imports[i].functions[j]).name),
            api,
        )
}

/// The functions of a rule that are imported, among the first `n` entries.
pub open spec fn matched_among(imports: Seq<ImportModel>, rule: int, n: int) -> Seq<Seq<char>>
    decreases n,
{
    if n <= 0 {
        Seq::empty()
    } else if APIS@[n - 1].0 == rule && imports_api(imports, APIS@[n - 1].1@) {
        matched_among(imports, rule, n - 1).push(APIS@[n - 1].1@)
    } else {
        matched_among(imports, rule, n - 1)
    }
}

/// The functions of a rule that are imported.
pub open spec fn matched_by(imports: Seq<ImportModel>, rule: int) -> Seq<Seq<char>> {
    matched_among(imports, rule, APIS@.len() as int)
}

/// Does the rule apply? Enough of its functions are imported.
pub open spec fn applies(imports: Seq<ImportModel>, rule: int) -> bool {
    matched_by(imports, rule).len() >= RULES@[rule].2
}

/// What a rule reports.
pub open spec fn finding_of(imports: Seq<ImportModel>, rule: int) -> FindingModel {
    FindingModel {
        capability: RULES@[rule].0@,
        severity: RULES@[rule].1,
        matched: matched_by(imports, rule),
    }
}

/// What the first `n` rules report.
pub open spec fn findings_among(imports: Seq<ImportModel>, n: int) -> Seq<FindingModel>
    decreases n,
{
    if n <= 0 {
        Seq::empty()
    } else if applies(imports, n - 1) {
        findings_among(imports, n - 1).push(finding_of(imports, n - 1))
    } else {
        findings_among(imports, n - 1)
    }
}

/// What the rules report.
pub open spec fn findings_of(imports: Seq<ImportModel>) -> Seq<FindingModel> {
    findings_among(imports, RULES@.len() as int)
}

/// The names of the first `n` functions of a library, in lower case.
spec fn lower_names(functions: Seq<crate::binary::ImportedFnModel>, n: int) -> Seq<Seq<char>> {
    Seq::new(n as nat, |j: int| lowered(functions[j].name))
}

/// The names of all functions of the first `n` libraries, in lower case.
spec fn all_lower_names(imports: Seq<ImportModel>, n: int) -> Seq<Seq<char>>
    decreases n,
{
    if n <= 0 {
        Seq::empty()
    } else {
        all_lower_names(imports, n - 1) + lower_names(
            imports[n - 1].functions,
            imports[n - 1].functions.len() as int,
        )
    }
}

proof fn lemma_has_name(imports: Seq<ImportModel>, n: int, i: int, j: int)
    requires
        0 <= i < n <= imports.len(),
        0 <= j < imports[i].functions.len(),
    ensures
        all_lower_names(imports, n).contains(lowered(imports[i].functions[j].name)),
    decreases n,
{
    let s = lowered(imports[i].functions[j].name);
    let before = all_lower_names(imports, n - 1);
    let here = lower_names(imports[n - 1].functions, imports[n - 1].functions.len() as int);
    if i == n - 1 {
        assert(here[j] == s);
        assert((before + here)[before.len() + j] == s);
    } else {
        lemma_has_name(imports, n - 1, i, j);
        let k = choose|k: int| 0 <= k < before.len() && before[k] == s;
        assert((before + here)[k] == s);
    }
}

proof fn lemma_is_name(imports: Seq<ImportModel>, n: int, s: Seq<char>)
    requires
        0 <= n <= imports.len(),
        all_lower_names(imports, n).contains(s),
    ensures
        exists|i: int, j: int|
            0 <= i < n && 0 <= j < imports[i].functions.len() && lowered(
                (#[trigger] imports[i].functions[j]).name,
            ) == s,
    decreases n,
{
    if n > 0 {
        let before = all_lower_names(imports, n - 1);
        let here = lower_names(imports[n - 1].functions, imports[n - 1].functions.len() as int);
        let k = choose|k: int| 0 <= k < (before + here).len() && (before + here)[k] == s;
        if k < before.len() {
            assert(before[k] == s);
            lemma_is_name(imports, n - 1, s);
        } else {
            let j = k - before.len();
            assert(here[j] == s);
            assert(lowered(imports[n - 1].functions[j].name) == s);
        }
    }
}

fn names_in_lower_case(imports: &[Import]) -> (r: Vec<String>)
    ensures
        views(r@) == all_lower_names(models(imports@), imports@.len() as int),
{
    let ghost all = models(imports@);
    let mut names: Vec<String> = Vec::new();
    proof {
        assert(views(names@) =~= Seq::<Seq<char>>::empty());
    }
    for i in 0..imports.len()
        invariant
            all == models(imports@),
            views(names@) == all_lower_names(all, i as int),
    {
        let lib = &imports[i];
        let ghost before = views(names@);
        proof {
            assert(all[i as int] == lib.deep_view());
            assert(before + lower_names(all[i as int].functions, 0) =~= before);
        }
        for j in 0..lib.functions.len()
            invariant
                all[i as int].functions == models(lib.functions@),
                views(names@) == before + lower_names(all[i as int].functions, j as int),
        {
            let n = to_lower(lib.functions[j].name.as_str());
            proof {
                assert(all[i as int].functions[j as int] == lib.functions@[j as int].deep_view());
                lemma_views_push(names@, n);
                assert((before + lower_names(all[i as int].functions, j as int)).push(n@) =~= before
                    + lower_names(all[i as int].functions, j + 1));
            }
            names.push(n);
        }
    }
    names
}

fn is_imported(names: &Vec<String>, api: &str, Ghost(imports): Ghost<Seq<ImportModel>>) -> (r: bool)
    requires
        views(names@) == all_lower_names(imports, imports.len() as int),
    ensures
        r == imports_api(imports, api@),
{
    for k in 0..names.len()
        invariant
            views(names@) == all_lower_names(imports, imports.len() as int),
            forall|m: int| 0 <= m < k ==> !stands_for(#[trigger] views(names@)[m], api@),
    {
        proof {
            assert(views(names@)[k as int] == names@[k as int]@);
        }
        if name_matches(names[k].as_str(), api) {
            proof {
                assert(all_lower_names(imports, imports.len() as int)[k as int]
                    == names@[k as int]@);
                lemma_is_name(imports, imports.len() as int, names@[k as int]@);
            }
            return true;
        }
    }
    proof {
        if imports_api(imports, api@) {
            let (i, j) = choose|i: int, j: int|
                0 <= i < imports.len() && 0 <= j < imports[i].functions.len() && stands_for(
                    lowered((#[trigger] imports[i].functions[j]).name),
                    api@,
                );
            lemma_has_name(imports, imports.len() as int, i, j);
            let s = lowered(imports[i].functions[j].name);
            let m = choose|m: int| 0 <= m < views(names@).len() && views(names@)[m] == s;
            assert(stands_for(views(names@)[m], api@));
        }
    }
    false
}

/// What the imports suggest that the program can do, most severe first.
pub fn assess_imports(imports: &[Import]) -> (r: Vec<Finding>)
    ensures
        models(r@) == findings_of(models(imports@)),
{
    let ghost all = models(imports@);
    let names = names_in_lower_case(imports);
    let mut findings: Vec<Finding> = Vec::new();
    proof {
        assert(models(findings@) =~= Seq::<FindingModel>::empty());
    }
    for i in 0..RULES.len()
        invariant
            views(names@) == all_lower_names(all, all.len() as int),
            models(findings@) == findings_among(all, i as int),
    {
        let (capability, severity, min_hits) = RULES[i];
        let mut matched: Vec<String> = Vec::new();
        proof {
            assert(views(matched@) =~= Seq::<Seq<char>>::empty());
        }
        for k in 0..APIS.len()
            invariant
                views(names@) == all_lower_names(all, all.len() as int),
                views(matched@) == matched_among(all, i as int, k as int),
        {
            let (rule, api) = APIS[k];
            if rule == i && is_imported(&names, api, Ghost(all)) {
                let s = api.to_string();
                proof {
                    lemma_views_push(matched@, s);
                }
                matched.push(s);
            }
        }
        if matched.len() >= min_hits {
            let f = Finding { capability, severity, matched };
            proof {
                lemma_models_push(findings@, f);
            }
            findings.push(f);
        }
    }
    findings
}

/// The greatest severity among the findings.
pub fn max_severity(findings: &[Finding]) -> (r: Option<Severity>)
    ensures
        match r {
            None => findings@.len() == 0,
            Some(s) => (exists|i: int|
                0 <= i < findings@.len() && (#[trigger] findings@[i]).severity == s) && forall|
                i: int,
            |
                0 <= i < findings@.len() ==> severity_rank((#[trigger] findings@[i]).severity)
                    <= severity_rank(s),
        },
{
    let mut worst: Option<Severity> = None;
    for i in 0..findings.len()
        invariant
            match worst {
                None => i == 0,
                Some(s) => (exists|k: int|
                    0 <= k < i && (#[trigger] findings@[k]).severity == s) && forall|k: int|
                    0 <= k < i ==> severity_rank((#[trigger] findings@[k]).severity)
                        <= severity_rank(s),
            },
    {
        let s = findings[i].severity;
        let more = match worst {
            None => true,
            Some(w) => s.rank() > w.rank(),
        };
        if more {
            worst = Some(s);
            proof {
                assert(findings@[i as int].severity == s);
            }
        }
    }
    worst
}

// ---------------------------------------------------------------------------
// Laws
// ---------------------------------------------------------------------------

proof fn lemma_findings(imports: Seq<ImportModel>, n: int)
    requires
        0 <= n <= RULES@.len(),
    ensures
        forall|i: int|
            0 <= i < findings_among(imports, n).len() ==> exists|k: int|
                0 <= k < n && applies(imports, k) && #[trigger] findings_among(imports, n)[i]
                    == #[trigger] finding_of(imports, k),
        forall|k: int|
            0 <= k < n && applies(imports, k) ==> findings_among(imports, n).contains(
                #[trigger] finding_of(imports, k),
            ),
        forall|i: int, j: int|
            0 <= i < j < findings_among(imports, n).len() ==> severity_rank(
                (#[trigger] findings_among(imports, n)[i]).severity,
            ) >= severity_rank((#[trigger] findings_among(imports, n)[j]).severity),
    decreases n,
{
    if n > 0 {
        lemma_findings(imports, n - 1);
        let before = findings_among(imports, n - 1);
        let r = findings_among(imports, n);
        if applies(imports, n - 1) {
            let f = finding_of(imports, n - 1);
            assert(r == before.push(f));
            assert forall|i: int| 0 <= i < r.len() implies exists|k: int|
                0 <= k < n && applies(imports, k) && #[trigger] r[i] == #[trigger] finding_of(
                    imports,
                    k,
                ) by {
                if i < before.len() {
                    assert(r[i] == before[i]);
                    let k = choose|k: int|
                        0 <= k < n - 1 && applies(imports, k) && before[i] == #[trigger] finding_of(
                            imports,
                            k,
                        );
                    assert(r[i] == finding_of(imports, k));
                } else {
                    assert(r[i] == finding_of(imports, n - 1));
                }
            }
            assert forall|k: int| 0 <= k < n && applies(imports, k) implies r.contains(
                #[trigger] finding_of(imports, k),
            ) by {
                if k < n - 1 {
                    let m = choose|m: int|
                        0 <= m < before.len() && before[m] == finding_of(imports, k);
                    assert(r[m] == finding_of(imports, k));
                } else {
                    assert(r[before.len() as int] == f);
                }
            }
            assert forall|i: int, j: int| 0 <= i < j < r.len() implies severity_rank(
                (#[trigger] r[i]).severity,
            ) >= severity_rank((#[trigger] r[j]).severity) by {
                assert(r[i] == before[i]);
                if j < before.len() {
                    assert(r[j] == before[j]);
                } else {
                    let k = choose|k: int|
                        0 <= k < n - 1 && applies(imports, k) && before[i] == #[trigger] finding_of(
                            imports,
                            k,
                        );
                    lemma_rules_descend(k, n - 1);
                }
            }
        }
    }
}

proof fn lemma_rules_descend(i: int, j: int)
    requires
        0 <= i <= j < RULES@.len(),
    ensures
        severity_rank(RULES@[i].1) >= severity_rank(RULES@[j].1),
{
}

/// Findings stand most severe first.
pub proof fn law_most_severe_first(imports: Seq<ImportModel>, i: int, j: int)
    requires
        0 <= i < j < findings_of(imports).len(),
    ensures
        severity_rank(findings_of(imports)[i].severity) >= severity_rank(
            findings_of(imports)[j].severity,
        ),
{
    lemma_findings(imports, RULES@.len() as int);
}

/// A rule is reported exactly where enough of its functions are imported.
pub proof fn law_reported_where_the_rule_applies(imports: Seq<ImportModel>, rule: int)
    requires
        0 <= rule < RULES@.len(),
    ensures
        findings_of(imports).contains(finding_of(imports, rule)) <==> applies(imports, rule),
{
    lemma_findings(imports, RULES@.len() as int);
    if findings_of(imports).contains(finding_of(imports, rule)) {
        let r = findings_of(imports);
        let i = choose|i: int| 0 <= i < r.len() && r[i] == finding_of(imports, rule);
        let k = choose|k: int|
            0 <= k < RULES@.len() && applies(imports, k) && r[i] == #[trigger] finding_of(
                imports,
                k,
            );
        lemma_capabilities_differ(k, rule);
    }
}

/// No two rules report the same capability.
proof fn lemma_capabilities_differ(i: int, j: int)
    requires
        0 <= i < RULES@.len(),
        0 <= j < RULES@.len(),
        RULES@[i].0@ == RULES@[j].0@,
    ensures
        i == j,
{
    reveal_strlit("Process injection");
    reveal_strlit("Keylogging / input capture");
    reveal_strlit("Networking / possible C2");
    reveal_strlit("Cryptography (possible ransomware)");
    reveal_strlit("Runtime API resolution (import hiding)");
    reveal_strlit("Privilege / token manipulation");
    reveal_strlit("Anti-debugging");
    reveal_strlit("Persistence (registry / services)");
    reveal_strlit("Process / command execution");
    assert(RULES@[0].0@.len() == 17);
    assert(RULES@[1].0@.len() == 26);
    assert(RULES@[2].0@.len() == 24);
    assert(RULES@[3].0@.len() == 34);
    assert(RULES@[4].0@.len() == 38);
    assert(RULES@[5].0@.len() == 30);
    assert(RULES@[6].0@.len() == 14);
    assert(RULES@[7].0@.len() == 33);
    assert(RULES@[8].0@.len() == 27);
}

/// A rule matches exactly those of its functions that are imported.
pub proof fn law_matched_are_imported(imports: Seq<ImportModel>, rule: int, api: Seq<char>)
    ensures
        matched_by(imports, rule).contains(api) <==> (imports_api(imports, api) && exists|k: int|
            0 <= k < APIS@.len() && APIS@[k].0 == rule && (#[trigger] APIS@[k]).1@ == api),
{
    lemma_matched(imports, rule, APIS@.len() as int, api);
}

proof fn lemma_matched(imports: Seq<ImportModel>, rule: int, n: int, api: Seq<char>)
    requires
        0 <= n <= APIS@.len(),
    ensures
        matched_among(imports, rule, n).contains(api) <==> (imports_api(imports, api) && exists|
            k: int,
        |
            0 <= k < n && APIS@[k].0 == rule && (#[trigger] APIS@[k]).1@ == api),
    decreases n,
{
    if n > 0 {
        lemma_matched(imports, rule, n - 1, api);
        let before = matched_among(imports, rule, n - 1);
        let r = matched_among(imports, rule, n);
        let e = APIS@[n - 1];
        if e.0 == rule && imports_api(imports, e.1@) {
            if before.contains(api) {
                let m = choose|m: int| 0 <= m < before.len() && before[m] == api;
                assert(r[m] == api);
            }
            assert(r[before.len() as int] == e.1@);
            if r.contains(api) && !before.contains(api) {
                let m = choose|m: int| 0 <= m < r.len() && r[m] == api;
                if m < before.len() {
                    assert(before[m] == api);
                }
            }
        }
    }
}

} // verus!
