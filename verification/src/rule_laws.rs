//! What holds of every finding: which spellings of a function's name count, and
//! when a capability is reported.
use crate::binary::ImportModel;
use crate::picks::{lemma_picks_last, lemma_picks_none, picks};
use crate::rules::{
    findings_among, findings_of, imports_api, law_matched_are_imported, matched_among, matched_by,
    stands_for, FindingModel, Severity, APIS, RULES,
};
use crate::search::lowered;
use vstd::prelude::*;

verus! {

/// Do the two differ in the case of ASCII letters at most?
pub open spec fn same_but_for_case(a: Seq<char>, b: Seq<char>) -> bool {
    &&& a.len() == b.len()
    &&& forall|i: int|
        0 <= i < a.len() ==> {
            ||| #[trigger] a[i] == b[i]
            ||| 'a' <= a[i] <= 'z' && a[i] as int == b[i] as int + 32
            ||| 'A' <= a[i] <= 'Z' && a[i] as int + 32 == b[i] as int
        }
}

/// Two texts have the same lower case exactly where they differ in case at most.
pub proof fn law_lower_case_forgets_case(a: Seq<char>, b: Seq<char>)
    ensures
        lowered(a) == lowered(b) <==> same_but_for_case(a, b),
        lowered(a).len() == a.len(),
        forall|i: int|
            0 <= i < a.len() ==> !('A' <= #[trigger] lowered(a)[i] <= 'Z') && (lowered(a)[i] == a[i]
                || lowered(a)[i] as int == a[i] as int + 32),
{
    if same_but_for_case(a, b) {
        assert forall|i: int| 0 <= i < a.len() implies lowered(a)[i] == lowered(b)[i] by {
            assert(a[i] == a[i]);
        }
        assert(lowered(a) =~= lowered(b));
    }
    if lowered(a) == lowered(b) {
        assert(lowered(a).len() == lowered(b).len());
        assert forall|i: int| 0 <= i < a.len() implies ({
            ||| #[trigger] a[i] == b[i]
            ||| 'a' <= a[i] <= 'z' && a[i] as int == b[i] as int + 32
            ||| 'A' <= a[i] <= 'Z' && a[i] as int + 32 == b[i] as int
        }) by {
            assert(lowered(a)[i] == lowered(b)[i]);
        }
    }
}

proof fn lemma_suffixed(api: Seq<char>)
    ensures
        lowered(api + seq!['A']) == lowered(api) + "a"@,
        lowered(api + seq!['W']) == lowered(api) + "w"@,
{
    reveal_strlit("a");
    reveal_strlit("w");
    assert(lowered(api + seq!['A']) =~= lowered(api) + "a"@);
    assert(lowered(api + seq!['W']) =~= lowered(api) + "w"@);
}

/// A function of a rule counts as imported where its name is imported as it
/// stands, in any case.
pub proof fn law_plain_names_count(imports: Seq<ImportModel>, k: int, i: int, j: int)
    requires
        0 <= k < APIS@.len(),
        0 <= i < imports.len(),
        0 <= j < imports[i].functions.len(),
        same_but_for_case(imports[i].functions[j].name, APIS@[k].1@),
    ensures
        matched_by(imports, APIS@[k].0 as int).contains(APIS@[k].1@),
{
    law_lower_case_forgets_case(imports[i].functions[j].name, APIS@[k].1@);
    law_matched_are_imported(imports, APIS@[k].0 as int, APIS@[k].1@);
}

/// A function of a rule counts as imported where its name is imported with an `A`
/// behind it, in any case: `LoadLibraryA` counts as `LoadLibrary`.
pub proof fn law_names_for_bytes_count(imports: Seq<ImportModel>, k: int, i: int, j: int)
    requires
        0 <= k < APIS@.len(),
        0 <= i < imports.len(),
        0 <= j < imports[i].functions.len(),
        same_but_for_case(imports[i].functions[j].name, APIS@[k].1@ + seq!['A']),
    ensures
        matched_by(imports, APIS@[k].0 as int).contains(APIS@[k].1@),
{
    lemma_suffixed(APIS@[k].1@);
    law_lower_case_forgets_case(imports[i].functions[j].name, APIS@[k].1@ + seq!['A']);
    law_matched_are_imported(imports, APIS@[k].0 as int, APIS@[k].1@);
}

/// A function of a rule counts as imported where its name is imported with a `W`
/// behind it, in any case: `LoadLibraryW` counts as `LoadLibrary`.
pub proof fn law_names_for_wide_text_count(imports: Seq<ImportModel>, k: int, i: int, j: int)
    requires
        0 <= k < APIS@.len(),
        0 <= i < imports.len(),
        0 <= j < imports[i].functions.len(),
        same_but_for_case(imports[i].functions[j].name, APIS@[k].1@ + seq!['W']),
    ensures
        matched_by(imports, APIS@[k].0 as int).contains(APIS@[k].1@),
{
    lemma_suffixed(APIS@[k].1@);
    law_lower_case_forgets_case(imports[i].functions[j].name, APIS@[k].1@ + seq!['W']);
    law_matched_are_imported(imports, APIS@[k].0 as int, APIS@[k].1@);
}

/// Is the function imported under one of its three names, in any case?
pub open spec fn imported_somehow(imports: Seq<ImportModel>, api: Seq<char>) -> bool {
    exists|i: int, j: int|
        0 <= i < imports.len() && 0 <= j < imports[i].functions.len() && {
            let name = (#[trigger] imports[i].functions[j]).name;
            ||| same_but_for_case(name, api)
            ||| same_but_for_case(name, api + seq!['A'])
            ||| same_but_for_case(name, api + seq!['W'])
        }
}

proof fn lemma_imported(imports: Seq<ImportModel>, api: Seq<char>)
    ensures
        imports_api(imports, api) <==> imported_somehow(imports, api),
{
    lemma_suffixed(api);
    assert forall|i: int, j: int|
        0 <= i < imports.len() && 0 <= j < imports[i].functions.len() implies (stands_for(
        lowered((#[trigger] imports[i].functions[j]).name),
        api,
    ) <==> {
        let name = imports[i].functions[j].name;
        ||| same_but_for_case(name, api)
        ||| same_but_for_case(name, api + seq!['A'])
        ||| same_but_for_case(name, api + seq!['W'])
    }) by {
        let name = imports[i].functions[j].name;
        law_lower_case_forgets_case(name, api);
        law_lower_case_forgets_case(name, api + seq!['A']);
        law_lower_case_forgets_case(name, api + seq!['W']);
    }
}

/// No other name makes a function of a rule count as imported.
pub proof fn law_other_names_do_not_count(imports: Seq<ImportModel>, rule: int, api: Seq<char>)
    requires
        matched_by(imports, rule).contains(api),
    ensures
        imported_somehow(imports, api),
{
    law_matched_are_imported(imports, rule, api);
    lemma_imported(imports, api);
}

proof fn lemma_matched_places(imports: Seq<ImportModel>, rule: int, n: int) -> (places: Seq<int>)
    requires
        0 <= n <= APIS@.len(),
    ensures
        picks(
            places,
            0,
            n,
            |k: int| APIS@[k].0 == rule && imported_somehow(imports, APIS@[k].1@),
        ),
        matched_among(imports, rule, n).len() == places.len(),
        forall|m: int|
            0 <= m < places.len() ==> #[trigger] matched_among(imports, rule, n)[m]
                == APIS@[places[m]].1@,
    decreases n,
{
    let holds = |k: int| APIS@[k].0 == rule && imported_somehow(imports, APIS@[k].1@);
    if n <= 0 {
        lemma_picks_none(0, n, holds);
        Seq::empty()
    } else {
        let places = lemma_matched_places(imports, rule, n - 1);
        assert(picks(places, 0, n - 1, holds));
        lemma_picks_last(places, 0, n, holds);
        lemma_imported(imports, APIS@[n - 1].1@);
        if holds(n - 1) {
            places.push(n - 1)
        } else {
            places
        }
    }
}

/// The functions that a rule matched are those of its functions that are imported
/// under one of their three names: all of them, in the order of the rule.
pub proof fn law_rules_match_what_is_imported(imports: Seq<ImportModel>, rule: int) -> (places: Seq<
    int,
>)
    ensures
        picks(
            places,
            0,
            67,
            |k: int| APIS@[k].0 == rule && imported_somehow(imports, APIS@[k].1@),
        ),
        matched_by(imports, rule).len() == places.len(),
        forall|m: int|
            0 <= m < places.len() ==> #[trigger] matched_by(imports, rule)[m]
                == APIS@[places[m]].1@,
{
    lemma_matched_places(imports, rule, 67)
}

/// Does the finding report the rule, with its name, its severity and all that it
/// matched?
pub open spec fn reports(imports: Seq<ImportModel>, rule: int, f: FindingModel) -> bool {
    &&& f.capability == RULES@[rule].0@
    &&& f.severity == RULES@[rule].1
    &&& f.matched == matched_by(imports, rule)
}

proof fn lemma_finding_places(imports: Seq<ImportModel>, n: int) -> (places: Seq<int>)
    requires
        0 <= n <= RULES@.len(),
    ensures
        picks(places, 0, n, |r: int| matched_by(imports, r).len() >= RULES@[r].2),
        findings_among(imports, n).len() == places.len(),
        forall|m: int|
            0 <= m < places.len() ==> reports(
                imports,
                places[m],
                #[trigger] findings_among(imports, n)[m],
            ),
    decreases n,
{
    let holds = |r: int| matched_by(imports, r).len() >= RULES@[r].2;
    if n <= 0 {
        lemma_picks_none(0, n, holds);
        Seq::empty()
    } else {
        let places = lemma_finding_places(imports, n - 1);
        assert(picks(places, 0, n - 1, holds));
        lemma_picks_last(places, 0, n, holds);
        if holds(n - 1) {
            places.push(n - 1)
        } else {
            places
        }
    }
}

/// There is one finding for each rule that matched as many functions as it asks
/// for, in the order of the rules.
pub proof fn law_findings_are_the_rules_that_apply(imports: Seq<ImportModel>) -> (places: Seq<int>)
    ensures
        picks(places, 0, 9, |r: int| matched_by(imports, r).len() >= RULES@[r].2),
        findings_of(imports).len() == places.len(),
        forall|m: int|
            0 <= m < places.len() ==> reports(
                imports,
                places[m],
                #[trigger] findings_of(imports)[m],
            ),
{
    lemma_finding_places(imports, 9)
}

/// A program that imports `LoadLibrary` and `GetProcAddress`, each under any of
/// its three names and in any case, is reported to resolve functions at run time.
pub proof fn law_loading_and_looking_up_is_reported(imports: Seq<ImportModel>) -> (m: int)
    requires
        imported_somehow(imports, "LoadLibrary"@),
        imported_somehow(imports, "GetProcAddress"@),
    ensures
        0 <= m < findings_of(imports).len(),
        findings_of(imports)[m].capability == "Runtime API resolution (import hiding)"@,
        findings_of(imports)[m].severity == Severity::Medium,
        findings_of(imports)[m].matched.contains("LoadLibrary"@),
        findings_of(imports)[m].matched.contains("GetProcAddress"@),
{
    let matched = matched_by(imports, 4);
    assert(APIS@[37].0 == 4 && APIS@[37].1@ == "LoadLibrary"@);
    assert(APIS@[38].0 == 4 && APIS@[38].1@ == "GetProcAddress"@);
    lemma_imported(imports, "LoadLibrary"@);
    lemma_imported(imports, "GetProcAddress"@);
    law_matched_are_imported(imports, 4, "LoadLibrary"@);
    law_matched_are_imported(imports, 4, "GetProcAddress"@);
    let x = choose|x: int| 0 <= x < matched.len() && matched[x] == "LoadLibrary"@;
    let y = choose|y: int| 0 <= y < matched.len() && matched[y] == "GetProcAddress"@;
    reveal_strlit("LoadLibrary");
    reveal_strlit("GetProcAddress");
    assert("LoadLibrary"@.len() != "GetProcAddress"@.len());
    assert(x != y);
    let holds = |r: int| matched_by(imports, r).len() >= RULES@[r].2;
    let places = law_findings_are_the_rules_that_apply(imports);
    assert(picks(places, 0, 9, holds));
    assert(RULES@[4].2 == 2);
    assert(holds(4));
    assert(places.contains(4));
    let m = choose|m: int| 0 <= m < places.len() && places[m] == 4;
    assert(reports(imports, places[m], findings_of(imports)[m]));
    m
}

} // verus!
