//! What holds of every inventory.
use crate::binary::{file_offset_of, BinaryModel};
use crate::functions::{
    attributed, in_code, is_function, is_imported, is_inventory, is_ranked, is_ranking, is_seed, is_way_in,
    outranks, ranked_names, owns, rvas_of, InventoryModel,
};
use crate::keys::lemma_ascending_unique;
use crate::order::{lemma_increasing_unique, lemma_irreflexive, lemma_transitive};
use crate::symbols::{described, SymbolsModel, TargetModel};
use crate::tally::{
    calls_of, calls_reaching, capped, import_sites, tracked_sites, CallEvent,
    Kind,
};
use vstd::prelude::*;

verus! {

/// Every call is counted once: as one to code, as one to an import, or as one
/// whose target is unknown.
pub proof fn law_every_call_is_counted_once(es: Seq<CallEvent>)
    ensures
        calls_of(es, Kind::Code) + calls_of(es, Kind::Import) + calls_of(es, Kind::Unknown)
            == es.len(),
    decreases es.len(),
{
    if es.len() > 0 {
        law_every_call_is_counted_once(es.drop_last());
    }
}

/// An imported API is listed as called or as uncalled, and never as both.
pub proof fn law_imports_are_called_or_not(
    b: BinaryModel,
    m: SymbolsModel,
    es: Seq<CallEvent>,
    inv: InventoryModel,
    api: Seq<char>,
)
    requires
        is_inventory(b, m, es, inv),
        is_imported(b.imports, api),
    ensures
        ranked_names(inv.api_calls).contains(api) <==> !inv.uncalled.contains(api),
{
}

proof fn lemma_site_is_counted(es: Seq<CallEvent>, i: int)
    requires
        0 <= i < import_sites(es).len(),
    ensures
        calls_reaching(es, import_sites(es)[i].1) > 0,
    decreases es.len(),
{
    if es.len() > 0 {
        let before = import_sites(es.drop_last());
        let api = import_sites(es)[i].1;
        lemma_not_negative(es.drop_last(), api);
        if i < before.len() {
            assert(import_sites(es)[i] == before[i]);
            lemma_site_is_counted(es.drop_last(), i);
        }
    }
}

proof fn lemma_not_negative(es: Seq<CallEvent>, api: Seq<char>)
    ensures
        calls_reaching(es, api) >= 0,
    decreases es.len(),
{
    if es.len() > 0 {
        lemma_not_negative(es.drop_last(), api);
    }
}

/// What a function is said to reach is among the APIs that are called.
pub proof fn law_attributed_apis_are_called(
    b: BinaryModel,
    m: SymbolsModel,
    es: Seq<CallEvent>,
    inv: InventoryModel,
    k: int,
    api: Seq<char>,
)
    requires
        is_inventory(b, m, es, inv),
        0 <= k < inv.functions.len(),
        inv.functions[k].apis.contains(api),
    ensures
        ranked_names(inv.api_calls).contains(api),
{
    let seeds = rvas_of(inv.functions);
    assert(is_function(m, es, seeds, k, inv.functions[k]));
    assert(attributed(seeds, tracked_sites(es), k, api));
    let sites = tracked_sites(es);
    let i = choose|i: int|
        0 <= i < sites.len() && owns(seeds, k, (#[trigger] sites[i]).0)
            && sites[i].1 == api;
    assert(sites[i] == import_sites(es)[i]);
    lemma_site_is_counted(es, i);
}

/// The entry point, the TLS callbacks and the exports are listed as functions
/// wherever they have bytes on disk.
pub proof fn law_ways_in_are_listed(
    b: BinaryModel,
    m: SymbolsModel,
    es: Seq<CallEvent>,
    inv: InventoryModel,
    a: u64,
)
    requires
        is_inventory(b, m, es, inv),
        is_way_in(b, a),
        file_offset_of(b.sections, a as int) is Some,
    ensures
        exists|k: int| 0 <= k < inv.functions.len() && (#[trigger] inv.functions[k]).rva == a,
{
    let seeds = rvas_of(inv.functions);
    assert(is_seed(b, m, es, a));
    assert(seeds.contains(a));
    let k = choose|k: int| 0 <= k < seeds.len() && seeds[k] == a;
    assert(inv.functions[k].rva == a);
}

/// A function that is not entered from outside is one that some call names, lies
/// in an executable section and leads to no import: a thunk is no function.
pub proof fn law_thunks_are_not_listed(
    b: BinaryModel,
    m: SymbolsModel,
    es: Seq<CallEvent>,
    inv: InventoryModel,
    k: int,
)
    requires
        is_inventory(b, m, es, inv),
        0 <= k < inv.functions.len(),
        !is_way_in(b, inv.functions[k].rva),
    ensures
        inv.functions[k].calls > 0,
        in_code(b.sections, inv.functions[k].rva),
        described(m, inv.functions[k].rva) is None,
{
    let seeds = rvas_of(inv.functions);
    assert(is_function(m, es, seeds, k, inv.functions[k]));
    assert(seeds[k] == inv.functions[k].rva);
    assert(seeds.contains(inv.functions[k].rva));
    assert(is_seed(b, m, es, inv.functions[k].rva));
}

/// No function is listed twice.
pub proof fn law_functions_are_distinct(
    b: BinaryModel,
    m: SymbolsModel,
    es: Seq<CallEvent>,
    inv: InventoryModel,
    i: int,
    j: int,
)
    requires
        is_inventory(b, m, es, inv),
        0 <= i < j < inv.functions.len(),
    ensures
        inv.functions[i].rva < inv.functions[j].rva,
{
    let seeds = rvas_of(inv.functions);
    assert(seeds[i] < seeds[j]);
}

// ---------------------------------------------------------------------------
// The ranking accounts for every call to an import
// ---------------------------------------------------------------------------

/// The sum of the counts of the first `n` APIs.
pub open spec fn calls_ranked(v: Seq<(Seq<char>, u64)>, n: int) -> int
    decreases n,
{
    if n <= 0 {
        0
    } else {
        calls_ranked(v, n - 1) + v[n - 1].1
    }
}

/// The calls that reach one of the first `n` APIs.
spec fn reaching_first(es: Seq<CallEvent>, names: Seq<Seq<char>>, n: int) -> int
    decreases n,
{
    if n <= 0 {
        0
    } else {
        reaching_first(es, names, n - 1) + calls_reaching(es, names[n - 1])
    }
}

proof fn lemma_reaching_empty(es: Seq<CallEvent>, names: Seq<Seq<char>>, n: int)
    requires
        es.len() == 0,
    ensures
        reaching_first(es, names, n) == 0,
    decreases n,
{
    if n > 0 {
        lemma_reaching_empty(es, names, n - 1);
    }
}

/// One more call adds one to the sum where its API is among the names.
proof fn lemma_reaching_step(es: Seq<CallEvent>, names: Seq<Seq<char>>, n: int)
    requires
        es.len() > 0,
        0 <= n <= names.len(),
        names.no_duplicates(),
    ensures
        reaching_first(es, names, n) == reaching_first(es.drop_last(), names, n) + (if exists|
            i: int,
        |
            0 <= i < n && es.last().target == TargetModel::Import(#[trigger] names[i]) {
            1int
        } else {
            0int
        }),
    decreases n,
{
    if n > 0 {
        lemma_reaching_step(es, names, n - 1);
        if es.last().target == TargetModel::Import(names[n - 1]) {
            assert forall|i: int| 0 <= i < n - 1 implies es.last().target != TargetModel::Import(
                #[trigger] names[i],
            ) by {
                assert(names[i] != names[n - 1]);
            }
        }
    }
}

proof fn lemma_all_accounted(es: Seq<CallEvent>, names: Seq<Seq<char>>)
    requires
        names.no_duplicates(),
        forall|n: Seq<char>| calls_reaching(es, n) > 0 ==> #[trigger] names.contains(n),
    ensures
        reaching_first(es, names, names.len() as int) == calls_of(es, Kind::Import),
    decreases es.len(),
{
    if es.len() == 0 {
        lemma_reaching_empty(es, names, names.len() as int);
    } else {
        let rest = es.drop_last();
        assert forall|n: Seq<char>| calls_reaching(rest, n) > 0 implies #[trigger] names.contains(
            n,
        ) by {
            assert(calls_reaching(es, n) > 0);
        }
        lemma_all_accounted(rest, names);
        lemma_reaching_step(es, names, names.len() as int);
        match es.last().target {
            TargetModel::Import(api) => {
                lemma_not_negative(rest, api);
                assert(calls_reaching(es, api) > 0);
                assert(names.contains(api));
                let i = choose|i: int| 0 <= i < names.len() && names[i] == api;
                assert(es.last().target == TargetModel::Import(names[i]));
            },
            _ => {},
        }
    }
}

proof fn lemma_ranked_sum(es: Seq<CallEvent>, v: Seq<(Seq<char>, u64)>, n: int)
    requires
        es.len() <= u64::MAX,
        0 <= n <= v.len(),
        forall|i: int|
            0 <= i < v.len() ==> (#[trigger] v[i]).1 == capped(calls_reaching(es, v[i].0)),
    ensures
        calls_ranked(v, n) == reaching_first(es, ranked_names(v), n),
    decreases n,
{
    if n > 0 {
        lemma_ranked_sum(es, v, n - 1);
        lemma_at_most_all(es, v[n - 1].0);
        assert(v[n - 1].1 == capped(calls_reaching(es, v[n - 1].0)));
    }
}

proof fn lemma_at_most_all(es: Seq<CallEvent>, api: Seq<char>)
    ensures
        calls_reaching(es, api) <= es.len(),
    decreases es.len(),
{
    if es.len() > 0 {
        lemma_at_most_all(es.drop_last(), api);
    }
}

/// The counts of the called APIs add up to the calls that reach an import.
pub proof fn law_ranking_accounts_for_every_import_call(
    b: BinaryModel,
    m: SymbolsModel,
    es: Seq<CallEvent>,
    inv: InventoryModel,
)
    requires
        is_inventory(b, m, es, inv),
        es.len() <= u64::MAX,
    ensures
        calls_ranked(inv.api_calls, inv.api_calls.len() as int) == inv.import_calls,
{
    let v = inv.api_calls;
    let names = ranked_names(v);
    lemma_ranked_distinct(es, v);
    lemma_all_accounted(es, names);
    lemma_ranked_sum(es, v, v.len() as int);
    law_every_call_is_counted_once(es);
    lemma_kinds_not_negative(es, Kind::Code);
    lemma_kinds_not_negative(es, Kind::Unknown);
}

proof fn lemma_ranked_distinct(es: Seq<CallEvent>, v: Seq<(Seq<char>, u64)>)
    requires
        is_ranking(es, v),
    ensures
        ranked_names(v).no_duplicates(),
{
    let names = ranked_names(v);
    assert forall|i: int, j: int| 0 <= i < names.len() && 0 <= j < names.len() && i != j implies
        names[i] != names[j] by {
        let (x, y) = if i < j {
            (v[i], v[j])
        } else {
            (v[j], v[i])
        };
        assert(outranks(x, y));
        lemma_irreflexive(x.0);
        assert(v[i].1 == capped(calls_reaching(es, v[i].0)));
        assert(v[j].1 == capped(calls_reaching(es, v[j].0)));
    }
}

proof fn lemma_kinds_not_negative(es: Seq<CallEvent>, k: Kind)
    ensures
        calls_of(es, k) >= 0,
    decreases es.len(),
{
    if es.len() > 0 {
        lemma_kinds_not_negative(es.drop_last(), k);
    }
}

// ---------------------------------------------------------------------------
// The inventory is determined
// ---------------------------------------------------------------------------

proof fn lemma_outranks_is_strict(a: (Seq<char>, u64), b: (Seq<char>, u64))
    requires
        outranks(a, b),
    ensures
        !outranks(b, a),
        a != b,
{
    lemma_irreflexive(a.0);
    if outranks(b, a) {
        lemma_transitive(a.0, b.0, a.0);
    }
}

/// Every API of one ranking stands in any other ranking of the same calls.
proof fn lemma_ranked_in_both(
    es: Seq<CallEvent>,
    a: Seq<(Seq<char>, u64)>,
    b: Seq<(Seq<char>, u64)>,
    i: int,
)
    requires
        is_ranking(es, a),
        is_ranking(es, b),
        0 <= i < a.len(),
    ensures
        b.contains(a[i]),
{
    let n = a[i].0;
    assert(ranked_names(a)[i] == n);
    assert(ranked_names(a).contains(n));
    assert(ranked_names(b).contains(n));
    let j = choose|j: int| 0 <= j < ranked_names(b).len() && ranked_names(b)[j] == n;
    assert(a[i].1 == capped(calls_reaching(es, a[i].0)));
    assert(b[j].1 == capped(calls_reaching(es, b[j].0)));
    assert(b[j] == a[i]);
}

proof fn lemma_ranked_unique(a: Seq<(Seq<char>, u64)>, b: Seq<(Seq<char>, u64)>)
    requires
        is_ranked(a),
        is_ranked(b),
        forall|x: (Seq<char>, u64)| a.contains(x) <==> b.contains(x),
    ensures
        a == b,
    decreases a.len() + b.len(),
{
    if a.len() == 0 || b.len() == 0 {
        if a.len() > 0 {
            assert(a.contains(a[0]));
            assert(b.contains(a[0]));
        }
        if b.len() > 0 {
            assert(b.contains(b[0]));
            assert(a.contains(b[0]));
        }
        assert(a =~= b);
    } else {
        let x = a.last();
        let y = b.last();
        assert(a.contains(x) && b.contains(x));
        assert(b.contains(y) && a.contains(y));
        let i = choose|i: int| 0 <= i < b.len() && b[i] == x;
        let j = choose|j: int| 0 <= j < a.len() && a[j] == y;
        if x != y {
            assert(outranks(b[i], b[b.len() - 1]));
            assert(outranks(a[j], a[a.len() - 1]));
            lemma_outranks_is_strict(x, y);
        }
        let p = a.drop_last();
        let q = b.drop_last();
        assert forall|z: (Seq<char>, u64)| p.contains(z) <==> q.contains(z) by {
            if p.contains(z) {
                let m = choose|m: int| 0 <= m < p.len() && p[m] == z;
                assert(a[m] == z);
                assert(outranks(a[m], a[a.len() - 1]));
                lemma_outranks_is_strict(z, x);
                assert(a.contains(z) && b.contains(z));
                let n = choose|n: int| 0 <= n < b.len() && b[n] == z;
                assert(q[n] == z);
            }
            if q.contains(z) {
                let m = choose|m: int| 0 <= m < q.len() && q[m] == z;
                assert(b[m] == z);
                assert(outranks(b[m], b[b.len() - 1]));
                lemma_outranks_is_strict(z, y);
                assert(b.contains(z) && a.contains(z));
                let n = choose|n: int| 0 <= n < a.len() && a[n] == z;
                assert(p[n] == z);
            }
        }
        lemma_ranked_unique(p, q);
        assert(a =~= p.push(x));
        assert(b =~= q.push(y));
    }
}

/// The same calls in the same binary always give the same inventory.
pub proof fn law_inventory_is_determined(
    b: BinaryModel,
    m: SymbolsModel,
    es: Seq<CallEvent>,
    x: InventoryModel,
    y: InventoryModel,
)
    requires
        is_inventory(b, m, es, x),
        is_inventory(b, m, es, y),
    ensures
        x == y,
{
    let seeds = rvas_of(x.functions);
    assert forall|a: u64| seeds.contains(a) <==> rvas_of(y.functions).contains(a) by {
        assert(seeds.contains(a) <==> is_seed(b, m, es, a));
    }
    lemma_ascending_unique(seeds, rvas_of(y.functions));
    assert(x.functions.len() == seeds.len() && y.functions.len() == seeds.len());
    assert forall|k: int| 0 <= k < seeds.len() implies x.functions[k] == y.functions[k] by {
        let f = x.functions[k];
        let g = y.functions[k];
        assert(seeds[k] == f.rva && rvas_of(y.functions)[k] == g.rva);
        assert(is_function(m, es, seeds, k, f));
        assert(is_function(m, es, seeds, k, g));
        assert(f.apis.to_set() =~= g.apis.to_set()) by {
            assert forall|n: Seq<char>| f.apis.contains(n) <==> g.apis.contains(n) by {}
        }
        lemma_increasing_unique(f.apis, g.apis);
    }
    assert(x.functions =~= y.functions);
    assert forall|r: (Seq<char>, u64)| x.api_calls.contains(r) <==> y.api_calls.contains(r) by {
        if x.api_calls.contains(r) {
            let i = choose|i: int| 0 <= i < x.api_calls.len() && x.api_calls[i] == r;
            lemma_ranked_in_both(es, x.api_calls, y.api_calls, i);
        }
        if y.api_calls.contains(r) {
            let i = choose|i: int| 0 <= i < y.api_calls.len() && y.api_calls[i] == r;
            lemma_ranked_in_both(es, y.api_calls, x.api_calls, i);
        }
    }
    lemma_ranked_unique(x.api_calls, y.api_calls);
    assert(x.uncalled.to_set() =~= y.uncalled.to_set()) by {
        assert forall|n: Seq<char>| x.uncalled.contains(n) <==> y.uncalled.contains(n) by {}
    }
    lemma_increasing_unique(x.uncalled, y.uncalled);
}

} // verus!
