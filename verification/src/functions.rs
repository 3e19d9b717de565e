//! The function inventory: addresses worth disassembling, and the APIs that
//! each one reaches.
//!
//! Two things here are approximate. A function is a seed address, and where it
//! ends is wherever the next seed is. And each call of an API is attributed to
//! the greatest seed at or below the call site.
use crate::binary::{
    callbacks_of, clamped, file_offset_of, section_holding, total_functions, Binary, BinaryModel,
    ExportModel, ImportModel, SectionModel,
};
use crate::cfg::{classify, not_x86, not_x86_message, parse_target, width_of, x86_mode};
use crate::disasm::{batch_fits, total_size, wrap_add, BATCH};
use crate::engine::{bytes_taken, decode, decoded, failure_text, is_wide, Failure, Insn, Width};
pub use crate::inventory::{write_json, write_text};
use crate::keys::{ascending, lemma_contains_push, rank, sorted, sorted_keys};
use crate::order::{before, comes_before, increasing, insert_unique, is_member, lemma_total, lemma_transitive};
use crate::symbols::{
    described, option_label, qualified, qualified_name, sound, Label, LabelModel, Memo, Symbols,
    SymbolsModel,
};
use crate::tally::{
    calls_in_line, calls_naming, calls_of, calls_reaching, capped, event_of, events_from, events_in,
    events_upto, import_sites, site_views, tracked_sites, CallEvent, Calls, Kind, Tally,
    MAX_TRACKED_CALLS,
};
use crate::text::{models, views};
use std::collections::BTreeMap;
use vstd::prelude::*;

verus! {

broadcast use vstd::std_specs::btree::group_btree_axioms;

// ---------------------------------------------------------------------------
// Seeds
// ---------------------------------------------------------------------------

/// Does the seed at place `k` own the site? It is the greatest seed at or below
/// the site.
pub open spec fn owns(seeds: Seq<u64>, k: int, site: u64) -> bool {
    0 <= k < seeds.len() && seeds[k] <= site && (k + 1 < seeds.len() ==> seeds[k + 1] > site)
}

/// The place of the seed that owns a site.
fn owner_of(seeds: &[u64], site: u64) -> (r: Option<usize>)
    requires
        ascending(seeds@),
    ensures
        match r {
            Some(k) => k < seeds@.len() && forall|j: int|
                #[trigger] owns(seeds@, j, site) <==> j == k,
            None => forall|j: int| !#[trigger] owns(seeds@, j, site),
        },
        match r {
            Some(k) => true,
            None => forall|j: int| 0 <= j < seeds@.len() ==> seeds@[j] > site,
        },
{
    let n = rank(seeds, site);
    if n > 0 {
        Some(n - 1)
    } else {
        None
    }
}

/// The greatest seed at or below `site`: our stand-in for the function that an
/// instruction is inside of.
pub fn nearest_seed(ordered: &[u64], site: u64) -> (r: Option<u64>)
    requires
        sorted(ordered@),
    ensures
        match r {
            Some(s) => ordered@.contains(s) && s <= site && forall|k: int|
                0 <= k < ordered@.len() && ordered@[k] <= site ==> ordered@[k] <= s,
            None => forall|k: int| 0 <= k < ordered@.len() ==> ordered@[k] > site,
        },
{
    let n = rank(ordered, site);
    if n > 0 {
        Some(ordered[n - 1])
    } else {
        None
    }
}

/// Does the address lie in an executable section?
pub open spec fn in_code(secs: Seq<SectionModel>, a: u64) -> bool {
    match section_holding(secs, a as int) {
        Some(s) => s.executable,
        None => false,
    }
}

fn in_executable(bin: &Binary, addr: u64) -> (r: bool)
    ensures
        r == in_code(models(bin.sections@), addr),
{
    match bin.section_at(addr) {
        Some(s) => s.is_executable(),
        None => false,
    }
}

/// Does one of the exports stand at the address? A forwarded export does not.
pub open spec fn is_exported(exports: Seq<ExportModel>, a: u64) -> bool {
    exists|i: int|
        0 <= i < exports.len() && (#[trigger] exports[i]).forwarder is None && exports[i].rva == a
}

/// Is the address entered from outside: at the entry point, as a TLS callback,
/// or as an export?
pub open spec fn is_way_in(b: BinaryModel, a: u64) -> bool {
    a == b.entry_point || callbacks_of(b.pe_meta).contains(a) || is_exported(b.exports, a)
}

/// Is the address the code of a function that is called? One that leads to an
/// import is a thunk, and no function worth listing.
pub open spec fn is_callee(b: BinaryModel, m: SymbolsModel, a: u64) -> bool {
    in_code(b.sections, a) && described(m, a) is None
}

/// Is there a function at the address? Something leads there, and it has bytes
/// on disk.
pub open spec fn is_seed(
    b: BinaryModel,
    m: SymbolsModel,
    es: Seq<CallEvent>,
    a: u64,
) -> bool {
    file_offset_of(b.sections, a as int) is Some && (is_way_in(b, a) || calls_naming(es, a) > 0
        && is_callee(b, m, a))
}

/// The ways into the image.
fn ways_in(bin: &Binary) -> (r: BTreeMap<u64, bool>)
    ensures
        forall|a: u64| #[trigger] r@.contains_key(a) <==> is_way_in(bin.deep_view(), a),
{
    let ghost b = bin.deep_view();
    let callbacks = bin.tls_callbacks();
    let mut out: BTreeMap<u64, bool> = BTreeMap::new();
    out.insert(bin.entry_point, true);
    for i in 0..callbacks.len()
        invariant
            forall|a: u64| #[trigger]
                out@.contains_key(a) <==> a == bin.entry_point || callbacks@.take(
                    i as int,
                ).contains(a),
    {
        let ghost passed = callbacks@.take(i as int);
        proof {
            assert(callbacks@.take(i + 1) =~= passed.push(callbacks@[i as int]));
        }
        out.insert(callbacks[i], true);
        proof {
            assert forall|a: u64| #[trigger]
                out@.contains_key(a) <==> a == bin.entry_point || callbacks@.take(
                    i + 1,
                ).contains(a) by {
                lemma_contains_push(passed, callbacks@[i as int], a);
            }
        }
    }
    proof {
        assert(callbacks@.take(callbacks@.len() as int) =~= callbacks@);
    }
    let ghost exports = models(bin.exports@);
    for i in 0..bin.exports.len()
        invariant
            exports == models(bin.exports@),
            forall|a: u64| #[trigger]
                out@.contains_key(a) <==> a == bin.entry_point || callbacks@.contains(a)
                    || exists|k: int|
                    0 <= k < i && (#[trigger] exports[k]).forwarder is None && exports[k].rva == a,
    {
        let e = &bin.exports[i];
        proof {
            assert(exports[i as int] == e.deep_view());
        }
        let ghost was = out@;
        if e.forwarder.is_none() {
            out.insert(e.rva, true);
        }
        proof {
            assert forall|a: u64| #[trigger]
                out@.contains_key(a) <==> a == bin.entry_point || callbacks@.contains(a)
                    || exists|k: int|
                    0 <= k < i + 1 && (#[trigger] exports[k]).forwarder is None && exports[k].rva
                        == a by {
                assert(out@.contains_key(a) <==> was.contains_key(a) || exports[i as int].forwarder
                    is None && exports[i as int].rva == a);
            }
        }
    }
    out
}

/// The functions of the image, in ascending order: what is entered from outside
/// and what is called, as far as it has bytes on disk.
fn find_seeds(bin: &Binary, syms: &Symbols, tally: &Tally, memo: &mut Memo) -> (r: Vec<u64>)
    requires
        tally.right(),
        sound(syms.model(), old(memo)@),
    ensures
        sound(syms.model(), final(memo)@),
        ascending(r@),
        forall|a: u64| #[trigger]
            r@.contains(a) <==> is_seed(bin.deep_view(), syms.model(), tally.log(), a),
{
    let ghost b = bin.deep_view();
    let ghost m = syms.model();
    let ghost es = tally.log();
    let mut known = ways_in(bin);
    let targets = tally.targets();
    for i in 0..targets.len()
        invariant
            b == bin.deep_view(),
            m == syms.model(),
            sound(m, memo@),
            forall|a: u64| #[trigger]
                known@.contains_key(a) <==> is_way_in(b, a) || targets@.take(i as int).contains(a)
                    && is_callee(b, m, a),
    {
        let a = targets[i];
        let ghost was = known@;
        let ghost passed = targets@.take(i as int);
        let code = in_executable(bin, a);
        let api = syms.describe_with(a, memo);
        if code && api.is_none() {
            known.insert(a, true);
        }
        proof {
            assert(targets@.take(i + 1) =~= passed.push(a));
            assert forall|x: u64| #[trigger]
                known@.contains_key(x) <==> is_way_in(b, x) || targets@.take(i + 1).contains(x)
                    && is_callee(b, m, x) by {
                lemma_contains_push(passed, a, x);
                assert(was.contains_key(x) <==> is_way_in(b, x) || passed.contains(x) && is_callee(
                    b,
                    m,
                    x,
                ));
            }
        }
    }
    let order = sorted_keys(&known);
    let mut seeds: Vec<u64> = Vec::new();
    for i in 0..order.len()
        invariant
            b == bin.deep_view(),
            ascending(order@),
            ascending(seeds@),
            forall|a: u64| #[trigger]
                seeds@.contains(a) <==> file_offset_of(b.sections, a as int) is Some
                    && order@.take(i as int).contains(a),
    {
        let a = order[i];
        let ghost passed = order@.take(i as int);
        let ghost was = seeds@;
        proof {
            assert(order@.take(i + 1) =~= passed.push(a));
            assert forall|j: int| 0 <= j < was.len() implies was[j] < a by {
                assert(was.contains(was[j]));
                let k = choose|k: int| 0 <= k < passed.len() && passed[k] == was[j];
                assert(order@[k] < order@[i as int]);
            }
        }
        if bin.va_to_file_offset(a).is_some() {
            seeds.push(a);
        }
        proof {
            assert forall|x: u64| #[trigger]
                seeds@.contains(x) <==> file_offset_of(b.sections, x as int) is Some
                    && order@.take(i + 1).contains(x) by {
                lemma_contains_push(passed, a, x);
                lemma_contains_push(was, a, x);
            }
        }
    }
    proof {
        assert(order@.take(order@.len() as int) =~= order@);
        assert(targets@.take(targets@.len() as int) =~= targets@);
        assert forall|a: u64| #[trigger] seeds@.contains(a) <==> is_seed(b, m, es, a) by {
            assert(order@.contains(a) <==> known@.contains_key(a));
            assert(targets@.contains(a) <==> calls_naming(es, a) > 0);
        }
    }
    seeds
}

// ---------------------------------------------------------------------------
// Attribution
// ---------------------------------------------------------------------------

/// Does the function at place `k` reach the API, going by the sites?
pub open spec fn attributed(
    seeds: Seq<u64>,
    sites: Seq<(u64, Seq<char>)>,
    k: int,
    api: Seq<char>,
) -> bool {
    exists|i: int|
        0 <= i < sites.len() && owns(seeds, k, (#[trigger] sites[i]).0) && sites[i].1 == api
}

/// The APIs of each function, in order: those reached from the call sites that
/// the function owns.
fn attribute(seeds: &Vec<u64>, sites: &Vec<(u64, String)>) -> (r: Vec<Vec<String>>)
    requires
        ascending(seeds@),
    ensures
        r@.len() == seeds@.len(),
        forall|k: int| 0 <= k < r@.len() ==> increasing(views((#[trigger] r@[k])@)),
        forall|k: int, api: Seq<char>|
            #![trigger views(r@[k]@).contains(api)]
            0 <= k < r@.len() ==> (views(r@[k]@).contains(api) <==> attributed(
                seeds@,
                site_views(sites@),
                k,
                api,
            )),
{
    let ghost all = site_views(sites@);
    let mut per: Vec<Vec<String>> = Vec::new();
    for k in 0..seeds.len()
        invariant
            per@.len() == k,
            forall|j: int| 0 <= j < k ==> (#[trigger] per@[j])@.len() == 0,
    {
        per.push(Vec::new());
    }
    for i in 0..sites.len()
        invariant
            ascending(seeds@),
            all == site_views(sites@),
            per@.len() == seeds@.len(),
            forall|k: int| 0 <= k < per@.len() ==> increasing(views((#[trigger] per@[k])@)),
            forall|k: int, api: Seq<char>|
                #![trigger views(per@[k]@).contains(api)]
                0 <= k < per@.len() ==> (views(per@[k]@).contains(api) <==> attributed(
                    seeds@,
                    all.take(i as int),
                    k,
                    api,
                )),
    {
        let site = sites[i].0;
        let ghost name = sites@[i as int].1@;
        let ghost was = per@;
        proof {
            assert forall|k: int, api: Seq<char>|
                #![trigger attributed(seeds@, all.take(i + 1), k, api)]
                attributed(seeds@, all.take(i + 1), k, api) <==> attributed(
                    seeds@,
                    all.take(i as int),
                    k,
                    api,
                ) || owns(seeds@, k, site) && api == name by {
                lemma_attributed_next(seeds@, all, i as int, k, api);
            }
        }
        if let Some(k) = owner_of(seeds.as_slice(), site) {
            let api = sites[i].1.clone();
            insert_unique(&mut per[k], api);
        }
        proof {
            assert forall|k: int, api: Seq<char>|
                #![trigger views(per@[k]@).contains(api)]
                0 <= k < per@.len() implies (views(per@[k]@).contains(api) <==> attributed(
                seeds@,
                all.take(i + 1),
                k,
                api,
            )) by {
                assert(attributed(seeds@, all.take(i + 1), k, api) <==> attributed(
                    seeds@,
                    all.take(i as int),
                    k,
                    api,
                ) || owns(seeds@, k, site) && api == name);
                assert(views(was[k]@).contains(api) <==> attributed(
                    seeds@,
                    all.take(i as int),
                    k,
                    api,
                ));
            }
        }
    }
    proof {
        assert(all.take(all.len() as int) =~= all);
    }
    per
}

proof fn lemma_attributed_next(
    seeds: Seq<u64>,
    all: Seq<(u64, Seq<char>)>,
    i: int,
    k: int,
    api: Seq<char>,
)
    requires
        0 <= i < all.len(),
    ensures
        attributed(seeds, all.take(i + 1), k, api) <==> attributed(seeds, all.take(i), k, api)
            || owns(seeds, k, all[i].0) && api == all[i].1,
{
    let now = all.take(i + 1);
    let was = all.take(i);
    if attributed(seeds, now, k, api) {
        let j = choose|j: int|
            0 <= j < now.len() && owns(seeds, k, (#[trigger] now[j]).0) && now[j].1 == api;
        if j < i {
            assert(was[j] == now[j]);
        }
    }
    if attributed(seeds, was, k, api) {
        let j = choose|j: int|
            0 <= j < was.len() && owns(seeds, k, (#[trigger] was[j]).0) && was[j].1 == api;
        assert(was[j] == now[j]);
    }
    if owns(seeds, k, all[i].0) && api == all[i].1 {
        assert(now[i] == all[i]);
    }
}

// ---------------------------------------------------------------------------
// Ranking
// ---------------------------------------------------------------------------

/// Does one API come before another? The one with more calls does; of two with
/// the same number, the one whose name comes first.
pub open spec fn outranks(a: (Seq<char>, u64), b: (Seq<char>, u64)) -> bool {
    a.1 > b.1 || a.1 == b.1 && before(a.0, b.0)
}

/// Each API comes before all that follow it.
pub open spec fn is_ranked(v: Seq<(Seq<char>, u64)>) -> bool {
    forall|i: int, j: int| 0 <= i < j < v.len() ==> outranks(#[trigger] v[i], #[trigger] v[j])
}

/// The names in a ranking.
pub open spec fn ranked_names(v: Seq<(Seq<char>, u64)>) -> Seq<Seq<char>> {
    Seq::new(v.len(), |i: int| v[i].0)
}

/// Names and counts, by the characters of the names.
pub open spec fn count_views(s: Seq<(String, u64)>) -> Seq<(Seq<char>, u64)> {
    Seq::new(s.len(), |i: int| (s[i].0@, s[i].1))
}

/// Are these the APIs that calls reach, each with the number of calls, the most
/// called first?
pub open spec fn is_ranking(es: Seq<CallEvent>, v: Seq<(Seq<char>, u64)>) -> bool {
    &&& is_ranked(v)
    &&& forall|n: Seq<char>| #[trigger]
        ranked_names(v).contains(n) <==> calls_reaching(es, n) > 0
    &&& forall|i: int|
        0 <= i < v.len() ==> (#[trigger] v[i]).1 == capped(calls_reaching(es, v[i].0))
}

proof fn lemma_rank_inserted(was: Seq<(Seq<char>, u64)>, x: (Seq<char>, u64), at: int)
    requires
        is_ranked(was),
        0 <= at <= was.len(),
        !ranked_names(was).contains(x.0),
        forall|i: int| 0 <= i < at ==> outranks(#[trigger] was[i], x),
        at < was.len() ==> !outranks(was[at], x),
    ensures
        is_ranked(was.insert(at, x)),
        forall|n: Seq<char>| #[trigger]
            ranked_names(was.insert(at, x)).contains(n) <==> ranked_names(was).contains(n) || n
                == x.0,
{
    let now = was.insert(at, x);
    if at < was.len() {
        assert(ranked_names(was)[at] == was[at].0);
        assert(was[at].0 != x.0);
        assert(outranks(x, was[at])) by {
            if was[at].1 == x.1 && !before(x.0, was[at].0) {
                lemma_total(x.0, was[at].0);
            }
        }
    }
    assert forall|i: int, j: int| 0 <= i < j < now.len() implies outranks(
        #[trigger] now[i],
        #[trigger] now[j],
    ) by {
        let b = if j < at {
            j
        } else {
            j - 1
        };
        if i < at && j < at {
            assert(outranks(was[i], was[j]));
        } else if i < at && j > at {
            assert(outranks(was[i], was[b]));
        } else if i > at {
            assert(outranks(was[i - 1], was[b]));
        } else if i == at && b > at {
            assert(outranks(was[at], was[b]));
            if x.1 == was[at].1 && was[at].1 == was[b].1 {
                lemma_transitive(x.0, was[at].0, was[b].0);
            }
        }
    }
    assert forall|n: Seq<char>| #[trigger]
        ranked_names(now).contains(n) <==> ranked_names(was).contains(n) || n == x.0 by {
        let p = ranked_names(now);
        let q = ranked_names(was);
        if p.contains(n) {
            let i = choose|i: int| 0 <= i < p.len() && p[i] == n;
            if i < at {
                assert(q[i] == n);
            } else if i > at {
                assert(q[i - 1] == n);
            }
        }
        if q.contains(n) {
            let i = choose|i: int| 0 <= i < q.len() && q[i] == n;
            if i < at {
                assert(p[i] == n);
            } else {
                assert(p[i + 1] == n);
            }
        }
        assert(p[at] == x.0);
    }
}

/// The APIs that calls reach, the most called first.
fn rank_apis(tally: &Tally) -> (r: Vec<(String, u64)>)
    requires
        tally.right(),
    ensures
        is_ranking(tally.log(), count_views(r@)),
{
    let (names, counts) = tally.api_counts();
    let ghost all = views(names@);
    let ghost es = tally.log();
    let mut out: Vec<(String, u64)> = Vec::new();
    for i in 0..names.len()
        invariant
            all == views(names@),
            increasing(all),
            names@.len() == counts@.len(),
            forall|k: int|
                0 <= k < names@.len() ==> #[trigger] counts@[k] == capped(
                    calls_reaching(es, names@[k]@),
                ),
            is_ranked(count_views(out@)),
            forall|n: Seq<char>| #[trigger]
                ranked_names(count_views(out@)).contains(n) <==> all.take(i as int).contains(n),
            forall|k: int|
                0 <= k < out@.len() ==> (#[trigger] count_views(out@)[k]).1 == capped(
                    calls_reaching(es, count_views(out@)[k].0),
                ),
    {
        let c = counts[i];
        let ghost x = (names@[i as int]@, c);
        let ghost was = count_views(out@);
        proof {
            let passed = all.take(i as int);
            assert(all.take(i + 1) =~= passed.push(x.0));
            assert(!passed.contains(x.0)) by {
                if passed.contains(x.0) {
                    let k = choose|k: int| 0 <= k < passed.len() && passed[k] == x.0;
                    assert(before(all[k], all[i as int]));
                    crate::order::lemma_irreflexive(x.0);
                }
            }
            assert(!ranked_names(was).contains(x.0));
        }
        let mut at: usize = 0;
        while at < out.len() && (out[at].1 > c || (out[at].1 == c && comes_before(
            out[at].0.as_str(),
            names[i].as_str(),
        )))
            invariant
                i < names@.len(),
                at <= out@.len(),
                was == count_views(out@),
                x == (names@[i as int]@, c),
                forall|k: int| 0 <= k < at ==> outranks(#[trigger] was[k], x),
            decreases out@.len() - at,
        {
            proof {
                assert(was[at as int] == (out@[at as int].0@, out@[at as int].1));
            }
            at += 1;
        }
        proof {
            if at < out@.len() {
                assert(was[at as int] == (out@[at as int].0@, out@[at as int].1));
            }
            lemma_rank_inserted(was, x, at as int);
        }
        out.insert(at, (names[i].clone(), c));
        proof {
            let now = count_views(out@);
            assert(now =~= was.insert(at as int, x));
            assert forall|k: int| 0 <= k < out@.len() implies (#[trigger] now[k]).1 == capped(
                calls_reaching(es, now[k].0),
            ) by {
                if k < at {
                    assert(now[k] == was[k]);
                } else if k > at {
                    assert(now[k] == was[k - 1]);
                } else {
                    assert(counts@[i as int] == capped(calls_reaching(es, names@[i as int]@)));
                }
            }
            assert forall|n: Seq<char>| #[trigger]
                ranked_names(now).contains(n) <==> all.take(i + 1).contains(n) by {
                lemma_seq_contains_push(all.take(i as int), x.0, n);
            }
        }
    }
    proof {
        assert(all.take(all.len() as int) =~= all);
    }
    out
}

proof fn lemma_seq_contains_push(s: Seq<Seq<char>>, a: Seq<char>, x: Seq<char>)
    ensures
        s.push(a).contains(x) <==> s.contains(x) || x == a,
{
    if s.contains(x) {
        let k = choose|k: int| 0 <= k < s.len() && s[k] == x;
        assert(s.push(a)[k] == x);
    }
    if s.push(a).contains(x) && x != a {
        let k = choose|k: int| 0 <= k < s.push(a).len() && s.push(a)[k] == x;
        assert(s[k] == x);
    }
    assert(s.push(a)[s.len() as int] == a);
}

// ---------------------------------------------------------------------------
// Imports that no call reaches
// ---------------------------------------------------------------------------

/// Is this the name of an imported API?
pub open spec fn is_imported(imports: Seq<ImportModel>, api: Seq<char>) -> bool {
    exists|i: int, j: int|
        0 <= i < imports.len() && 0 <= j < imports[i].functions.len() && api == #[trigger] qualified(
            imports[i].dll,
            imports[i].functions[j].name,
        )
}

/// The imported APIs that no call reaches, in order.
fn find_uncalled(bin: &Binary, tally: &Tally) -> (r: Vec<String>)
    requires
        tally.right(),
    ensures
        increasing(views(r@)),
        forall|n: Seq<char>| #[trigger]
            views(r@).contains(n) <==> is_imported(models(bin.imports@), n) && calls_reaching(
                tally.log(),
                n,
            ) <= 0,
{
    let ghost imports = models(bin.imports@);
    let ghost es = tally.log();
    let called = tally.api_names();
    let mut out: Vec<String> = Vec::new();
    for i in 0..bin.imports.len()
        invariant
            imports == models(bin.imports@),
            increasing(views(called@)),
            forall|n: Seq<char>| #[trigger]
                views(called@).contains(n) <==> calls_reaching(es, n) > 0,
            increasing(views(out@)),
            forall|n: Seq<char>| #[trigger]
                views(out@).contains(n) <==> is_imported(imports.take(i as int), n)
                    && calls_reaching(es, n) <= 0,
    {
        let imp = &bin.imports[i];
        let ghost lib = imports[i as int];
        proof {
            assert(lib == imp.deep_view());
        }
        for j in 0..imp.functions.len()
            invariant
                0 <= i < imports.len(),
                lib == imports[i as int],
                lib == imp.deep_view(),
                increasing(views(called@)),
                forall|n: Seq<char>| #[trigger]
                    views(called@).contains(n) <==> calls_reaching(es, n) > 0,
                increasing(views(out@)),
                forall|n: Seq<char>| #[trigger]
                    views(out@).contains(n) <==> (is_imported(imports.take(i as int), n)
                        || from_library(lib, n, j as int)) && calls_reaching(es, n) <= 0,
        {
            proof {
                assert(lib.functions[j as int].name == imp.functions@[j as int].name@);
            }
            let name = qualified_name(imp.dll.as_str(), imp.functions[j].name.as_str());
            let ghost q = name@;
            let ghost was = views(out@);
            if !is_member(called, name.as_str()) {
                insert_unique(&mut out, name);
            }
            proof {
                assert forall|n: Seq<char>| #[trigger]
                    views(out@).contains(n) <==> (is_imported(imports.take(i as int), n)
                        || from_library(lib, n, j + 1)) && calls_reaching(es, n) <= 0 by {
                    assert(from_library(lib, n, j + 1) <==> from_library(lib, n, j as int) || n
                        == q) by {
                        if n == q {
                            assert(n == qualified(lib.dll, lib.functions[j as int].name));
                        }
                    }
                    assert(was.contains(n) <==> (is_imported(imports.take(i as int), n)
                        || from_library(lib, n, j as int)) && calls_reaching(es, n) <= 0);
                }
            }
        }
        proof {
            assert forall|n: Seq<char>| #[trigger]
                views(out@).contains(n) <==> is_imported(imports.take(i + 1), n)
                    && calls_reaching(es, n) <= 0 by {
                lemma_imported_next(imports, n, i as int);
            }
        }
    }
    proof {
        assert(imports.take(imports.len() as int) =~= imports);
    }
    out
}

/// Is this the name of one of the first `n` functions of a library?
spec fn from_library(lib: ImportModel, api: Seq<char>, n: int) -> bool {
    exists|j: int|
        0 <= j < n && api == #[trigger] qualified(lib.dll, lib.functions[j].name)
}

proof fn lemma_imported_next(imports: Seq<ImportModel>, api: Seq<char>, i: int)
    requires
        0 <= i < imports.len(),
    ensures
        is_imported(imports.take(i + 1), api) <==> is_imported(imports.take(i), api)
            || from_library(imports[i], api, imports[i].functions.len() as int),
{
    let now = imports.take(i + 1);
    let was = imports.take(i);
    if is_imported(now, api) {
        let (a, j) = choose|a: int, j: int|
            0 <= a < now.len() && 0 <= j < now[a].functions.len() && api == #[trigger] qualified(
                now[a].dll,
                now[a].functions[j].name,
            );
        if a < i {
            assert(api == qualified(was[a].dll, was[a].functions[j].name));
        } else {
            assert(api == qualified(imports[i].dll, imports[i].functions[j].name));
        }
    }
    if is_imported(was, api) {
        let (a, j) = choose|a: int, j: int|
            0 <= a < was.len() && 0 <= j < was[a].functions.len() && api == #[trigger] qualified(
                was[a].dll,
                was[a].functions[j].name,
            );
        assert(api == qualified(now[a].dll, now[a].functions[j].name));
    }
    if from_library(imports[i], api, imports[i].functions.len() as int) {
        let j = choose|j: int|
            0 <= j < imports[i].functions.len() && api == #[trigger] qualified(
                imports[i].dll,
                imports[i].functions[j].name,
            );
        assert(api == qualified(now[i].dll, now[i].functions[j].name));
    }
}

// ---------------------------------------------------------------------------
// The inventory
// ---------------------------------------------------------------------------

pub struct Function {
    pub rva: u64,
    /// Direct call sites that name this address; none for a function that is
    /// only reached from outside the image.
    pub calls: u64,
    pub label: Option<Label>,
    /// Imports reached from inside this function, as far as call sites show.
    pub apis: Vec<String>,
}

pub ghost struct FunctionModel {
    pub rva: u64,
    pub calls: u64,
    pub label: Option<LabelModel>,
    pub apis: Seq<Seq<char>>,
}

impl DeepView for Function {
    type V = FunctionModel;

    open spec fn deep_view(&self) -> FunctionModel {
        FunctionModel {
            rva: self.rva,
            calls: self.calls,
            label: option_label(self.label),
            apis: views(self.apis@),
        }
    }
}

pub struct Inventory {
    pub functions: Vec<Function>,
    /// Resolved API and how many call sites reach it, most called first.
    pub api_calls: Vec<(String, u64)>,
    /// Imported, but reached by no call site in the sweep.
    pub uncalled: Vec<String>,
    /// Calls to a literal code address.
    pub direct_calls: u64,
    /// Calls that reach an imported API.
    pub import_calls: u64,
    /// Calls without a statically knowable target.
    pub indirect_calls: u64,
    pub imported_total: usize,
    /// Were there more call sites than are attributed?
    pub truncated: bool,
}

pub ghost struct InventoryModel {
    pub functions: Seq<FunctionModel>,
    pub api_calls: Seq<(Seq<char>, u64)>,
    pub uncalled: Seq<Seq<char>>,
    pub direct_calls: u64,
    pub import_calls: u64,
    pub indirect_calls: u64,
    pub imported_total: usize,
    pub truncated: bool,
}

impl DeepView for Inventory {
    type V = InventoryModel;

    open spec fn deep_view(&self) -> InventoryModel {
        InventoryModel {
            functions: models(self.functions@),
            api_calls: count_views(self.api_calls@),
            uncalled: views(self.uncalled@),
            direct_calls: self.direct_calls,
            import_calls: self.import_calls,
            indirect_calls: self.indirect_calls,
            imported_total: self.imported_total,
            truncated: self.truncated,
        }
    }
}

/// The addresses of functions.
pub open spec fn rvas_of(fs: Seq<FunctionModel>) -> Seq<u64> {
    Seq::new(fs.len(), |i: int| fs[i].rva)
}

/// The label of an address, if it has one.
pub open spec fn label_of(m: SymbolsModel, a: u64) -> Option<LabelModel> {
    if m.labels.contains_key(a) {
        Some(m.labels[a])
    } else {
        None
    }
}

/// Is this the record of the function at place `k`: with the number of calls
/// that name it, its label, and the APIs attributed to it in order?
pub open spec fn is_function(
    m: SymbolsModel,
    es: Seq<CallEvent>,
    seeds: Seq<u64>,
    k: int,
    f: FunctionModel,
) -> bool {
    &&& f.calls == capped(calls_naming(es, f.rva))
    &&& f.label == label_of(m, f.rva)
    &&& increasing(f.apis)
    &&& forall|api: Seq<char>| #[trigger]
        f.apis.contains(api) <==> attributed(seeds, tracked_sites(es), k, api)
}

/// Is this the inventory of a binary whose code makes the given calls?
pub open spec fn is_inventory(
    b: BinaryModel,
    m: SymbolsModel,
    es: Seq<CallEvent>,
    inv: InventoryModel,
) -> bool {
    let seeds = rvas_of(inv.functions);
    &&& ascending(seeds)
    &&& forall|a: u64| #[trigger] seeds.contains(a) <==> is_seed(b, m, es, a)
    &&& forall|k: int|
        0 <= k < inv.functions.len() ==> is_function(
            m,
            es,
            seeds,
            k,
            #[trigger] inv.functions[k],
        )
    &&& is_ranking(es, inv.api_calls)
    &&& increasing(inv.uncalled)
    &&& forall|n: Seq<char>| #[trigger]
        inv.uncalled.contains(n) <==> is_imported(b.imports, n) && calls_reaching(es, n) <= 0
    &&& inv.direct_calls == capped(calls_of(es, Kind::Code))
    &&& inv.import_calls == capped(calls_of(es, Kind::Import))
    &&& inv.indirect_calls == capped(calls_of(es, Kind::Unknown))
    &&& inv.imported_total == total_functions(b.imports)
    &&& inv.truncated == (import_sites(es).len() > MAX_TRACKED_CALLS)
}

/// The inventory, from the calls that were counted.
pub fn take_inventory(bin: &Binary, syms: &Symbols, tally: &Tally, memo: &mut Memo) -> (r: Inventory)
    requires
        tally.right(),
        sound(syms.model(), old(memo)@),
    ensures
        sound(syms.model(), final(memo)@),
        is_inventory(bin.deep_view(), syms.model(), tally.log(), r.deep_view()),
{
    let ghost m = syms.model();
    let ghost es = tally.log();
    let seeds = find_seeds(bin, syms, tally, memo);
    let mut per = attribute(&seeds, tally.sites());
    let ghost all = per@;
    let mut functions: Vec<Function> = Vec::new();
    for k in 0..seeds.len()
        invariant
            m == syms.model(),
            es == tally.log(),
            tally.right(),
            per@.len() == seeds@.len(),
            all.len() == seeds@.len(),
            forall|j: int| k <= j < all.len() ==> per@[j] == all[j],
            forall|j: int| 0 <= j < all.len() ==> increasing(views((#[trigger] all[j])@)),
            forall|j: int, api: Seq<char>|
                #![trigger views(all[j]@).contains(api)]
                0 <= j < all.len() ==> (views(all[j]@).contains(api) <==> attributed(
                    seeds@,
                    tracked_sites(es),
                    j,
                    api,
                )),
            functions@.len() == k,
            forall|j: int| 0 <= j < k ==> (#[trigger] functions@[j]).rva == seeds@[j],
            forall|j: int|
                0 <= j < k ==> is_function(
                    m,
                    es,
                    seeds@,
                    j,
                    (#[trigger] functions@[j]).deep_view(),
                ),
    {
        let rva = seeds[k];
        let mut apis: Vec<String> = Vec::new();
        std::mem::swap(&mut apis, &mut per[k]);
        let label: Option<Label> = match syms.label_at(rva) {
            Some(l) => Some(l.copied()),
            None => None,
        };
        let f = Function { rva, calls: tally.calls_to(rva), label, apis };
        proof {
            assert(f.apis@ == all[k as int]@);
            assert(is_function(m, es, seeds@, k as int, f.deep_view()));
        }
        functions.push(f);
    }
    proof {
        assert(rvas_of(models(functions@)) =~= seeds@);
        assert forall|k: int| 0 <= k < functions@.len() implies is_function(
            m,
            es,
            seeds@,
            k,
            #[trigger] models(functions@)[k],
        ) by {
            assert(is_function(m, es, seeds@, k, functions@[k].deep_view()));
        }
    }
    let kinds = tally.by_kind();
    Inventory {
        functions,
        api_calls: rank_apis(tally),
        uncalled: find_uncalled(bin, tally),
        direct_calls: kinds.0,
        import_calls: kinds.1,
        indirect_calls: kinds.2,
        imported_total: bin.total_imported_functions(),
        truncated: tally.is_truncated(),
    }
}

// ---------------------------------------------------------------------------
// The sweep
// ---------------------------------------------------------------------------

/// Counts the calls among a batch of instructions.
fn count_batch(insns: &Vec<Insn>, syms: &Symbols, tally: &mut Tally, memo: &mut Memo)
    requires
        old(tally).right(),
        sound(syms.model(), old(memo)@),
    ensures
        final(tally).right(),
        sound(syms.model(), final(memo)@),
        final(tally).log() == old(tally).log() + events_in(
            syms.model(),
            models(insns@),
            insns@.len() as int,
        ),
{
    let ghost m = syms.model();
    let ghost all = models(insns@);
    let ghost start = tally.log();
    proof {
        assert(start + Seq::<CallEvent>::empty() =~= start);
    }
    for k in 0..insns.len()
        invariant
            m == syms.model(),
            all == models(insns@),
            start == old(tally).log(),
            tally.right(),
            sound(m, memo@),
            tally.log() == start + events_in(m, all, k as int),
    {
        let insn = &insns[k];
        proof {
            assert(all[k as int] == insn.deep_view());
        }
        let flow = classify(insn.mnemonic.as_str());
        if flow == crate::cfg::Flow::Call {
            let next = wrap_add(insn.address, insn.size as u64);
            let target = syms.classify_with(insn.operands.as_str(), next, memo);
            let direct = parse_target(insn.operands.as_str());
            let ghost e = CallEvent { site: insn.address, target: target.deep_view(), direct };
            tally.count(insn.address, target, direct);
            proof {
                assert(e == event_of(m, all[k as int]));
                assert(start + events_in(m, all, k as int).push(e) =~= (start + events_in(
                    m,
                    all,
                    k as int,
                )).push(e));
            }
        }
    }
}

/// Counts the calls among what the decoder found at the beginning of `code`, and
/// returns how many bytes that takes up: those of the instructions or, where
/// there are none, one. Where the decoder failed, nothing is counted and the
/// failure is handed on.
fn count_found(
    found: Result<Vec<Insn>, Failure>,
    code: &[u8],
    syms: &Symbols,
    tally: &mut Tally,
    memo: &mut Memo,
) -> (r: Result<usize, Failure>)
    requires
        code@.len() > 0,
        match found {
            Ok(v) => batch_fits(models(v@), code@.len() as int),
            Err(e) => true,
        },
        old(tally).right(),
        sound(syms.model(), old(memo)@),
    ensures
        final(tally).right(),
        sound(syms.model(), final(memo)@),
        match found {
            Ok(v) => {
                &&& final(tally).log() == old(tally).log() + events_in(
                    syms.model(),
                    models(v@),
                    v@.len() as int,
                )
                &&& r matches Ok(n) && n >= 1 && n == if v@.len() == 0 {
                    1
                } else {
                    bytes_taken(models(v@), v@.len() as int)
                }
            },
            Err(e) => {
                &&& r == Err::<usize, Failure>(e)
                &&& *final(tally) == *old(tally)
                &&& *final(memo) == *old(memo)
            },
        },
{
    let insns = match found {
        Ok(v) => v,
        Err(e) => {
            return Err(e);
        },
    };
    count_batch(&insns, syms, tally, memo);
    if insns.len() == 0 {
        return Ok(1);
    }
    let room = code.len();
    Ok(total_size(&insns, Ghost(room as int)))
}

/// Counts the calls that a linear sweep over code comes across. Where the decoder
/// fails, the sweep ends and the failure is handed on.
fn sweep_calls(
    width: Width,
    code: &[u8],
    base: u64,
    syms: &Symbols,
    tally: &mut Tally,
    memo: &mut Memo,
) -> (r: Result<(), Failure>)
    requires
        old(tally).right(),
        sound(syms.model(), old(memo)@),
    ensures
        final(tally).right(),
        sound(syms.model(), final(memo)@),
        ({
            let c = events_from(syms.model(), is_wide(width), code@, base, 0);
            &&& final(tally).log() == old(tally).log() + c.events
            &&& match r {
                Ok(_) => c.failed is None,
                Err(e) => c.failed == Some(e.deep_view()),
            }
        }),
        calls_in_line(is_wide(width), code@, base, 0),
{
    let ghost m = syms.model();
    let ghost wide = is_wide(width);
    let ghost start = tally.log();
    let len = code.len();
    let mut off: usize = 0;
    while off < len
        invariant
            m == syms.model(),
            wide == is_wide(width),
            start == old(tally).log(),
            len == code@.len(),
            off <= len,
            tally.right(),
            sound(m, memo@),
            counted(m, wide, code@, base, start, tally.log(), off as int),
            calls_in_line(wide, code@, base, off as int) ==> calls_in_line(wide, code@, base, 0),
        decreases len - off,
    {
        let addr = wrap_add(base, off as u64);
        proof {
            assert(code@.subrange(off as int, len as int) =~= code@.skip(off as int));
        }
        let rest = &code[off..len];
        let found = decode(width, rest, addr, BATCH);
        let ghost was = tally.log();
        match count_found(found, rest, syms, tally, memo) {
            Ok(taken) => {
                proof {
                    reveal(events_from);
                    reveal(calls_in_line);
                    let insns = decoded(wide, rest@, addr, BATCH as int)->Ok_0;
                    let some = events_in(m, insns, insns.len() as int);
                    let more = events_from(m, wide, code@, base, off + taken).events;
                    assert(was + (some + more) =~= (was + some) + more);
                    assert(was + Seq::<CallEvent>::empty() =~= was);
                }
                off += taken;
            },
            Err(e) => {
                proof {
                    reveal(events_from);
                    reveal(calls_in_line);
                    assert(was + Seq::<CallEvent>::empty() =~= was);
                }
                return Err(e);
            },
        }
    }
    proof {
        reveal(events_from);
        reveal(calls_in_line);
        assert(tally.log() + Seq::<CallEvent>::empty() =~= tally.log());
    }
    Ok(())
}

/// The calls counted so far are completed by those from an offset on.
spec fn counted(
    m: SymbolsModel,
    wide: bool,
    code: Seq<u8>,
    base: u64,
    start: Seq<CallEvent>,
    now: Seq<CallEvent>,
    off: int,
) -> bool {
    let whole = events_from(m, wide, code, base, 0);
    let rest = events_from(m, wide, code, base, off);
    start + whole.events == now + rest.events && whole.failed == rest.failed
}

/// The calls in the executable sections of a binary.
pub open spec fn all_calls(m: SymbolsModel, w: Width, file: Seq<u8>, b: BinaryModel) -> Calls {
    events_upto(m, is_wide(w), file, b.sections, b.sections.len() as int)
}

/// Does the sweep over the code of an executable section keep in line?
pub open spec fn swept_in_line(wide: bool, file: Seq<u8>, s: SectionModel) -> bool {
    s.executable ==> calls_in_line(
        wide,
        clamped(file, s.file_offset as int, s.file_size as int),
        s.virtual_addr,
        0,
    )
}

/// Takes the inventory of a binary: a linear sweep over its executable sections
/// counts the calls, and what they show is put together.
///
/// Fails where the code is not x86, and where the decoder fails in the sweep. A
/// thunk on which it fails counts as ordinary code.
pub fn discover(file: &[u8], bin: &Binary, syms: &Symbols) -> (r: Result<Inventory, String>)
    ensures
        match width_of(bin.arch@) {
            None => r matches Err(e) && e@ == not_x86(bin.arch@),
            Some(w) => {
                let c = all_calls(syms.model(), w, file@, bin.deep_view());
                match c.failed {
                    Some(f) => r matches Err(e) && e@ == failure_text(f),
                    None => r matches Ok(inv) && is_inventory(
                        bin.deep_view(),
                        syms.model(),
                        c.events,
                        inv.deep_view(),
                    ) && forall|i: int|
                        0 <= i < bin.sections@.len() ==> #[trigger] swept_in_line(
                            is_wide(w),
                            file@,
                            bin.sections@[i].deep_view(),
                        ),
                }
            },
        },
{
    let width = match x86_mode(bin) {
        Some(w) => w,
        None => {
            return Err(not_x86_message(bin.arch));
        },
    };
    let ghost m = syms.model();
    let ghost secs = models(bin.sections@);
    let mut tally = Tally::new();
    let mut memo = Memo::new();
    for i in 0..bin.sections.len()
        invariant
            m == syms.model(),
            secs == models(bin.sections@),
            width_of(bin.arch@) == Some(width),
            tally.right(),
            sound(m, memo@),
            events_upto(m, is_wide(width), file@, secs, i as int) == (Calls {
                events: tally.log(),
                failed: None,
            }),
            forall|k: int|
                0 <= k < i ==> #[trigger] swept_in_line(
                    is_wide(width),
                    file@,
                    bin.sections@[k].deep_view(),
                ),
    {
        let s = &bin.sections[i];
        proof {
            assert(secs[i as int] == s.deep_view());
        }
        if s.is_executable() {
            let code = s.on_disk_bytes(file);
            if let Err(e) = sweep_calls(
                width,
                code,
                s.virtual_addr,
                syms,
                &mut tally,
                &mut memo,
            ) {
                proof {
                    lemma_failure_stays(
                        m,
                        is_wide(width),
                        file@,
                        secs,
                        i + 1,
                        secs.len() as int,
                    );
                }
                return Err(e.message());
            }
        }
    }
    Ok(take_inventory(bin, syms, &tally, &mut memo))
}

/// Once the decoder has failed, nothing more is swept.
proof fn lemma_failure_stays(
    m: SymbolsModel,
    wide: bool,
    file: Seq<u8>,
    secs: Seq<SectionModel>,
    i: int,
    n: int,
)
    requires
        0 <= i <= n,
        events_upto(m, wide, file, secs, i).failed is Some,
    ensures
        events_upto(m, wide, file, secs, n) == events_upto(m, wide, file, secs, i),
    decreases n,
{
    if i < n {
        lemma_failure_stays(m, wide, file, secs, i, n - 1);
    }
}

} // verus!
