//! What the counts of an inventory count.
use crate::binary::{callbacks_of, file_offset_of, total_functions, BinaryModel};
use crate::binary_laws::{first_holding, law_first_section_holds};
use crate::functions::{
    attributed, is_function, is_inventory, is_ranking, is_seed, owns, ranked_names, rvas_of,
    InventoryModel,
};
use crate::order::{before, increasing};
use crate::symbols::{described, qualified, SymbolsModel, TargetModel};
use crate::tally::{
    calls_naming, calls_of, calls_reaching, import_sites, tracked_sites, CallEvent, Kind,
};
use vstd::prelude::*;

verus! {

/// The number of calls that name an address.
pub open spec fn naming(es: Seq<CallEvent>, a: u64) -> int {
    es.filter(|e: CallEvent| e.direct == Some(a)).len() as int
}

/// The number of calls that reach an imported function.
pub open spec fn reaching(es: Seq<CallEvent>, api: Seq<char>) -> int {
    es.filter(|e: CallEvent| e.target == TargetModel::Import(api)).len() as int
}

/// The calls that reach imported functions, each with its site and the function's
/// name.
pub open spec fn import_calls(es: Seq<CallEvent>) -> Seq<(u64, Seq<char>)> {
    es.filter(|e: CallEvent| e.target is Import).map_values(
        |e: CallEvent| (e.site, e.target->Import_0),
    )
}

/// The calls are counted one by one, by what they name and by what they reach.
pub proof fn law_counts_are_of_calls(es: Seq<CallEvent>, a: u64, api: Seq<char>)
    ensures
        calls_naming(es, a) == naming(es, a),
        calls_reaching(es, api) == reaching(es, api),
        calls_of(es, Kind::Code) == es.filter(|e: CallEvent| e.target is Code).len(),
        calls_of(es, Kind::Import) == es.filter(|e: CallEvent| e.target is Import).len(),
        calls_of(es, Kind::Unknown) == es.filter(|e: CallEvent| e.target is Unknown).len(),
        import_sites(es) == import_calls(es),
    decreases es.len(),
{
    reveal(Seq::filter);
    let imports = |e: CallEvent| e.target is Import;
    let site = |e: CallEvent| (e.site, e.target->Import_0);
    if es.len() > 0 {
        law_counts_are_of_calls(es.drop_last(), a, api);
        let some = es.drop_last().filter(imports);
        assert(some.push(es.last()).map_values(site) =~= some.map_values(site).push(
            site(es.last()),
        ));
    } else {
        assert(import_calls(es) =~= Seq::<(u64, Seq<char>)>::empty());
    }
}

/// The sites that are attributed are those of the first 200,000 calls of imported
/// functions.
pub proof fn law_first_sites_are_attributed(es: Seq<CallEvent>)
    ensures
        import_calls(es).len() <= 200_000 ==> tracked_sites(es) == import_calls(es),
        import_calls(es).len() > 200_000 ==> tracked_sites(es) == import_calls(es).take(200_000),
{
    law_counts_are_of_calls(es, 0, Seq::empty());
    let all = import_calls(es);
    assert(all.take(all.len() as int) =~= all);
}

/// The totals of an inventory are the numbers of calls of each sort, and each
/// function has been called as often as calls name it.
pub proof fn law_inventories_count_calls(
    b: BinaryModel,
    m: SymbolsModel,
    es: Seq<CallEvent>,
    inv: InventoryModel,
)
    requires
        is_inventory(b, m, es, inv),
        es.len() <= u64::MAX,
    ensures
        inv.direct_calls == es.filter(|e: CallEvent| e.target is Code).len(),
        inv.import_calls == es.filter(|e: CallEvent| e.target is Import).len(),
        inv.indirect_calls == es.filter(|e: CallEvent| e.target is Unknown).len(),
        inv.truncated == (import_calls(es).len() > 200_000),
        inv.imported_total == total_functions(b.imports),
        forall|k: int|
            0 <= k < inv.functions.len() ==> (#[trigger] inv.functions[k]).calls == naming(
                es,
                inv.functions[k].rva,
            ),
        forall|k: int|
            0 <= k < inv.functions.len() ==> ((#[trigger] inv.functions[k]).label matches Some(l)
                ==> m.labels.contains_key(inv.functions[k].rva) && l
                == m.labels[inv.functions[k].rva]),
        forall|k: int|
            0 <= k < inv.functions.len() && m.labels.contains_key(
                (#[trigger] inv.functions[k]).rva,
            ) ==> inv.functions[k].label is Some,
{
    law_counts_are_of_calls(es, 0, Seq::empty());
    es.lemma_filter_len(|e: CallEvent| e.target is Code);
    es.lemma_filter_len(|e: CallEvent| e.target is Import);
    es.lemma_filter_len(|e: CallEvent| e.target is Unknown);
    assert forall|k: int| 0 <= k < inv.functions.len() implies (#[trigger] inv.functions[k]).calls
        == naming(es, inv.functions[k].rva) by {
        let a = inv.functions[k].rva;
        law_counts_are_of_calls(es, a, Seq::empty());
        es.lemma_filter_len(|e: CallEvent| e.direct == Some(a));
        assert(is_function(m, es, rvas_of(inv.functions), k, inv.functions[k]));
    }
    assert forall|k: int| 0 <= k < inv.functions.len() implies is_function(
        m,
        es,
        rvas_of(inv.functions),
        k,
        #[trigger] inv.functions[k],
    ) by {}
}

/// Is the address in a section with code?
pub open spec fn lies_in_code(b: BinaryModel, a: u64) -> bool {
    exists|i: int| #[trigger] first_holding(b.sections, a as int, i) && b.sections[i].executable
}

/// The functions of an inventory, in ascending order, are the addresses with bytes
/// in the file that are a way into the program, or that are called, lie in code
/// and stand for no imported function.
pub proof fn law_functions_are_ways_in_and_callees(
    b: BinaryModel,
    m: SymbolsModel,
    es: Seq<CallEvent>,
    inv: InventoryModel,
    a: u64,
)
    requires
        is_inventory(b, m, es, inv),
    ensures
        (exists|k: int| 0 <= k < inv.functions.len() && (#[trigger] inv.functions[k]).rva == a)
            <==> (file_offset_of(b.sections, a as int) is Some && {
            ||| a == b.entry_point
            ||| callbacks_of(b.pe_meta).contains(a)
            ||| exists|i: int|
                0 <= i < b.exports.len() && (#[trigger] b.exports[i]).rva == a
                    && b.exports[i].forwarder is None
            ||| naming(es, a) > 0 && lies_in_code(b, a) && described(m, a) is None
        }),
        forall|i: int, j: int|
            0 <= i < j < inv.functions.len() ==> (#[trigger] inv.functions[i]).rva < (
            #[trigger] inv.functions[j]).rva,
{
    let seeds = rvas_of(inv.functions);
    law_counts_are_of_calls(es, a, Seq::empty());
    law_first_section_holds(b.sections, a as int);
    assert(seeds.contains(a) <==> is_seed(b, m, es, a));
    if seeds.contains(a) {
        let k = choose|k: int| 0 <= k < seeds.len() && seeds[k] == a;
        assert(inv.functions[k].rva == a);
    }
    if exists|k: int| 0 <= k < inv.functions.len() && (#[trigger] inv.functions[k]).rva == a {
        let k = choose|k: int| 0 <= k < inv.functions.len() && (#[trigger] inv.functions[k]).rva == a;
        assert(seeds[k] == a);
    }
    assert forall|i: int, j: int| 0 <= i < j < inv.functions.len() implies (
    #[trigger] inv.functions[i]).rva < (#[trigger] inv.functions[j]).rva by {
        assert(seeds[i] < seeds[j]);
    }
}

/// A function reaches the imported functions that are called from its own address
/// on, up to the next function, and its list of them is in order.
#[verifier::rlimit(50)]
pub proof fn law_functions_reach_what_is_called_from_them(
    b: BinaryModel,
    m: SymbolsModel,
    es: Seq<CallEvent>,
    inv: InventoryModel,
    k: int,
    api: Seq<char>,
)
    requires
        is_inventory(b, m, es, inv),
        import_calls(es).len() <= 200_000,
        0 <= k < inv.functions.len(),
    ensures
        inv.functions[k].apis.contains(api) <==> exists|i: int|
            0 <= i < es.len() && (#[trigger] es[i]).target == TargetModel::Import(api) && es[i].site
                >= inv.functions[k].rva && (k + 1 < inv.functions.len() ==> es[i].site
                < inv.functions[k + 1].rva),
        increasing(inv.functions[k].apis),
{
    let seeds = rvas_of(inv.functions);
    let imports = |e: CallEvent| e.target is Import;
    let sites = tracked_sites(es);
    law_first_sites_are_attributed(es);
    assert(is_function(m, es, seeds, k, inv.functions[k]));
    assert(inv.functions[k].apis.contains(api) <==> attributed(seeds, sites, k, api));
    if attributed(seeds, sites, k, api) {
        let i = choose|i: int|
            0 <= i < sites.len() && owns(seeds, k, (#[trigger] sites[i]).0) && sites[i].1 == api;
        let e = es.filter(imports)[i];
        es.lemma_filter_pred(imports, i);
        assert(es.filter(imports).contains(e));
        es.lemma_filter_contains_rev(imports, e);
        let n = choose|n: int| 0 <= n < es.len() && es[n] == e;
        assert(es[n].target == TargetModel::Import(api));
    }
    if exists|i: int|
        0 <= i < es.len() && (#[trigger] es[i]).target == TargetModel::Import(api) && es[i].site
            >= inv.functions[k].rva && (k + 1 < inv.functions.len() ==> es[i].site
            < inv.functions[k + 1].rva) {
        let i = choose|i: int|
            0 <= i < es.len() && (#[trigger] es[i]).target == TargetModel::Import(api) && es[i].site
                >= inv.functions[k].rva && (k + 1 < inv.functions.len() ==> es[i].site
                < inv.functions[k + 1].rva);
        es.lemma_filter_contains(imports, i);
        let n = choose|n: int| 0 <= n < es.filter(imports).len() && es.filter(imports)[n] == es[i];
        assert(sites[n] == (es[i].site, api));
        assert(owns(seeds, k, sites[n].0));
    }
}

/// The ranking lists the imported functions that are called, each with the number
/// of its calls, the most called first and those called as often by name.
pub proof fn law_ranking_is_of_called_functions(
    b: BinaryModel,
    m: SymbolsModel,
    es: Seq<CallEvent>,
    inv: InventoryModel,
    api: Seq<char>,
)
    requires
        is_inventory(b, m, es, inv),
        es.len() <= u64::MAX,
    ensures
        (exists|i: int| 0 <= i < inv.api_calls.len() && (#[trigger] inv.api_calls[i]).0 == api)
            <==> reaching(es, api) > 0,
        forall|i: int|
            0 <= i < inv.api_calls.len() ==> (#[trigger] inv.api_calls[i]).1 == reaching(
                es,
                inv.api_calls[i].0,
            ),
        forall|i: int, j: int|
            0 <= i < j < inv.api_calls.len() ==> {
                ||| (#[trigger] inv.api_calls[i]).1 > (#[trigger] inv.api_calls[j]).1
                ||| inv.api_calls[i].1 == inv.api_calls[j].1 && before(
                    inv.api_calls[i].0,
                    inv.api_calls[j].0,
                )
            },
{
    let v = inv.api_calls;
    law_counts_are_of_calls(es, 0, api);
    assert(is_ranking(es, v));
    assert(ranked_names(v).contains(api) <==> calls_reaching(es, api) > 0);
    if ranked_names(v).contains(api) {
        let i = choose|i: int| 0 <= i < ranked_names(v).len() && ranked_names(v)[i] == api;
        assert(v[i].0 == api);
    }
    if exists|i: int| 0 <= i < v.len() && (#[trigger] v[i]).0 == api {
        let i = choose|i: int| 0 <= i < v.len() && (#[trigger] v[i]).0 == api;
        assert(ranked_names(v)[i] == api);
    }
    assert forall|i: int| 0 <= i < v.len() implies (#[trigger] v[i]).1 == reaching(es, v[i].0) by {
        let name = v[i].0;
        law_counts_are_of_calls(es, 0, name);
        es.lemma_filter_len(|e: CallEvent| e.target == TargetModel::Import(name));
    }
}

/// The functions that are never called are the imported ones that no call
/// reaches, in order.
pub proof fn law_uncalled_functions_are_imported(
    b: BinaryModel,
    m: SymbolsModel,
    es: Seq<CallEvent>,
    inv: InventoryModel,
    api: Seq<char>,
)
    requires
        is_inventory(b, m, es, inv),
    ensures
        inv.uncalled.contains(api) <==> reaching(es, api) == 0 && exists|i: int, j: int|
            0 <= i < b.imports.len() && 0 <= j < b.imports[i].functions.len() && api
                == #[trigger] qualified(b.imports[i].dll, b.imports[i].functions[j].name),
        increasing(inv.uncalled),
{
    law_counts_are_of_calls(es, 0, api);
}

} // verus!
