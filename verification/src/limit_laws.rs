//! When each limit of static analysis is reported, and when a packer is.
use crate::binary::{file_offset_of, packed, total_functions, BinaryModel, ImportModel, SectionModel};
use crate::binary_laws::{
    first_holding, law_first_section_holds, law_packed_sections_are_dense_code, looks_packed,
};
use crate::indicator_laws::{lemma_somewhere, stands_nowhere};
use crate::limits::{
    calls_limit, import_limit, in_order, is_resolver, lemma_in_order, limits_of, managed_limit,
    missing_entry_limit, overlay_limit, packer_limit, packing_limit, resolver_limit, resolvers,
    resolvers_in, statically_linked, worst_among, writable_entry_limit, LimitModel, API_RESOLVERS,
};
use crate::order::{before, fits_at, increasing, lemma_inserted, lemma_total, lemma_transitive};
use crate::packers::{
    has_section, law_packer_reported_by_its_names, packers_among, packers_of, SIGNATURES,
};
use crate::picks::{lemma_picks_last, lemma_picks_none, picks};
use crate::rule_laws::{law_lower_case_forgets_case, same_but_for_case};
use crate::search::{begins, contains, lowered};
use vstd::prelude::*;

verus! {

// ---------------------------------------------------------------------------
// Packers
// ---------------------------------------------------------------------------

/// Does a section bear a name that the packer leaves behind, in any case?
pub open spec fn leaves_name(secs: Seq<SectionModel>, packer: Seq<char>) -> bool {
    exists|i: int, k: int|
        0 <= i < secs.len() && 0 <= k < 25 && (#[trigger] SIGNATURES@[k]).0@ == packer
            && same_but_for_case((#[trigger] secs[i]).name, SIGNATURES@[k].1@)
}

/// A packer is reported exactly where some section bears a name that it leaves
/// behind, in any case.
pub proof fn law_packers_are_known_by_their_sections(secs: Seq<SectionModel>, packer: Seq<char>)
    ensures
        packers_of(secs).contains(packer) <==> leaves_name(secs, packer),
        packers_of(secs).len() > 0 <==> exists|i: int, k: int|
            0 <= i < secs.len() && 0 <= k < 25 && same_but_for_case(
                (#[trigger] secs[i]).name,
                (#[trigger] SIGNATURES@[k]).1@,
            ),
{
    lemma_packer(secs, packer);
    if packers_of(secs).len() > 0 {
        let p = packers_of(secs)[0];
        assert(packers_of(secs).contains(p));
        lemma_packer(secs, p);
    }
    if exists|i: int, k: int|
        0 <= i < secs.len() && 0 <= k < 25 && same_but_for_case(
            (#[trigger] secs[i]).name,
            (#[trigger] SIGNATURES@[k]).1@,
        ) {
        let (i, k) = choose|i: int, k: int|
            0 <= i < secs.len() && 0 <= k < 25 && same_but_for_case(
                (#[trigger] secs[i]).name,
                (#[trigger] SIGNATURES@[k]).1@,
            );
        lemma_packer(secs, SIGNATURES@[k].0@);
        assert(leaves_name(secs, SIGNATURES@[k].0@));
        assert(packers_of(secs).contains(SIGNATURES@[k].0@));
    }
}

proof fn lemma_packer(secs: Seq<SectionModel>, packer: Seq<char>)
    ensures
        packers_of(secs).contains(packer) <==> leaves_name(secs, packer),
{
    law_packer_reported_by_its_names(secs, packer);
    assert forall|i: int, k: int| 0 <= i < secs.len() && 0 <= k < 25 implies (lowered(
        (#[trigger] secs[i]).name,
    ) == lowered((#[trigger] SIGNATURES@[k]).1@) <==> same_but_for_case(
        secs[i].name,
        SIGNATURES@[k].1@,
    )) by {
        law_lower_case_forgets_case(secs[i].name, SIGNATURES@[k].1@);
    }
    if packers_of(secs).contains(packer) {
        let k = choose|k: int|
            0 <= k < SIGNATURES@.len() && (#[trigger] SIGNATURES@[k]).0@ == packer && has_section(
                secs,
                SIGNATURES@[k].1@,
            );
        let i = choose|i: int|
            0 <= i < secs.len() && lowered((#[trigger] secs[i]).name) == lowered(
                SIGNATURES@[k].1@,
            );
        assert(same_but_for_case(secs[i].name, SIGNATURES@[k].1@));
    }
    if leaves_name(secs, packer) {
        let (i, k) = choose|i: int, k: int|
            0 <= i < secs.len() && 0 <= k < 25 && (#[trigger] SIGNATURES@[k]).0@ == packer
                && same_but_for_case((#[trigger] secs[i]).name, SIGNATURES@[k].1@);
        assert(has_section(secs, SIGNATURES@[k].1@));
    }
}

/// Is there a section with the name of this place of the table, in any case?
pub open spec fn name_found(secs: Seq<SectionModel>, k: int) -> bool {
    exists|i: int|
        0 <= i < secs.len() && same_but_for_case((#[trigger] secs[i]).name, SIGNATURES@[k].1@)
}

/// Is this the first place of the table that tells of its packer?
pub open spec fn first_to_tell(secs: Seq<SectionModel>, k: int) -> bool {
    name_found(secs, k) && forall|j: int|
        0 <= j < k && #[trigger] name_found(secs, j) ==> SIGNATURES@[j].0@ != SIGNATURES@[k].0@
}

proof fn lemma_found(secs: Seq<SectionModel>, k: int)
    ensures
        has_section(secs, SIGNATURES@[k].1@) <==> name_found(secs, k),
{
    assert forall|i: int| 0 <= i < secs.len() implies (lowered((#[trigger] secs[i]).name) == lowered(
        SIGNATURES@[k].1@,
    ) <==> same_but_for_case(secs[i].name, SIGNATURES@[k].1@)) by {
        law_lower_case_forgets_case(secs[i].name, SIGNATURES@[k].1@);
    }
}

proof fn lemma_packer_places(secs: Seq<SectionModel>, n: int) -> (places: Seq<int>)
    requires
        0 <= n <= SIGNATURES@.len(),
    ensures
        picks(places, 0, n, |k: int| first_to_tell(secs, k)),
        packers_among(secs, n).len() == places.len(),
        forall|j: int|
            0 <= j < places.len() ==> #[trigger] packers_among(secs, n)[j]
                == SIGNATURES@[places[j]].0@,
        forall|k: int|
            0 <= k < n && #[trigger] name_found(secs, k) ==> packers_among(secs, n).contains(
                SIGNATURES@[k].0@,
            ),
    decreases n,
{
    let holds = |k: int| first_to_tell(secs, k);
    if n <= 0 {
        lemma_picks_none(0, n, holds);
        Seq::empty()
    } else {
        let places = lemma_packer_places(secs, n - 1);
        let rest = packers_among(secs, n - 1);
        let all = packers_among(secs, n);
        let name = SIGNATURES@[n - 1].0@;
        assert(picks(places, 0, n - 1, holds));
        lemma_picks_last(places, 0, n, holds);
        lemma_found(secs, n - 1);
        if name_found(secs, n - 1) {
            if rest.contains(name) {
                let j = choose|j: int| 0 <= j < rest.len() && rest[j] == name;
                assert(holds(places[j]));
                assert(name_found(secs, places[j]));
                assert(!holds(n - 1));
            } else {
                assert(holds(n - 1));
            }
        }
        assert forall|k: int| 0 <= k < n && #[trigger] name_found(secs, k) implies all.contains(
            SIGNATURES@[k].0@,
        ) by {
            if k < n - 1 {
                let j = choose|j: int| 0 <= j < rest.len() && rest[j] == SIGNATURES@[k].0@;
                assert(all[j] == rest[j]);
            } else if !rest.contains(name) {
                assert(all[rest.len() as int] == name);
            }
        }
        if holds(n - 1) {
            places.push(n - 1)
        } else {
            places
        }
    }
}

/// The packers are reported in the order of the table, each where it is told of
/// first.
pub proof fn law_packers_are_reported_in_order(secs: Seq<SectionModel>) -> (places: Seq<int>)
    ensures
        picks(places, 0, 25, |k: int| first_to_tell(secs, k)),
        packers_of(secs).len() == places.len(),
        forall|j: int|
            0 <= j < places.len() ==> #[trigger] packers_of(secs)[j] == SIGNATURES@[places[j]].0@,
{
    lemma_packer_places(secs, 25)
}

// ---------------------------------------------------------------------------
// Resolvers
// ---------------------------------------------------------------------------

/// Does the name begin, in any case, with that of a function which looks others
/// up at run time?
pub open spec fn looks_up(name: Seq<char>) -> bool {
    ||| starts_as(name, "GetProcAddress"@)
    ||| starts_as(name, "LoadLibrary"@)
    ||| starts_as(name, "LdrGetProcedureAddress"@)
    ||| starts_as(name, "LdrLoadDll"@)
    ||| starts_as(name, "dlsym"@)
    ||| starts_as(name, "dlopen"@)
}

/// Does the name begin with a word, in any case?
pub open spec fn starts_as(name: Seq<char>, word: Seq<char>) -> bool {
    name.len() >= word.len() && same_but_for_case(name.take(word.len() as int), word)
}

proof fn lemma_starts(name: Seq<char>, word: Seq<char>, low: Seq<char>)
    requires
        lowered(word) == low,
    ensures
        begins(lowered(name), low) <==> starts_as(name, word),
{
    let n = word.len() as int;
    assert(low.len() == n);
    if name.len() >= n {
        assert(lowered(name).subrange(0, n) =~= lowered(name.take(n)));
        law_lower_case_forgets_case(name.take(n), word);
    }
}

#[verifier::rlimit(50)]
proof fn lemma_resolver(name: Seq<char>)
    ensures
        is_resolver(name) <==> looks_up(name),
{
    reveal_strlit("GetProcAddress");
    reveal_strlit("LoadLibrary");
    reveal_strlit("LdrGetProcedureAddress");
    reveal_strlit("LdrLoadDll");
    reveal_strlit("dlsym");
    reveal_strlit("dlopen");
    reveal_strlit("getprocaddress");
    reveal_strlit("loadlibrary");
    reveal_strlit("ldrgetprocedureaddress");
    reveal_strlit("ldrloaddll");
    assert(lowered("GetProcAddress"@) =~= "getprocaddress"@);
    assert(lowered("LoadLibrary"@) =~= "loadlibrary"@);
    assert(lowered("LdrGetProcedureAddress"@) =~= "ldrgetprocedureaddress"@);
    assert(lowered("LdrLoadDll"@) =~= "ldrloaddll"@);
    assert(lowered("dlsym"@) =~= "dlsym"@);
    assert(lowered("dlopen"@) =~= "dlopen"@);
    lemma_starts(name, "GetProcAddress"@, "getprocaddress"@);
    lemma_starts(name, "LoadLibrary"@, "loadlibrary"@);
    lemma_starts(name, "LdrGetProcedureAddress"@, "ldrgetprocedureaddress"@);
    lemma_starts(name, "LdrLoadDll"@, "ldrloaddll"@);
    lemma_starts(name, "dlsym"@, "dlsym"@);
    lemma_starts(name, "dlopen"@, "dlopen"@);
    assert(API_RESOLVERS@[0]@ == "getprocaddress"@);
    assert(API_RESOLVERS@[1]@ == "loadlibrary"@);
    assert(API_RESOLVERS@[2]@ == "ldrgetprocedureaddress"@);
    assert(API_RESOLVERS@[3]@ == "ldrloaddll"@);
    assert(API_RESOLVERS@[4]@ == "dlsym"@);
    assert(API_RESOLVERS@[5]@ == "dlopen"@);
}

/// Is a function of this name imported that looks others up at run time?
pub open spec fn imports_lookup(imports: Seq<ImportModel>, name: Seq<char>) -> bool {
    looks_up(name) && exists|i: int, j: int|
        0 <= i < imports.len() && 0 <= j < imports[i].functions.len() && (
        #[trigger] imports[i].functions[j]).name == name
}

proof fn lemma_fit(v: Seq<Seq<char>>, s: Seq<char>, n: int) -> (at: int)
    requires
        increasing(v),
        !v.contains(s),
        0 <= n <= v.len(),
        n == v.len() || before(s, v[n]),
    ensures
        fits_at(v, s, at),
    decreases n,
{
    if n == 0 {
        0
    } else if before(v[n - 1], s) {
        assert forall|i: int| 0 <= i < n implies before(#[trigger] v[i], s) by {
            if i < n - 1 {
                lemma_transitive(v[i], v[n - 1], s);
            }
        }
        n
    } else {
        if !before(s, v[n - 1]) {
            lemma_total(v[n - 1], s);
            assert(v.contains(s));
        }
        lemma_fit(v, s, n - 1)
    }
}

proof fn lemma_with(v: Seq<Seq<char>>, s: Seq<char>) -> (w: Seq<Seq<char>>)
    requires
        increasing(v),
    ensures
        increasing(w),
        w.to_set() == v.to_set().insert(s),
{
    if v.contains(s) {
        assert(v.to_set() =~= v.to_set().insert(s));
        v
    } else {
        let at = lemma_fit(v, s, v.len() as int);
        lemma_inserted(v, s, at);
        let w = v.insert(at, s);
        assert forall|x: Seq<char>| w.to_set().contains(x) == v.to_set().insert(s).contains(x) by {
            assert(w.contains(x) <==> v.contains(x) || x == s);
        }
        assert(w.to_set() =~= v.to_set().insert(s));
        w
    }
}

proof fn lemma_ordered_in(known: Set<Seq<char>>, v: Seq<Seq<char>>, lib: ImportModel, n: int) -> (w:
    Seq<Seq<char>>)
    requires
        increasing(v),
        v.to_set() == known,
        0 <= n <= lib.functions.len(),
    ensures
        increasing(w),
        w.to_set() == resolvers_in(known, lib, n),
        forall|s: Seq<char>| #[trigger]
            resolvers_in(known, lib, n).contains(s) <==> known.contains(s) || looks_up(s)
                && exists|j: int| 0 <= j < n && (#[trigger] lib.functions[j]).name == s,
    decreases n,
{
    if n <= 0 {
        v
    } else {
        let u = lemma_ordered_in(known, v, lib, n - 1);
        let name = lib.functions[n - 1].name;
        lemma_resolver(name);
        let w = if is_resolver(name) {
            lemma_with(u, name)
        } else {
            u
        };
        assert forall|s: Seq<char>| #[trigger] resolvers_in(known, lib, n).contains(s)
            <==> known.contains(s) || looks_up(s) && exists|j: int|
            0 <= j < n && (#[trigger] lib.functions[j]).name == s by {
            if looks_up(s) && s == name {
                assert(lib.functions[n - 1].name == s);
            }
        }
        w
    }
}

#[verifier::rlimit(50)]
proof fn lemma_ordered(imports: Seq<ImportModel>, n: int) -> (v: Seq<Seq<char>>)
    requires
        0 <= n <= imports.len(),
    ensures
        increasing(v),
        v.to_set() == resolvers(imports, n),
        forall|s: Seq<char>| #[trigger]
            resolvers(imports, n).contains(s) <==> looks_up(s) && exists|i: int, j: int|
                0 <= i < n && 0 <= j < imports[i].functions.len() && (
                #[trigger] imports[i].functions[j]).name == s,
    decreases n,
{
    if n <= 0 {
        let v = Seq::<Seq<char>>::empty();
        assert(v.to_set() =~= Set::<Seq<char>>::empty());
        v
    } else {
        let u = lemma_ordered(imports, n - 1);
        let lib = imports[n - 1];
        let known = resolvers(imports, n - 1);
        let v = lemma_ordered_in(known, u, lib, lib.functions.len() as int);
        assert forall|s: Seq<char>| #[trigger] resolvers(imports, n).contains(s) <==> looks_up(s)
            && exists|i: int, j: int|
            0 <= i < n && 0 <= j < imports[i].functions.len() && (
            #[trigger] imports[i].functions[j]).name == s by {
            if exists|j: int| 0 <= j < lib.functions.len() && (#[trigger] lib.functions[j]).name
                == s {
                let j = choose|j: int|
                    0 <= j < lib.functions.len() && (#[trigger] lib.functions[j]).name == s;
                assert(imports[n - 1].functions[j].name == s);
            }
            if exists|i: int, j: int|
                0 <= i < n && 0 <= j < imports[i].functions.len() && (
                #[trigger] imports[i].functions[j]).name == s {
                let (i, j) = choose|i: int, j: int|
                    0 <= i < n && 0 <= j < imports[i].functions.len() && (
                    #[trigger] imports[i].functions[j]).name == s;
                if i == n - 1 {
                    assert(lib.functions[j].name == s);
                }
            }
        }
        v
    }
}

/// The names that are reported are those of all imported functions that look
/// others up, each once, in order.
pub proof fn law_lookups_are_reported(imports: Seq<ImportModel>, name: Seq<char>)
    ensures
        ({
            let found = in_order(resolvers(imports, imports.len() as int));
            &&& increasing(found)
            &&& found.contains(name) <==> imports_lookup(imports, name)
        }),
{
    let v = lemma_ordered(imports, imports.len() as int);
    lemma_in_order(v, resolvers(imports, imports.len() as int));
    assert(v.contains(name) <==> v.to_set().contains(name));
}

// ---------------------------------------------------------------------------
// Limits
// ---------------------------------------------------------------------------

/// Do the limits tell of this?
pub open spec fn tells_of(ls: Seq<LimitModel>, what: Seq<char>) -> bool {
    exists|i: int| 0 <= i < ls.len() && (#[trigger] ls[i]).obscured == what
}

proof fn lemma_tells(a: Seq<LimitModel>, b: Seq<LimitModel>, what: Seq<char>)
    ensures
        tells_of(a + b, what) <==> tells_of(a, what) || tells_of(b, what),
{
    let all = a + b;
    if tells_of(a, what) {
        let i = choose|i: int| 0 <= i < a.len() && (#[trigger] a[i]).obscured == what;
        assert(all[i].obscured == what);
    }
    if tells_of(b, what) {
        let i = choose|i: int| 0 <= i < b.len() && (#[trigger] b[i]).obscured == what;
        assert(all[a.len() + i].obscured == what);
    }
    if tells_of(all, what) {
        let i = choose|i: int| 0 <= i < all.len() && (#[trigger] all[i]).obscured == what;
        if i < a.len() {
            assert(a[i].obscured == what);
        } else {
            assert(b[i - a.len()].obscured == what);
        }
    }
}

/// The limit on the calls, where calls have been counted.
spec fn counted_limit(ratio: Option<(u64, u64)>) -> Seq<LimitModel> {
    match ratio {
        Some((resolved, indirect)) => calls_limit(resolved, indirect),
        None => Seq::empty(),
    }
}

proof fn lemma_parts(b: BinaryModel, ratio: Option<(u64, u64)>, what: Seq<char>)
    ensures
        tells_of(limits_of(b, ratio), what) <==> {
            ||| tells_of(managed_limit(b), what)
            ||| tells_of(packing_limit(b), what)
            ||| tells_of(packer_limit(b), what)
            ||| tells_of(import_limit(b), what)
            ||| tells_of(resolver_limit(b), what)
            ||| tells_of(writable_entry_limit(b), what)
            ||| tells_of(missing_entry_limit(b), what)
            ||| tells_of(overlay_limit(b), what)
            ||| tells_of(counted_limit(ratio), what)
        },
{
    let a = managed_limit(b);
    let c = a + packing_limit(b);
    let d = c + packer_limit(b);
    let e = d + import_limit(b);
    let f = e + resolver_limit(b);
    let g = f + writable_entry_limit(b);
    let h = g + missing_entry_limit(b);
    let i = h + overlay_limit(b);
    lemma_tells(a, packing_limit(b), what);
    lemma_tells(c, packer_limit(b), what);
    lemma_tells(d, import_limit(b), what);
    lemma_tells(e, resolver_limit(b), what);
    lemma_tells(f, writable_entry_limit(b), what);
    lemma_tells(g, missing_entry_limit(b), what);
    lemma_tells(h, overlay_limit(b), what);
    lemma_tells(i, counted_limit(ratio), what);
    assert(limits_of(b, ratio) =~= i + counted_limit(ratio));
}

proof fn lemma_single(ls: Seq<LimitModel>, own: Seq<char>, what: Seq<char>)
    requires
        ls.len() == 0 || ls.len() == 1 && ls[0].obscured == own,
    ensures
        tells_of(ls, what) <==> ls.len() > 0 && own == what,
{
    if ls.len() > 0 && own == what {
        assert(ls[0].obscured == what);
    }
}

/// Does any section look packed?
pub open spec fn some_packed(secs: Seq<SectionModel>) -> bool {
    exists|i: int| 0 <= i < secs.len() && looks_packed(#[trigger] secs[i])
}

proof fn lemma_packed(secs: Seq<SectionModel>)
    ensures
        packed(secs).len() > 0 <==> some_packed(secs),
{
    let holds = |i: int| looks_packed(secs[i]);
    let places = law_packed_sections_are_dense_code(secs);
    assert(picks(places, 0, secs.len() as int, holds));
    if packed(secs).len() > 0 {
        assert(holds(places[0]));
    }
    if some_packed(secs) {
        let i = choose|i: int| 0 <= i < secs.len() && looks_packed(#[trigger] secs[i]);
        assert(holds(i));
        assert(places.contains(i));
    }
}

/// Does some section have a name that a packer leaves behind?
pub open spec fn some_packer(secs: Seq<SectionModel>) -> bool {
    exists|i: int, k: int|
        0 <= i < secs.len() && 0 <= k < 25 && same_but_for_case(
            (#[trigger] secs[i]).name,
            (#[trigger] SIGNATURES@[k]).1@,
        )
}

/// Each limit is told of exactly where it holds.
#[verifier::rlimit(60)]
pub proof fn law_limits_are_told_where_they_hold(b: BinaryModel, ratio: Option<(u64, u64)>)
    ensures
        ({
            let ls = limits_of(b, ratio);
            let total = total_functions(b.imports);
            &&& tells_of(ls, "the actual program logic"@) <==> (b.pe_meta matches Some(m)
                && m.is_dotnet)
            &&& tells_of(ls, "the real import table"@) <==> some_packed(b.sections) && total < 10
            &&& tells_of(ls, "the instructions in the packed section(s)"@) <==> some_packed(
                b.sections,
            ) && total >= 10
            &&& tells_of(ls, "the original code"@) <==> some_packer(b.sections)
            &&& tells_of(ls, "every API this program uses"@) <==> total == 0 && forall|i: int|
                0 <= i < b.attributes.len() ==> stands_nowhere(
                    #[trigger] b.attributes[i],
                    "statically linked"@,
                )
            &&& tells_of(ls, "any API resolved by name at runtime"@) <==> exists|s: Seq<char>|
                #[trigger] imports_lookup(b.imports, s)
            &&& tells_of(ls, "the code at the entry point"@) <==> exists|i: int| #[trigger]
                first_holding(b.sections, b.entry_point as int, i) && b.sections[i].writable
                    && b.sections[i].executable
            &&& tells_of(ls, "the entry point itself"@) <==> file_offset_of(
                b.sections,
                b.entry_point as int,
            ) is None
            &&& tells_of(ls, "appended data past the last section"@) <==> (b.overlay matches Some(o)
                && o.entropy.bits() >= 0x401c_0000_0000_0000)
            &&& tells_of(ls, "most of the call graph"@) <==> (ratio matches Some(r) && r.1 > r.0
                && r.1 > 20)
        }),
{
    lemma_packed(b.sections);
    law_packers_are_known_by_their_sections(b.sections, Seq::empty());
    law_first_section_holds(b.sections, b.entry_point as int);
    let found = in_order(resolvers(b.imports, b.imports.len() as int));
    assert(found.len() > 0 <==> exists|s: Seq<char>| #[trigger] imports_lookup(b.imports, s)) by {
        if found.len() > 0 {
            assert(found.contains(found[0]));
            law_lookups_are_reported(b.imports, found[0]);
        }
        if exists|s: Seq<char>| #[trigger] imports_lookup(b.imports, s) {
            let s = choose|s: Seq<char>| #[trigger] imports_lookup(b.imports, s);
            law_lookups_are_reported(b.imports, s);
            assert(found.contains(s));
        }
    }
    assert(statically_linked(b.attributes) <==> !(forall|i: int|
        0 <= i < b.attributes.len() ==> stands_nowhere(
            #[trigger] b.attributes[i],
            "statically linked"@,
        ))) by {
        assert forall|i: int| 0 <= i < b.attributes.len() implies (contains(
            #[trigger] b.attributes[i],
            "statically linked"@,
        ) <==> !stands_nowhere(b.attributes[i], "statically linked"@)) by {
            lemma_somewhere(b.attributes[i], "statically linked"@);
        }
    }
    lemma_titles_differ();
    lemma_told(b, ratio, "the actual program logic"@);
    lemma_told(b, ratio, "the real import table"@);
    lemma_told(b, ratio, "the instructions in the packed section(s)"@);
    lemma_told(b, ratio, "the original code"@);
    lemma_told(b, ratio, "every API this program uses"@);
    lemma_told(b, ratio, "any API resolved by name at runtime"@);
    lemma_told(b, ratio, "the code at the entry point"@);
    lemma_told(b, ratio, "the entry point itself"@);
    lemma_told(b, ratio, "appended data past the last section"@);
    lemma_told(b, ratio, "most of the call graph"@);
}

proof fn lemma_titles_differ()
    ensures
        "the actual program logic"@.len() == 24,
        "the real import table"@.len() == 21,
        "the instructions in the packed section(s)"@.len() == 41,
        "the original code"@.len() == 17,
        "every API this program uses"@.len() == 27,
        "every API this program uses"@[0] == 'e',
        "any API resolved by name at runtime"@.len() == 35,
        "any API resolved by name at runtime"@[1] == 'n',
        "the code at the entry point"@.len() == 27,
        "the code at the entry point"@[0] == 't',
        "the entry point itself"@.len() == 22,
        "the entry point itself"@[0] == 't',
        "appended data past the last section"@.len() == 35,
        "appended data past the last section"@[1] == 'p',
        "most of the call graph"@.len() == 22,
        "most of the call graph"@[0] == 'm',
{
    reveal_strlit("the actual program logic");
    reveal_strlit("the real import table");
    reveal_strlit("the instructions in the packed section(s)");
    reveal_strlit("the original code");
    reveal_strlit("every API this program uses");
    reveal_strlit("any API resolved by name at runtime");
    reveal_strlit("the code at the entry point");
    reveal_strlit("the entry point itself");
    reveal_strlit("appended data past the last section");
    reveal_strlit("most of the call graph");
}

#[verifier::rlimit(50)]
proof fn lemma_told(b: BinaryModel, ratio: Option<(u64, u64)>, what: Seq<char>)
    ensures
        tells_of(limits_of(b, ratio), what) <==> {
            ||| managed_limit(b).len() > 0 && what == "the actual program logic"@
            ||| packing_limit(b).len() > 0 && what == packing_limit(b)[0].obscured
            ||| packer_limit(b).len() > 0 && what == "the original code"@
            ||| import_limit(b).len() > 0 && what == "every API this program uses"@
            ||| resolver_limit(b).len() > 0 && what == "any API resolved by name at runtime"@
            ||| writable_entry_limit(b).len() > 0 && what == "the code at the entry point"@
            ||| missing_entry_limit(b).len() > 0 && what == "the entry point itself"@
            ||| overlay_limit(b).len() > 0 && what == "appended data past the last section"@
            ||| counted_limit(ratio).len() > 0 && what == "most of the call graph"@
        },
{
    lemma_parts(b, ratio, what);
    lemma_single(managed_limit(b), "the actual program logic"@, what);
    lemma_single(packing_limit(b), packing_limit(b)[0].obscured, what);
    lemma_single(packer_limit(b), "the original code"@, what);
    lemma_single(import_limit(b), "every API this program uses"@, what);
    lemma_single(resolver_limit(b), "any API resolved by name at runtime"@, what);
    lemma_single(writable_entry_limit(b), "the code at the entry point"@, what);
    lemma_single(missing_entry_limit(b), "the entry point itself"@, what);
    lemma_single(overlay_limit(b), "appended data past the last section"@, what);
    lemma_single(counted_limit(ratio), "most of the call graph"@, what);
}

/// Of several packed sections the one with the greatest entropy is told of, the
/// last of those that have it.
pub proof fn law_densest_section_is_told_of(secs: Seq<SectionModel>, n: int) -> (w: int)
    requires
        0 < n <= secs.len(),
    ensures
        0 <= w < n,
        worst_among(secs, n) == secs[w],
        forall|i: int| 0 <= i <= w ==> (#[trigger] secs[i]).entropy.bits() <= secs[w].entropy.bits(),
        forall|i: int| w < i < n ==> (#[trigger] secs[i]).entropy.bits() < secs[w].entropy.bits(),
    decreases n,
{
    if n == 1 {
        0
    } else {
        let w = law_densest_section_is_told_of(secs, n - 1);
        if secs[n - 1].entropy.bits() >= secs[w].entropy.bits() {
            n - 1
        } else {
            w
        }
    }
}

} // verus!
