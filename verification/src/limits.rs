//! What static analysis could not see in a sample.
//!
//! Each limit names the specific thing that the bytes refuse to reveal, the
//! evidence for that conclusion, and which technique takes over. None of them
//! judges the sample: a legitimate packed installer trips several. The reading
//! is always "static analysis stops here".
use crate::binary::{
    file_offset_of, managed, packed, section_holding, str_views, total_functions, Binary,
    BinaryModel, ImportModel, SectionModel,
};
use crate::entropy::{two_places, SEVEN};
use crate::order::{increasing, insert_unique, lemma_increasing_unique};
use crate::packers::packers_of;
use crate::search::{begins, contains, has, has_prefix, lowered, to_lower};
use crate::text::{
    dec, decimal, hex0x, hex_prefixed, join, joined, lemma_models_push, lemma_views_push, models,
    views,
};
pub use crate::wrapping::wrap;
use crate::wrapping::wrapped;
use vstd::prelude::*;

verus! {

pub struct Limit {
    /// What cannot be observed statically.
    pub obscured: &'static str,
    /// Why we say so: the specific measurement.
    pub evidence: String,
    /// Which technique answers it instead.
    pub next_step: &'static str,
}

pub ghost struct LimitModel {
    pub obscured: Seq<char>,
    pub evidence: Seq<char>,
    pub next_step: Seq<char>,
}

impl DeepView for Limit {
    type V = LimitModel;

    open spec fn deep_view(&self) -> LimitModel {
        LimitModel {
            obscured: self.obscured@,
            evidence: self.evidence@,
            next_step: self.next_step@,
        }
    }
}

/// Few enough imports that the table cannot describe a real program's behaviour.
pub const SPARSE_IMPORTS: usize = 10;

/// Functions whose presence means that the import table is incomplete by
/// construction: what is reached through them is resolved at runtime. Matched by
/// prefix, so that every variant of a name counts.
pub const API_RESOLVERS: [&'static str; 6] = [
    "getprocaddress",
    "loadlibrary",
    "ldrgetprocedureaddress",
    "ldrloaddll",
    "dlsym",
    "dlopen",
];

// ---------------------------------------------------------------------------
// Resolvers
// ---------------------------------------------------------------------------

/// Does the name belong to a function that resolves others?
pub open spec fn is_resolver(name: Seq<char>) -> bool {
    exists|i: int|
        0 <= i < API_RESOLVERS@.len() && begins(lowered(name), (#[trigger] API_RESOLVERS@[i])@)
}

/// The resolvers among the first `n` functions of a library, added to those
/// known.
pub open spec fn resolvers_in(known: Set<Seq<char>>, lib: ImportModel, n: int) -> Set<Seq<char>>
    decreases n,
{
    if n <= 0 {
        known
    } else {
        let rest = resolvers_in(known, lib, n - 1);
        if is_resolver(lib.functions[n - 1].name) {
            rest.insert(lib.functions[n - 1].name)
        } else {
            rest
        }
    }
}

/// The resolvers imported from the first `n` libraries.
pub open spec fn resolvers(imports: Seq<ImportModel>, n: int) -> Set<Seq<char>>
    decreases n,
{
    if n <= 0 {
        Set::empty()
    } else {
        resolvers_in(
            resolvers(imports, n - 1),
            imports[n - 1],
            imports[n - 1].functions.len() as int,
        )
    }
}

/// The members of a set of texts, in order.
pub open spec fn in_order(s: Set<Seq<char>>) -> Seq<Seq<char>> {
    choose|v: Seq<Seq<char>>| increasing(v) && #[trigger] v.to_set() == s
}

pub proof fn lemma_in_order(v: Seq<Seq<char>>, s: Set<Seq<char>>)
    requires
        increasing(v),
        v.to_set() == s,
    ensures
        in_order(s) == v,
{
    lemma_increasing_unique(in_order(s), v);
}

fn resolves(name: &str) -> (r: bool)
    ensures
        r == is_resolver(name@),
{
    let low = to_lower(name);
    for i in 0..API_RESOLVERS.len()
        invariant
            low@ == lowered(name@),
            forall|j: int|
                0 <= j < i ==> !begins(lowered(name@), (#[trigger] API_RESOLVERS@[j])@),
    {
        if has_prefix(low.as_str(), API_RESOLVERS[i]) {
            return true;
        }
    }
    false
}

/// The resolvers that this binary imports, in order.
fn imported_resolvers(bin: &Binary) -> (r: Vec<String>)
    ensures
        views(r@) == in_order(resolvers(models(bin.imports@), bin.imports@.len() as int)),
{
    let ghost imports = models(bin.imports@);
    let mut found: Vec<String> = Vec::new();
    proof {
        assert(views(found@).to_set() =~= Set::<Seq<char>>::empty());
    }
    for i in 0..bin.imports.len()
        invariant
            imports == models(bin.imports@),
            increasing(views(found@)),
            views(found@).to_set() == resolvers(imports, i as int),
    {
        let imp = &bin.imports[i];
        let ghost known = resolvers(imports, i as int);
        proof {
            assert(imports[i as int] == imp.deep_view());
        }
        for j in 0..imp.functions.len()
            invariant
                increasing(views(found@)),
                views(found@).to_set() == resolvers_in(known, imp.deep_view(), j as int),
        {
            proof {
                assert(imp.deep_view().functions[j as int].name == imp.functions@[j as int].name@);
            }
            let name = imp.functions[j].name.as_str();
            if resolves(name) {
                insert_unique(&mut found, name.to_string());
            }
        }
    }
    proof {
        lemma_in_order(views(found@), resolvers(imports, imports.len() as int));
    }
    found
}

// ---------------------------------------------------------------------------
// The limits
// ---------------------------------------------------------------------------

/// The limit, if it applies.
pub open spec fn only_if(applies: bool, l: LimitModel) -> Seq<LimitModel> {
    if applies {
        seq![l]
    } else {
        Seq::empty()
    }
}

/// A .NET assembly changes what every other reading means.
pub open spec fn managed_limit(b: BinaryModel) -> Seq<LimitModel> {
    only_if(
        managed(b.pe_meta),
        LimitModel {
            obscured: "the actual program logic"@,
            evidence:
                "the CLR data directory is present: this is a .NET assembly, and its real code is managed IL, not the native instructions sma disassembles"@,
            next_step:
                "decompile the IL with ILSpy or dnSpy -- native disassembly is the wrong lens here"@,
        },
    )
}

/// The names of sections.
pub open spec fn names_of(secs: Seq<SectionModel>) -> Seq<Seq<char>> {
    Seq::new(secs.len(), |i: int| secs[i].name)
}

/// The section of the highest entropy among the first `n`, the last of several.
pub open spec fn worst_among(secs: Seq<SectionModel>, n: int) -> SectionModel
    decreases n,
{
    if n <= 1 {
        secs[0]
    } else {
        let w = worst_among(secs, n - 1);
        if secs[n - 1].entropy.bits() >= w.entropy.bits() {
            secs[n - 1]
        } else {
            w
        }
    }
}

/// Code that cannot be read. With an import table too small to be real, the
/// imports are resolved after unpacking.
pub open spec fn packing_limit(b: BinaryModel) -> Seq<LimitModel> {
    let hard = packed(b.sections);
    let total = total_functions(b.imports);
    let worst = worst_among(hard, hard.len() as int);
    if hard.len() > 0 && total < SPARSE_IMPORTS {
        seq![
            LimitModel {
                obscured: "the real import table"@,
                evidence: dec(total) + " declared import(s) alongside packed section(s) ["@ + join(
                    names_of(hard),
                    ", "@,
                )
                    + "] -- too few to account for a working program, so the rest are resolved at runtime"@,
                next_step:
                    "run to the original entry point, then dump the unpacked image from memory"@,
            },
        ]
    } else if hard.len() > 0 {
        seq![
            LimitModel {
                obscured: "the instructions in the packed section(s)"@,
                evidence: "'"@ + worst.name + "' is executable and reads at "@ + two_places(
                    worst.entropy,
                )
                    + " bits/byte -- compressed or encrypted, not the code that ultimately runs"@,
                next_step: "break after the unpacking stub and dump the section from memory"@,
            },
        ]
    } else {
        Seq::empty()
    }
}

/// A named packer tells which tool to reach for.
pub open spec fn packer_limit(b: BinaryModel) -> Seq<LimitModel> {
    let hints = packers_of(b.sections);
    only_if(
        hints.len() > 0,
        LimitModel {
            obscured: "the original code"@,
            evidence: "section names match "@ + join(hints, " / "@)
                + " -- note this is a naming convention, trivially renamed, so confirm it against the entropy reading above"@,
            next_step:
                "unpack with the matching tool (e.g. `upx -d`), or dump at the original entry point"@,
        },
    )
}

/// Does an attribute say that the binary is statically linked?
pub open spec fn statically_linked(attributes: Seq<Seq<char>>) -> bool {
    exists|i: int|
        0 <= i < attributes.len() && contains(#[trigger] attributes[i], "statically linked"@)
}

/// Without imports, and not statically linked, the table was stripped or is
/// built at runtime.
pub open spec fn import_limit(b: BinaryModel) -> Seq<LimitModel> {
    only_if(
        total_functions(b.imports) == 0 && !statically_linked(b.attributes),
        LimitModel {
            obscured: "every API this program uses"@,
            evidence:
                "no imported functions were parsed, and this binary is not statically linked"@,
            next_step:
                "inspect the import address table in a debugger once the loader has filled it in"@,
        },
    )
}

/// With a resolver imported, other API names may never appear in the table.
pub open spec fn resolver_limit(b: BinaryModel) -> Seq<LimitModel> {
    let found = in_order(resolvers(b.imports, b.imports.len() as int));
    only_if(
        found.len() > 0,
        LimitModel {
            obscured: "any API resolved by name at runtime"@,
            evidence: join(found, ", "@)
                + " imported: whatever is reached through a resolver never appears in the import table, so the listing above is a floor, not a ceiling"@,
            next_step: "breakpoint the resolver and log the names it is asked for"@,
        },
    )
}

/// An entry point in memory that can be rewritten before it runs.
pub open spec fn writable_entry_limit(b: BinaryModel) -> Seq<LimitModel> {
    match section_holding(b.sections, b.entry_point as int) {
        Some(s) => only_if(
            s.writable && s.executable,
            LimitModel {
                obscured: "the code at the entry point"@,
                evidence: "the entry point "@ + hex0x(b.entry_point as int) + " sits in '"@ + s.name
                    + "', which is both writable and executable -- it can rewrite itself before the first instruction you'd read here runs"@,
                next_step: "break at the entry point and read the instructions from memory"@,
            },
        ),
        None => Seq::empty(),
    }
}

/// An entry point without bytes on disk.
pub open spec fn missing_entry_limit(b: BinaryModel) -> Seq<LimitModel> {
    only_if(
        file_offset_of(b.sections, b.entry_point as int) is None,
        LimitModel {
            obscured: "the entry point itself"@,
            evidence: "entry point "@ + hex0x(b.entry_point as int)
                + " has no bytes on disk -- it lands in space that only exists once the image is loaded"@,
            next_step: "let the loader map the image, then disassemble from memory"@,
        },
    )
}

/// Appended data that reads as compressed or encrypted.
pub open spec fn overlay_limit(b: BinaryModel) -> Seq<LimitModel> {
    match b.overlay {
        Some(o) => only_if(
            o.entropy.bits() >= SEVEN,
            LimitModel {
                obscured: "appended data past the last section"@,
                evidence: dec(o.size as int) + " byte(s) of overlay at file offset "@ + hex0x(
                    o.file_offset as int,
                ) + ", reading "@ + two_places(o.entropy)
                    + " bits/byte -- compressed or encrypted, and described by no header"@,
                next_step:
                    "carve the overlay at that offset and analyze it as a file in its own right"@,
            },
        ),
        None => Seq::empty(),
    }
}

/// Most calls without a static target: the call graph is a fraction of the real
/// one.
pub open spec fn calls_limit(resolved: u64, indirect: u64) -> Seq<LimitModel> {
    only_if(
        indirect > resolved && indirect > 20,
        LimitModel {
            obscured: "most of the call graph"@,
            evidence: dec(indirect as int) + " call site(s) computed at runtime against "@ + dec(
                resolved as int,
            )
                + " resolvable -- the majority of targets cannot be known without running the code (virtual dispatch, or deliberate indirection)"@,
            next_step: "resolve the targets at runtime, or with a tool that does value analysis"@,
        },
    )
}

/// The limits of what can be seen in a binary, given how many calls were
/// resolved and how many were not, where they were counted.
pub open spec fn limits_of(b: BinaryModel, ratio: Option<(u64, u64)>) -> Seq<LimitModel> {
    managed_limit(b) + packing_limit(b) + packer_limit(b) + import_limit(b) + resolver_limit(b)
        + writable_entry_limit(b) + missing_entry_limit(b) + overlay_limit(b) + (match ratio {
        Some((resolved, indirect)) => calls_limit(resolved, indirect),
        None => Seq::empty(),
    })
}

fn push_limit(
    limits: &mut Vec<Limit>,
    obscured: &'static str,
    evidence: String,
    next_step: &'static str,
)
    ensures
        models(final(limits)@) == models(old(limits)@) + seq![
            LimitModel { obscured: obscured@, evidence: evidence@, next_step: next_step@ },
        ],
{
    let l = Limit { obscured, evidence, next_step };
    proof {
        lemma_models_push(limits@, l);
        assert(models(limits@).push(l.deep_view()) =~= models(limits@) + seq![l.deep_view()]);
    }
    limits.push(l);
}

fn assess_packing(bin: &Binary, limits: &mut Vec<Limit>)
    ensures
        models(final(limits)@) == models(old(limits)@) + packing_limit(bin.deep_view()),
{
    let hard = bin.packed_sections();
    let total = bin.total_imported_functions();
    let ghost secs = packed(models(bin.sections@));
    if hard.len() > 0 && total < SPARSE_IMPORTS {
        let mut names: Vec<String> = Vec::new();
        for i in 0..hard.len()
            invariant
                models(hard@) == secs,
                views(names@) == names_of(secs).take(i as int),
        {
            let name = hard[i].name.clone();
            proof {
                assert(secs[i as int] == hard@[i as int].deep_view());
                lemma_views_push(names@, name);
                assert(names_of(secs).take(i + 1) =~= names_of(secs).take(i as int).push(name@));
            }
            names.push(name);
        }
        proof {
            assert(names_of(secs).take(secs.len() as int) =~= names_of(secs));
        }
        let mut e = decimal(total as u64);
        e.append(" declared import(s) alongside packed section(s) [");
        e.append(joined(&names, ", ").as_str());
        e.append(
            "] -- too few to account for a working program, so the rest are resolved at runtime",
        );
        push_limit(
            limits,
            "the real import table",
            e,
            "run to the original entry point, then dump the unpacked image from memory",
        );
    } else if hard.len() > 0 {
        let mut worst: usize = 0;
        for i in 1..hard.len()
            invariant
                models(hard@) == secs,
                worst < hard@.len(),
                1 <= i,
                secs[worst as int] == worst_among(secs, i as int),
        {
            proof {
                assert(secs[i as int] == hard@[i as int].deep_view());
                assert(secs[worst as int] == hard@[worst as int].deep_view());
            }
            if hard[i].entropy.reaches(hard[worst].entropy.to_bits()) {
                worst = i;
            }
        }
        proof {
            assert(secs[worst as int] == hard@[worst as int].deep_view());
        }
        let mut e = "'".to_string();
        e.append(hard[worst].name.as_str());
        e.append("' is executable and reads at ");
        e.append(hard[worst].entropy.to_two_places().as_str());
        e.append(" bits/byte -- compressed or encrypted, not the code that ultimately runs");
        push_limit(
            limits,
            "the instructions in the packed section(s)",
            e,
            "break after the unpacking stub and dump the section from memory",
        );
    } else {
        proof {
            assert(models(limits@) + Seq::<LimitModel>::empty() =~= models(limits@));
        }
    }
}

/// Owned copies of string slices.
pub fn owned(v: &Vec<&'static str>) -> (r: Vec<String>)
    ensures
        views(r@) == str_views(v@),
{
    let mut out: Vec<String> = Vec::new();
    for i in 0..v.len()
        invariant
            views(out@) == str_views(v@).take(i as int),
    {
        let s = v[i].to_string();
        proof {
            lemma_views_push(out@, s);
            assert(str_views(v@).take(i + 1) =~= str_views(v@).take(i as int).push(s@));
        }
        out.push(s);
    }
    proof {
        assert(str_views(v@).take(v@.len() as int) =~= str_views(v@));
    }
    out
}

fn assess_packer(bin: &Binary, limits: &mut Vec<Limit>)
    ensures
        models(final(limits)@) == models(old(limits)@) + packer_limit(bin.deep_view()),
{
    let hints = bin.packer_hints();
    if hints.len() > 0 {
        let mut e = "section names match ".to_string();
        e.append(joined(&owned(&hints), " / ").as_str());
        e.append(
            " -- note this is a naming convention, trivially renamed, so confirm it against the entropy reading above",
        );
        push_limit(
            limits,
            "the original code",
            e,
            "unpack with the matching tool (e.g. `upx -d`), or dump at the original entry point",
        );
    } else {
        proof {
            assert(packers_of(models(bin.sections@)).len() == 0);
            assert(models(limits@) + Seq::<LimitModel>::empty() =~= models(limits@));
        }
    }
}

fn is_statically_linked(attributes: &Vec<String>) -> (r: bool)
    ensures
        r == statically_linked(views(attributes@)),
{
    for i in 0..attributes.len()
        invariant
            forall|j: int|
                0 <= j < i ==> !contains(
                    #[trigger] views(attributes@)[j],
                    "statically linked"@,
                ),
    {
        if has(attributes[i].as_str(), "statically linked") {
            proof {
                assert(contains(views(attributes@)[i as int], "statically linked"@));
            }
            return true;
        }
    }
    false
}

fn assess_imports_listed(bin: &Binary, limits: &mut Vec<Limit>)
    ensures
        models(final(limits)@) == models(old(limits)@) + import_limit(bin.deep_view())
            + resolver_limit(bin.deep_view()),
{
    let ghost first = models(limits@);
    if bin.total_imported_functions() == 0 && !is_statically_linked(&bin.attributes) {
        push_limit(
            limits,
            "every API this program uses",
            "no imported functions were parsed, and this binary is not statically linked".to_string(),
            "inspect the import address table in a debugger once the loader has filled it in",
        );
    }
    proof {
        assert(models(limits@) =~= first + import_limit(bin.deep_view()));
    }
    let found = imported_resolvers(bin);
    if found.len() > 0 {
        let mut e = joined(&found, ", ");
        e.append(
            " imported: whatever is reached through a resolver never appears in the import table, so the listing above is a floor, not a ceiling",
        );
        push_limit(
            limits,
            "any API resolved by name at runtime",
            e,
            "breakpoint the resolver and log the names it is asked for",
        );
    } else {
        proof {
            assert(views(found@).len() == 0);
            assert(models(limits@) + Seq::<LimitModel>::empty() =~= models(limits@));
        }
    }
}

fn assess_entry(bin: &Binary, limits: &mut Vec<Limit>)
    ensures
        models(final(limits)@) == models(old(limits)@) + writable_entry_limit(bin.deep_view())
            + missing_entry_limit(bin.deep_view()),
{
    let ghost first = models(limits@);
    if let Some(sec) = bin.section_at(bin.entry_point) {
        if sec.is_writable_and_executable() {
            let mut e = "the entry point ".to_string();
            e.append(hex_prefixed(bin.entry_point).as_str());
            e.append(" sits in '");
            e.append(sec.name.as_str());
            e.append(
                "', which is both writable and executable -- it can rewrite itself before the first instruction you'd read here runs",
            );
            push_limit(
                limits,
                "the code at the entry point",
                e,
                "break at the entry point and read the instructions from memory",
            );
        }
    }
    proof {
        assert(models(limits@) =~= first + writable_entry_limit(bin.deep_view()));
    }
    let ghost second = models(limits@);
    if bin.va_to_file_offset(bin.entry_point).is_none() {
        let mut e = "entry point ".to_string();
        e.append(hex_prefixed(bin.entry_point).as_str());
        e.append(
            " has no bytes on disk -- it lands in space that only exists once the image is loaded",
        );
        push_limit(
            limits,
            "the entry point itself",
            e,
            "let the loader map the image, then disassemble from memory",
        );
    }
    proof {
        assert(models(limits@) =~= second + missing_entry_limit(bin.deep_view()));
    }
}

fn assess_overlay(bin: &Binary, limits: &mut Vec<Limit>)
    ensures
        models(final(limits)@) == models(old(limits)@) + overlay_limit(bin.deep_view()),
{
    let ghost first = models(limits@);
    if let Some(o) = &bin.overlay {
        if o.entropy.reaches(SEVEN) {
            let mut e = decimal(o.size);
            e.append(" byte(s) of overlay at file offset ");
            e.append(hex_prefixed(o.file_offset).as_str());
            e.append(", reading ");
            e.append(o.entropy.to_two_places().as_str());
            e.append(" bits/byte -- compressed or encrypted, and described by no header");
            push_limit(
                limits,
                "appended data past the last section",
                e,
                "carve the overlay at that offset and analyze it as a file in its own right",
            );
        }
    }
    proof {
        assert(models(limits@) =~= first + overlay_limit(bin.deep_view()));
    }
}

/// The limits of what can be seen in this binary. `indirect_ratio` is the number
/// of calls with a known target and of those without, where they were counted.
pub fn assess(bin: &Binary, indirect_ratio: Option<(u64, u64)>) -> (r: Vec<Limit>)
    ensures
        models(r@) == limits_of(bin.deep_view(), indirect_ratio),
{
    let ghost b = bin.deep_view();
    let mut limits: Vec<Limit> = Vec::new();
    if bin.is_dotnet() {
        push_limit(
            &mut limits,
            "the actual program logic",
            "the CLR data directory is present: this is a .NET assembly, and its real code is managed IL, not the native instructions sma disassembles".to_string(),
            "decompile the IL with ILSpy or dnSpy -- native disassembly is the wrong lens here",
        );
    }
    proof {
        assert(models(limits@) =~= managed_limit(b));
    }
    assess_packing(bin, &mut limits);
    assess_packer(bin, &mut limits);
    assess_imports_listed(bin, &mut limits);
    assess_entry(bin, &mut limits);
    assess_overlay(bin, &mut limits);
    if let Some((resolved, indirect)) = indirect_ratio {
        if let Some(l) = call_graph_limit(resolved, indirect) {
            proof {
                lemma_models_push(limits@, l);
                assert(models(limits@).push(l.deep_view()) =~= models(limits@) + seq![
                    l.deep_view(),
                ]);
            }
            limits.push(l);
        } else {
            proof {
                assert(models(limits@) + Seq::<LimitModel>::empty() =~= models(limits@));
            }
        }
    } else {
        proof {
            assert(models(limits@) + Seq::<LimitModel>::empty() =~= models(limits@));
        }
    }
    limits
}

pub open spec fn option_limit(l: Option<Limit>) -> Seq<LimitModel> {
    match l {
        Some(x) => seq![x.deep_view()],
        None => Seq::empty(),
    }
}

/// The limit that is set by calls without a static target. `resolved` covers
/// calls to a known address or a named API.
pub fn call_graph_limit(resolved: u64, indirect: u64) -> (r: Option<Limit>)
    ensures
        option_limit(r) == calls_limit(resolved, indirect),
{
    if indirect <= resolved || indirect <= 20 {
        return None;
    }
    let mut e = decimal(indirect);
    e.append(" call site(s) computed at runtime against ");
    e.append(decimal(resolved).as_str());
    e.append(
        " resolvable -- the majority of targets cannot be known without running the code (virtual dispatch, or deliberate indirection)",
    );
    Some(
        Limit {
            obscured: "most of the call graph",
            evidence: e,
            next_step: "resolve the targets at runtime, or with a tool that does value analysis",
        },
    )
}

// ---------------------------------------------------------------------------
// Text
// ---------------------------------------------------------------------------

/// One limit in the report.
pub open spec fn limit_text(l: LimitModel) -> Seq<char> {
    "  cannot see   : "@ + l.obscured + "\n    because    : "@ + wrapped(l.evidence, 76, 17)
        + "\n    next step  : "@ + l.next_step + "\n"@
}

/// The first `n` limits in the report.
pub open spec fn limit_texts(ls: Seq<LimitModel>, n: int) -> Seq<char>
    decreases n,
{
    if n <= 0 {
        Seq::empty()
    } else {
        limit_texts(ls, n - 1) + limit_text(ls[n - 1])
    }
}

/// The closing section of a report.
pub open spec fn limits_text(ls: Seq<LimitModel>) -> Seq<char> {
    if ls.len() == 0 {
        "limits         : nothing detected that static analysis cannot reach\n                 (this says the structure is readable, not that the file is safe)\n"@
    } else {
        "limits         : "@ + dec(ls.len() as int)
            + " thing(s) static analysis cannot resolve here\n"@ + limit_texts(
            ls,
            ls.len() as int,
        )
    }
}

fn write_limit(l: &Limit) -> (r: String)
    ensures
        r@ == limit_text(l.deep_view()),
{
    let mut s = "  cannot see   : ".to_string();
    s.append(l.obscured);
    s.append("\n    because    : ");
    s.append(wrap(l.evidence.as_str(), 76, 17).as_str());
    s.append("\n    next step  : ");
    s.append(l.next_step);
    s.append("\n");
    s
}

/// The closing section of a report.
pub fn render_limits(limits: &[Limit]) -> (r: String)
    ensures
        r@ == limits_text(models(limits@)),
{
    if limits.len() == 0 {
        return "limits         : nothing detected that static analysis cannot reach\n                 (this says the structure is readable, not that the file is safe)\n".to_string();
    }
    let mut body = String::new();
    for i in 0..limits.len()
        invariant
            body@ == limit_texts(models(limits@), i as int),
    {
        proof {
            assert(models(limits@)[i as int] == limits@[i as int].deep_view());
        }
        body.append(write_limit(&limits[i]).as_str());
    }
    let mut s = "limits         : ".to_string();
    s.append(decimal(limits.len() as u64).as_str());
    s.append(" thing(s) static analysis cannot resolve here\n");
    s.append(body.as_str());
    s
}

/// Writes the closing section of a report.
pub fn write(w: &mut String, limits: &[Limit])
    ensures
        final(w)@ == old(w)@ + limits_text(models(limits@)),
{
    w.append(render_limits(limits).as_str());
}

// ---------------------------------------------------------------------------
// Laws
// ---------------------------------------------------------------------------

/// Code that reads as packed is always reported: as hiding the imports where
/// there are few of them, else as hiding the instructions.
pub proof fn law_packed_code_is_reported(b: BinaryModel, ratio: Option<(u64, u64)>)
    requires
        packed(b.sections).len() > 0,
    ensures
        limits_of(b, ratio).contains(packing_limit(b)[0]),
        packing_limit(b)[0].obscured == (if total_functions(b.imports) < SPARSE_IMPORTS {
            "the real import table"@
        } else {
            "the instructions in the packed section(s)"@
        }),
{
    assert(limits_of(b, ratio)[managed_limit(b).len() as int] == packing_limit(b)[0]);
}

/// A binary whose code and imports can be read, with its entry point on disk and
/// nothing opaque behind it, has no limits.
pub proof fn law_readable_binary_has_no_limits(b: BinaryModel)
    requires
        !managed(b.pe_meta),
        packed(b.sections).len() == 0,
        packers_of(b.sections).len() == 0,
        total_functions(b.imports) > 0,
        in_order(resolvers(b.imports, b.imports.len() as int)).len() == 0,
        section_holding(b.sections, b.entry_point as int) matches Some(s) ==> !(s.writable
            && s.executable),
        file_offset_of(b.sections, b.entry_point as int) is Some,
        b.overlay matches Some(o) ==> o.entropy.bits() < SEVEN,
    ensures
        limits_of(b, None).len() == 0,
{
}

} // verus!
