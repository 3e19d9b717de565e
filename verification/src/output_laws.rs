//! What every output shows: nothing that was found is left out, and all of it
//! stands in order.
use crate::binary::{
    entropy_reading, format_name, lesser, packed, total_functions, BinaryModel, ExportModel, Format,
    ImportModel, ImportedFnModel, Overlay, PeMetaModel, SectionModel,
};
use crate::calendar::civil_of;
use crate::entropy::three_places;
use crate::limits::{limit_texts, limits_of, limits_text, names_of, LimitModel};
use crate::packers::packers_of;
use crate::report::{
    attributes_text, base_meaning, capabilities_text, dotnet_note, entry_meaning, export_lines,
    exports_text, finding_lines, forwarded, forwarded_text, function_line, function_lines,
    header_text, hexes, imports_text, ioc_lines, libraries_word, library_texts, metadata_text,
    mitigations_text, more_exports, overlay_text, packer_text, packing_text, report_text,
    resources_note, rwx_text, section_lines, sections_text, signature_note, stamp_text,
    strings_text, timestamp_text, tls_note, IMPORTS_NOTE, MARGIN, SECTION_COLUMNS,
};
use crate::rules::{findings_of, severity_name, FindingModel};
use crate::search::{contains, stands_at};
use crate::strings::{kind_name, IocModel};
use crate::text::{dec, hex0x, hex0x_padded, join, pad_end, pad_start};
use crate::wrapping::wrapped;
use vstd::prelude::*;

verus! {

/// What stands at a place of a text is contained in it.
pub proof fn lemma_at(s: Seq<char>, p: Seq<char>, i: int)
    requires
        0 <= i,
        i + p.len() <= s.len(),
        s.subrange(i, i + p.len()) == p,
    ensures
        contains(s, p),
{
    assert(stands_at(s, p, i));
}

// ---------------------------------------------------------------------------
// The report
// ---------------------------------------------------------------------------

/// The line of a section: its name, entropy, size, permissions and what they
/// suggest.
pub open spec fn line_of_section(s: SectionModel) -> Seq<char> {
    let title = if s.name.len() == 0 {
        "(unnamed)"@
    } else {
        s.name
    };
    let note = if s.executable && s.entropy.bits() >= 0x401c_0000_0000_0000 {
        "<- PACKED? (exec + high entropy)"@
    } else if s.writable && s.executable {
        "<- W+X"@
    } else {
        ""@
    };
    "  "@ + pad_end(title, 14) + " "@ + pad_start(three_places(s.entropy), 7, ' ') + "  "@
        + pad_start(dec(s.file_size as int), 10, ' ') + "  "@ + pad_end(rwx_text(s), 5) + " "@
        + pad_end(entropy_reading(s.entropy), 17) + " "@ + note + "\n"@
}

proof fn lemma_section_lines(secs: Seq<SectionModel>, n: int)
    requires
        0 <= n <= secs.len(),
    ensures
        section_lines(secs, n) == Seq::new(n as nat, |i: int| line_of_section(secs[i])).flatten(),
    decreases n,
{
    let all = Seq::new(n as nat, |i: int| line_of_section(secs[i]));
    if n > 0 {
        lemma_section_lines(secs, n - 1);
        let before = Seq::new((n - 1) as nat, |i: int| line_of_section(secs[i]));
        assert(all =~= before.push(line_of_section(secs[n - 1])));
        before.lemma_flatten_push(line_of_section(secs[n - 1]));
    } else {
        assert(all.flatten() =~= Seq::<char>::empty());
    }
}

/// The permissions of a section are told by a letter or a dash each.
pub proof fn law_permissions_are_told_by_letters(s: SectionModel)
    ensures
        rwx_text(s).len() == 3,
        rwx_text(s)[0] == (if s.readable {
            'R'
        } else {
            '-'
        }),
        rwx_text(s)[1] == (if s.writable {
            'W'
        } else {
            '-'
        }),
        rwx_text(s)[2] == (if s.executable {
            'X'
        } else {
            '-'
        }),
{
    reveal_strlit("R");
    reveal_strlit("W");
    reveal_strlit("X");
    reveal_strlit("-");
}

#[verifier::rlimit(50)]
proof fn lemma_parts_of(
    a: Seq<char>,
    m: Seq<char>,
    s: Seq<char>,
    i: Seq<char>,
    e: Seq<char>,
    c: Seq<char>,
    t: Seq<char>,
    o: Seq<char>,
    n: Seq<char>,
    l: Seq<char>,
)
    ensures
        ({
            let r = a + m + s + i + e + c + t + o + n + l;
            &&& contains(r, a)
            &&& contains(r, m)
            &&& contains(r, s)
            &&& contains(r, i)
            &&& contains(r, e)
            &&& contains(r, c)
            &&& contains(r, t)
            &&& contains(r, o)
            &&& contains(r, l)
        }),
{
    let r1 = a + m;
    let r2 = r1 + s;
    let r3 = r2 + i;
    let r4 = r3 + e;
    let r5 = r4 + c;
    let r6 = r5 + t;
    let r7 = r6 + o;
    let r8 = r7 + n;
    let r = r8 + l;
    lemma_join(a, m);
    lemma_join(r1, s);
    lemma_join(r2, i);
    lemma_join(r3, e);
    lemma_join(r4, c);
    lemma_join(r5, t);
    lemma_join(r6, o);
    lemma_join(r7, n);
    lemma_join(r8, l);
    lemma_within(r, r8, r7);
    lemma_within(r, r7, r6);
    lemma_within(r, r6, r5);
    lemma_within(r, r5, r4);
    lemma_within(r, r4, r3);
    lemma_within(r, r3, r2);
    lemma_within(r, r2, r1);
    lemma_within(r, r1, a);
    lemma_within(r, r1, m);
    lemma_within(r, r2, s);
    lemma_within(r, r3, i);
    lemma_within(r, r4, e);
    lemma_within(r, r5, c);
    lemma_within(r, r6, t);
    lemma_within(r, r7, o);
}

/// Two texts, one behind the other, contain each of them.
pub proof fn lemma_join(a: Seq<char>, b: Seq<char>)
    ensures
        contains(a + b, a),
        contains(a + b, b),
{
    assert((a + b).subrange(0, a.len() as int) =~= a);
    lemma_at(a + b, a, 0);
    assert((a + b).subrange(a.len() as int, (a + b).len() as int) =~= b);
    lemma_at(a + b, b, a.len() as int);
}

proof fn lemma_report_parts(path: Seq<char>, len: int, b: BinaryModel)
    ensures
        contains(report_text(path, len, b), header_text(path, len, b)),
        contains(report_text(path, len, b), metadata_text(b)),
        contains(report_text(path, len, b), sections_text(b)),
        contains(report_text(path, len, b), imports_text(b)),
        contains(report_text(path, len, b), exports_text(b)),
        contains(report_text(path, len, b), capabilities_text(findings_of(b.imports))),
        contains(report_text(path, len, b), strings_text(b.strings)),
        contains(report_text(path, len, b), overlay_text(b.overlay)),
        contains(report_text(path, len, b), limits_text(limits_of(b, None))),
{
    lemma_parts_of(
        header_text(path, len, b),
        metadata_text(b),
        sections_text(b),
        imports_text(b),
        exports_text(b),
        capabilities_text(findings_of(b.imports)),
        strings_text(b.strings),
        overlay_text(b.overlay),
        "\n"@,
        limits_text(limits_of(b, None)),
    );
}

/// What a part of a text contains, the text contains.
pub proof fn lemma_within(s: Seq<char>, part: Seq<char>, p: Seq<char>)
    requires
        contains(s, part),
        contains(part, p),
    ensures
        contains(s, p),
{
    let i = choose|i: int| stands_at(s, part, i);
    let j = choose|j: int| stands_at(part, p, j);
    assert(s.subrange(i + j, i + j + p.len()) =~= p) by {
        assert forall|k: int| 0 <= k < p.len() implies s[i + j + k] == p[k] by {
            assert(part.subrange(j, j + p.len())[k] == p[k]);
            assert(s.subrange(i, i + part.len())[j + k] == part[j + k]);
        }
    }
    lemma_at(s, p, i + j);
}

/// The report has a line for each section, in order.
pub proof fn law_report_has_a_line_for_each_section(path: Seq<char>, len: int, b: BinaryModel)
    ensures
        contains(
            report_text(path, len, b),
            Seq::new(b.sections.len(), |i: int| line_of_section(b.sections[i])).flatten(),
        ),
{
    let lines = section_lines(b.sections, b.sections.len() as int);
    let s = sections_text(b);
    let at = SECTION_COLUMNS@.len() as int;
    lemma_section_lines(b.sections, b.sections.len() as int);
    lemma_report_parts(path, len, b);
    assert(s.subrange(at, at + lines.len()) =~= lines);
    lemma_at(s, lines, at);
    lemma_within(report_text(path, len, b), s, lines);
}

/// The line of an imported function: its slot, where it has one, and its name.
pub open spec fn line_of_import(f: ImportedFnModel) -> Seq<char> {
    match f.iat_rva {
        Some(slot) => "      "@ + hex0x_padded(slot as int, 8) + "  "@ + f.name + "\n"@,
        None => "                  "@ + f.name + "\n"@,
    }
}

/// The lines of a library: its name, how many functions are imported from it, and
/// each of them.
pub open spec fn lines_of_library(lib: ImportModel) -> Seq<char> {
    "\n  "@ + lib.dll + " ("@ + dec(lib.functions.len() as int) + " function(s))\n"@ + Seq::new(
        lib.functions.len(),
        |j: int| line_of_import(lib.functions[j]),
    ).flatten()
}

proof fn lemma_function_lines(fs: Seq<ImportedFnModel>, n: int)
    requires
        0 <= n <= fs.len(),
    ensures
        function_lines(fs, n) == Seq::new(n as nat, |i: int| line_of_import(fs[i])).flatten(),
    decreases n,
{
    let all = Seq::new(n as nat, |i: int| line_of_import(fs[i]));
    if n > 0 {
        lemma_function_lines(fs, n - 1);
        let before = Seq::new((n - 1) as nat, |i: int| line_of_import(fs[i]));
        assert(all =~= before.push(line_of_import(fs[n - 1])));
        before.lemma_flatten_push(line_of_import(fs[n - 1]));
        assert(function_line(fs[n - 1]) == line_of_import(fs[n - 1]));
    } else {
        assert(all.flatten() =~= Seq::<char>::empty());
    }
}

proof fn lemma_library_texts(libs: Seq<ImportModel>, n: int)
    requires
        0 <= n <= libs.len(),
    ensures
        library_texts(libs, n) == Seq::new(n as nat, |i: int| lines_of_library(libs[i])).flatten(),
    decreases n,
{
    let all = Seq::new(n as nat, |i: int| lines_of_library(libs[i]));
    if n > 0 {
        lemma_library_texts(libs, n - 1);
        let before = Seq::new((n - 1) as nat, |i: int| lines_of_library(libs[i]));
        assert(all =~= before.push(lines_of_library(libs[n - 1])));
        before.lemma_flatten_push(lines_of_library(libs[n - 1]));
        lemma_function_lines(libs[n - 1].functions, libs[n - 1].functions.len() as int);
    } else {
        assert(all.flatten() =~= Seq::<char>::empty());
    }
}

/// The report lists every library that is imported from, in order, with all of
/// its functions.
#[verifier::rlimit(50)]
pub proof fn law_report_lists_every_library(path: Seq<char>, len: int, b: BinaryModel)
    ensures
        contains(
            report_text(path, len, b),
            Seq::new(b.imports.len(), |i: int| lines_of_library(b.imports[i])).flatten(),
        ),
{
    let n = b.imports.len() as int;
    let lines = library_texts(b.imports, n);
    let s = imports_text(b);
    lemma_library_texts(b.imports, n);
    lemma_report_parts(path, len, b);
    if n == 0 {
        assert(s.subrange(0, 0) =~= lines);
        lemma_at(s, lines, 0);
    } else {
        let note = IMPORTS_NOTE@;
        let head = "imports        : "@ + dec(n) + " "@ + libraries_word(b.format)
            + ", "@ + dec(total_functions(b.imports)) + " function(s)\n"@;
        lemma_join(note, lines);
        lemma_join(head, note + lines);
        lemma_join(head + (note + lines), "\n"@);
        lemma_within(s, head + (note + lines), note + lines);
        lemma_within(s, note + lines, lines);
    }
    lemma_within(report_text(path, len, b), s, lines);
}

/// The line of an export: its name, and its address or where it is forwarded to.
pub open spec fn line_of_export(e: ExportModel) -> Seq<char> {
    match e.forwarder {
        Some(f) => "  "@ + pad_end(e.name, 32) + " -> "@ + f + "  (forwarder)\n"@,
        None => "  "@ + pad_end(e.name, 32) + " "@ + hex0x(e.rva as int) + "\n"@,
    }
}

proof fn lemma_export_lines(es: Seq<ExportModel>, n: int)
    requires
        0 <= n <= es.len(),
    ensures
        export_lines(es, n) == Seq::new(n as nat, |i: int| line_of_export(es[i])).flatten(),
    decreases n,
{
    let all = Seq::new(n as nat, |i: int| line_of_export(es[i]));
    if n > 0 {
        lemma_export_lines(es, n - 1);
        let before = Seq::new((n - 1) as nat, |i: int| line_of_export(es[i]));
        assert(all =~= before.push(line_of_export(es[n - 1])));
        before.lemma_flatten_push(line_of_export(es[n - 1]));
    } else {
        assert(all.flatten() =~= Seq::<char>::empty());
    }
}

proof fn lemma_forwarded(es: Seq<ExportModel>, n: int)
    requires
        0 <= n <= es.len(),
    ensures
        forwarded(es, n) == es.take(n).filter(|e: ExportModel| e.forwarder is Some).len(),
    decreases n,
{
    reveal(Seq::filter);
    if n > 0 {
        lemma_forwarded(es, n - 1);
        assert(es.take(n).drop_last() =~= es.take(n - 1));
        assert(es.take(n).last() == es[n - 1]);
    }
}

/// The report counts the exports, and those that are forwarded.
pub proof fn law_forwarded_exports_are_counted(es: Seq<ExportModel>)
    ensures
        forwarded(es, es.len() as int) == es.filter(|e: ExportModel| e.forwarder is Some).len(),
{
    lemma_forwarded(es, es.len() as int);
    assert(es.take(es.len() as int) =~= es);
}

/// The report lists the first 20 exports, in order, and says how many more there
/// are.
#[verifier::rlimit(50)]
pub proof fn law_report_lists_the_exports(path: Seq<char>, len: int, b: BinaryModel, n: int)
    requires
        0 < b.exports.len(),
        n == b.exports.len() && n <= 20 || n == 20 && n < b.exports.len(),
    ensures
        contains(
            report_text(path, len, b),
            Seq::new(n as nat, |i: int| line_of_export(b.exports[i])).flatten(),
        ),
        n < b.exports.len() ==> contains(
            report_text(path, len, b),
            "  ... "@ + dec(b.exports.len() - n) + " more\n"@,
        ),
{
    let lines = export_lines(b.exports, n);
    let s = exports_text(b);
    let more = more_exports(b.exports.len() as int);
    lemma_export_lines(b.exports, n);
    lemma_report_parts(path, len, b);
    let total = b.exports.len() as int;
    let head = "exports        : "@ + dec(total) + " function(s)"@ + forwarded_text(
        forwarded(b.exports, total),
    ) + "\n"@;
    lemma_join(head, lines);
    lemma_join(head + lines, more);
    lemma_join(head + lines + more, "\n"@);
    lemma_within(s, head + lines + more, head + lines);
    lemma_within(s, head + lines, lines);
    lemma_within(s, head + lines + more, more);
    lemma_within(report_text(path, len, b), s, lines);
    lemma_within(report_text(path, len, b), s, more);
}

/// The line of a finding: its severity, the capability, and what matched.
pub open spec fn line_of_finding(f: FindingModel) -> Seq<char> {
    "  ["@ + severity_name(f.severity) + "] "@ + f.capability + ": "@ + join(f.matched, ", "@)
        + "\n"@
}

proof fn lemma_finding_lines(fs: Seq<FindingModel>, n: int)
    requires
        0 <= n <= fs.len(),
    ensures
        finding_lines(fs, n) == Seq::new(n as nat, |i: int| line_of_finding(fs[i])).flatten(),
    decreases n,
{
    let all = Seq::new(n as nat, |i: int| line_of_finding(fs[i]));
    if n > 0 {
        lemma_finding_lines(fs, n - 1);
        let before = Seq::new((n - 1) as nat, |i: int| line_of_finding(fs[i]));
        assert(all =~= before.push(line_of_finding(fs[n - 1])));
        before.lemma_flatten_push(line_of_finding(fs[n - 1]));
    } else {
        assert(all.flatten() =~= Seq::<char>::empty());
    }
}

/// The report lists every finding on the imports, in order.
pub proof fn law_report_lists_the_findings(path: Seq<char>, len: int, b: BinaryModel)
    ensures
        ({
            let fs = findings_of(b.imports);
            contains(
                report_text(path, len, b),
                Seq::new(fs.len(), |i: int| line_of_finding(fs[i])).flatten(),
            )
        }),
{
    let fs = findings_of(b.imports);
    let n = fs.len() as int;
    let lines = finding_lines(fs, n);
    let s = capabilities_text(fs);
    lemma_finding_lines(fs, n);
    lemma_report_parts(path, len, b);
    if n == 0 {
        assert(s.subrange(0, 0) =~= lines);
        lemma_at(s, lines, 0);
    } else {
        let at = s.len() - lines.len() - "\n"@.len();
        assert(s.subrange(at, at + lines.len()) =~= lines);
        lemma_at(s, lines, at);
    }
    lemma_within(report_text(path, len, b), s, lines);
}

/// The line of an indicator.
pub open spec fn line_of_ioc(i: IocModel) -> Seq<char> {
    "  ["@ + kind_name(i.kind) + "] "@ + i.value + "\n"@
}

proof fn lemma_ioc_lines(v: Seq<IocModel>, n: int)
    requires
        0 <= n <= v.len(),
    ensures
        ioc_lines(v, n) == Seq::new(n as nat, |i: int| line_of_ioc(v[i])).flatten(),
    decreases n,
{
    let all = Seq::new(n as nat, |i: int| line_of_ioc(v[i]));
    if n > 0 {
        lemma_ioc_lines(v, n - 1);
        let before = Seq::new((n - 1) as nat, |i: int| line_of_ioc(v[i]));
        assert(all =~= before.push(line_of_ioc(v[n - 1])));
        before.lemma_flatten_push(line_of_ioc(v[n - 1]));
    } else {
        assert(all.flatten() =~= Seq::<char>::empty());
    }
}

/// The report lists the first 15 indicators, in order.
#[verifier::rlimit(50)]
pub proof fn law_report_lists_the_indicators(path: Seq<char>, len: int, b: BinaryModel, n: int)
    requires
        n == b.strings.iocs.len() && n <= 15 || n == 15 && n < b.strings.iocs.len(),
    ensures
        contains(
            report_text(path, len, b),
            Seq::new(n as nat, |i: int| line_of_ioc(b.strings.iocs[i])).flatten(),
        ),
{
    let lines = ioc_lines(b.strings.iocs, n);
    let s = strings_text(b.strings);
    lemma_ioc_lines(b.strings.iocs, n);
    lemma_report_parts(path, len, b);
    if b.strings.iocs.len() == 0 {
        assert(s.subrange(0, 0) =~= lines);
        lemma_at(s, lines, 0);
    } else {
        let head = "strings        : "@ + dec(b.strings.ascii_count as int) + " ascii, "@ + dec(
            b.strings.wide_count as int,
        ) + " wide\n"@;
        let title = "IOCs           : "@ + dec(b.strings.iocs.len() as int)
            + " unique (showing up to 15)\n"@;
        lemma_join(title, lines);
        lemma_join(head, title + lines);
        lemma_within(s, title + lines, lines);
    }
    lemma_within(report_text(path, len, b), s, lines);
}

/// The lines of a limit: what cannot be seen, why, and what to do about it.
pub open spec fn lines_of_limit(l: LimitModel) -> Seq<char> {
    "  cannot see   : "@ + l.obscured + "\n    because    : "@ + wrapped(l.evidence, 76, 17)
        + "\n    next step  : "@ + l.next_step + "\n"@
}

proof fn lemma_limit_texts(v: Seq<LimitModel>, n: int)
    requires
        0 <= n <= v.len(),
    ensures
        limit_texts(v, n) == Seq::new(n as nat, |i: int| lines_of_limit(v[i])).flatten(),
    decreases n,
{
    let all = Seq::new(n as nat, |i: int| lines_of_limit(v[i]));
    if n > 0 {
        lemma_limit_texts(v, n - 1);
        let before = Seq::new((n - 1) as nat, |i: int| lines_of_limit(v[i]));
        assert(all =~= before.push(lines_of_limit(v[n - 1])));
        before.lemma_flatten_push(lines_of_limit(v[n - 1]));
    } else {
        assert(all.flatten() =~= Seq::<char>::empty());
    }
}

/// The report tells of every limit, in order.
pub proof fn law_report_tells_every_limit(path: Seq<char>, len: int, b: BinaryModel)
    ensures
        ({
            let ls = limits_of(b, None);
            contains(
                report_text(path, len, b),
                Seq::new(ls.len(), |i: int| lines_of_limit(ls[i])).flatten(),
            )
        }),
{
    let ls = limits_of(b, None);
    let n = ls.len() as int;
    let lines = limit_texts(ls, n);
    let s = limits_text(ls);
    lemma_limit_texts(ls, n);
    lemma_report_parts(path, len, b);
    if n == 0 {
        assert(s.subrange(0, 0) =~= lines);
        lemma_at(s, lines, 0);
    } else {
        let at = s.len() - lines.len();
        assert(s.subrange(at, at + lines.len()) =~= lines);
        lemma_at(s, lines, at);
    }
    lemma_within(report_text(path, len, b), s, lines);
}

// ---------------------------------------------------------------------------
// The head of the report
// ---------------------------------------------------------------------------

proof fn lemma_between(a: Seq<char>, p: Seq<char>, b: Seq<char>)
    ensures
        contains(a + p + b, p),
{
    lemma_join(a, p);
    lemma_join(a + p, b);
    lemma_within(a + p + b, a + p, p);
}

#[verifier::rlimit(50)]
proof fn lemma_head_parts(
    a: Seq<char>,
    b: Seq<char>,
    c: Seq<char>,
    d: Seq<char>,
    e: Seq<char>,
    f: Seq<char>,
    g: Seq<char>,
)
    ensures
        ({
            let r = a + b + c + d + e + f + g;
            &&& contains(r, a)
            &&& contains(r, b)
            &&& contains(r, c)
            &&& contains(r, d)
            &&& contains(r, e)
            &&& contains(r, f)
            &&& contains(r, g)
        }),
{
    let r1 = a + b;
    let r2 = r1 + c;
    let r3 = r2 + d;
    let r4 = r3 + e;
    let r5 = r4 + f;
    let r = r5 + g;
    lemma_join(a, b);
    lemma_join(r1, c);
    lemma_join(r2, d);
    lemma_join(r3, e);
    lemma_join(r4, f);
    lemma_join(r5, g);
    lemma_within(r, r5, f);
    lemma_within(r, r5, r4);
    lemma_within(r, r4, e);
    lemma_within(r, r4, r3);
    lemma_within(r, r3, d);
    lemma_within(r, r3, r2);
    lemma_within(r, r2, c);
    lemma_within(r, r2, r1);
    lemma_within(r, r1, a);
    lemma_within(r, r1, b);
}

/// The report tells the size of the file, its format, architecture and kind, its
/// attributes where it has any, where it starts and where it is loaded, and how
/// many sections it has.
#[verifier::rlimit(50)]
pub proof fn law_report_tells_what_the_file_is(path: Seq<char>, len: int, b: BinaryModel)
    ensures
        ({
            let r = report_text(path, len, b);
            &&& contains(r, path + " ("@ + dec(len) + " bytes)"@)
            &&& contains(
                r,
                "\nformat         : "@ + (match b.format {
                    Format::Pe => "PE (Windows)"@,
                    Format::Elf => "ELF (Linux/Unix)"@,
                }),
            )
            &&& contains(r, "\narch           : "@ + b.arch + " ("@ + dec(b.bits as int) + "-bit)"@)
            &&& contains(r, "\nkind           : "@ + b.kind + "\n"@)
            &&& b.attributes.len() > 0 ==> contains(
                r,
                "attributes     : "@ + join(b.attributes, ", "@) + "\n"@,
            )
            &&& contains(r, "entry point    : "@ + hex0x(b.entry_point as int))
            &&& contains(r, "load base      : "@ + hex0x(b.image_base as int))
            &&& contains(r, "sections       : "@ + dec(b.sections.len() as int))
        }),
{
    reveal_strlit("Binary Report\nfile           : ");
    reveal_strlit(" (");
    reveal_strlit(" bytes)\nformat         : ");
    reveal_strlit(" bytes)");
    reveal_strlit("\nformat         : ");
    reveal_strlit("\narch           : ");
    reveal_strlit("-bit)\nkind           : ");
    reveal_strlit("-bit)");
    reveal_strlit("\nkind           : ");
    reveal_strlit("\n");
    reveal_strlit("entry point    : ");
    reveal_strlit(" ");
    reveal_strlit("\nload base      : ");
    reveal_strlit("load base      : ");
    reveal_strlit("\nsections       : ");
    reveal_strlit("sections       : ");
    reveal_strlit("\n\n");
    lemma_report_parts(path, len, b);
    let size = path + " ("@ + dec(len) + " bytes)"@;
    let format = "\nformat         : "@ + format_name(b.format);
    let arch = "\narch           : "@ + b.arch + " ("@ + dec(b.bits as int) + "-bit)"@;
    let kind = "\nkind           : "@ + b.kind + "\n"@;
    let notes = attributes_text(b.attributes);
    let entry = "entry point    : "@ + hex0x(b.entry_point as int);
    let base = "load base      : "@ + hex0x(b.image_base as int);
    let count = "sections       : "@ + dec(b.sections.len() as int);
    let first = "Binary Report\nfile           : "@ + size;
    let front = first + format + arch + kind + notes;
    let back = entry + (" "@ + entry_meaning(b.format) + "\n"@) + base + (" "@ + base_meaning(
        b.format,
    ) + "\n"@) + count + "\n\n"@ + Seq::<char>::empty();
    lemma_header_split(path, len, b, front, back);
    lemma_join("Binary Report\nfile           : "@, size);
    lemma_head_parts(first, format, arch, kind, notes, Seq::empty(), Seq::empty());
    assert(first + format + arch + kind + notes + Seq::<char>::empty() + Seq::<char>::empty()
        =~= front);
    lemma_within(front, first, size);
    lemma_head_parts(
        entry,
        " "@ + entry_meaning(b.format) + "\n"@,
        base,
        " "@ + base_meaning(b.format) + "\n"@,
        count,
        "\n\n"@,
        Seq::empty(),
    );
    lemma_join(front, back);
    let h = header_text(path, len, b);
    let r = report_text(path, len, b);
    lemma_within(r, h, front);
    lemma_within(r, h, back);
    lemma_within(r, front, size);
    lemma_within(r, front, format);
    lemma_within(r, front, arch);
    lemma_within(r, front, kind);
    lemma_within(r, front, notes);
    lemma_within(r, back, entry);
    lemma_within(r, back, base);
    lemma_within(r, back, count);
}

#[verifier::rlimit(50)]
proof fn lemma_header_split(
    path: Seq<char>,
    len: int,
    b: BinaryModel,
    front: Seq<char>,
    back: Seq<char>,
)
    requires
        front == "Binary Report\nfile           : "@ + (path + " ("@ + dec(len) + " bytes)"@) + (
        "\nformat         : "@ + format_name(b.format)) + ("\narch           : "@ + b.arch + " ("@
            + dec(b.bits as int) + "-bit)"@) + ("\nkind           : "@ + b.kind + "\n"@)
            + attributes_text(b.attributes),
        back == "entry point    : "@ + hex0x(b.entry_point as int) + (" "@ + entry_meaning(b.format)
            + "\n"@) + ("load base      : "@ + hex0x(b.image_base as int)) + (" "@ + base_meaning(
            b.format,
        ) + "\n"@) + ("sections       : "@ + dec(b.sections.len() as int)) + "\n\n"@ + Seq::<
            char,
        >::empty(),
    ensures
        header_text(path, len, b) == front + back,
{
    reveal_strlit(" bytes)\nformat         : ");
    reveal_strlit(" bytes)");
    reveal_strlit("\nformat         : ");
    reveal_strlit("-bit)\nkind           : ");
    reveal_strlit("-bit)");
    reveal_strlit("\nkind           : ");
    reveal_strlit("\n");
    reveal_strlit("\nload base      : ");
    reveal_strlit("load base      : ");
    reveal_strlit("\nsections       : ");
    reveal_strlit("sections       : ");
    assert(" bytes)\nformat         : "@ =~= " bytes)"@ + "\nformat         : "@);
    assert("-bit)\nkind           : "@ =~= "-bit)"@ + "\nkind           : "@);
    assert("\nload base      : "@ =~= "\n"@ + "load base      : "@);
    assert("\nsections       : "@ =~= "\n"@ + "sections       : "@);
    lemma_regroup(
        "Binary Report\nfile           : "@,
        path,
        " ("@,
        dec(len),
        " bytes)"@,
        "\nformat         : "@,
        format_name(b.format),
        "\narch           : "@,
        b.arch,
        dec(b.bits as int),
        "-bit)"@,
        "\nkind           : "@,
        b.kind,
        "\n"@,
        attributes_text(b.attributes),
        "entry point    : "@,
        hex0x(b.entry_point as int),
        " "@,
        entry_meaning(b.format),
        "load base      : "@,
        hex0x(b.image_base as int),
        base_meaning(b.format),
        "sections       : "@,
        dec(b.sections.len() as int),
        "\n\n"@,
    );
}

#[verifier::rlimit(60)]
proof fn lemma_regroup(
    a: Seq<char>,
    b: Seq<char>,
    c: Seq<char>,
    d: Seq<char>,
    e: Seq<char>,
    f: Seq<char>,
    g: Seq<char>,
    h: Seq<char>,
    i: Seq<char>,
    j: Seq<char>,
    k: Seq<char>,
    l: Seq<char>,
    m: Seq<char>,
    n: Seq<char>,
    o: Seq<char>,
    p: Seq<char>,
    q: Seq<char>,
    r: Seq<char>,
    s: Seq<char>,
    t: Seq<char>,
    u: Seq<char>,
    v: Seq<char>,
    w: Seq<char>,
    x: Seq<char>,
    y: Seq<char>,
)
    ensures
        a + b + c + d + (e + f) + g + h + i + c + j + (k + l) + m + n + o + p + q + r + s + (n + t)
            + u + r + v + (n + w) + x + y == (a + (b + c + d + e) + (f + g) + (h + i + c + j + k) + (
        l + m + n) + o) + (p + q + (r + s + n) + (t + u) + (r + v + n) + (w + x) + y + Seq::<
            char,
        >::empty()),
{
    let left = a + b + c + d + (e + f) + g + h + i + c + j + (k + l) + m + n + o;
    let right = a + (b + c + d + e) + (f + g) + (h + i + c + j + k) + (l + m + n) + o;
    assert(left =~= right);
    let z = p + q + (r + s + n) + (t + u) + (r + v + n) + (w + x) + y + Seq::<char>::empty();
    let y1 = left + p + q + r + s + (n + t) + u + r + v + (n + w) + x + y;
    assert(y1 =~= left + z);
}

/// When a file was built is told by its date; a field that holds no date is said
/// to be none, and a date before 1993 or after 2038 is doubted.
pub proof fn law_build_dates_are_doubted(ts: u32)
    ensures
        timestamp_text(ts, true) == "n/a - reproducible build, so this field is a content hash ("@
            + hex0x_padded(ts as int, 8) + "), not a date"@,
        timestamp_text(0, false) == "0 (stripped, deliberately or by the toolchain)"@,
        ts > 0 && 1993 <= civil_of(ts as int).0 <= 2038 ==> timestamp_text(ts, false)
            == stamp_text(ts),
        ts > 0 && !(1993 <= civil_of(ts as int).0 <= 2038) ==> timestamp_text(ts, false)
            == stamp_text(ts)
            + "  <- implausible, so this field is faked or is not a date"@,
{
}

/// The report of an image tells when it was built, its subsystem and mitigations,
/// whether it is managed, signed or has resources, what runs before its entry
/// point, and which packers its sections suggest.
#[verifier::rlimit(50)]
pub proof fn law_report_tells_the_metadata(path: Seq<char>, len: int, b: BinaryModel, m: PeMetaModel)
    requires
        b.pe_meta == Some(m),
    ensures
        ({
            let r = report_text(path, len, b);
            &&& contains(
                r,
                "compiled       : "@ + timestamp_text(m.timestamp, m.reproducible_build),
            )
            &&& contains(r, "\nsubsystem      : "@ + m.subsystem)
            &&& contains(
                r,
                "\nmitigations    : "@ + (if m.dll_characteristics.len() == 0 {
                    "none declared (unusual for a modern build)"@
                } else {
                    join(m.dll_characteristics, ", "@)
                }),
            )
            &&& m.is_dotnet ==> contains(
                r,
                "                 .NET assembly (managed IL, not native code)\n"@,
            )
            &&& m.signed ==> contains(
                r,
                "                 embedded Authenticode signature present (not verified)\n"@,
            )
            &&& !m.signed ==> contains(
                r,
                "                 no embedded Authenticode signature (may still be catalog-signed)\n"@,
            )
            &&& m.has_resources ==> contains(r, "                 has resources\n"@)
            &&& m.tls_callbacks.len() > 0 ==> contains(
                r,
                dec(m.tls_callbacks.len() as int) + " TLS callback(s) at "@ + join(
                    Seq::new(m.tls_callbacks.len(), |i: int| hex0x(m.tls_callbacks[i] as int)),
                    ", "@,
                ),
            )
            &&& packers_of(b.sections).len() > 0 ==> contains(
                r,
                "packer         : section names match "@ + join(packers_of(b.sections), " / "@),
            )
        }),
{
    lemma_meta_in_report(path, len, b, m);
    lemma_tls_note(m);
    lemma_packer_note(packers_of(b.sections));
    let r = report_text(path, len, b);
    if m.tls_callbacks.len() > 0 {
        lemma_within(
            r,
            tls_note(m),
            dec(m.tls_callbacks.len() as int) + " TLS callback(s) at "@ + join(
                Seq::new(m.tls_callbacks.len(), |i: int| hex0x(m.tls_callbacks[i] as int)),
                ", "@,
            ),
        );
    }
    if packers_of(b.sections).len() > 0 {
        lemma_within(
            r,
            packer_text(packers_of(b.sections)),
            "packer         : section names match "@ + join(packers_of(b.sections), " / "@),
        );
    }
}

proof fn lemma_tls_note(m: PeMetaModel)
    ensures
        m.tls_callbacks.len() > 0 ==> contains(
            tls_note(m),
            dec(m.tls_callbacks.len() as int) + " TLS callback(s) at "@ + join(
                Seq::new(m.tls_callbacks.len(), |i: int| hex0x(m.tls_callbacks[i] as int)),
                ", "@,
            ),
        ),
{
    let n = dec(m.tls_callbacks.len() as int);
    let places = Seq::new(m.tls_callbacks.len(), |i: int| hex0x(m.tls_callbacks[i] as int));
    assert(hexes(m.tls_callbacks) =~= places);
    let end = " -- these run BEFORE the entry point\n"@;
    let at = " TLS callback(s) at "@;
    lemma_between(MARGIN@, n + at + join(places, ", "@), end);
    lemma_note_split(MARGIN@, n, at, join(places, ", "@), end);
}

proof fn lemma_note_split(a: Seq<char>, b: Seq<char>, c: Seq<char>, d: Seq<char>, e: Seq<char>)
    ensures
        a + b + c + d + e == a + (b + c + d) + e,
{
    assert(a + b + c + d + e =~= a + (b + c + d) + e);
}

proof fn lemma_packer_note(hints: Seq<Seq<char>>)
    ensures
        hints.len() > 0 ==> contains(
            packer_text(hints),
            "packer         : section names match "@ + join(hints, " / "@),
        ),
{
    lemma_join(
        "packer         : section names match "@ + join(hints, " / "@),
        " (a naming convention, easily faked)\n"@,
    );
}

proof fn lemma_meta_in_report(path: Seq<char>, len: int, b: BinaryModel, m: PeMetaModel)
    requires
        b.pe_meta == Some(m),
    ensures
        ({
            let r = report_text(path, len, b);
            &&& contains(
                r,
                "compiled       : "@ + timestamp_text(m.timestamp, m.reproducible_build),
            )
            &&& contains(r, "\nsubsystem      : "@ + m.subsystem)
            &&& contains(r, "\nmitigations    : "@ + mitigations_text(m.dll_characteristics))
            &&& contains(r, dotnet_note(m))
            &&& contains(r, signature_note(m))
            &&& contains(r, resources_note(m))
            &&& contains(r, tls_note(m))
            &&& contains(r, packer_text(packers_of(b.sections)))
        }),
{
    lemma_report_parts(path, len, b);
    lemma_meta_parts(
        report_text(path, len, b),
        "compiled       : "@,
        timestamp_text(m.timestamp, m.reproducible_build),
        "\nsubsystem      : "@,
        m.subsystem,
        "\nmitigations    : "@,
        mitigations_text(m.dll_characteristics),
        "\n"@,
        dotnet_note(m),
        signature_note(m),
        resources_note(m),
        tls_note(m),
        packer_text(packers_of(b.sections)),
    );
}

#[verifier::rlimit(50)]
proof fn lemma_meta_parts(
    r: Seq<char>,
    a: Seq<char>,
    b: Seq<char>,
    c: Seq<char>,
    d: Seq<char>,
    e: Seq<char>,
    f: Seq<char>,
    n: Seq<char>,
    g: Seq<char>,
    h: Seq<char>,
    i: Seq<char>,
    j: Seq<char>,
    k: Seq<char>,
)
    requires
        contains(r, a + b + c + d + e + f + n + g + h + i + j + k + n),
    ensures
        contains(r, a + b),
        contains(r, c + d),
        contains(r, e + f),
        contains(r, g),
        contains(r, h),
        contains(r, i),
        contains(r, j),
        contains(r, k),
{
    let head = a + b + c + d + e + f;
    let most = head + n + g + h + i + j + k;
    lemma_join(most, n);
    lemma_within(r, most + n, most);
    lemma_head_parts(head, n, g, h, i, j, k);
    lemma_within(r, most, head);
    lemma_within(r, most, g);
    lemma_within(r, most, h);
    lemma_within(r, most, i);
    lemma_within(r, most, j);
    lemma_within(r, most, k);
    lemma_meta_split(a, b, c, d, e, f);
    let x = a + b;
    let y = c + d;
    let z = e + f;
    lemma_join(x, y);
    lemma_join(x + y, z);
    lemma_within(r, head, x + y);
    lemma_within(r, head, z);
    lemma_within(r, x + y, x);
    lemma_within(r, x + y, y);
}

proof fn lemma_meta_split(
    a: Seq<char>,
    b: Seq<char>,
    c: Seq<char>,
    d: Seq<char>,
    e: Seq<char>,
    f: Seq<char>,
)
    ensures
        a + b + c + d + e + f == a + b + (c + d) + (e + f),
{
    assert(a + b + c + d + e + f =~= a + b + (c + d) + (e + f));
}

/// The report tells how many strings there are, and of the overlay whether there
/// is one, how large it is and where it starts.
#[verifier::rlimit(50)]
pub proof fn law_report_tells_strings_and_overlay(path: Seq<char>, len: int, b: BinaryModel)
    ensures
        ({
            let r = report_text(path, len, b);
            &&& contains(
                r,
                "strings        : "@ + dec(b.strings.ascii_count as int) + " ascii, "@ + dec(
                    b.strings.wide_count as int,
                ) + " wide\n"@,
            )
            &&& match b.overlay {
                None => contains(
                    r,
                    "\noverlay        : none (no unexplained data past the last section)\n"@,
                ),
                Some(o) => contains(
                    r,
                    "\noverlay        : "@ + dec(o.size as int)
                        + " byte(s) past the last section, at file offset "@ + hex0x(
                        o.file_offset as int,
                    ) + "\n                 entropy "@ + three_places(o.entropy) + " ("@
                        + entropy_reading(o.entropy) + ")"@,
                ),
            }
        }),
{
    let r = report_text(path, len, b);
    lemma_report_parts(path, len, b);
    let s = strings_text(b.strings);
    let head = "strings        : "@ + dec(b.strings.ascii_count as int) + " ascii, "@ + dec(
        b.strings.wide_count as int,
    ) + " wide\n"@;
    let n = b.strings.iocs.len() as int;
    let rest = if n == 0 {
        "IOCs           : none extracted\n"@
    } else {
        "IOCs           : "@ + dec(n) + " unique (showing up to 15)\n"@ + ioc_lines(
            b.strings.iocs,
            lesser(n, 15),
        )
    };
    lemma_join(head, rest);
    lemma_within(r, s, head);
    if b.overlay is Some {
        let o = b.overlay->0;
        lemma_overlay_note(o);
        lemma_within(
            r,
            overlay_text(b.overlay),
            "\noverlay        : "@ + dec(o.size as int)
                + " byte(s) past the last section, at file offset "@ + hex0x(o.file_offset as int)
                + "\n                 entropy "@ + three_places(o.entropy) + " ("@
                + entropy_reading(o.entropy) + ")"@,
        );
    }
}

proof fn lemma_overlay_note(o: Overlay)
    ensures
        contains(
            overlay_text(Some(o)),
            "\noverlay        : "@ + dec(o.size as int)
                + " byte(s) past the last section, at file offset "@ + hex0x(o.file_offset as int)
                + "\n                 entropy "@ + three_places(o.entropy) + " ("@
                + entropy_reading(o.entropy) + ")"@,
        ),
{
    let most = "\noverlay        : "@ + dec(o.size as int)
        + " byte(s) past the last section, at file offset "@ + hex0x(o.file_offset as int)
        + "\n                 entropy "@ + three_places(o.entropy) + " ("@ + entropy_reading(
        o.entropy,
    );
    lemma_closed(most);
}

proof fn lemma_closed(most: Seq<char>)
    ensures
        contains(
            most + ") -- data no header describes and the loader never maps\n"@,
            most + ")"@,
        ),
{
    reveal_strlit(") -- data no header describes and the loader never maps\n");
    reveal_strlit(")");
    let end = ") -- data no header describes and the loader never maps\n"@;
    let p = most + ")"@;
    assert((most + end).subrange(0, p.len() as int) =~= p);
    lemma_at(most + end, p, 0);
}

/// The report warns of packed sections, by number and by name, or says that there
/// are none.
pub proof fn law_report_warns_of_packing(path: Seq<char>, len: int, b: BinaryModel)
    ensures
        ({
            let r = report_text(path, len, b);
            let dense = packed(b.sections);
            &&& dense.len() == 0 ==> contains(
                r,
                "packing        : no packed sections detected\n"@,
            )
            &&& dense.len() > 0 ==> contains(
                r,
                "packing        : WARNING - "@ + dec(dense.len() as int)
                    + " section(s) look packed: "@ + join(
                    Seq::new(dense.len(), |i: int| dense[i].name),
                    ", "@,
                ) + "\n"@,
            )
        }),
{
    let r = report_text(path, len, b);
    let dense = packed(b.sections);
    lemma_report_parts(path, len, b);
    assert(names_of(dense) =~= Seq::new(dense.len(), |i: int| dense[i].name));
    let s = sections_text(b);
    let lines = section_lines(b.sections, b.sections.len() as int);
    let p = packing_text(dense);
    lemma_between(SECTION_COLUMNS@ + lines + "\n"@, p, "\n"@);
    lemma_within(r, s, p);
}

} // verus!
