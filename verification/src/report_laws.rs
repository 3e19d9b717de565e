//! What holds of every report.
use crate::binary::BinaryModel;
use crate::limits::{limits_of, limits_text};
use crate::report::{
    capabilities_text, exports_text, finding_line, finding_lines, function_line, function_lines,
    header_text, imports_text, library_text, library_texts, metadata_text, overlay_text,
    report_text, section_line, section_lines, sections_text, strings_text, IMPORTS_NOTE,
    SECTION_COLUMNS,
};
use crate::rules::findings_of;
use crate::search::{contains, stands_at};
use vstd::prelude::*;

verus! {

/// A text contains what a part of it contains.
pub proof fn lemma_contains_within(a: Seq<char>, part: Seq<char>, b: Seq<char>, p: Seq<char>)
    requires
        contains(part, p),
    ensures
        contains(a + part + b, p),
        contains(a + part, p),
        contains(part + b, p),
{
    let i = choose|i: int| stands_at(part, p, i);
    assert((a + part + b).subrange(a.len() + i, a.len() + i + p.len()) =~= p) by {
        assert(part.subrange(i, i + p.len()) =~= p);
        assert forall|k: int| 0 <= k < p.len() implies (a + part + b).subrange(
            a.len() + i,
            a.len() + i + p.len(),
        )[k] == p[k] by {
            assert(part.subrange(i, i + p.len())[k] == p[k]);
        }
    }
    assert((a + part).subrange(a.len() + i, a.len() + i + p.len()) =~= p) by {
        assert forall|k: int| 0 <= k < p.len() implies (a + part).subrange(
            a.len() + i,
            a.len() + i + p.len(),
        )[k] == p[k] by {
            assert(part.subrange(i, i + p.len())[k] == p[k]);
        }
    }
    assert((part + b).subrange(i, i + p.len()) =~= p) by {
        assert forall|k: int| 0 <= k < p.len() implies (part + b).subrange(i, i + p.len())[k]
            == p[k] by {
            assert(part.subrange(i, i + p.len())[k] == p[k]);
        }
    }
    assert(stands_at(a + part + b, p, a.len() + i));
    assert(stands_at(a + part, p, a.len() + i));
    assert(stands_at(part + b, p, i));
}

/// A text contains itself.
pub proof fn lemma_contains_self(p: Seq<char>)
    ensures
        contains(p, p),
{
    assert(p.subrange(0, p.len() as int) =~= p);
    assert(stands_at(p, p, 0));
}

proof fn lemma_function_listed(
    fs: Seq<crate::binary::ImportedFnModel>,
    n: int,
    j: int,
)
    requires
        0 <= j < n <= fs.len(),
    ensures
        contains(function_lines(fs, n), function_line(fs[j])),
    decreases n,
{
    let line = function_line(fs[j]);
    if j == n - 1 {
        lemma_contains_self(line);
        lemma_contains_within(function_lines(fs, n - 1), line, Seq::empty(), line);
    } else {
        lemma_function_listed(fs, n - 1, j);
        lemma_contains_within(
            Seq::empty(),
            function_lines(fs, n - 1),
            function_line(fs[n - 1]),
            line,
        );
    }
}

proof fn lemma_library_listed(
    imports: Seq<crate::binary::ImportModel>,
    n: int,
    i: int,
    p: Seq<char>,
)
    requires
        0 <= i < n <= imports.len(),
        contains(library_text(imports[i]), p),
    ensures
        contains(library_texts(imports, n), p),
    decreases n,
{
    if i == n - 1 {
        lemma_contains_within(library_texts(imports, n - 1), library_text(imports[i]), Seq::empty(), p);
    } else {
        lemma_library_listed(imports, n - 1, i, p);
        lemma_contains_within(
            Seq::empty(),
            library_texts(imports, n - 1),
            library_text(imports[n - 1]),
            p,
        );
    }
}

proof fn lemma_section_listed(secs: Seq<crate::binary::SectionModel>, n: int, i: int)
    requires
        0 <= i < n <= secs.len(),
    ensures
        contains(section_lines(secs, n), section_line(secs[i])),
    decreases n,
{
    let line = section_line(secs[i]);
    if i == n - 1 {
        lemma_contains_self(line);
        lemma_contains_within(section_lines(secs, n - 1), line, Seq::empty(), line);
    } else {
        lemma_section_listed(secs, n - 1, i);
        lemma_contains_within(
            Seq::empty(),
            section_lines(secs, n - 1),
            section_line(secs[n - 1]),
            line,
        );
    }
}

/// The report lists the import table entire: every function of every library.
pub proof fn law_report_lists_every_import(
    path: Seq<char>,
    len: int,
    b: BinaryModel,
    i: int,
    j: int,
)
    requires
        0 <= i < b.imports.len(),
        0 <= j < b.imports[i].functions.len(),
    ensures
        contains(report_text(path, len, b), function_line(b.imports[i].functions[j])),
{
    let lib = b.imports[i];
    let line = function_line(lib.functions[j]);
    let n = lib.functions.len() as int;
    lemma_function_listed(lib.functions, n, j);
    let title = "\n  "@ + lib.dll + " ("@ + crate::text::dec(n) + " function(s))\n"@;
    lemma_contains_within(title, function_lines(lib.functions, n), Seq::empty(), line);
    assert(library_text(lib) == title + function_lines(lib.functions, n));
    lemma_library_listed(b.imports, b.imports.len() as int, i, line);
    let list = library_texts(b.imports, b.imports.len() as int);
    lemma_contains_within(IMPORTS_NOTE@, list, Seq::empty(), line);
    let head = "imports        : "@ + crate::text::dec(b.imports.len() as int) + " "@
        + crate::report::libraries_word(b.format) + ", "@ + crate::text::dec(
        crate::binary::total_functions(b.imports),
    ) + " function(s)\n"@;
    lemma_contains_within(head, IMPORTS_NOTE@ + list, "\n"@, line);
    assert(imports_text(b) == head + (IMPORTS_NOTE@ + list) + "\n"@);
    lemma_imports_in_report(path, len, b, line);
}

proof fn lemma_imports_in_report(path: Seq<char>, len: int, b: BinaryModel, p: Seq<char>)
    requires
        contains(imports_text(b), p),
    ensures
        contains(report_text(path, len, b), p),
{
    let before = header_text(path, len, b) + metadata_text(b) + sections_text(b);
    let x = before + imports_text(b);
    lemma_contains_within(before, imports_text(b), Seq::empty(), p);
    lemma_behind_imports(b, x, p);
}

/// What stands in the report up to the imports stands in the report.
proof fn lemma_behind_imports(b: BinaryModel, x: Seq<char>, p: Seq<char>)
    requires
        contains(x, p),
    ensures
        contains(
            x + exports_text(b) + capabilities_text(findings_of(b.imports)) + strings_text(
                b.strings,
            ) + overlay_text(b.overlay) + "\n"@ + limits_text(limits_of(b, None)),
            p,
        ),
{
    let found = capabilities_text(findings_of(b.imports));
    let y = x + exports_text(b) + found;
    lemma_contains_within(Seq::empty(), x, exports_text(b), p);
    lemma_contains_within(Seq::empty(), x + exports_text(b), found, p);
    lemma_behind_capabilities(b, y, p);
}

/// What stands in the report up to the capabilities stands in the report.
proof fn lemma_behind_capabilities(b: BinaryModel, y: Seq<char>, p: Seq<char>)
    requires
        contains(y, p),
    ensures
        contains(
            y + strings_text(b.strings) + overlay_text(b.overlay) + "\n"@ + limits_text(
                limits_of(b, None),
            ),
            p,
        ),
{
    let z = y + strings_text(b.strings);
    lemma_contains_within(Seq::empty(), y, strings_text(b.strings), p);
    lemma_contains_within(Seq::empty(), z, overlay_text(b.overlay), p);
    lemma_contains_within(Seq::empty(), z + overlay_text(b.overlay), "\n"@, p);
    lemma_contains_within(
        Seq::empty(),
        z + overlay_text(b.overlay) + "\n"@,
        limits_text(limits_of(b, None)),
        p,
    );
}

proof fn lemma_finding_listed(findings: Seq<crate::rules::FindingModel>, n: int, i: int)
    requires
        0 <= i < n <= findings.len(),
    ensures
        contains(finding_lines(findings, n), finding_line(findings[i])),
    decreases n,
{
    let line = finding_line(findings[i]);
    if i == n - 1 {
        lemma_contains_self(line);
        lemma_contains_within(finding_lines(findings, n - 1), line, Seq::empty(), line);
    } else {
        lemma_finding_listed(findings, n - 1, i);
        lemma_contains_within(
            Seq::empty(),
            finding_lines(findings, n - 1),
            finding_line(findings[n - 1]),
            line,
        );
    }
}

/// The report lists every capability finding, with its severity.
pub proof fn law_report_lists_every_finding(path: Seq<char>, len: int, b: BinaryModel, i: int)
    requires
        0 <= i < findings_of(b.imports).len(),
    ensures
        contains(report_text(path, len, b), finding_line(findings_of(b.imports)[i])),
{
    let all = findings_of(b.imports);
    let n = all.len() as int;
    let p = finding_line(all[i]);
    lemma_finding_listed(all, n, i);
    let head = "capabilities   : "@ + crate::text::dec(n) + " finding(s), most severe first\n"@;
    lemma_contains_within(head, finding_lines(all, n), "\n"@, p);
    assert(capabilities_text(all) == head + finding_lines(all, n) + "\n"@);
    let before = header_text(path, len, b) + metadata_text(b) + sections_text(b) + imports_text(b)
        + exports_text(b);
    lemma_contains_within(before, capabilities_text(all), Seq::empty(), p);
    lemma_behind_capabilities(b, before + capabilities_text(all), p);
}

/// The report lists every section.
pub proof fn law_report_lists_every_section(path: Seq<char>, len: int, b: BinaryModel, i: int)
    requires
        0 <= i < b.sections.len(),
    ensures
        contains(report_text(path, len, b), section_line(b.sections[i])),
{
    let p = section_line(b.sections[i]);
    let lines = section_lines(b.sections, b.sections.len() as int);
    lemma_section_listed(b.sections, b.sections.len() as int, i);
    lemma_contains_within(SECTION_COLUMNS@, lines, Seq::empty(), p);
    let a = SECTION_COLUMNS@ + lines;
    let packing = crate::report::packing_text(crate::binary::packed(b.sections));
    lemma_contains_within(Seq::empty(), a, "\n"@, p);
    lemma_contains_within(Seq::empty(), a + "\n"@, packing, p);
    lemma_contains_within(Seq::empty(), a + "\n"@ + packing, "\n"@, p);
    assert(sections_text(b) == a + "\n"@ + packing + "\n"@);
    let before = header_text(path, len, b) + metadata_text(b);
    let x = before + sections_text(b);
    lemma_contains_within(before, sections_text(b), Seq::empty(), p);
    lemma_contains_within(Seq::empty(), x, imports_text(b), p);
    lemma_behind_imports(b, x + imports_text(b), p);
}

/// Every report closes with what static analysis could not resolve.
pub proof fn law_report_closes_with_the_limits(path: Seq<char>, len: int, b: BinaryModel)
    ensures
        ({
            let r = report_text(path, len, b);
            let l = limits_text(limits_of(b, None));
            r.len() >= l.len() && r.skip(r.len() - l.len()) == l
        }),
{
    let r = report_text(path, len, b);
    let l = limits_text(limits_of(b, None));
    assert(r.skip(r.len() - l.len()) =~= l);
}

} // verus!
