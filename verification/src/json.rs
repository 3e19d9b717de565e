//! JSON: strings, arrays, and the machine-readable report.
use crate::binary::{
    likely_packed, packed, total_functions, Binary, BinaryModel, Format, Import, ImportModel,
    ImportedFnModel, Section, SectionModel,
};
use crate::entropy::three_places;
use crate::limits::names_of;
use crate::rules::{severity_name, Finding, FindingModel};
use crate::strings::{kind_name, Ioc, IocModel};
use crate::text::{
    chars_of, dec, decimal, hex, join, joined, lemma_views_push, models, pad_start, padded_start,
    render, truth, truth_text, views,
};
use vstd::prelude::*;

verus! {

// ---------------------------------------------------------------------------
// Strings and arrays
// ---------------------------------------------------------------------------

/// A character inside a JSON string literal (RFC 8259).
pub open spec fn json_char(c: char) -> Seq<char> {
    if c == '"' {
        "\\\""@
    } else if c == '\\' {
        "\\\\"@
    } else if c == '\n' {
        "\\n"@
    } else if c == '\r' {
        "\\r"@
    } else if c == '\t' {
        "\\t"@
    } else if (c as int) < 0x20 {
        "\\u"@ + pad_start(hex(c as int), 4, '0')
    } else {
        seq![c]
    }
}

/// A text inside a JSON string literal.
pub open spec fn escaped(s: Seq<char>) -> Seq<char>
    decreases s.len(),
{
    if s.len() == 0 {
        Seq::empty()
    } else {
        escaped(s.drop_last()) + json_char(s.last())
    }
}

/// A text as a JSON string.
pub open spec fn quoted(s: Seq<char>) -> Seq<char> {
    "\""@ + escaped(s) + "\""@
}

/// Each of the texts as a JSON string.
pub open spec fn all_quoted(s: Seq<Seq<char>>) -> Seq<Seq<char>> {
    Seq::new(s.len(), |i: int| quoted(s[i]))
}

/// Texts as a JSON array of strings.
pub open spec fn string_array(s: Seq<Seq<char>>) -> Seq<char> {
    "["@ + join(all_quoted(s), ", "@) + "]"@
}

fn esc_char(c: char) -> (r: String)
    ensures
        r@ == json_char(c),
{
    if c == '"' {
        "\\\"".to_string()
    } else if c == '\\' {
        "\\\\".to_string()
    } else if c == '\n' {
        "\\n".to_string()
    } else if c == '\r' {
        "\\r".to_string()
    } else if c == '\t' {
        "\\t".to_string()
    } else if (c as u32) < 0x20 {
        let mut s = "\\u".to_string();
        s.append(padded_start(render(c as u64, 16).as_str(), 4, '0').as_str());
        s
    } else {
        let mut s = String::new();
        s.push(c);
        proof {
            assert(s@ =~= seq![c]);
        }
        s
    }
}

/// Escapes a string for use inside a JSON string literal.
pub fn esc(s: &str) -> (r: String)
    ensures
        r@ == escaped(s@),
{
    let cs = chars_of(s);
    let mut out = String::new();
    for i in 0..cs.len()
        invariant
            cs@ == s@,
            out@ == escaped(s@.take(i as int)),
    {
        proof {
            assert(s@.take(i + 1).drop_last() =~= s@.take(i as int));
            assert(s@.take(i + 1).last() == cs@[i as int]);
        }
        out.append(esc_char(cs[i]).as_str());
    }
    proof {
        assert(s@.take(s@.len() as int) =~= s@);
    }
    out
}

/// Quotes and escapes a string into a JSON string.
pub fn q(s: &str) -> (r: String)
    ensures
        r@ == quoted(s@),
{
    let mut out = "\"".to_string();
    out.append(esc(s).as_str());
    out.append("\"");
    out
}

/// Strings as JSON strings, with commas between them.
pub fn quote_list(v: &Vec<String>) -> (r: String)
    ensures
        r@ == join(all_quoted(views(v@)), ", "@),
{
    let ghost all = all_quoted(views(v@));
    let mut parts: Vec<String> = Vec::new();
    for i in 0..v.len()
        invariant
            all == all_quoted(views(v@)),
            views(parts@) == all.take(i as int),
    {
        let part = q(v[i].as_str());
        proof {
            crate::text::lemma_views_push(parts@, part);
            assert(all.take(i + 1) =~= all.take(i as int).push(part@));
        }
        parts.push(part);
    }
    proof {
        assert(all.take(all.len() as int) =~= all);
    }
    joined(&parts, ", ")
}

/// Strings as a JSON array.
pub fn arr(v: &Vec<String>) -> (r: String)
    ensures
        r@ == string_array(views(v@)),
{
    let mut out = "[".to_string();
    out.append(quote_list(v).as_str());
    out.append("]");
    out
}

/// A comma behind all items but the last.
pub open spec fn comma(i: int, len: int) -> Seq<char> {
    if i + 1 < len {
        ","@
    } else {
        ""@
    }
}

pub fn comma_after(i: usize, len: usize) -> (r: &'static str)
    requires
        i < len,
    ensures
        r@ == comma(i as int, len as int),
{
    if i + 1 < len {
        ","
    } else {
        ""
    }
}

// ---------------------------------------------------------------------------
// Objects
// ---------------------------------------------------------------------------

pub open spec fn section_object(s: SectionModel) -> Seq<char> {
    "    {\"name\": "@ + quoted(s.name) + ", \"virtual_addr\": "@ + dec(s.virtual_addr as int)
        + ", \"virtual_size\": "@ + dec(s.virtual_size as int) + ", \"file_offset\": "@ + dec(
        s.file_offset as int,
    ) + ", \"file_size\": "@ + dec(s.file_size as int) + ", \"readable\": "@ + truth(s.readable)
        + ", \"writable\": "@ + truth(s.writable) + ", \"executable\": "@ + truth(s.executable)
        + ", \"entropy\": "@ + three_places(s.entropy) + ", \"likely_packed\": "@ + truth(
        likely_packed(s),
    ) + "}"@
}

fn section_json(sec: &Section) -> (r: String)
    ensures
        r@ == section_object(sec.deep_view()),
{
    let mut s = "    {\"name\": ".to_string();
    s.append(q(sec.name.as_str()).as_str());
    s.append(", \"virtual_addr\": ");
    s.append(decimal(sec.virtual_addr).as_str());
    s.append(", \"virtual_size\": ");
    s.append(decimal(sec.virtual_size).as_str());
    s.append(", \"file_offset\": ");
    s.append(decimal(sec.file_offset).as_str());
    s.append(", \"file_size\": ");
    s.append(decimal(sec.file_size).as_str());
    s.append(", \"readable\": ");
    s.append(truth_text(sec.readable));
    s.append(", \"writable\": ");
    s.append(truth_text(sec.writable));
    s.append(", \"executable\": ");
    s.append(truth_text(sec.executable));
    s.append(", \"entropy\": ");
    s.append(sec.entropy.to_three_places().as_str());
    s.append(", \"likely_packed\": ");
    s.append(truth_text(sec.is_likely_packed()));
    s.append("}");
    s
}

/// The names of functions.
pub open spec fn function_names(fs: Seq<ImportedFnModel>) -> Seq<Seq<char>> {
    Seq::new(fs.len(), |i: int| fs[i].name)
}

pub open spec fn import_object(i: ImportModel) -> Seq<char> {
    "    {\"dll\": "@ + quoted(i.dll) + ", \"functions\": "@ + string_array(
        function_names(i.functions),
    ) + "}"@
}

fn import_json(imp: &Import) -> (r: String)
    ensures
        r@ == import_object(imp.deep_view()),
{
    let ghost all = function_names(models(imp.functions@));
    let mut names: Vec<String> = Vec::new();
    for i in 0..imp.functions.len()
        invariant
            all == function_names(models(imp.functions@)),
            views(names@) == all.take(i as int),
    {
        let n = imp.functions[i].name.clone();
        proof {
            assert(models(imp.functions@)[i as int] == imp.functions@[i as int].deep_view());
            lemma_views_push(names@, n);
            assert(all.take(i + 1) =~= all.take(i as int).push(n@));
        }
        names.push(n);
    }
    proof {
        assert(all.take(all.len() as int) =~= all);
    }
    let mut s = "    {\"dll\": ".to_string();
    s.append(q(imp.dll.as_str()).as_str());
    s.append(", \"functions\": ");
    s.append(arr(&names).as_str());
    s.append("}");
    s
}

pub open spec fn finding_object(f: FindingModel) -> Seq<char> {
    "    {\"capability\": "@ + quoted(f.capability) + ", \"severity\": "@ + quoted(
        severity_name(f.severity),
    ) + ", \"matched\": "@ + string_array(f.matched) + "}"@
}

fn finding_json(f: &Finding) -> (r: String)
    ensures
        r@ == finding_object(f.deep_view()),
{
    let mut s = "    {\"capability\": ".to_string();
    s.append(q(f.capability).as_str());
    s.append(", \"severity\": ");
    s.append(q(f.severity.name()).as_str());
    s.append(", \"matched\": ");
    s.append(arr(&f.matched).as_str());
    s.append("}");
    s
}

pub open spec fn ioc_object(i: IocModel) -> Seq<char> {
    "    {\"kind\": "@ + quoted(kind_name(i.kind)) + ", \"value\": "@ + quoted(i.value) + "}"@
}

fn ioc_json(i: &Ioc) -> (r: String)
    ensures
        r@ == ioc_object(i.deep_view()),
{
    let mut s = "    {\"kind\": ".to_string();
    s.append(q(i.kind.name()).as_str());
    s.append(", \"value\": ");
    s.append(q(i.value.as_str()).as_str());
    s.append("}");
    s
}

/// The first `n` objects, one to a line.
pub open spec fn sections_lines(v: Seq<SectionModel>, n: int) -> Seq<char>
    decreases n,
{
    if n <= 0 {
        Seq::empty()
    } else {
        sections_lines(v, n - 1) + section_object(v[n - 1]) + comma(n - 1, v.len() as int) + "\n"@
    }
}

fn sections_json(v: &[Section]) -> (r: String)
    ensures
        r@ == sections_lines(models(v@), v@.len() as int),
{
    let ghost all = models(v@);
    let mut s = String::new();
    proof {
        assert(s@ =~= Seq::<char>::empty());
    }
    for i in 0..v.len()
        invariant
            all == models(v@),
            s@ == sections_lines(all, i as int),
    {
        proof {
            assert(all[i as int] == v@[i as int].deep_view());
        }
        s.append(section_json(&v[i]).as_str());
        s.append(comma_after(i, v.len()));
        s.append("\n");
    }
    s
}

/// The first `n` objects, one to a line.
pub open spec fn imports_lines(v: Seq<ImportModel>, n: int) -> Seq<char>
    decreases n,
{
    if n <= 0 {
        Seq::empty()
    } else {
        imports_lines(v, n - 1) + import_object(v[n - 1]) + comma(n - 1, v.len() as int) + "\n"@
    }
}

fn imports_json(v: &[Import]) -> (r: String)
    ensures
        r@ == imports_lines(models(v@), v@.len() as int),
{
    let ghost all = models(v@);
    let mut s = String::new();
    proof {
        assert(s@ =~= Seq::<char>::empty());
    }
    for i in 0..v.len()
        invariant
            all == models(v@),
            s@ == imports_lines(all, i as int),
    {
        proof {
            assert(all[i as int] == v@[i as int].deep_view());
        }
        s.append(import_json(&v[i]).as_str());
        s.append(comma_after(i, v.len()));
        s.append("\n");
    }
    s
}

/// The first `n` objects, one to a line.
pub open spec fn findings_lines(v: Seq<FindingModel>, n: int) -> Seq<char>
    decreases n,
{
    if n <= 0 {
        Seq::empty()
    } else {
        findings_lines(v, n - 1) + finding_object(v[n - 1]) + comma(n - 1, v.len() as int) + "\n"@
    }
}

fn findings_json(v: &[Finding]) -> (r: String)
    ensures
        r@ == findings_lines(models(v@), v@.len() as int),
{
    let ghost all = models(v@);
    let mut s = String::new();
    proof {
        assert(s@ =~= Seq::<char>::empty());
    }
    for i in 0..v.len()
        invariant
            all == models(v@),
            s@ == findings_lines(all, i as int),
    {
        proof {
            assert(all[i as int] == v@[i as int].deep_view());
        }
        s.append(finding_json(&v[i]).as_str());
        s.append(comma_after(i, v.len()));
        s.append("\n");
    }
    s
}

/// The first `n` objects, one to a line.
pub open spec fn iocs_lines(v: Seq<IocModel>, n: int) -> Seq<char>
    decreases n,
{
    if n <= 0 {
        Seq::empty()
    } else {
        iocs_lines(v, n - 1) + ioc_object(v[n - 1]) + comma(n - 1, v.len() as int) + "\n"@
    }
}

fn iocs_json(v: &[Ioc]) -> (r: String)
    ensures
        r@ == iocs_lines(models(v@), v@.len() as int),
{
    let ghost all = models(v@);
    let mut s = String::new();
    proof {
        assert(s@ =~= Seq::<char>::empty());
    }
    for i in 0..v.len()
        invariant
            all == models(v@),
            s@ == iocs_lines(all, i as int),
    {
        proof {
            assert(all[i as int] == v@[i as int].deep_view());
        }
        s.append(ioc_json(&v[i]).as_str());
        s.append(comma_after(i, v.len()));
        s.append("\n");
    }
    s
}

// ---------------------------------------------------------------------------
// The report
// ---------------------------------------------------------------------------

/// The short name of a format.
pub open spec fn short_name(f: Format) -> Seq<char> {
    match f {
        Format::Pe => "PE"@,
        Format::Elf => "ELF"@,
    }
}

pub open spec fn packing_object(secs: Seq<SectionModel>) -> Seq<char> {
    "{\"packed\": "@ + truth(secs.len() > 0) + ", \"sections\": "@ + string_array(
        names_of(secs),
    ) + "}"@
}

/// The machine-readable report on a file. Sizes, offsets, addresses and counts
/// are numbers; severities and kinds are strings.
pub open spec fn report_object(
    path: Seq<char>,
    size: int,
    b: BinaryModel,
    findings: Seq<FindingModel>,
) -> Seq<char> {
    "{\n  \"file\": "@ + quoted(path) + ",\n  \"size\": "@ + dec(size) + ",\n  \"format\": "@ + quoted(
        short_name(b.format),
    ) + ",\n  \"arch\": "@ + quoted(b.arch) + ",\n  \"bits\": "@ + dec(b.bits as int)
        + ",\n  \"kind\": "@ + quoted(b.kind) + ",\n  \"attributes\": "@ + string_array(b.attributes)
        + ",\n  \"entry_point\": "@ + dec(b.entry_point as int) + ",\n  \"image_base\": "@ + dec(
        b.image_base as int,
    ) + ",\n  \"sections\": [\n"@ + sections_lines(b.sections, b.sections.len() as int)
        + "  ],\n  \"packing\": "@ + packing_object(packed(b.sections))
        + ",\n  \"imports\": [\n"@ + imports_lines(b.imports, b.imports.len() as int)
        + "  ],\n  \"import_summary\": {\"libraries\": "@ + dec(b.imports.len() as int)
        + ", \"functions\": "@ + dec(total_functions(b.imports)) + "},\n  \"capabilities\": [\n"@
        + findings_lines(findings, findings.len() as int) + "  ],\n  \"strings\": {\"ascii\": "@ + dec(
        b.strings.ascii_count as int,
    ) + ", \"wide\": "@ + dec(b.strings.wide_count as int) + "},\n  \"iocs\": [\n"@ + iocs_lines(
        b.strings.iocs,
        b.strings.iocs.len() as int,
    ) + "  ]\n}\n"@
}

fn packing_json(bin: &Binary) -> (r: String)
    ensures
        r@ == packing_object(packed(models(bin.sections@))),
{
    let secs = bin.packed_sections();
    let ghost all = packed(models(bin.sections@));
    let mut names: Vec<String> = Vec::new();
    for i in 0..secs.len()
        invariant
            all == models(secs@),
            views(names@) == names_of(all).take(i as int),
    {
        let n = secs[i].name.clone();
        proof {
            assert(all[i as int] == secs@[i as int].deep_view());
            lemma_views_push(names@, n);
            assert(names_of(all).take(i + 1) =~= names_of(all).take(i as int).push(n@));
        }
        names.push(n);
    }
    proof {
        assert(names_of(all).take(secs@.len() as int) =~= names_of(all));
        assert(all.len() == secs@.len());
    }
    let mut s = "{\"packed\": ".to_string();
    s.append(truth_text(secs.len() > 0));
    s.append(", \"sections\": ");
    s.append(arr(&names).as_str());
    s.append("}");
    s
}

/// The machine-readable report on a file.
pub fn report(path: &str, size: usize, bin: &Binary, findings: &[Finding]) -> (r: String)
    ensures
        r@ == report_object(path@, size as int, bin.deep_view(), models(findings@)),
{
    let mut s = "{\n  \"file\": ".to_string();
    s.append(q(path).as_str());
    s.append(",\n  \"size\": ");
    s.append(decimal(size as u64).as_str());
    s.append(",\n  \"format\": ");
    s.append(
        q(
            match bin.format {
                Format::Pe => "PE",
                Format::Elf => "ELF",
            },
        ).as_str(),
    );
    s.append(",\n  \"arch\": ");
    s.append(q(bin.arch).as_str());
    s.append(",\n  \"bits\": ");
    s.append(decimal(bin.bits as u64).as_str());
    s.append(",\n  \"kind\": ");
    s.append(q(bin.kind).as_str());
    s.append(",\n  \"attributes\": ");
    s.append(arr(&bin.attributes).as_str());
    s.append(",\n  \"entry_point\": ");
    s.append(decimal(bin.entry_point).as_str());
    s.append(",\n  \"image_base\": ");
    s.append(decimal(bin.image_base).as_str());
    s.append(",\n  \"sections\": [\n");
    s.append(sections_json(bin.sections.as_slice()).as_str());
    s.append("  ],\n  \"packing\": ");
    s.append(packing_json(bin).as_str());
    s.append(",\n  \"imports\": [\n");
    s.append(imports_json(bin.imports.as_slice()).as_str());
    s.append("  ],\n  \"import_summary\": {\"libraries\": ");
    s.append(decimal(bin.imports.len() as u64).as_str());
    s.append(", \"functions\": ");
    s.append(decimal(bin.total_imported_functions() as u64).as_str());
    s.append("},\n  \"capabilities\": [\n");
    s.append(findings_json(findings).as_str());
    s.append("  ],\n  \"strings\": {\"ascii\": ");
    s.append(decimal(bin.strings.ascii_count as u64).as_str());
    s.append(", \"wide\": ");
    s.append(decimal(bin.strings.wide_count as u64).as_str());
    s.append("},\n  \"iocs\": [\n");
    s.append(iocs_json(bin.strings.iocs.as_slice()).as_str());
    s.append("  ]\n}\n");
    s
}

} // verus!
