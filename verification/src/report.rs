//! The human-readable report: evidence, and no judgement.
use crate::binary::{
    entropy_label, entropy_reading, format_name, lesser, likely_packed, packed, str_views,
    total_functions, Binary, BinaryModel, Export, ExportModel, Format, Import, ImportModel,
    ImportedFn, ImportedFnModel, Overlay, PeMetaModel, Section, SectionModel,
};
use crate::calendar::{civil_from_epoch, civil_of};
use crate::entropy::three_places;
use crate::limits::{assess, limits_of, limits_text, names_of, owned, render_limits};
use crate::packers::packers_of;
use crate::rules::{assess_imports, findings_of, severity_name, Finding, FindingModel};
use crate::strings::{kind_name, Ioc, IocModel, StringScan, StringScanModel};
use crate::text::{
    dec, decimal, hex0x, hex0x_padded, hex_padded, hex_prefixed, join, joined, lemma_views_push,
    models, pad_end, pad_start, padded_end, padded_start, views,
};
use vstd::prelude::*;

verus! {

pub const IOC_LIMIT: usize = 15;

pub const EXPORT_LIMIT: usize = 20;

/// What a line begins with that continues the one above it.
pub const MARGIN: &'static str = "                 ";

// ---------------------------------------------------------------------------
// Header
// ---------------------------------------------------------------------------

/// What an entry point is an offset from.
pub open spec fn entry_meaning(f: Format) -> Seq<char> {
    match f {
        Format::Pe => "(RVA)"@,
        Format::Elf => "(virtual address)"@,
    }
}

/// What a load base is.
pub open spec fn base_meaning(f: Format) -> Seq<char> {
    match f {
        Format::Pe => "(image base)"@,
        Format::Elf => "(load base, approx)"@,
    }
}

pub open spec fn attributes_text(attributes: Seq<Seq<char>>) -> Seq<char> {
    if attributes.len() == 0 {
        ""@
    } else {
        "attributes     : "@ + join(attributes, ", "@) + "\n"@
    }
}

pub open spec fn header_text(path: Seq<char>, len: int, b: BinaryModel) -> Seq<char> {
    "Binary Report\nfile           : "@ + path + " ("@ + dec(len) + " bytes)\nformat         : "@
        + format_name(b.format) + "\narch           : "@ + b.arch + " ("@ + dec(b.bits as int)
        + "-bit)\nkind           : "@ + b.kind + "\n"@ + attributes_text(b.attributes)
        + "entry point    : "@ + hex0x(b.entry_point as int) + " "@ + entry_meaning(b.format)
        + "\nload base      : "@ + hex0x(b.image_base as int) + " "@ + base_meaning(b.format)
        + "\nsections       : "@ + dec(b.sections.len() as int) + "\n\n"@
}

fn attributes(list: &Vec<String>) -> (r: String)
    ensures
        r@ == attributes_text(views(list@)),
{
    if list.len() == 0 {
        return "".to_string();
    }
    let mut s = "attributes     : ".to_string();
    s.append(joined(list, ", ").as_str());
    s.append("\n");
    s
}

fn header(path: &str, file_len: usize, bin: &Binary) -> (r: String)
    ensures
        r@ == header_text(path@, file_len as int, bin.deep_view()),
{
    let (entry_label, base_label) = match bin.format {
        Format::Pe => ("(RVA)", "(image base)"),
        Format::Elf => ("(virtual address)", "(load base, approx)"),
    };
    let mut s = "Binary Report\nfile           : ".to_string();
    s.append(path);
    s.append(" (");
    s.append(decimal(file_len as u64).as_str());
    s.append(" bytes)\nformat         : ");
    s.append(bin.format.name());
    s.append("\narch           : ");
    s.append(bin.arch);
    s.append(" (");
    s.append(decimal(bin.bits as u64).as_str());
    s.append("-bit)\nkind           : ");
    s.append(bin.kind);
    s.append("\n");
    s.append(attributes(&bin.attributes).as_str());
    s.append("entry point    : ");
    s.append(hex_prefixed(bin.entry_point).as_str());
    s.append(" ");
    s.append(entry_label);
    s.append("\nload base      : ");
    s.append(hex_prefixed(bin.image_base).as_str());
    s.append(" ");
    s.append(base_label);
    s.append("\nsections       : ");
    s.append(decimal(bin.sections.len() as u64).as_str());
    s.append("\n\n");
    s
}

// ---------------------------------------------------------------------------
// Metadata
// ---------------------------------------------------------------------------

/// A number of at least two digits.
pub open spec fn two_digits(n: int) -> Seq<char> {
    pad_start(dec(n), 2, '0')
}

/// A date and time in UTC.
pub open spec fn stamp_text(ts: u32) -> Seq<char> {
    let c = civil_of(ts as int);
    pad_start(dec(c.0 as int), 4, '0') + "-"@ + two_digits(c.1 as int) + "-"@ + two_digits(
        c.2 as int,
    ) + " "@ + two_digits(c.3 as int) + ":"@ + two_digits(c.4 as int) + ":"@ + two_digits(
        c.5 as int,
    ) + " UTC"@
}

/// When a file says that it was built. The field is no date in a reproducible
/// build, and is not taken for one where the year is implausible.
pub open spec fn timestamp_text(ts: u32, reproducible: bool) -> Seq<char> {
    if reproducible {
        "n/a - reproducible build, so this field is a content hash ("@ + hex0x_padded(ts as int, 8)
            + "), not a date"@
    } else if ts == 0 {
        "0 (stripped, deliberately or by the toolchain)"@
    } else if 1993 <= civil_of(ts as int).0 <= 2038 {
        stamp_text(ts)
    } else {
        stamp_text(ts) + "  <- implausible, so this field is faked or is not a date"@
    }
}

fn push_two_digits(s: &mut String, n: u32)
    ensures
        final(s)@ == old(s)@ + two_digits(n as int),
{
    s.append(padded_start(decimal(n as u64).as_str(), 2, '0').as_str());
}

/// The timestamp of a file for a reader.
pub fn format_timestamp(ts: u32, reproducible: bool) -> (r: String)
    ensures
        r@ == timestamp_text(ts, reproducible),
{
    if reproducible {
        let mut s = "n/a - reproducible build, so this field is a content hash (".to_string();
        s.append(hex_padded(ts as u64, 8).as_str());
        s.append("), not a date");
        return s;
    }
    if ts == 0 {
        return "0 (stripped, deliberately or by the toolchain)".to_string();
    }
    let (y, m, d, hh, mm, ss) = civil_from_epoch(ts as i64);
    proof {
        crate::calendar::lemma_year_after(ts as int, civil_of(ts as int));
    }
    let mut s = padded_start(decimal(y as u64).as_str(), 4, '0');
    s.append("-");
    push_two_digits(&mut s, m);
    s.append("-");
    push_two_digits(&mut s, d);
    s.append(" ");
    push_two_digits(&mut s, hh);
    s.append(":");
    push_two_digits(&mut s, mm);
    s.append(":");
    push_two_digits(&mut s, ss);
    s.append(" UTC");
    if !(1993 <= y && y <= 2038) {
        s.append("  <- implausible, so this field is faked or is not a date");
    }
    s
}

pub open spec fn mitigations_text(m: Seq<Seq<char>>) -> Seq<char> {
    if m.len() == 0 {
        "none declared (unusual for a modern build)"@
    } else {
        join(m, ", "@)
    }
}

pub open spec fn dotnet_note(m: PeMetaModel) -> Seq<char> {
    if m.is_dotnet {
        "                 .NET assembly (managed IL, not native code)\n"@
    } else {
        ""@
    }
}

/// Presence only: nothing is verified, and a valid signature says nothing about
/// intent.
pub open spec fn signature_note(m: PeMetaModel) -> Seq<char> {
    if m.signed {
        "                 embedded Authenticode signature present (not verified)\n"@
    } else {
        "                 no embedded Authenticode signature (may still be catalog-signed)\n"@
    }
}

pub open spec fn resources_note(m: PeMetaModel) -> Seq<char> {
    if m.has_resources {
        "                 has resources\n"@
    } else {
        ""@
    }
}

/// Addresses as hexadecimal numbers.
pub open spec fn hexes(v: Seq<u64>) -> Seq<Seq<char>> {
    Seq::new(v.len(), |i: int| hex0x(v[i] as int))
}

pub open spec fn tls_note(m: PeMetaModel) -> Seq<char> {
    if m.tls_callbacks.len() == 0 {
        ""@
    } else {
        MARGIN@ + dec(m.tls_callbacks.len() as int) + " TLS callback(s) at "@ + join(
            hexes(m.tls_callbacks),
            ", "@,
        ) + " -- these run BEFORE the entry point\n"@
    }
}

pub open spec fn packer_text(hints: Seq<Seq<char>>) -> Seq<char> {
    if hints.len() == 0 {
        ""@
    } else {
        "packer         : section names match "@ + join(hints, " / "@)
            + " (a naming convention, easily faked)\n"@
    }
}

pub open spec fn metadata_text(b: BinaryModel) -> Seq<char> {
    match b.pe_meta {
        None => ""@,
        Some(m) => "compiled       : "@ + timestamp_text(m.timestamp, m.reproducible_build)
            + "\nsubsystem      : "@ + m.subsystem + "\nmitigations    : "@ + mitigations_text(
            m.dll_characteristics,
        ) + "\n"@ + dotnet_note(m) + signature_note(m) + resources_note(m) + tls_note(m)
            + packer_text(packers_of(b.sections)) + "\n"@,
    }
}

fn hex_list(v: &Vec<u64>) -> (r: Vec<String>)
    ensures
        views(r@) == hexes(v@),
{
    let mut out: Vec<String> = Vec::new();
    for i in 0..v.len()
        invariant
            views(out@) == hexes(v@).take(i as int),
    {
        let s = hex_prefixed(v[i]);
        proof {
            lemma_views_push(out@, s);
            assert(hexes(v@).take(i + 1) =~= hexes(v@).take(i as int).push(s@));
        }
        out.push(s);
    }
    proof {
        assert(hexes(v@).take(v@.len() as int) =~= hexes(v@));
    }
    out
}

fn tls(callbacks: &Vec<u64>) -> (r: String)
    ensures
        forall|m: PeMetaModel| m.tls_callbacks == callbacks@ ==> r@ == #[trigger] tls_note(m),
{
    if callbacks.len() == 0 {
        return "".to_string();
    }
    let mut s = MARGIN.to_string();
    s.append(decimal(callbacks.len() as u64).as_str());
    s.append(" TLS callback(s) at ");
    s.append(joined(&hex_list(callbacks), ", ").as_str());
    s.append(" -- these run BEFORE the entry point\n");
    s
}

fn packer(bin: &Binary) -> (r: String)
    ensures
        r@ == packer_text(packers_of(models(bin.sections@))),
{
    let hints = bin.packer_hints();
    proof {
        assert(str_views(hints@).len() == hints@.len());
    }
    if hints.len() == 0 {
        return "".to_string();
    }
    let mut s = "packer         : section names match ".to_string();
    s.append(joined(&owned(&hints), " / ").as_str());
    s.append(" (a naming convention, easily faked)\n");
    s
}

fn metadata(bin: &Binary) -> (r: String)
    ensures
        r@ == metadata_text(bin.deep_view()),
{
    let meta = match &bin.pe_meta {
        Some(m) => m,
        None => {
            return "".to_string();
        },
    };
    let ghost m = meta.deep_view();
    let mut s = "compiled       : ".to_string();
    s.append(format_timestamp(meta.timestamp, meta.reproducible_build).as_str());
    s.append("\nsubsystem      : ");
    s.append(meta.subsystem);
    s.append("\nmitigations    : ");
    if meta.dll_characteristics.len() == 0 {
        s.append("none declared (unusual for a modern build)");
    } else {
        s.append(joined(&owned(&meta.dll_characteristics), ", ").as_str());
    }
    s.append("\n");
    s.append(
        if meta.is_dotnet {
            "                 .NET assembly (managed IL, not native code)\n"
        } else {
            ""
        },
    );
    s.append(
        if meta.signed {
            "                 embedded Authenticode signature present (not verified)\n"
        } else {
            "                 no embedded Authenticode signature (may still be catalog-signed)\n"
        },
    );
    s.append(
        if meta.has_resources {
            "                 has resources\n"
        } else {
            ""
        },
    );
    s.append(tls(&meta.tls_callbacks).as_str());
    s.append(packer(bin).as_str());
    s.append("\n");
    proof {
        assert(str_views(meta.dll_characteristics@).len() == meta.dll_characteristics@.len());
        assert(m.tls_callbacks == meta.tls_callbacks@);
    }
    s
}

// ---------------------------------------------------------------------------
// Sections
// ---------------------------------------------------------------------------

pub open spec fn rwx_text(s: SectionModel) -> Seq<char> {
    (if s.readable {
        "R"@
    } else {
        "-"@
    }) + (if s.writable {
        "W"@
    } else {
        "-"@
    }) + (if s.executable {
        "X"@
    } else {
        "-"@
    })
}

/// The permissions of a section: `R`, `W` and `X`, each or a dash.
pub fn rwx(s: &Section) -> (r: String)
    ensures
        r@ == rwx_text(s.deep_view()),
{
    let mut out = if s.is_readable() {
        "R".to_string()
    } else {
        "-".to_string()
    };
    out.append(
        if s.is_writable() {
            "W"
        } else {
            "-"
        },
    );
    out.append(
        if s.is_executable() {
            "X"
        } else {
            "-"
        },
    );
    out
}

pub open spec fn section_note(s: SectionModel) -> Seq<char> {
    if likely_packed(s) {
        "<- PACKED? (exec + high entropy)"@
    } else if s.writable && s.executable {
        "<- W+X"@
    } else {
        ""@
    }
}

pub open spec fn section_title(s: SectionModel) -> Seq<char> {
    if s.name.len() == 0 {
        "(unnamed)"@
    } else {
        s.name
    }
}

pub open spec fn section_line(s: SectionModel) -> Seq<char> {
    "  "@ + pad_end(section_title(s), 14) + " "@ + pad_start(three_places(s.entropy), 7, ' ') + "  "@
        + pad_start(dec(s.file_size as int), 10, ' ') + "  "@ + pad_end(rwx_text(s), 5) + " "@
        + pad_end(entropy_reading(s.entropy), 17) + " "@ + section_note(s) + "\n"@
}

pub open spec fn section_lines(secs: Seq<SectionModel>, n: int) -> Seq<char>
    decreases n,
{
    if n <= 0 {
        Seq::empty()
    } else {
        section_lines(secs, n - 1) + section_line(secs[n - 1])
    }
}

pub open spec fn packing_text(secs: Seq<SectionModel>) -> Seq<char> {
    if secs.len() == 0 {
        "packing        : no packed sections detected\n"@
    } else {
        "packing        : WARNING - "@ + dec(secs.len() as int) + " section(s) look packed: "@
            + join(names_of(secs), ", "@) + "\n"@
    }
}

pub const SECTION_COLUMNS: &'static str =
    "  name           entropy    filesize  flags reading           note\n";

pub open spec fn sections_text(b: BinaryModel) -> Seq<char> {
    SECTION_COLUMNS@ + section_lines(b.sections, b.sections.len() as int) + "\n"@ + packing_text(
        packed(b.sections),
    ) + "\n"@
}

fn section_row(sec: &Section) -> (r: String)
    ensures
        r@ == section_line(sec.deep_view()),
{
    let name = if sec.name.as_str().is_empty() {
        "(unnamed)"
    } else {
        sec.name.as_str()
    };
    let mut s = "  ".to_string();
    s.append(padded_end(name, 14).as_str());
    s.append(" ");
    s.append(padded_start(sec.entropy.to_three_places().as_str(), 7, ' ').as_str());
    s.append("  ");
    s.append(padded_start(decimal(sec.file_size).as_str(), 10, ' ').as_str());
    s.append("  ");
    s.append(padded_end(rwx(sec).as_str(), 5).as_str());
    s.append(" ");
    s.append(padded_end(entropy_label(sec.entropy), 17).as_str());
    s.append(" ");
    s.append(
        if sec.is_likely_packed() {
            "<- PACKED? (exec + high entropy)"
        } else if sec.is_writable_and_executable() {
            "<- W+X"
        } else {
            ""
        },
    );
    s.append("\n");
    s
}

fn packing(bin: &Binary) -> (r: String)
    ensures
        r@ == packing_text(packed(models(bin.sections@))),
{
    let secs = bin.packed_sections();
    let ghost all = packed(models(bin.sections@));
    proof {
        assert(models(secs@).len() == secs@.len());
    }
    if secs.len() == 0 {
        return "packing        : no packed sections detected\n".to_string();
    }
    let mut names: Vec<String> = Vec::new();
    for i in 0..secs.len()
        invariant
            all == models(secs@),
            views(names@) == names_of(all).take(i as int),
    {
        let n = secs[i].name.clone();
        proof {
            assert(all[i as int] == secs@[i as int].deep_view());
            lemma_views_push(names@, n);
            assert(names_of(all).take(i + 1) =~= names_of(all).take(i as int).push(n@));
        }
        names.push(n);
    }
    proof {
        assert(names_of(all).take(secs@.len() as int) =~= names_of(all));
    }
    let mut s = "packing        : WARNING - ".to_string();
    s.append(decimal(secs.len() as u64).as_str());
    s.append(" section(s) look packed: ");
    s.append(joined(&names, ", ").as_str());
    s.append("\n");
    s
}

fn sections(bin: &Binary) -> (r: String)
    ensures
        r@ == sections_text(bin.deep_view()),
{
    let ghost all = models(bin.sections@);
    let mut rows = String::new();
    proof {
        assert(rows@ =~= Seq::<char>::empty());
    }
    for i in 0..bin.sections.len()
        invariant
            all == models(bin.sections@),
            rows@ == section_lines(all, i as int),
    {
        proof {
            assert(all[i as int] == bin.sections@[i as int].deep_view());
        }
        rows.append(section_row(&bin.sections[i]).as_str());
    }
    let mut s = SECTION_COLUMNS.to_string();
    s.append(rows.as_str());
    s.append("\n");
    s.append(packing(bin).as_str());
    s.append("\n");
    s
}

// ---------------------------------------------------------------------------
// Imports
// ---------------------------------------------------------------------------

pub open spec fn function_line(f: ImportedFnModel) -> Seq<char> {
    match f.iat_rva {
        Some(slot) => "      "@ + hex0x_padded(slot as int, 8) + "  "@ + f.name + "\n"@,
        None => "                  "@ + f.name + "\n"@,
    }
}

pub open spec fn function_lines(fs: Seq<ImportedFnModel>, n: int) -> Seq<char>
    decreases n,
{
    if n <= 0 {
        Seq::empty()
    } else {
        function_lines(fs, n - 1) + function_line(fs[n - 1])
    }
}

pub open spec fn library_text(i: ImportModel) -> Seq<char> {
    "\n  "@ + i.dll + " ("@ + dec(i.functions.len() as int) + " function(s))\n"@ + function_lines(
        i.functions,
        i.functions.len() as int,
    )
}

pub open spec fn library_texts(imports: Seq<ImportModel>, n: int) -> Seq<char>
    decreases n,
{
    if n <= 0 {
        Seq::empty()
    } else {
        library_texts(imports, n - 1) + library_text(imports[n - 1])
    }
}

pub open spec fn libraries_word(f: Format) -> Seq<char> {
    match f {
        Format::Pe => "DLL(s)"@,
        Format::Elf => "library/symbol group(s)"@,
    }
}

pub const IMPORTS_NOTE: &'static str =
    "                 listed in full, in import-table order. slot addresses are where the\n                 loader writes each function, which is what code calls through.\n";

/// The import table in full: every library, every function, in order.
pub open spec fn imports_text(b: BinaryModel) -> Seq<char> {
    "imports        : "@ + dec(b.imports.len() as int) + " "@ + libraries_word(b.format) + ", "@ + dec(
        total_functions(b.imports),
    ) + " function(s)\n"@ + (if b.imports.len() == 0 {
        "                 nothing imported -- see 'limits' below\n"@
    } else {
        IMPORTS_NOTE@ + library_texts(b.imports, b.imports.len() as int)
    }) + "\n"@
}

fn function_row(f: &ImportedFn) -> (r: String)
    ensures
        r@ == function_line(f.deep_view()),
{
    let mut s = match f.iat_rva {
        Some(slot) => {
            let mut s = "      ".to_string();
            s.append(hex_padded(slot, 8).as_str());
            s.append("  ");
            s
        },
        None => "                  ".to_string(),
    };
    s.append(f.name.as_str());
    s.append("\n");
    s
}

fn library(imp: &Import) -> (r: String)
    ensures
        r@ == library_text(imp.deep_view()),
{
    let ghost fs = models(imp.functions@);
    let mut rows = String::new();
    proof {
        assert(rows@ =~= Seq::<char>::empty());
    }
    for i in 0..imp.functions.len()
        invariant
            fs == models(imp.functions@),
            rows@ == function_lines(fs, i as int),
    {
        proof {
            assert(fs[i as int] == imp.functions@[i as int].deep_view());
        }
        rows.append(function_row(&imp.functions[i]).as_str());
    }
    let mut s = "\n  ".to_string();
    s.append(imp.dll.as_str());
    s.append(" (");
    s.append(decimal(imp.functions.len() as u64).as_str());
    s.append(" function(s))\n");
    s.append(rows.as_str());
    s
}

fn libraries(imports: &Vec<Import>) -> (r: String)
    ensures
        r@ == library_texts(models(imports@), imports@.len() as int),
{
    let ghost all = models(imports@);
    let mut s = String::new();
    proof {
        assert(s@ =~= Seq::<char>::empty());
    }
    for i in 0..imports.len()
        invariant
            all == models(imports@),
            s@ == library_texts(all, i as int),
    {
        proof {
            assert(all[i as int] == imports@[i as int].deep_view());
        }
        s.append(library(&imports[i]).as_str());
    }
    s
}

fn imports(bin: &Binary) -> (r: String)
    ensures
        r@ == imports_text(bin.deep_view()),
{
    let mut s = "imports        : ".to_string();
    s.append(decimal(bin.imports.len() as u64).as_str());
    s.append(" ");
    s.append(
        match bin.format {
            Format::Pe => "DLL(s)",
            Format::Elf => "library/symbol group(s)",
        },
    );
    s.append(", ");
    s.append(decimal(bin.total_imported_functions() as u64).as_str());
    s.append(" function(s)\n");
    if bin.imports.len() == 0 {
        s.append("                 nothing imported -- see 'limits' below\n");
    } else {
        let mut list = IMPORTS_NOTE.to_string();
        list.append(libraries(&bin.imports).as_str());
        s.append(list.as_str());
    }
    s.append("\n");
    s
}

// ---------------------------------------------------------------------------
// Exports
// ---------------------------------------------------------------------------

/// How many of the first `n` exports are forwarded.
pub open spec fn forwarded(exports: Seq<ExportModel>, n: int) -> int
    decreases n,
{
    if n <= 0 {
        0
    } else {
        forwarded(exports, n - 1) + if exports[n - 1].forwarder is Some {
            1int
        } else {
            0int
        }
    }
}

pub open spec fn forwarded_text(n: int) -> Seq<char> {
    if n > 0 {
        ", "@ + dec(n) + " forwarded to another library"@
    } else {
        ""@
    }
}

pub open spec fn export_line(e: ExportModel) -> Seq<char> {
    match e.forwarder {
        Some(f) => "  "@ + pad_end(e.name, 32) + " -> "@ + f + "  (forwarder)\n"@,
        None => "  "@ + pad_end(e.name, 32) + " "@ + hex0x(e.rva as int) + "\n"@,
    }
}

pub open spec fn export_lines(exports: Seq<ExportModel>, n: int) -> Seq<char>
    decreases n,
{
    if n <= 0 {
        Seq::empty()
    } else {
        export_lines(exports, n - 1) + export_line(exports[n - 1])
    }
}

pub open spec fn more_exports(n: int) -> Seq<char> {
    if n > EXPORT_LIMIT {
        "  ... "@ + dec(n - EXPORT_LIMIT) + " more\n"@
    } else {
        ""@
    }
}

/// The exports, as far as the limit, and how many more there are.
pub open spec fn exports_text(b: BinaryModel) -> Seq<char> {
    let n = b.exports.len() as int;
    if n == 0 {
        ""@
    } else {
        "exports        : "@ + dec(n) + " function(s)"@ + forwarded_text(forwarded(b.exports, n))
            + "\n"@ + export_lines(b.exports, lesser(n, EXPORT_LIMIT as int)) + more_exports(n)
            + "\n"@
    }
}

fn export_row(e: &Export) -> (r: String)
    ensures
        r@ == export_line(e.deep_view()),
{
    let mut s = "  ".to_string();
    s.append(padded_end(e.name.as_str(), 32).as_str());
    match &e.forwarder {
        Some(f) => {
            s.append(" -> ");
            s.append(f.as_str());
            s.append("  (forwarder)\n");
        },
        None => {
            s.append(" ");
            s.append(hex_prefixed(e.rva).as_str());
            s.append("\n");
        },
    }
    s
}

fn count_forwarded(exports: &Vec<Export>) -> (r: usize)
    ensures
        r == forwarded(models(exports@), exports@.len() as int),
{
    let ghost all = models(exports@);
    let mut n: usize = 0;
    for i in 0..exports.len()
        invariant
            all == models(exports@),
            n <= i,
            n == forwarded(all, i as int),
    {
        proof {
            assert(all[i as int] == exports@[i as int].deep_view());
        }
        if exports[i].forwarder.is_some() {
            n += 1;
        }
    }
    n
}

fn exports(bin: &Binary) -> (r: String)
    ensures
        r@ == exports_text(bin.deep_view()),
{
    let n = bin.exports.len();
    if n == 0 {
        return "".to_string();
    }
    let ghost all = models(bin.exports@);
    let shown: usize = if n < EXPORT_LIMIT {
        n
    } else {
        EXPORT_LIMIT
    };
    let mut rows = String::new();
    proof {
        assert(rows@ =~= Seq::<char>::empty());
    }
    for i in 0..shown
        invariant
            shown <= bin.exports@.len(),
            all == models(bin.exports@),
            rows@ == export_lines(all, i as int),
    {
        proof {
            assert(all[i as int] == bin.exports@[i as int].deep_view());
        }
        rows.append(export_row(&bin.exports[i]).as_str());
    }
    let count = count_forwarded(&bin.exports);
    let mut s = "exports        : ".to_string();
    s.append(decimal(n as u64).as_str());
    s.append(" function(s)");
    if count > 0 {
        let mut f = ", ".to_string();
        f.append(decimal(count as u64).as_str());
        f.append(" forwarded to another library");
        s.append(f.as_str());
    } else {
        s.append("");
    }
    s.append("\n");
    s.append(rows.as_str());
    if n > EXPORT_LIMIT {
        let mut f = "  ... ".to_string();
        f.append(decimal((n - EXPORT_LIMIT) as u64).as_str());
        f.append(" more\n");
        s.append(f.as_str());
    } else {
        s.append("");
    }
    s.append("\n");
    s
}

// ---------------------------------------------------------------------------
// Capabilities
// ---------------------------------------------------------------------------

/// A finding: how severe it is, what it suggests, and the functions it rests on.
pub open spec fn finding_line(f: FindingModel) -> Seq<char> {
    "  ["@ + severity_name(f.severity) + "] "@ + f.capability + ": "@ + join(f.matched, ", "@)
        + "\n"@
}

pub open spec fn finding_lines(findings: Seq<FindingModel>, n: int) -> Seq<char>
    decreases n,
{
    if n <= 0 {
        Seq::empty()
    } else {
        finding_lines(findings, n - 1) + finding_line(findings[n - 1])
    }
}

/// The capabilities that the imports suggest.
pub open spec fn capabilities_text(findings: Seq<FindingModel>) -> Seq<char> {
    let n = findings.len() as int;
    if n == 0 {
        "capabilities   : none suggested by the imports\n\n"@
    } else {
        "capabilities   : "@ + dec(n) + " finding(s), most severe first\n"@ + finding_lines(
            findings,
            n,
        ) + "\n"@
    }
}

fn finding_row(f: &Finding) -> (r: String)
    ensures
        r@ == finding_line(f.deep_view()),
{
    let mut s = "  [".to_string();
    s.append(f.severity.name());
    s.append("] ");
    s.append(f.capability);
    s.append(": ");
    s.append(joined(&f.matched, ", ").as_str());
    s.append("\n");
    s
}

fn capabilities(findings: &Vec<Finding>) -> (r: String)
    ensures
        r@ == capabilities_text(models(findings@)),
{
    let n = findings.len();
    if n == 0 {
        return "capabilities   : none suggested by the imports\n\n".to_string();
    }
    let ghost all = models(findings@);
    let mut s = "capabilities   : ".to_string();
    s.append(decimal(n as u64).as_str());
    s.append(" finding(s), most severe first\n");
    let mut rows = String::new();
    proof {
        assert(rows@ =~= Seq::<char>::empty());
    }
    for i in 0..n
        invariant
            n == findings@.len(),
            all == models(findings@),
            rows@ == finding_lines(all, i as int),
    {
        proof {
            assert(all[i as int] == findings@[i as int].deep_view());
        }
        rows.append(finding_row(&findings[i]).as_str());
    }
    s.append(rows.as_str());
    s.append("\n");
    s
}

// ---------------------------------------------------------------------------
// Strings
// ---------------------------------------------------------------------------

pub open spec fn ioc_line(i: IocModel) -> Seq<char> {
    "  ["@ + kind_name(i.kind) + "] "@ + i.value + "\n"@
}

pub open spec fn ioc_lines(iocs: Seq<IocModel>, n: int) -> Seq<char>
    decreases n,
{
    if n <= 0 {
        Seq::empty()
    } else {
        ioc_lines(iocs, n - 1) + ioc_line(iocs[n - 1])
    }
}

/// The strings by number, and the indicators as far as the limit.
pub open spec fn strings_text(s: StringScanModel) -> Seq<char> {
    let n = s.iocs.len() as int;
    "strings        : "@ + dec(s.ascii_count as int) + " ascii, "@ + dec(s.wide_count as int)
        + " wide\n"@ + (if n == 0 {
        "IOCs           : none extracted\n"@
    } else {
        "IOCs           : "@ + dec(n) + " unique (showing up to 15)\n"@ + ioc_lines(
            s.iocs,
            lesser(n, IOC_LIMIT as int),
        )
    })
}

fn ioc_row(ioc: &Ioc) -> (r: String)
    ensures
        r@ == ioc_line(ioc.deep_view()),
{
    let mut s = "  [".to_string();
    s.append(ioc.kind.name());
    s.append("] ");
    s.append(ioc.value.as_str());
    s.append("\n");
    s
}

fn strings(scan: &StringScan) -> (r: String)
    ensures
        r@ == strings_text(scan.deep_view()),
{
    let ghost all = models(scan.iocs@);
    let n = scan.iocs.len();
    let shown: usize = if n < IOC_LIMIT {
        n
    } else {
        IOC_LIMIT
    };
    let mut rows = String::new();
    proof {
        assert(rows@ =~= Seq::<char>::empty());
    }
    for i in 0..shown
        invariant
            shown <= scan.iocs@.len(),
            all == models(scan.iocs@),
            rows@ == ioc_lines(all, i as int),
    {
        proof {
            assert(all[i as int] == scan.iocs@[i as int].deep_view());
        }
        rows.append(ioc_row(&scan.iocs[i]).as_str());
    }
    let mut s = "strings        : ".to_string();
    s.append(decimal(scan.ascii_count as u64).as_str());
    s.append(" ascii, ");
    s.append(decimal(scan.wide_count as u64).as_str());
    s.append(" wide\n");
    if n == 0 {
        s.append("IOCs           : none extracted\n");
    } else {
        let mut list = "IOCs           : ".to_string();
        list.append(decimal(n as u64).as_str());
        list.append(" unique (showing up to 15)\n");
        list.append(rows.as_str());
        s.append(list.as_str());
    }
    s
}

// ---------------------------------------------------------------------------
// Overlay
// ---------------------------------------------------------------------------

pub open spec fn overlay_text(o: Option<Overlay>) -> Seq<char> {
    match o {
        None => "\noverlay        : none (no unexplained data past the last section)\n"@,
        Some(ov) => "\noverlay        : "@ + dec(ov.size as int)
            + " byte(s) past the last section, at file offset "@ + hex0x(ov.file_offset as int)
            + "\n                 entropy "@ + three_places(ov.entropy) + " ("@ + entropy_reading(
            ov.entropy,
        ) + ") -- data no header describes and the loader never maps\n"@,
    }
}

fn overlay(o: &Option<Overlay>) -> (r: String)
    ensures
        r@ == overlay_text(*o),
{
    match o {
        None => "\noverlay        : none (no unexplained data past the last section)\n".to_string(),
        Some(ov) => {
            let mut s = "\noverlay        : ".to_string();
            s.append(decimal(ov.size).as_str());
            s.append(" byte(s) past the last section, at file offset ");
            s.append(hex_prefixed(ov.file_offset).as_str());
            s.append("\n                 entropy ");
            s.append(ov.entropy.to_three_places().as_str());
            s.append(" (");
            s.append(entropy_label(ov.entropy));
            s.append(") -- data no header describes and the loader never maps\n");
            s
        },
    }
}

// ---------------------------------------------------------------------------
// The whole
// ---------------------------------------------------------------------------

/// The report on a file.
pub open spec fn report_text(path: Seq<char>, len: int, b: BinaryModel) -> Seq<char> {
    header_text(path, len, b) + metadata_text(b) + sections_text(b) + imports_text(b)
        + exports_text(b) + capabilities_text(findings_of(b.imports)) + strings_text(b.strings)
        + overlay_text(b.overlay) + "\n"@ + limits_text(limits_of(b, None))
}

/// Writes the report on a file.
pub fn write(w: &mut String, path: &str, file_len: usize, bin: &Binary)
    ensures
        final(w)@ == old(w)@ + report_text(path@, file_len as int, bin.deep_view()),
{
    let mut s = header(path, file_len, bin);
    s.append(metadata(bin).as_str());
    s.append(sections(bin).as_str());
    s.append(imports(bin).as_str());
    s.append(exports(bin).as_str());
    s.append(capabilities(&assess_imports(bin.imports.as_slice())).as_str());
    s.append(strings(&bin.strings).as_str());
    s.append(overlay(&bin.overlay).as_str());
    s.append("\n");
    s.append(render_limits(assess(bin, None).as_slice()).as_str());
    w.append(s.as_str());
}

} // verus!
