//! What every inventory, JSON document and graph shows: nothing that was found is
//! left out, and all of it stands in order.
use crate::binary::{packed, total_functions, BinaryModel, ImportModel, SectionModel};
use crate::cfg::{starts_of, BlockModel, CfgModel};
use crate::dot::{
    dot_edge, dot_edges, dot_edges_of, dot_escaped, dot_label, dot_line, dot_node, dot_nodes,
    graph_dot,
};
use crate::entropy::three_places;
use crate::functions::{FunctionModel, InventoryModel};
use crate::inventory::{
    api_lines, apis_json, called_text, closing_text, function_json, function_line, function_lines,
    functions_json, graph_limit_text, inventory_json, inventory_text, labelled, name_lines,
    summary_text, uncalled_text, COLUMNS,
};
use crate::json::{
    all_quoted, comma, finding_object, findings_lines, function_names, import_object, imports_lines,
    ioc_object, iocs_lines, packing_object, quoted, report_object, section_object, sections_lines,
    short_name, string_array,
};
use crate::listing::{
    block_text, block_texts, edge_text, edges_line, graph_header, graph_text, instr_line,
    instr_lines, title_of,
};
use crate::output_laws::{lemma_at, lemma_join, lemma_within};
use crate::rules::{severity_name, FindingModel};
use crate::search::contains;
use crate::strings::{kind_name, IocModel};
use crate::symbols::{label_text, LabelModel, SymbolsModel};
use crate::text::{dec, hex0x, hex0x_padded, join, pad_end, pad_start, truth};
use vstd::prelude::*;

verus! {

proof fn lemma_flat(lines: spec_fn(int) -> Seq<char>, line: spec_fn(int) -> Seq<char>, n: int)
    requires
        0 <= n,
        lines(0).len() == 0,
        forall|k: int| 0 < k <= n ==> #[trigger] lines(k) == lines(k - 1) + line(k - 1),
    ensures
        lines(n) == Seq::new(n as nat, line).flatten(),
    decreases n,
{
    let all = Seq::new(n as nat, line);
    if n > 0 {
        lemma_flat(lines, line, n - 1);
        let before = Seq::new((n - 1) as nat, line);
        assert(all =~= before.push(line(n - 1)));
        before.lemma_flatten_push(line(n - 1));
    } else {
        assert(all.flatten() =~= Seq::<char>::empty());
        assert(lines(0) =~= Seq::<char>::empty());
    }
}

// ---------------------------------------------------------------------------
// The inventory
// ---------------------------------------------------------------------------

/// The line of a function: its address, how often it is called, its label, and
/// the first four of the functions that it reaches.
pub open spec fn line_of_function(f: FunctionModel) -> Seq<char> {
    let calls = if f.calls == 0 {
        "-"@
    } else {
        dec(f.calls as int)
    };
    let label = match f.label {
        Some(l) => label_text(l),
        None => "-"@,
    };
    let start = "  "@ + hex0x_padded(f.rva as int, 8) + " "@ + pad_start(calls, 7, ' ') + "  "@
        + pad_end(label, 20) + " "@;
    if f.apis.len() > 4 {
        start + join(f.apis.take(4), ", "@) + ("  (+"@ + dec(f.apis.len() - 4) + " more)"@) + "\n"@
    } else {
        start + join(f.apis, ", "@) + Seq::<char>::empty() + "\n"@
    }
}

/// The inventory has a line for each function, in order.
pub proof fn law_inventory_lists_every_function(i: InventoryModel)
    ensures
        contains(
            inventory_text(i),
            Seq::new(i.functions.len(), |k: int| line_of_function(i.functions[k])).flatten(),
        ),
{
    let fs = i.functions;
    let n = fs.len() as int;
    let lines = |k: int| function_lines(fs, k);
    let line = |k: int| line_of_function(fs[k]);
    assert forall|k: int| 0 < k <= n implies #[trigger] lines(k) == lines(k - 1) + line(k - 1) by {
        assert(function_line(fs[k - 1]) == line_of_function(fs[k - 1]));
    }
    lemma_flat(lines, line, n);
    lemma_inventory_parts(
        summary_text(i),
        COLUMNS@,
        function_lines(fs, n),
        "\n"@,
        called_text(i),
        uncalled_text(i),
        graph_limit_text(i),
        closing_text(i),
    );
}

#[verifier::rlimit(50)]
proof fn lemma_inventory_parts(
    a: Seq<char>,
    b: Seq<char>,
    c: Seq<char>,
    d: Seq<char>,
    e: Seq<char>,
    f: Seq<char>,
    g: Seq<char>,
    h: Seq<char>,
)
    ensures
        contains(a + b + c + d + e + f + g + h, a),
        contains(a + b + c + d + e + f + g + h, c),
        contains(a + b + c + d + e + f + g + h, e),
        contains(a + b + c + d + e + f + g + h, f),
        contains(a + b + c + d + e + f + g + h, g),
        contains(a + b + c + d + e + f + g + h, h),
{
    let r1 = a + b;
    let r2 = r1 + c;
    let r3 = r2 + d;
    let r4 = r3 + e;
    let r5 = r4 + f;
    let r6 = r5 + g;
    let r = r6 + h;
    lemma_join(a, b);
    lemma_join(r1, c);
    lemma_join(r2, d);
    lemma_join(r3, e);
    lemma_join(r4, f);
    lemma_join(r5, g);
    lemma_join(r6, h);
    lemma_within(r, r6, g);
    lemma_within(r, r6, r5);
    lemma_within(r, r5, f);
    lemma_within(r, r5, r4);
    lemma_within(r, r4, e);
    lemma_within(r, r4, r3);
    lemma_within(r, r3, r2);
    lemma_within(r, r2, c);
    lemma_within(r, r2, r1);
    lemma_within(r, r1, a);
}

/// The inventory lists every imported function that is called, with the number of
/// its calls, in the order of the ranking.
pub proof fn law_inventory_lists_every_called_function(i: InventoryModel)
    ensures
        contains(
            inventory_text(i),
            Seq::new(
                i.api_calls.len(),
                |k: int|
                    "  "@ + pad_start(dec(i.api_calls[k].1 as int), 6, ' ') + "  "@
                        + i.api_calls[k].0 + "\n"@,
            ).flatten(),
        ),
{
    let v = i.api_calls;
    let n = v.len() as int;
    let lines = |k: int| api_lines(v, k);
    let line = |k: int| "  "@ + pad_start(dec(v[k].1 as int), 6, ' ') + "  "@ + v[k].0 + "\n"@;
    lemma_flat(lines, line, n);
    let all = api_lines(v, n);
    let s = called_text(i);
    if n == 0 {
        assert(s.subrange(0, 0) =~= all);
        lemma_at(s, all, 0);
    } else {
        let head = "APIs called    : "@ + dec(n) + " of "@ + dec(i.imported_total as int)
            + " imported function(s) are reached by a resolvable call\n"@;
        lemma_join(head, all);
        lemma_join(head + all, "\n"@);
        lemma_within(s, head + all, all);
    }
    lemma_inventory_parts(
        summary_text(i),
        COLUMNS@,
        function_lines(i.functions, i.functions.len() as int),
        "\n"@,
        s,
        uncalled_text(i),
        graph_limit_text(i),
        closing_text(i),
    );
    lemma_within(inventory_text(i), s, all);
}

/// The inventory lists every imported function that is never called, in order.
pub proof fn law_inventory_lists_every_uncalled_function(i: InventoryModel)
    ensures
        contains(
            inventory_text(i),
            Seq::new(i.uncalled.len(), |k: int| "      "@ + i.uncalled[k] + "\n"@).flatten(),
        ),
{
    let v = i.uncalled;
    let n = v.len() as int;
    let lines = |k: int| name_lines(v, k);
    let line = |k: int| "      "@ + v[k] + "\n"@;
    lemma_flat(lines, line, n);
    let all = name_lines(v, n);
    let s = uncalled_text(i);
    if n == 0 {
        assert(s.subrange(0, 0) =~= all);
        lemma_at(s, all, 0);
    } else {
        let head = "never called   : "@ + dec(n)
            + " import(s) declared but never reached by any call site found here\n                 delay-loading, computed calls, dead declarations and padding all\n                 look like this. it is an observation, not an accusation.\n"@;
        lemma_join(head, all);
        lemma_join(head + all, "\n"@);
        lemma_within(s, head + all, all);
    }
    lemma_inventory_parts(
        summary_text(i),
        COLUMNS@,
        function_lines(i.functions, i.functions.len() as int),
        "\n"@,
        called_text(i),
        s,
        graph_limit_text(i),
        closing_text(i),
    );
    lemma_within(inventory_text(i), s, all);
}

proof fn lemma_labelled(fs: Seq<FunctionModel>, kind: LabelModel, n: int)
    requires
        0 <= n <= fs.len(),
    ensures
        kind is Entry ==> labelled(fs, kind, n) == fs.take(n).filter(
            |f: FunctionModel| f.label == Some(LabelModel::Entry),
        ).len(),
        kind is TlsCallback ==> labelled(fs, kind, n) == fs.take(n).filter(
            |f: FunctionModel| f.label == Some(LabelModel::TlsCallback),
        ).len(),
        kind is Export ==> labelled(fs, kind, n) == fs.take(n).filter(
            |f: FunctionModel| f.label is Some && f.label->0 is Export,
        ).len(),
    decreases n,
{
    reveal(Seq::filter);
    if n > 0 {
        lemma_labelled(fs, kind, n - 1);
        assert(fs.take(n).drop_last() =~= fs.take(n - 1));
        assert(fs.take(n).last() == fs[n - 1]);
    }
}

/// The inventory counts its functions: the entry, the exports and the callbacks
/// among them.
pub proof fn law_inventory_counts_its_labels(fs: Seq<FunctionModel>)
    ensures
        labelled(fs, LabelModel::Entry, fs.len() as int) == fs.filter(
            |f: FunctionModel| f.label == Some(LabelModel::Entry),
        ).len(),
        labelled(fs, LabelModel::TlsCallback, fs.len() as int) == fs.filter(
            |f: FunctionModel| f.label == Some(LabelModel::TlsCallback),
        ).len(),
        labelled(fs, LabelModel::Export(Seq::empty()), fs.len() as int) == fs.filter(
            |f: FunctionModel| f.label is Some && f.label->0 is Export,
        ).len(),
{
    let n = fs.len() as int;
    assert(fs.take(n) =~= fs);
    lemma_labelled(fs, LabelModel::Entry, n);
    lemma_labelled(fs, LabelModel::TlsCallback, n);
    lemma_labelled(fs, LabelModel::Export(Seq::empty()), n);
}

// ---------------------------------------------------------------------------
// JSON
// ---------------------------------------------------------------------------

/// Objects, each on a line of its own, with commas between them.
pub open spec fn object_lines(objects: Seq<Seq<char>>) -> Seq<char> {
    if objects.len() == 0 {
        Seq::empty()
    } else {
        join(objects, ",\n"@) + "\n"@
    }
}

#[verifier::rlimit(50)]
proof fn lemma_objects(
    lines: spec_fn(int) -> Seq<char>,
    object: spec_fn(int) -> Seq<char>,
    len: int,
    n: int,
)
    requires
        0 <= n <= len,
        lines(0).len() == 0,
        forall|k: int|
            0 < k <= len ==> #[trigger] lines(k) == lines(k - 1) + object(k - 1) + comma(k - 1, len)
                + "\n"@,
    ensures
        n == 0 ==> lines(n) == Seq::<char>::empty(),
        0 < n < len ==> lines(n) == join(Seq::new(n as nat, object), ",\n"@) + ",\n"@,
        0 < n && n == len ==> lines(n) == join(Seq::new(n as nat, object), ",\n"@) + "\n"@,
    decreases n,
{
    reveal_strlit(",\n");
    reveal_strlit(",");
    reveal_strlit("\n");
    reveal_strlit("");
    if n > 0 {
        lemma_objects(lines, object, len, n - 1);
        let all = Seq::new(n as nat, object);
        assert(all.drop_last() =~= Seq::new((n - 1) as nat, object));
        assert(all.last() == object(n - 1));
        let front = if n == 1 {
            Seq::<char>::empty()
        } else {
            join(all.drop_last(), ",\n"@) + ",\n"@
        };
        assert(lines(n - 1) =~= front);
        assert(join(all, ",\n"@) =~= front + object(n - 1));
        assert(lines(n) == lines(n - 1) + object(n - 1) + comma(n - 1, len) + "\n"@);
        if n < len {
            assert(comma(n - 1, len) =~= ","@);
            assert(","@ + "\n"@ =~= ",\n"@);
            assert(lines(n) =~= join(all, ",\n"@) + ",\n"@);
        } else {
            assert(comma(n - 1, len) =~= ""@);
            assert(lines(n) =~= join(all, ",\n"@) + "\n"@);
        }
    } else {
        assert(lines(0) =~= Seq::<char>::empty());
    }
}

proof fn lemma_object_lines(
    lines: spec_fn(int) -> Seq<char>,
    object: spec_fn(int) -> Seq<char>,
    len: int,
)
    requires
        0 <= len,
        lines(0).len() == 0,
        forall|k: int|
            0 < k <= len ==> #[trigger] lines(k) == lines(k - 1) + object(k - 1) + comma(k - 1, len)
                + "\n"@,
    ensures
        lines(len) == object_lines(Seq::new(len as nat, object)),
{
    lemma_objects(lines, object, len, len);
}

/// The object of a section.
pub open spec fn object_of_section(s: SectionModel) -> Seq<char> {
    "    {\"name\": "@ + quoted(s.name) + ", \"virtual_addr\": "@ + dec(s.virtual_addr as int)
        + ", \"virtual_size\": "@ + dec(s.virtual_size as int) + ", \"file_offset\": "@ + dec(
        s.file_offset as int,
    ) + ", \"file_size\": "@ + dec(s.file_size as int) + ", \"readable\": "@ + truth(s.readable)
        + ", \"writable\": "@ + truth(s.writable) + ", \"executable\": "@ + truth(s.executable)
        + ", \"entropy\": "@ + three_places(s.entropy) + ", \"likely_packed\": "@ + truth(
        s.executable && s.entropy.bits() >= 0x401c_0000_0000_0000,
    ) + "}"@
}

/// The object of a library, with the names of its functions.
pub open spec fn object_of_library(lib: ImportModel) -> Seq<char> {
    "    {\"dll\": "@ + quoted(lib.dll) + ", \"functions\": "@ + ("["@ + join(
        Seq::new(lib.functions.len(), |j: int| quoted(lib.functions[j].name)),
        ", "@,
    ) + "]"@) + "}"@
}

/// The object of a finding.
pub open spec fn object_of_finding(f: FindingModel) -> Seq<char> {
    "    {\"capability\": "@ + quoted(f.capability) + ", \"severity\": "@ + quoted(
        severity_name(f.severity),
    ) + ", \"matched\": "@ + ("["@ + join(
        Seq::new(f.matched.len(), |j: int| quoted(f.matched[j])),
        ", "@,
    ) + "]"@) + "}"@
}

/// The object of an indicator.
pub open spec fn object_of_ioc(i: IocModel) -> Seq<char> {
    "    {\"kind\": "@ + quoted(kind_name(i.kind)) + ", \"value\": "@ + quoted(i.value) + "}"@
}

#[verifier::rlimit(50)]
proof fn lemma_document_parts(
    a: Seq<char>,
    s: Seq<char>,
    b: Seq<char>,
    p: Seq<char>,
    c: Seq<char>,
    i: Seq<char>,
    d: Seq<char>,
    x: Seq<char>,
    e: Seq<char>,
    y: Seq<char>,
    f: Seq<char>,
    g: Seq<char>,
    h: Seq<char>,
    z: Seq<char>,
    j: Seq<char>,
    w: Seq<char>,
    k: Seq<char>,
    o: Seq<char>,
    l: Seq<char>,
)
    ensures
        ({
            let r = a + s + b + p + c + i + d + x + e + y + f + g + h + z + j + w + k + o + l;
            &&& contains(r, s)
            &&& contains(r, i)
            &&& contains(r, g)
            &&& contains(r, o)
        }),
{
    let r1 = a + s;
    let r2 = r1 + b;
    let r3 = r2 + p;
    let r4 = r3 + c;
    let r5 = r4 + i;
    let r6 = r5 + d;
    let r7 = r6 + x;
    let r8 = r7 + e;
    let r9 = r8 + y;
    let r10 = r9 + f;
    let r11 = r10 + g;
    let r12 = r11 + h;
    let r13 = r12 + z;
    let r14 = r13 + j;
    let r15 = r14 + w;
    let r16 = r15 + k;
    let r17 = r16 + o;
    let r = r17 + l;
    lemma_join(a, s);
    lemma_join(r1, b);
    lemma_join(r2, p);
    lemma_join(r3, c);
    lemma_join(r4, i);
    lemma_join(r5, d);
    lemma_join(r6, x);
    lemma_join(r7, e);
    lemma_join(r8, y);
    lemma_join(r9, f);
    lemma_join(r10, g);
    lemma_join(r11, h);
    lemma_join(r12, z);
    lemma_join(r13, j);
    lemma_join(r14, w);
    lemma_join(r15, k);
    lemma_join(r16, o);
    lemma_join(r17, l);
    lemma_within(r, r17, o);
    lemma_within(r, r17, r16);
    lemma_within(r, r16, r15);
    lemma_within(r, r15, r14);
    lemma_within(r, r14, r13);
    lemma_within(r, r13, r12);
    lemma_within(r, r12, r11);
    lemma_within(r, r11, g);
    lemma_within(r, r11, r10);
    lemma_within(r, r10, r9);
    lemma_within(r, r9, r8);
    lemma_within(r, r8, r7);
    lemma_within(r, r7, r6);
    lemma_within(r, r6, r5);
    lemma_within(r, r5, i);
    lemma_within(r, r5, r4);
    lemma_within(r, r4, r3);
    lemma_within(r, r3, r2);
    lemma_within(r, r2, r1);
    lemma_within(r, r1, s);
}

/// The JSON report holds an object for each section, library, finding and
/// indicator, in order.
#[verifier::rlimit(50)]
pub proof fn law_document_holds_every_object(
    path: Seq<char>,
    size: int,
    b: BinaryModel,
    fs: Seq<FindingModel>,
)
    ensures
        ({
            let r = report_object(path, size, b, fs);
            let iocs = b.strings.iocs;
            &&& contains(
                r,
                object_lines(
                    Seq::new(b.sections.len(), |k: int| object_of_section(b.sections[k])),
                ),
            )
            &&& contains(
                r,
                object_lines(Seq::new(b.imports.len(), |k: int| object_of_library(b.imports[k]))),
            )
            &&& contains(r, object_lines(Seq::new(fs.len(), |k: int| object_of_finding(fs[k]))))
            &&& contains(r, object_lines(Seq::new(iocs.len(), |k: int| object_of_ioc(iocs[k]))))
        }),
{
    let secs = b.sections;
    let libs = b.imports;
    let iocs = b.strings.iocs;
    lemma_sections_json(secs);
    lemma_libraries_json(libs);
    lemma_findings_json(fs);
    lemma_iocs_json(iocs);
    let head = "{\n  \"file\": "@ + quoted(path) + ",\n  \"size\": "@ + dec(size)
        + ",\n  \"format\": "@ + quoted(short_name(b.format)) + ",\n  \"arch\": "@ + quoted(b.arch)
        + ",\n  \"bits\": "@ + dec(b.bits as int) + ",\n  \"kind\": "@ + quoted(b.kind)
        + ",\n  \"attributes\": "@ + string_array(b.attributes) + ",\n  \"entry_point\": "@ + dec(
        b.entry_point as int,
    ) + ",\n  \"image_base\": "@ + dec(b.image_base as int) + ",\n  \"sections\": [\n"@;
    lemma_document_parts(
        head,
        sections_lines(secs, secs.len() as int),
        "  ],\n  \"packing\": "@,
        packing_object(packed(secs)),
        ",\n  \"imports\": [\n"@,
        imports_lines(libs, libs.len() as int),
        "  ],\n  \"import_summary\": {\"libraries\": "@,
        dec(libs.len() as int),
        ", \"functions\": "@,
        dec(total_functions(libs)),
        "},\n  \"capabilities\": [\n"@,
        findings_lines(fs, fs.len() as int),
        "  ],\n  \"strings\": {\"ascii\": "@,
        dec(b.strings.ascii_count as int),
        ", \"wide\": "@,
        dec(b.strings.wide_count as int),
        "},\n  \"iocs\": [\n"@,
        iocs_lines(iocs, iocs.len() as int),
        "  ]\n}\n"@,
    );
}

proof fn lemma_sections_json(v: Seq<SectionModel>)
    ensures
        sections_lines(v, v.len() as int) == object_lines(
            Seq::new(v.len(), |k: int| object_of_section(v[k])),
        ),
{
    let lines = |k: int| sections_lines(v, k);
    let object = |k: int| object_of_section(v[k]);
    assert forall|k: int| 0 < k <= v.len() implies #[trigger] lines(k) == lines(k - 1) + object(
        k - 1,
    ) + comma(k - 1, v.len() as int) + "\n"@ by {
        assert(section_object(v[k - 1]) == object_of_section(v[k - 1]));
    }
    lemma_object_lines(lines, object, v.len() as int);
}

proof fn lemma_libraries_json(v: Seq<ImportModel>)
    ensures
        imports_lines(v, v.len() as int) == object_lines(
            Seq::new(v.len(), |k: int| object_of_library(v[k])),
        ),
{
    let lines = |k: int| imports_lines(v, k);
    let object = |k: int| object_of_library(v[k]);
    assert forall|k: int| 0 < k <= v.len() implies #[trigger] lines(k) == lines(k - 1) + object(
        k - 1,
    ) + comma(k - 1, v.len() as int) + "\n"@ by {
        let lib = v[k - 1];
        assert(all_quoted(function_names(lib.functions)) =~= Seq::new(
            lib.functions.len(),
            |j: int| quoted(lib.functions[j].name),
        ));
        assert(import_object(lib) == object_of_library(lib));
    }
    lemma_object_lines(lines, object, v.len() as int);
}

proof fn lemma_findings_json(v: Seq<FindingModel>)
    ensures
        findings_lines(v, v.len() as int) == object_lines(
            Seq::new(v.len(), |k: int| object_of_finding(v[k])),
        ),
{
    let lines = |k: int| findings_lines(v, k);
    let object = |k: int| object_of_finding(v[k]);
    assert forall|k: int| 0 < k <= v.len() implies #[trigger] lines(k) == lines(k - 1) + object(
        k - 1,
    ) + comma(k - 1, v.len() as int) + "\n"@ by {
        let f = v[k - 1];
        assert(all_quoted(f.matched) =~= Seq::new(f.matched.len(), |j: int| quoted(f.matched[j])));
        assert(finding_object(f) == object_of_finding(f));
    }
    lemma_object_lines(lines, object, v.len() as int);
}

proof fn lemma_iocs_json(v: Seq<IocModel>)
    ensures
        iocs_lines(v, v.len() as int) == object_lines(
            Seq::new(v.len(), |k: int| object_of_ioc(v[k])),
        ),
{
    let lines = |k: int| iocs_lines(v, k);
    let object = |k: int| object_of_ioc(v[k]);
    assert forall|k: int| 0 < k <= v.len() implies #[trigger] lines(k) == lines(k - 1) + object(
        k - 1,
    ) + comma(k - 1, v.len() as int) + "\n"@ by {
        assert(ioc_object(v[k - 1]) == object_of_ioc(v[k - 1]));
    }
    lemma_object_lines(lines, object, v.len() as int);
}

/// The object of a function, with all that it reaches.
pub open spec fn object_of_function(f: FunctionModel) -> Seq<char> {
    let label = match f.label {
        Some(LabelModel::Entry) => quoted("entry"@),
        Some(LabelModel::Export(n)) => quoted("export:"@ + n),
        Some(LabelModel::TlsCallback) => quoted("tls_callback"@),
        None => "null"@,
    };
    "    {\"rva\": "@ + dec(f.rva as int) + ", \"calls\": "@ + dec(f.calls as int)
        + ", \"label\": "@ + label + ", \"reaches\": ["@ + join(
        Seq::new(f.apis.len(), |j: int| quoted(f.apis[j])),
        ", "@,
    ) + "]}"@
}

/// The object of an imported function that is called.
pub open spec fn object_of_api(a: (Seq<char>, u64)) -> Seq<char> {
    "    {\"api\": "@ + quoted(a.0) + ", \"call_sites\": "@ + dec(a.1 as int) + "}"@
}

proof fn lemma_functions_json(v: Seq<FunctionModel>)
    ensures
        functions_json(v, v.len() as int) == object_lines(
            Seq::new(v.len(), |k: int| object_of_function(v[k])),
        ),
{
    let lines = |k: int| functions_json(v, k);
    let object = |k: int| object_of_function(v[k]);
    assert forall|k: int| 0 < k <= v.len() implies #[trigger] lines(k) == lines(k - 1) + object(
        k - 1,
    ) + comma(k - 1, v.len() as int) + "\n"@ by {
        let f = v[k - 1];
        assert(all_quoted(f.apis) =~= Seq::new(f.apis.len(), |j: int| quoted(f.apis[j])));
        assert(function_json(f) == object_of_function(f));
    }
    lemma_object_lines(lines, object, v.len() as int);
}

proof fn lemma_apis_json(v: Seq<(Seq<char>, u64)>)
    ensures
        apis_json(v, v.len() as int) == object_lines(
            Seq::new(v.len(), |k: int| object_of_api(v[k])),
        ),
{
    let lines = |k: int| apis_json(v, k);
    let object = |k: int| object_of_api(v[k]);
    assert forall|k: int| 0 < k <= v.len() implies #[trigger] lines(k) == lines(k - 1) + object(
        k - 1,
    ) + comma(k - 1, v.len() as int) + "\n"@ by {
        assert(lines(k) =~= lines(k - 1) + object(k - 1) + comma(k - 1, v.len() as int) + "\n"@);
    }
    lemma_object_lines(lines, object, v.len() as int);
}

/// The JSON inventory holds an object for each function and each imported
/// function that is called, and the names of those that are not, in order.
#[verifier::rlimit(50)]
pub proof fn law_json_inventory_holds_every_object(path: Seq<char>, i: InventoryModel)
    ensures
        ({
            let r = inventory_json(path, i);
            &&& contains(
                r,
                object_lines(
                    Seq::new(i.functions.len(), |k: int| object_of_function(i.functions[k])),
                ),
            )
            &&& contains(
                r,
                object_lines(Seq::new(i.api_calls.len(), |k: int| object_of_api(i.api_calls[k]))),
            )
            &&& contains(
                r,
                "\"never_called\": ["@ + join(
                    Seq::new(i.uncalled.len(), |k: int| quoted(i.uncalled[k])),
                    ", "@,
                ) + "]"@,
            )
        }),
{
    lemma_functions_json(i.functions);
    lemma_apis_json(i.api_calls);
    let head = "{\n  \"file\": "@ + quoted(path) + ",\n  \"code_calls\": "@ + dec(
        i.direct_calls as int,
    ) + ",\n  \"import_calls\": "@ + dec(i.import_calls as int) + ",\n  \"indirect_calls\": "@
        + dec(i.indirect_calls as int) + ",\n  \"imported_functions\": "@ + dec(
        i.imported_total as int,
    ) + ",\n  \"attribution\": \"approximate\",\n  \"functions\": [\n"@;
    let names = join(all_quoted(i.uncalled), ", "@);
    assert(all_quoted(i.uncalled) =~= Seq::new(i.uncalled.len(), |k: int| quoted(i.uncalled[k])));
    lemma_list_parts(
        head,
        functions_json(i.functions, i.functions.len() as int),
        "  ],\n  \"api_calls\": [\n"@,
        apis_json(i.api_calls, i.api_calls.len() as int),
        "  ],\n  \"never_called\": ["@,
        names,
        "]\n}\n"@,
    );
    reveal_strlit("  ],\n  \"never_called\": [");
    reveal_strlit("\"never_called\": [");
    reveal_strlit("]\n}\n");
    reveal_strlit("]");
    let part = "  ],\n  \"never_called\": ["@ + names + "]\n}\n"@;
    let p = "\"never_called\": ["@ + names + "]"@;
    assert(part.subrange(7, 7 + p.len() as int) =~= p);
    lemma_at(part, p, 7);
    lemma_within(inventory_json(path, i), part, p);
}

#[verifier::rlimit(50)]
proof fn lemma_list_parts(
    a: Seq<char>,
    b: Seq<char>,
    c: Seq<char>,
    d: Seq<char>,
    e: Seq<char>,
    f: Seq<char>,
    g: Seq<char>,
)
    ensures
        contains(a + b + c + d + e + f + g, b),
        contains(a + b + c + d + e + f + g, d),
        contains(a + b + c + d + e + f + g, e + f + g),
{
    let r1 = a + b;
    let r2 = r1 + c;
    let r3 = r2 + d;
    let r4 = r3 + e;
    let r5 = r4 + f;
    let r = r5 + g;
    lemma_join(a, b);
    lemma_join(r1, c);
    lemma_join(r2, d);
    lemma_join(r3, e);
    lemma_join(r4, f);
    lemma_join(r5, g);
    lemma_within(r, r5, r4);
    lemma_within(r, r4, r3);
    lemma_within(r, r3, d);
    lemma_within(r, r3, r2);
    lemma_within(r, r2, r1);
    lemma_within(r, r1, b);
    assert(r =~= r3 + (e + f + g));
    lemma_join(r3, e + f + g);
}

// ---------------------------------------------------------------------------
// Graphs
// ---------------------------------------------------------------------------

/// The text of a graph has the text of each of its blocks, in order.
pub proof fn law_listings_show_every_block(m: Option<SymbolsModel>, g: CfgModel)
    ensures
        contains(
            graph_text(m, g),
            Seq::new(g.blocks.len(), |i: int| block_text(m, g, i)).flatten(),
        ),
{
    let n = g.blocks.len() as int;
    let lines = |k: int| block_texts(m, g, k);
    let line = |k: int| block_text(m, g, k);
    lemma_flat(lines, line, n);
    lemma_join(graph_header(m, g), block_texts(m, g, n));
}

/// The text of a block has its number, its start, a line for each instruction in
/// order, and its edges.
pub proof fn law_blocks_show_every_instruction(m: Option<SymbolsModel>, g: CfgModel, i: int)
    requires
        0 <= i < g.blocks.len(),
    ensures
        ({
            let b = g.blocks[i];
            let t = block_text(m, g, i);
            &&& contains(t, "[block "@ + dec(i) + "] "@ + hex0x(b.start as int))
            &&& contains(
                t,
                Seq::new(
                    b.addrs.len(),
                    |k: int| instr_line(m, b.addrs[k], g.instrs[b.addrs[k]]),
                ).flatten(),
            )
            &&& contains(t, edges_line(starts_of(g.blocks), b.succ))
            &&& b.start == g.func ==> contains(t, "  (entry)"@)
        }),
{
    let b = g.blocks[i];
    let n = b.addrs.len() as int;
    let lines = |k: int| instr_lines(m, g.instrs, b.addrs, k);
    let line = |k: int| instr_line(m, b.addrs[k], g.instrs[b.addrs[k]]);
    lemma_flat(lines, line, n);
    let title = "[block "@ + dec(i) + "] "@ + hex0x(b.start as int);
    let entry = if b.start == g.func {
        "  (entry)"@
    } else {
        ""@
    };
    lemma_block_parts(
        title,
        entry,
        "\n"@,
        instr_lines(m, g.instrs, b.addrs, n),
        edges_line(starts_of(g.blocks), b.succ),
        "\n"@,
    );
}

proof fn lemma_block_parts(
    a: Seq<char>,
    b: Seq<char>,
    c: Seq<char>,
    d: Seq<char>,
    e: Seq<char>,
    f: Seq<char>,
)
    ensures
        contains(a + b + c + d + e + f, a),
        contains(a + b + c + d + e + f, b),
        contains(a + b + c + d + e + f, d),
        contains(a + b + c + d + e + f, e),
{
    let r1 = a + b;
    let r2 = r1 + c;
    let r3 = r2 + d;
    let r4 = r3 + e;
    let r = r4 + f;
    lemma_join(a, b);
    lemma_join(r1, c);
    lemma_join(r2, d);
    lemma_join(r3, e);
    lemma_join(r4, f);
    lemma_within(r, r4, e);
    lemma_within(r, r4, r3);
    lemma_within(r, r3, d);
    lemma_within(r, r3, r2);
    lemma_within(r, r2, r1);
    lemma_within(r, r1, a);
    lemma_within(r, r1, b);
}

/// The edges of a block are listed one by one: to the number of a block where one
/// starts there, else to an address outside; a block without edges ends there.
pub proof fn law_edges_are_shown_one_by_one(starts: Seq<u64>, succ: Seq<(u64, Seq<char>)>)
    ensures
        succ.len() == 0 ==> edges_line(starts, succ) == "    -> (end)\n"@,
        succ.len() > 0 ==> edges_line(starts, succ) == "    "@ + join(
            Seq::new(succ.len(), |k: int| way_text(starts, succ[k])),
            "   "@,
        ) + "\n"@,
{
    if succ.len() > 0 {
        assert(Seq::new(succ.len(), |k: int| edge_text(starts, succ[k])) =~= Seq::new(
            succ.len(),
            |k: int| way_text(starts, succ[k]),
        ));
    }
}

/// The text of an edge.
pub open spec fn way_text(starts: Seq<u64>, e: (u64, Seq<char>)) -> Seq<char> {
    let place = if starts.contains(e.0) {
        "block "@ + dec(starts.index_of(e.0)) + " ("@ + hex0x(e.0 as int) + ")"@
    } else {
        hex0x(e.0 as int) + " (external)"@
    };
    if e.1.len() == 0 {
        "-> "@ + place
    } else {
        "-> "@ + place + " ["@ + e.1 + "]"@
    }
}

/// The edges of all blocks, one block after the other, each with the block that it
/// leaves.
pub open spec fn all_edges(blocks: Seq<BlockModel>) -> Seq<(u64, (u64, Seq<char>))> {
    Seq::new(
        blocks.len(),
        |i: int| blocks[i].succ.map_values(|e: (u64, Seq<char>)| (blocks[i].start, e)),
    ).flatten()
}

proof fn lemma_edges_of(starts: Seq<u64>, b: BlockModel, n: int)
    requires
        0 <= n <= b.succ.len(),
    ensures
        dot_edges_of(starts, b, n) == b.succ.take(n).map_values(
            |e: (u64, Seq<char>)| (b.start, e),
        ).map_values(|e: (u64, (u64, Seq<char>))| dot_edge(starts, e.0, e.1)).flatten(),
    decreases n,
{
    let from = |e: (u64, Seq<char>)| (b.start, e);
    let text = |e: (u64, (u64, Seq<char>))| dot_edge(starts, e.0, e.1);
    let all = b.succ.take(n).map_values(from).map_values(text);
    if n > 0 {
        lemma_edges_of(starts, b, n - 1);
        let before = b.succ.take(n - 1).map_values(from).map_values(text);
        let last = dot_edge(starts, b.start, b.succ[n - 1]);
        assert(all =~= before.push(last));
        before.lemma_flatten_push(last);
    } else {
        assert(all.flatten() =~= Seq::<char>::empty());
    }
}

/// Lists of lists, one behind the other, are flattened one behind the other.
pub proof fn lemma_flatten_add<A>(a: Seq<Seq<A>>, b: Seq<Seq<A>>)
    ensures
        (a + b).flatten() == a.flatten() + b.flatten(),
    decreases b.len(),
{
    if b.len() == 0 {
        assert(a + b =~= a);
        assert(a.flatten() + b.flatten() =~= a.flatten());
    } else {
        let c = b.drop_last();
        lemma_flatten_add(a, c);
        assert(a + b =~= (a + c).push(b.last()));
        (a + c).lemma_flatten_push(b.last());
        assert(b =~= c.push(b.last()));
        c.lemma_flatten_push(b.last());
        assert((a + b).flatten() =~= a.flatten() + b.flatten());
    }
}

#[verifier::rlimit(50)]
proof fn lemma_dot_edges(blocks: Seq<BlockModel>, n: int)
    requires
        0 <= n <= blocks.len(),
    ensures
        dot_edges(blocks, n) == Seq::new(
            n as nat,
            |i: int| blocks[i].succ.map_values(|e: (u64, Seq<char>)| (blocks[i].start, e)),
        ).flatten().map_values(
            |e: (u64, (u64, Seq<char>))| dot_edge(starts_of(blocks), e.0, e.1),
        ).flatten(),
    decreases n,
{
    let starts = starts_of(blocks);
    let text = |e: (u64, (u64, Seq<char>))| dot_edge(starts, e.0, e.1);
    let leaving = |i: int|
        blocks[i].succ.map_values(|e: (u64, Seq<char>)| (blocks[i].start, e));
    let all = Seq::new(n as nat, leaving);
    if n > 0 {
        lemma_dot_edges(blocks, n - 1);
        let before = Seq::new((n - 1) as nat, leaving);
        assert(all =~= before.push(leaving(n - 1)));
        before.lemma_flatten_push(leaving(n - 1));
        let x = before.flatten();
        let y = leaving(n - 1);
        assert((x + y).map_values(text) =~= x.map_values(text) + y.map_values(text));
        lemma_flatten_add(x.map_values(text), y.map_values(text));
        let b = blocks[n - 1];
        lemma_edges_of(starts, b, b.succ.len() as int);
        assert(b.succ.take(b.succ.len() as int) =~= b.succ);
        assert(b.succ.map_values(|e: (u64, Seq<char>)| (b.start, e)) =~= y);
    } else {
        assert(all.flatten() =~= Seq::<(u64, (u64, Seq<char>))>::empty());
        assert(all.flatten().map_values(text).flatten() =~= Seq::<char>::empty());
    }
}

/// The drawing of a graph has a node for each block and an edge for each edge of a
/// block, in order.
#[verifier::rlimit(50)]
pub proof fn law_drawings_show_every_block_and_edge(m: Option<SymbolsModel>, g: CfgModel)
    ensures
        ({
            let d = graph_dot(m, g);
            &&& contains(
                d,
                Seq::new(g.blocks.len(), |i: int| dot_node(m, g, g.blocks[i])).flatten(),
            )
            &&& contains(
                d,
                all_edges(g.blocks).map_values(
                    |e: (u64, (u64, Seq<char>))| dot_edge(starts_of(g.blocks), e.0, e.1),
                ).flatten(),
            )
        }),
{
    let n = g.blocks.len() as int;
    let lines = |k: int| dot_nodes(m, g, k);
    let line = |k: int| dot_node(m, g, g.blocks[k]);
    lemma_flat(lines, line, n);
    lemma_dot_edges(g.blocks, n);
    let head = "digraph cfg {\n"@ + "  labelloc=\"t\";\n"@ + "  label=\"CFG of function "@ + hex0x(
        g.func as int,
    ) + dot_escaped(title_of(m, g.func)) + "\";\n"@
        + "  node [shape=box, fontname=\"monospace\", fontsize=10];\n"@;
    let nodes = dot_nodes(m, g, n);
    let edges = dot_edges(g.blocks, n);
    lemma_join(head, nodes);
    lemma_join(head + nodes, edges);
    lemma_join(head + nodes + edges, "}\n"@);
    lemma_within(graph_dot(m, g), head + nodes + edges, head + nodes);
    lemma_within(graph_dot(m, g), head + nodes, nodes);
    lemma_within(graph_dot(m, g), head + nodes + edges, edges);
}

/// A node of a drawing has a line for each instruction of its block, in order, and
/// only the first block of the function is filled.
#[verifier::rlimit(50)]
pub proof fn law_nodes_show_every_instruction(m: Option<SymbolsModel>, g: CfgModel, b: BlockModel)
    ensures
        contains(
            dot_node(m, g, b),
            hex0x(b.start as int) + "\\l"@ + Seq::new(
                b.addrs.len(),
                |k: int| dot_line(m, b.addrs[k], g.instrs[b.addrs[k]]),
            ).flatten(),
        ),
        b.start == g.func ==> contains(
            dot_node(m, g, b),
            ", style=filled, fillcolor=\"#d0e0ff\""@,
        ),
{
    let n = b.addrs.len() as int;
    let start = hex0x(b.start as int) + "\\l"@;
    lemma_labels(m, g, b, n);
    let label = dot_label(m, g.instrs, b, n);
    let fill = if b.start == g.func {
        ", style=filled, fillcolor=\"#d0e0ff\""@
    } else {
        ""@
    };
    let pre = "  \""@ + hex0x(b.start as int) + "\" [label=\""@;
    lemma_block_parts(pre, label, "\""@, fill, "];\n"@, Seq::empty());
    assert(pre + label + "\""@ + fill + "];\n"@ + Seq::<char>::empty() =~= pre + label + "\""@ + fill
        + "];\n"@);
}

proof fn lemma_labels(m: Option<SymbolsModel>, g: CfgModel, b: BlockModel, n: int)
    requires
        0 <= n <= b.addrs.len(),
    ensures
        dot_label(m, g.instrs, b, n) == hex0x(b.start as int) + "\\l"@ + Seq::new(
            n as nat,
            |k: int| dot_line(m, b.addrs[k], g.instrs[b.addrs[k]]),
        ).flatten(),
    decreases n,
{
    let line = |k: int| dot_line(m, b.addrs[k], g.instrs[b.addrs[k]]);
    let start = hex0x(b.start as int) + "\\l"@;
    let all = Seq::new(n as nat, line);
    if n > 0 {
        lemma_labels(m, g, b, n - 1);
        let before = Seq::new((n - 1) as nat, line);
        assert(all =~= before.push(line(n - 1)));
        before.lemma_flatten_push(line(n - 1));
        assert(start + before.flatten() + line(n - 1) =~= start + (before.flatten() + line(n - 1)));
    } else {
        assert(all.flatten() =~= Seq::<char>::empty());
        assert(start + all.flatten() =~= start);
    }
}

} // verus!
