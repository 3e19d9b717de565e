//! The function inventory as text and as JSON.
use crate::functions::{count_views, Function, FunctionModel, Inventory, InventoryModel};
use crate::json::{all_quoted, comma, comma_after, q, quote_list, quoted};
use crate::limits::{call_graph_limit, calls_limit, limits_text, render_limits, Limit};
use crate::symbols::{label_text, option_label, Label, LabelModel};
use crate::tally::{capped, MAX_TRACKED_CALLS};
use crate::text::{
    dec, decimal, hex0x_padded, hex_padded, join, joined, lemma_views_push, models, pad_end,
    pad_start, padded_end, padded_start, views,
};
use vstd::prelude::*;

verus! {

/// The number of APIs shown for a function.
pub const APIS_SHOWN: usize = 4;

// ---------------------------------------------------------------------------
// Counting labels
// ---------------------------------------------------------------------------

/// Does a function carry a label of the same kind as `kind`?
pub open spec fn has_label(f: FunctionModel, kind: LabelModel) -> bool {
    match kind {
        LabelModel::Entry => f.label matches Some(LabelModel::Entry),
        LabelModel::Export(_) => f.label matches Some(LabelModel::Export(_)),
        LabelModel::TlsCallback => f.label matches Some(LabelModel::TlsCallback),
    }
}

/// How many of the first `n` functions carry a label of a kind.
pub open spec fn labelled(fs: Seq<FunctionModel>, kind: LabelModel, n: int) -> int
    decreases n,
{
    if n <= 0 {
        0
    } else {
        labelled(fs, kind, n - 1) + (if has_label(fs[n - 1], kind) {
            1int
        } else {
            0
        })
    }
}

proof fn lemma_labelled_bound(fs: Seq<FunctionModel>, kind: LabelModel, n: int)
    requires
        0 <= n,
    ensures
        0 <= labelled(fs, kind, n) <= n,
    decreases n,
{
    if n > 0 {
        lemma_labelled_bound(fs, kind, n - 1);
    }
}

impl Inventory {
    /// How many of the functions are the entry point.
    pub fn entry_count(&self) -> (r: usize)
        ensures
            r == labelled(
                models(self.functions@),
                LabelModel::Entry,
                self.functions@.len() as int,
            ),
    {
        let ghost kind = LabelModel::Entry;
        let mut n: usize = 0;
        for i in 0..self.functions.len()
            invariant
                kind == LabelModel::Entry,
                n == labelled(models(self.functions@), kind, i as int),
                n <= i,
        {
            proof {
                assert(models(self.functions@)[i as int] == self.functions@[i as int].deep_view());
            }
            if let Some(Label::Entry) = &self.functions[i].label {
                n += 1;
            }
        }
        n
    }

    /// How many of the functions are an export.
    pub fn export_count(&self) -> (r: usize)
        ensures
            r == labelled(
                models(self.functions@),
                LabelModel::Export(Seq::empty()),
                self.functions@.len() as int,
            ),
    {
        let ghost kind = LabelModel::Export(Seq::empty());
        let mut n: usize = 0;
        for i in 0..self.functions.len()
            invariant
                kind == LabelModel::Export(Seq::empty()),
                n == labelled(models(self.functions@), kind, i as int),
                n <= i,
        {
            proof {
                assert(models(self.functions@)[i as int] == self.functions@[i as int].deep_view());
            }
            if let Some(Label::Export(_)) = &self.functions[i].label {
                n += 1;
            }
        }
        n
    }

    /// How many of the functions are a TLS callback.
    pub fn tls_count(&self) -> (r: usize)
        ensures
            r == labelled(
                models(self.functions@),
                LabelModel::TlsCallback,
                self.functions@.len() as int,
            ),
    {
        let ghost kind = LabelModel::TlsCallback;
        let mut n: usize = 0;
        for i in 0..self.functions.len()
            invariant
                kind == LabelModel::TlsCallback,
                n == labelled(models(self.functions@), kind, i as int),
                n <= i,
        {
            proof {
                assert(models(self.functions@)[i as int] == self.functions@[i as int].deep_view());
            }
            if let Some(Label::TlsCallback) = &self.functions[i].label {
                n += 1;
            }
        }
        n
    }
}

// ---------------------------------------------------------------------------
// Text
// ---------------------------------------------------------------------------

/// The number of calls of a function; a dash for none.
pub open spec fn calls_text(n: u64) -> Seq<char> {
    if n == 0 {
        "-"@
    } else {
        dec(n as int)
    }
}

/// The label of a function; a dash for none.
pub open spec fn label_or_dash(l: Option<LabelModel>) -> Seq<char> {
    match l {
        Some(x) => label_text(x),
        None => "-"@,
    }
}

/// The first APIs of a function.
pub open spec fn shown(apis: Seq<Seq<char>>) -> Seq<Seq<char>> {
    if apis.len() > APIS_SHOWN {
        apis.take(APIS_SHOWN as int)
    } else {
        apis
    }
}

/// How many APIs are not shown.
pub open spec fn more_text(apis: Seq<Seq<char>>) -> Seq<char> {
    if apis.len() > APIS_SHOWN {
        "  (+"@ + dec(apis.len() - APIS_SHOWN) + " more)"@
    } else {
        Seq::empty()
    }
}

/// One function of the listing.
pub open spec fn function_line(f: FunctionModel) -> Seq<char> {
    "  "@ + hex0x_padded(f.rva as int, 8) + " "@ + pad_start(calls_text(f.calls), 7, ' ') + "  "@
        + pad_end(label_or_dash(f.label), 20) + " "@ + join(shown(f.apis), ", "@) + more_text(
        f.apis,
    ) + "\n"@
}

/// The first `n` functions of the listing.
pub open spec fn function_lines(fs: Seq<FunctionModel>, n: int) -> Seq<char>
    decreases n,
{
    if n <= 0 {
        Seq::empty()
    } else {
        function_lines(fs, n - 1) + function_line(fs[n - 1])
    }
}

/// The first `n` APIs, with the number of calls of each.
pub open spec fn api_lines(v: Seq<(Seq<char>, u64)>, n: int) -> Seq<char>
    decreases n,
{
    if n <= 0 {
        Seq::empty()
    } else {
        api_lines(v, n - 1) + ("  "@ + pad_start(dec(v[n - 1].1 as int), 6, ' ') + "  "@ + v[n
            - 1].0 + "\n"@)
    }
}

/// The first `n` names, indented.
pub open spec fn name_lines(v: Seq<Seq<char>>, n: int) -> Seq<char>
    decreases n,
{
    if n <= 0 {
        Seq::empty()
    } else {
        name_lines(v, n - 1) + ("      "@ + v[n - 1] + "\n"@)
    }
}

/// The head of the listing: how many functions and call sites there are.
pub open spec fn summary_text(i: InventoryModel) -> Seq<char> {
    let n = i.functions.len() as int;
    "functions      : "@ + dec(n) + " discovered  ("@ + dec(
        labelled(i.functions, LabelModel::Entry, n),
    ) + " entry, "@ + dec(labelled(i.functions, LabelModel::Export(Seq::empty()), n))
        + " export(s), "@ + dec(labelled(i.functions, LabelModel::TlsCallback, n))
        + " TLS callback(s))\n"@ + "call sites     : "@ + dec(i.direct_calls as int) + " to code, "@
        + dec(i.import_calls as int) + " to imported APIs, "@ + dec(i.indirect_calls as int)
        + " computed at runtime\n\n"@
}

pub const COLUMNS: &'static str =
    "  rva          calls  label                reaches (imported APIs)\n";

/// The APIs that calls reach.
pub open spec fn called_text(i: InventoryModel) -> Seq<char> {
    if i.api_calls.len() == 0 {
        "APIs called    : none resolved from the code\n                 imports are declared but no call reaches them statically -- see the\n                 'limits' section of `sma scan`\n\n"@
    } else {
        "APIs called    : "@ + dec(i.api_calls.len() as int) + " of "@ + dec(
            i.imported_total as int,
        ) + " imported function(s) are reached by a resolvable call\n"@ + api_lines(
            i.api_calls,
            i.api_calls.len() as int,
        ) + "\n"@
    }
}

/// The imports that no call reaches, in full.
pub open spec fn uncalled_text(i: InventoryModel) -> Seq<char> {
    if i.uncalled.len() == 0 {
        "never called   : none -- every import is reached by a resolvable call\n\n"@
    } else {
        "never called   : "@ + dec(i.uncalled.len() as int)
            + " import(s) declared but never reached by any call site found here\n                 delay-loading, computed calls, dead declarations and padding all\n                 look like this. it is an observation, not an accusation.\n"@
            + name_lines(i.uncalled, i.uncalled.len() as int) + "\n"@
    }
}

/// The one limit whose evidence is measured here.
pub open spec fn graph_limit_text(i: InventoryModel) -> Seq<char> {
    let l = calls_limit(capped(i.direct_calls + i.import_calls) as u64, i.indirect_calls);
    if l.len() > 0 {
        limits_text(l) + "\n"@
    } else {
        Seq::empty()
    }
}

/// The closing notes.
pub open spec fn closing_text(i: InventoryModel) -> Seq<char> {
    (if i.truncated {
        "note           : call attribution was truncated at "@ + dec(MAX_TRACKED_CALLS as int)
            + " sites\n"@
    } else {
        Seq::empty()
    })
        + "  inspect any function:  sma cfg <file> --addr <rva>\n  function boundaries and API attribution are approximate: a function starts at a\n  known address and is assumed to run until the next one.\n"@
}

/// The inventory as text.
pub open spec fn inventory_text(i: InventoryModel) -> Seq<char> {
    summary_text(i) + COLUMNS@ + function_lines(i.functions, i.functions.len() as int) + "\n"@
        + called_text(i) + uncalled_text(i) + graph_limit_text(i) + closing_text(i)
}

fn write_function(f: &Function) -> (r: String)
    ensures
        r@ == function_line(f.deep_view()),
{
    let calls: String = if f.calls == 0 {
        "-".to_string()
    } else {
        decimal(f.calls)
    };
    let label: String = match &f.label {
        Some(l) => l.text(),
        None => "-".to_string(),
    };
    let ghost all = views(f.apis@);
    let n: usize = if f.apis.len() > APIS_SHOWN {
        APIS_SHOWN
    } else {
        f.apis.len()
    };
    let mut first: Vec<String> = Vec::new();
    for i in 0..n
        invariant
            n <= f.apis@.len(),
            all == views(f.apis@),
            views(first@) == all.take(i as int),
    {
        let a = f.apis[i].clone();
        proof {
            lemma_views_push(first@, a);
            assert(all.take(i + 1) =~= all.take(i as int).push(a@));
        }
        first.push(a);
    }
    proof {
        assert(all.take(n as int) =~= shown(all));
    }
    let mut s = "  ".to_string();
    s.append(hex_padded(f.rva, 8).as_str());
    s.append(" ");
    s.append(padded_start(calls.as_str(), 7, ' ').as_str());
    s.append("  ");
    s.append(padded_end(label.as_str(), 20).as_str());
    s.append(" ");
    s.append(joined(&first, ", ").as_str());
    let more: String = if f.apis.len() > APIS_SHOWN {
        let mut m = "  (+".to_string();
        m.append(decimal((f.apis.len() - APIS_SHOWN) as u64).as_str());
        m.append(" more)");
        m
    } else {
        String::new()
    };
    s.append(more.as_str());
    s.append("\n");
    s
}

fn write_functions(fs: &Vec<Function>) -> (r: String)
    ensures
        r@ == function_lines(models(fs@), fs@.len() as int),
{
    let mut out = String::new();
    for i in 0..fs.len()
        invariant
            out@ == function_lines(models(fs@), i as int),
    {
        proof {
            assert(models(fs@)[i as int] == fs@[i as int].deep_view());
        }
        out.append(write_function(&fs[i]).as_str());
    }
    out
}

fn write_summary(inv: &Inventory) -> (r: String)
    ensures
        r@ == summary_text(inv.deep_view()),
{
    let mut s = "functions      : ".to_string();
    s.append(decimal(inv.functions.len() as u64).as_str());
    s.append(" discovered  (");
    s.append(decimal(inv.entry_count() as u64).as_str());
    s.append(" entry, ");
    s.append(decimal(inv.export_count() as u64).as_str());
    s.append(" export(s), ");
    s.append(decimal(inv.tls_count() as u64).as_str());
    s.append(" TLS callback(s))\n");
    s.append("call sites     : ");
    s.append(decimal(inv.direct_calls).as_str());
    s.append(" to code, ");
    s.append(decimal(inv.import_calls).as_str());
    s.append(" to imported APIs, ");
    s.append(decimal(inv.indirect_calls).as_str());
    s.append(" computed at runtime\n\n");
    s
}

fn write_called(inv: &Inventory) -> (r: String)
    ensures
        r@ == called_text(inv.deep_view()),
{
    if inv.api_calls.len() == 0 {
        return "APIs called    : none resolved from the code\n                 imports are declared but no call reaches them statically -- see the\n                 'limits' section of `sma scan`\n\n".to_string();
    }
    let ghost all = count_views(inv.api_calls@);
    let mut body = String::new();
    for i in 0..inv.api_calls.len()
        invariant
            all == count_views(inv.api_calls@),
            body@ == api_lines(all, i as int),
    {
        let mut line = "  ".to_string();
        line.append(padded_start(decimal(inv.api_calls[i].1).as_str(), 6, ' ').as_str());
        line.append("  ");
        line.append(inv.api_calls[i].0.as_str());
        line.append("\n");
        body.append(line.as_str());
    }
    let mut s = "APIs called    : ".to_string();
    s.append(decimal(inv.api_calls.len() as u64).as_str());
    s.append(" of ");
    s.append(decimal(inv.imported_total as u64).as_str());
    s.append(" imported function(s) are reached by a resolvable call\n");
    s.append(body.as_str());
    s.append("\n");
    s
}

fn write_uncalled(inv: &Inventory) -> (r: String)
    ensures
        r@ == uncalled_text(inv.deep_view()),
{
    if inv.uncalled.len() == 0 {
        return "never called   : none -- every import is reached by a resolvable call\n\n".to_string();
    }
    let mut body = String::new();
    for i in 0..inv.uncalled.len()
        invariant
            body@ == name_lines(views(inv.uncalled@), i as int),
    {
        let mut line = "      ".to_string();
        line.append(inv.uncalled[i].as_str());
        line.append("\n");
        body.append(line.as_str());
    }
    let mut s = "never called   : ".to_string();
    s.append(decimal(inv.uncalled.len() as u64).as_str());
    s.append(
        " import(s) declared but never reached by any call site found here\n                 delay-loading, computed calls, dead declarations and padding all\n                 look like this. it is an observation, not an accusation.\n",
    );
    s.append(body.as_str());
    s.append("\n");
    s
}

fn write_graph_limit(inv: &Inventory) -> (r: String)
    ensures
        r@ == graph_limit_text(inv.deep_view()),
{
    match call_graph_limit(inv.direct_calls.saturating_add(inv.import_calls), inv.indirect_calls) {
        Some(l) => {
            let mut one: Vec<Limit> = Vec::new();
            let ghost m = l.deep_view();
            one.push(l);
            proof {
                assert(models(one@) =~= seq![m]);
            }
            let mut s = render_limits(one.as_slice());
            s.append("\n");
            s
        },
        None => String::new(),
    }
}

fn write_closing(inv: &Inventory) -> (r: String)
    ensures
        r@ == closing_text(inv.deep_view()),
{
    let mut s: String = if inv.truncated {
        let mut n = "note           : call attribution was truncated at ".to_string();
        n.append(decimal(MAX_TRACKED_CALLS as u64).as_str());
        n.append(" sites\n");
        n
    } else {
        String::new()
    };
    s.append(
        "  inspect any function:  sma cfg <file> --addr <rva>\n  function boundaries and API attribution are approximate: a function starts at a\n  known address and is assumed to run until the next one.\n",
    );
    s
}

/// Writes the inventory as text.
pub fn write_text(w: &mut String, inv: &Inventory)
    ensures
        final(w)@ == old(w)@ + inventory_text(inv.deep_view()),
{
    let mut s = write_summary(inv);
    s.append(COLUMNS);
    s.append(write_functions(&inv.functions).as_str());
    s.append("\n");
    s.append(write_called(inv).as_str());
    s.append(write_uncalled(inv).as_str());
    s.append(write_graph_limit(inv).as_str());
    s.append(write_closing(inv).as_str());
    w.append(s.as_str());
}

// ---------------------------------------------------------------------------
// JSON
// ---------------------------------------------------------------------------

/// The label of a function as a JSON value.
pub open spec fn label_json(l: Option<LabelModel>) -> Seq<char> {
    match l {
        Some(LabelModel::Entry) => quoted("entry"@),
        Some(LabelModel::Export(n)) => quoted("export:"@ + n),
        Some(LabelModel::TlsCallback) => quoted("tls_callback"@),
        None => "null"@,
    }
}

/// One function as a JSON object.
pub open spec fn function_json(f: FunctionModel) -> Seq<char> {
    "    {\"rva\": "@ + dec(f.rva as int) + ", \"calls\": "@ + dec(f.calls as int)
        + ", \"label\": "@ + label_json(f.label) + ", \"reaches\": ["@ + join(
        all_quoted(f.apis),
        ", "@,
    ) + "]}"@
}

/// The first `n` functions.
pub open spec fn functions_json(fs: Seq<FunctionModel>, n: int) -> Seq<char>
    decreases n,
{
    if n <= 0 {
        Seq::empty()
    } else {
        functions_json(fs, n - 1) + function_json(fs[n - 1]) + comma(n - 1, fs.len() as int)
            + "\n"@
    }
}

/// The first `n` APIs.
pub open spec fn apis_json(v: Seq<(Seq<char>, u64)>, n: int) -> Seq<char>
    decreases n,
{
    if n <= 0 {
        Seq::empty()
    } else {
        apis_json(v, n - 1) + "    {\"api\": "@ + quoted(v[n - 1].0) + ", \"call_sites\": "@ + dec(
            v[n - 1].1 as int,
        ) + "}"@ + comma(n - 1, v.len() as int) + "\n"@
    }
}

/// The inventory as a JSON object.
pub open spec fn inventory_json(path: Seq<char>, i: InventoryModel) -> Seq<char> {
    "{\n  \"file\": "@ + quoted(path) + ",\n  \"code_calls\": "@ + dec(i.direct_calls as int)
        + ",\n  \"import_calls\": "@ + dec(i.import_calls as int)
        + ",\n  \"indirect_calls\": "@ + dec(i.indirect_calls as int)
        + ",\n  \"imported_functions\": "@ + dec(i.imported_total as int)
        + ",\n  \"attribution\": \"approximate\",\n  \"functions\": [\n"@ + functions_json(
        i.functions,
        i.functions.len() as int,
    ) + "  ],\n  \"api_calls\": [\n"@ + apis_json(i.api_calls, i.api_calls.len() as int)
        + "  ],\n  \"never_called\": ["@ + join(all_quoted(i.uncalled), ", "@) + "]\n}\n"@
}

fn write_label_json(l: &Option<Label>) -> (r: String)
    ensures
        r@ == label_json(option_label(*l)),
{
    match l {
        Some(Label::Entry) => q("entry"),
        Some(Label::Export(n)) => {
            let mut s = "export:".to_string();
            s.append(n.as_str());
            q(s.as_str())
        },
        Some(Label::TlsCallback) => q("tls_callback"),
        None => "null".to_string(),
    }
}

fn write_function_json(f: &Function) -> (r: String)
    ensures
        r@ == function_json(f.deep_view()),
{
    let mut s = "    {\"rva\": ".to_string();
    s.append(decimal(f.rva).as_str());
    s.append(", \"calls\": ");
    s.append(decimal(f.calls).as_str());
    s.append(", \"label\": ");
    s.append(write_label_json(&f.label).as_str());
    s.append(", \"reaches\": [");
    s.append(quote_list(&f.apis).as_str());
    s.append("]}");
    s
}

/// Writes the inventory as a JSON object.
pub fn write_json(w: &mut String, path: &str, inv: &Inventory)
    ensures
        final(w)@ == old(w)@ + inventory_json(path@, inv.deep_view()),
{
    let mut functions = String::new();
    for i in 0..inv.functions.len()
        invariant
            functions@ == functions_json(models(inv.functions@), i as int),
    {
        proof {
            assert(models(inv.functions@)[i as int] == inv.functions@[i as int].deep_view());
        }
        functions.append(write_function_json(&inv.functions[i]).as_str());
        functions.append(comma_after(i, inv.functions.len()));
        functions.append("\n");
    }
    let ghost all = count_views(inv.api_calls@);
    let mut apis = String::new();
    for i in 0..inv.api_calls.len()
        invariant
            all == count_views(inv.api_calls@),
            apis@ == apis_json(all, i as int),
    {
        apis.append("    {\"api\": ");
        apis.append(q(inv.api_calls[i].0.as_str()).as_str());
        apis.append(", \"call_sites\": ");
        apis.append(decimal(inv.api_calls[i].1).as_str());
        apis.append("}");
        apis.append(comma_after(i, inv.api_calls.len()));
        apis.append("\n");
    }
    let mut s = "{\n  \"file\": ".to_string();
    s.append(q(path).as_str());
    s.append(",\n  \"code_calls\": ");
    s.append(decimal(inv.direct_calls).as_str());
    s.append(",\n  \"import_calls\": ");
    s.append(decimal(inv.import_calls).as_str());
    s.append(",\n  \"indirect_calls\": ");
    s.append(decimal(inv.indirect_calls).as_str());
    s.append(",\n  \"imported_functions\": ");
    s.append(decimal(inv.imported_total as u64).as_str());
    s.append(",\n  \"attribution\": \"approximate\",\n  \"functions\": [\n");
    s.append(functions.as_str());
    s.append("  ],\n  \"api_calls\": [\n");
    s.append(apis.as_str());
    s.append("  ],\n  \"never_called\": [");
    s.append(quote_list(&inv.uncalled).as_str());
    s.append("]\n}\n");
    w.append(s.as_str());
}

} // verus!
