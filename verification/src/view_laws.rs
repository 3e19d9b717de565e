//! What every command shows.
use crate::binary::{BinaryModel, Format};
use crate::calendar::{civil_of, is_civil, law_times_are_distinct, Civil};
use crate::cfg::{asked_for, function_of, is_graph, not_x86, width_of, CfgModel, InstrModel, Walked};
use crate::cli::CommandModel;
use crate::disasm::{
    disassembly, listing_of, sections_listing, window_listing, DisasmOptsModel, Outcome,
};
use crate::dot::{dot_attrs, dot_char, dot_edge, dot_escaped, dot_line, graph_dot};
use crate::engine::{failure_text, is_wide, Width};
use crate::entropy::{rounded, scaled, three_places, two_places, Entropy};
use crate::functions::{all_calls, is_inventory, InventoryModel};
use crate::hexdump::{dump_text, window_range, HexWindowModel};
use crate::inventory::{inventory_json, inventory_text};
use crate::json::{report_object, short_name};
use crate::listing::{graph_header, graph_text, instr_line, instr_note};
use crate::output_laws::lemma_join;
use crate::report::{base_meaning, entry_meaning, libraries_word, report_text, stamp_text};
use crate::rules::{findings_of, severity_name, Severity, RULES};
use crate::search::{contains, stands_at};
use crate::strings::{kind_name, IocKind};
use crate::symbols::{label_text, symbols_of, SymbolsModel};
use crate::text::{dec, hex0x, hex0x_padded, pad_end, pad_start, truth};
use crate::view::{is_view, Shown};
use vstd::prelude::*;

verus! {

/// A scan shows the report, or the JSON report with the same findings.
pub proof fn law_scans_show_the_report(
    path: Seq<char>,
    json: bool,
    file: Seq<u8>,
    b: BinaryModel,
    v: Shown,
)
    requires
        is_view(CommandModel::Scan { path, json }, file, b, v),
    ensures
        v.error is None,
        !json ==> v.text == report_text(path, file.len() as int, b),
        json ==> v.text == report_object(path, file.len() as int, b, findings_of(b.imports)),
{
}

/// The inventory is shown of all calls in the file, as text or as JSON; code that
/// is not x86 has none, and neither has code on which the decoder fails.
pub proof fn law_functions_show_the_inventory(
    path: Seq<char>,
    json: bool,
    file: Seq<u8>,
    b: BinaryModel,
    v: Shown,
)
    requires
        is_view(CommandModel::Functions { path, json }, file, b, v),
    ensures
        width_of(b.arch) is None ==> v.text.len() == 0 && v.error == Some(not_x86(b.arch)),
        width_of(b.arch) matches Some(w) ==> {
            let c = all_calls(symbols_of(file, b), w, file, b);
            match c.failed {
                Some(f) => v.text.len() == 0 && v.error == Some(failure_text(f)),
                None => v.error is None && exists|inv: InventoryModel| #[trigger]
                    is_inventory(b, symbols_of(file, b), c.events, inv) && v.text == (if json {
                        inventory_json(path, inv)
                    } else {
                        inventory_text(inv)
                    }),
            }
        },
{
}

/// The graph is shown of the function at the address that was asked for, as text
/// or as a drawing.
pub proof fn law_graphs_are_of_the_function_asked_for(
    path: Seq<char>,
    addr: Option<u64>,
    dot: bool,
    file: Seq<u8>,
    b: BinaryModel,
    v: Shown,
)
    requires
        is_view(CommandModel::Cfg { path, addr, dot }, file, b, v),
    ensures
        match function_of(file, b, addr) {
            Walked::Found(instrs) => v.error is None && exists|g: CfgModel|
                g.instrs == instrs && g.func == (match addr {
                    Some(a) => a,
                    None => b.entry_point,
                }) && #[trigger] is_graph(g.func, g.instrs, g.blocks) && v.text == (if dot {
                    graph_dot(Some(symbols_of(file, b)), g)
                } else {
                    graph_text(Some(symbols_of(file, b)), g)
                }),
            _ => v.text.len() == 0 && v.error is Some,
        },
{
    if function_of(file, b, addr) is Found {
        let instrs = function_of(file, b, addr)->Found_0;
        let m = Some(symbols_of(file, b));
        let g = choose|g: CfgModel|
            g.func == asked_for(b, addr) && g.instrs == instrs && #[trigger] is_graph(
                g.func,
                g.instrs,
                g.blocks,
            ) && v.text == (if dot {
                graph_dot(m, g)
            } else {
                graph_text(m, g)
            });
        assert(is_graph(g.func, g.instrs, g.blocks));
    }
}

/// A listing shows what was asked for: from an address on 100 instructions, unless
/// another number was given. What was listed before the decoder failed is shown
/// with the failure.
pub proof fn law_listings_are_shown(
    path: Seq<char>,
    addr: Option<u64>,
    count: Option<usize>,
    section: Option<Seq<char>>,
    file: Seq<u8>,
    b: BinaryModel,
    v: Shown,
)
    requires
        is_view(CommandModel::Disasm { path, addr, count, section }, file, b, v),
    ensures
        ({
            let opts = DisasmOptsModel {
                addr,
                count: if count is None && addr is Some {
                    Some(100usize)
                } else {
                    count
                },
                section,
            };
            match disassembly(file, b, opts, Some(symbols_of(file, b))) {
                Outcome::Listed(text, _) => v.text == text && v.error is None,
                Outcome::Refused(e) => v.text.len() == 0 && v.error == Some(e),
                Outcome::Failed(text, f) => v.text == text && v.error == Some(failure_text(f)),
            }
        }),
{
}

/// A listing is of the file, the sections and the mode of the binary, with the
/// limit and the section that were asked for.
pub proof fn law_listings_are_of_the_file(
    file: Seq<u8>,
    opts: DisasmOptsModel,
    m: Option<SymbolsModel>,
    w: Width,
)
    ensures
        ({
            let l = listing_of(file, opts, m, w);
            &&& l.file == file
            &&& l.symbols == m
            &&& l.wide <==> w == Width::Bits64
            &&& l.name == opts.section
            &&& opts.count matches Some(n) ==> l.limit == n
            &&& opts.count is None ==> l.limit == usize::MAX
        }),
{
}

/// Code that is not x86 is not listed; any other is listed from the address on that
/// was asked for, else section by section.
pub proof fn law_listings_go_by_address_or_section(
    file: Seq<u8>,
    b: BinaryModel,
    opts: DisasmOptsModel,
    m: Option<SymbolsModel>,
)
    ensures
        width_of(b.arch) is None ==> disassembly(file, b, opts, m) == Outcome::Refused(
            not_x86(b.arch),
        ),
        width_of(b.arch) matches Some(w) ==> {
            let l = listing_of(file, opts, m, w);
            &&& opts.addr matches Some(start) ==> disassembly(file, b, opts, m) == window_listing(
                l,
                b.sections,
                start,
            )
            &&& opts.addr is None ==> disassembly(file, b, opts, m) == sections_listing(
                l,
                b.sections,
            )
        },
{
}

/// A dump shows the bytes of its window, from their place in the file on, 256 of
/// them unless another number was given.
pub proof fn law_dumps_show_their_window(
    path: Seq<char>,
    window: HexWindowModel,
    n: Option<usize>,
    file: Seq<u8>,
    b: BinaryModel,
    v: Shown,
)
    requires
        is_view(CommandModel::Hex { path, window, len: n }, file, b, v),
    ensures
        match window_range(b.sections, file.len() as int, window, n, 256) {
            Ok((from, count)) => v.error is None && v.text == dump_text(
                file.subrange(from, from + count),
                from,
            ),
            Err(e) => v.text.len() == 0 && v.error == Some(e),
        },
{
}

/// The names of imports and the labels are those of the binary whose bytes are
/// read, and code is read in the mode of its architecture.
pub proof fn law_symbols_are_of_the_binary(file: Seq<u8>, b: BinaryModel)
    ensures
        symbols_of(file, b).file == file,
        symbols_of(file, b).sections == b.sections,
        symbols_of(file, b).image_base == b.image_base,
        b.arch == "x86 (I386)"@ ==> symbols_of(file, b).width == Some(Width::Bits32),
        b.arch == "x86-64 (AMD64)"@ ==> symbols_of(file, b).width == Some(Width::Bits64),
        b.arch == "ARM64"@ || b.arch == "ARM"@ || b.arch == "unknown"@ || b.arch == "RISC-V"@
            ==> symbols_of(file, b).width is None,
        is_wide(Width::Bits64) && !is_wide(Width::Bits32),
{
    lemma_widths();
}

proof fn lemma_nowhere(s: Seq<char>, pat: Seq<char>, c: char)
    requires
        pat.len() > 0,
        pat[0] == c,
        forall|i: int| 0 <= i < s.len() ==> #[trigger] s[i] != c,
    ensures
        !contains(s, pat),
{
    assert forall|i: int| !stands_at(s, pat, i) by {
        if stands_at(s, pat, i) {
            assert(s.subrange(i, i + pat.len())[0] == s[i]);
        }
    }
}

proof fn lemma_no_x86(s: Seq<char>)
    requires
        forall|i: int| 0 <= i < s.len() ==> #[trigger] s[i] != 'x' && s[i] != 'I' && s[i] != 'D',
    ensures
        width_of(s) is None,
{
    reveal_strlit("x86-64");
    reveal_strlit("AMD64");
    reveal_strlit("x86");
    reveal_strlit("I386");
    lemma_nowhere(s, "x86-64"@, 'x');
    lemma_nowhere(s, "x86"@, 'x');
    lemma_nowhere(s, "I386"@, 'I');
    assert forall|i: int| !stands_at(s, "AMD64"@, i) by {
        if stands_at(s, "AMD64"@, i) {
            assert(s.subrange(i, i + 5)[2] == s[i + 2]);
        }
    }
}

proof fn lemma_widths()
    ensures
        width_of("x86 (I386)"@) == Some(Width::Bits32),
        width_of("x86-64 (AMD64)"@) == Some(Width::Bits64),
        width_of("ARM64"@) is None,
        width_of("ARM"@) is None,
        width_of("unknown"@) is None,
        width_of("RISC-V"@) is None,
{
    reveal_strlit("x86 (I386)");
    reveal_strlit("x86-64 (AMD64)");
    reveal_strlit("x86-64");
    reveal_strlit("AMD64");
    reveal_strlit("x86");
    let wide = "x86-64 (AMD64)"@;
    assert(wide.subrange(0, 6) =~= "x86-64"@);
    assert(stands_at(wide, "x86-64"@, 0));
    let narrow = "x86 (I386)"@;
    assert(narrow.subrange(0, 3) =~= "x86"@);
    assert(stands_at(narrow, "x86"@, 0));
    lemma_nowhere(narrow, "AMD64"@, 'A');
    assert forall|i: int| !stands_at(narrow, "x86-64"@, i) by {
        if stands_at(narrow, "x86-64"@, i) {
            assert(narrow.subrange(i, i + 6)[3] == narrow[i + 3]);
            assert(narrow.subrange(i, i + 6)[0] == narrow[i]);
        }
    }
    reveal_strlit("ARM64");
    reveal_strlit("ARM");
    reveal_strlit("unknown");
    reveal_strlit("RISC-V");
    lemma_no_x86("ARM64"@);
    lemma_no_x86("ARM"@);
    lemma_no_x86("unknown"@);
    lemma_riscv();
}

proof fn lemma_riscv()
    ensures
        width_of("RISC-V"@) is None,
{
    reveal_strlit("RISC-V");
    reveal_strlit("x86-64");
    reveal_strlit("AMD64");
    reveal_strlit("x86");
    reveal_strlit("I386");
    let s = "RISC-V"@;
    lemma_nowhere(s, "x86-64"@, 'x');
    lemma_nowhere(s, "x86"@, 'x');
    lemma_nowhere(s, "AMD64"@, 'A');
    assert forall|i: int| !stands_at(s, "I386"@, i) by {
        if stands_at(s, "I386"@, i) {
            assert(s.subrange(i, i + 4)[1] == s[i + 1]);
            assert(s.subrange(i, i + 4)[0] == s[i]);
        }
    }
}

/// An edge is drawn from its block to the block that it leads to, or to a dashed
/// node where it leads out of the function; its label tells the way.
#[verifier::rlimit(50)]
pub proof fn law_edges_are_drawn(starts: Seq<u64>, from: u64, to: u64, label: Seq<char>)
    ensures
        ({
            let d = dot_edge(starts, from, (to, label));
            let attrs = if label.len() == 0 {
                Seq::<char>::empty()
            } else {
                " [label=\""@ + label + "\"]"@
            };
            &&& starts.contains(to) ==> d == "  \""@ + hex0x(from as int) + "\" -> \""@ + hex0x(
                to as int,
            ) + "\""@ + attrs + ";\n"@
            &&& !starts.contains(to) ==> contains(
                d,
                "  \""@ + hex0x(from as int) + "\" -> \"ext_"@ + hex0x(to as int) + "\""@ + attrs
                    + ";\n"@,
            )
            &&& !starts.contains(to) ==> contains(
                d,
                "  \"ext_"@ + hex0x(to as int) + "\" [shape=oval, style=dashed, label=\""@ + hex0x(
                    to as int,
                ) + "\\n(external)\"];\n"@,
            )
        }),
{
    let attrs = dot_attrs(label);
    let node = "  \"ext_"@ + hex0x(to as int) + "\" [shape=oval, style=dashed, label=\""@ + hex0x(
        to as int,
    ) + "\\n(external)\"];\n"@;
    lemma_node_and_edge(
        node,
        "  \""@,
        hex0x(from as int),
        "\" -> \"ext_"@,
        hex0x(to as int),
        "\""@,
        attrs,
        ";\n"@,
    );
}

proof fn lemma_node_and_edge(
    n: Seq<char>,
    a: Seq<char>,
    b: Seq<char>,
    c: Seq<char>,
    d: Seq<char>,
    e: Seq<char>,
    f: Seq<char>,
    g: Seq<char>,
)
    ensures
        contains(n + a + b + c + d + e + f + g, n),
        contains(n + a + b + c + d + e + f + g, a + b + c + d + e + f + g),
{
    lemma_grouped(n, a, b, c);
    lemma_grouped(n, a + b + c, d, e);
    lemma_grouped(n, a + b + c + d + e, f, g);
    lemma_join(n, a + b + c + d + e + f + g);
}

proof fn lemma_grouped(n: Seq<char>, a: Seq<char>, b: Seq<char>, c: Seq<char>)
    ensures
        n + a + b + c == n + (a + b + c),
{
    assert(n + a + b + c =~= n + (a + b + c));
}

/// In a drawing a quote or a backslash of a text has a backslash before it, and
/// all other characters stand as they are.
pub proof fn law_drawings_escape_quotes(s: Seq<char>)
    ensures
        dot_escaped(s) == s.map_values(
            |c: char|
                if c == '\\' || c == '"' {
                    seq!['\\', c]
                } else {
                    seq![c]
                },
        ).flatten(),
    decreases s.len(),
{
    reveal_strlit("\\\\");
    reveal_strlit("\\\"");
    let f = |c: char|
        if c == '\\' || c == '"' {
            seq!['\\', c]
        } else {
            seq![c]
        };
    if s.len() > 0 {
        law_drawings_escape_quotes(s.drop_last());
        let before = s.drop_last().map_values(f);
        assert(s.map_values(f) =~= before.push(f(s.last())));
        before.lemma_flatten_push(f(s.last()));
        assert(dot_char(s.last()) =~= f(s.last()));
    } else {
        assert(s.map_values(f).flatten() =~= Seq::<char>::empty());
    }
}

/// Numbers are rounded to the nearest one, and to the even one where two are as
/// near.
pub proof fn law_ties_go_to_the_even(n: int, d: int)
    requires
        n >= 0,
        d > 0,
    ensures
        -d <= 2 * (n - rounded(n, d) * d) <= d,
        2 * (n - rounded(n, d) * d) == d || 2 * (n - rounded(n, d) * d) == -d ==> rounded(n, d) % 2
            == 0,
{
    let q = n / d;
    let r = n % d;
    vstd::arithmetic::div_mod::lemma_fundamental_div_mod(n, d);
    assert(d * q == q * d) by (nonlinear_arith);
    assert((q + 1) * d == q * d + d) by (nonlinear_arith);
    vstd::arithmetic::div_mod::lemma_mod_bound(n, d);
}

/// Entropy is written with two or three places behind the point.
pub proof fn law_entropy_is_written_with_places(e: Entropy, two: int, three: int)
    requires
        two == scaled(e.bits(), 100),
        three == scaled(e.bits(), 1000),
    ensures
        two_places(e) == dec(two / 100) + "."@ + pad_start(dec(two % 100), 2, '0'),
        three_places(e) == dec(three / 1000) + "."@ + pad_start(dec(three % 1000), 3, '0'),
{
}

/// How severe each capability is, and how many of its functions must be imported.
pub proof fn law_capabilities_have_their_severity()
    ensures
        RULES@[0] == ("Process injection", Severity::High, 2usize),
        RULES@[1] == ("Keylogging / input capture", Severity::High, 2usize),
        RULES@[2] == ("Networking / possible C2", Severity::Medium, 2usize),
        RULES@[3] == ("Cryptography (possible ransomware)", Severity::Medium, 2usize),
        RULES@[4] == ("Runtime API resolution (import hiding)", Severity::Medium, 2usize),
        RULES@[5] == ("Privilege / token manipulation", Severity::Medium, 2usize),
        RULES@[6] == ("Anti-debugging", Severity::Low, 1usize),
        RULES@[7] == ("Persistence (registry / services)", Severity::Low, 1usize),
        RULES@[8] == ("Process / command execution", Severity::Low, 1usize),
{
}

/// The words for severities, indicators, formats and truth.
pub proof fn law_words_name_what_they_stand_for()
    ensures
        severity_name(Severity::High) == "HIGH"@,
        severity_name(Severity::Medium) == "MEDIUM"@,
        severity_name(Severity::Low) == "LOW"@,
        kind_name(IocKind::Url) == "URL"@,
        kind_name(IocKind::Ipv4) == "IPv4"@,
        kind_name(IocKind::RegistryKey) == "Registry"@,
        kind_name(IocKind::FilePath) == "Path"@,
        short_name(Format::Pe) == "PE"@,
        short_name(Format::Elf) == "ELF"@,
        truth(true) == "true"@,
        truth(false) == "false"@,
        entry_meaning(Format::Pe) == "(RVA)"@,
        entry_meaning(Format::Elf) == "(virtual address)"@,
        base_meaning(Format::Pe) == "(image base)"@,
        base_meaning(Format::Elf) == "(load base, approx)"@,
        libraries_word(Format::Pe) == "DLL(s)"@,
        libraries_word(Format::Elf) == "library/symbol group(s)"@,
{
}

/// A date is written as year, month and day, and the time behind it, each with
/// all of its digits.
pub proof fn law_dates_are_written_in_full(ts: u32, c: Civil)
    requires
        is_civil(ts as int, c),
    ensures
        civil_of(ts as int) == c,
        stamp_text(ts) == pad_start(dec(c.0 as int), 4, '0') + "-"@ + pad_start(
            dec(c.1 as int),
            2,
            '0',
        ) + "-"@ + pad_start(dec(c.2 as int), 2, '0') + " "@ + pad_start(dec(c.3 as int), 2, '0')
            + ":"@ + pad_start(dec(c.4 as int), 2, '0') + ":"@ + pad_start(dec(c.5 as int), 2, '0')
            + " UTC"@,
{
    law_times_are_distinct(ts as int, civil_of(ts as int), c);
}

/// The line of an instruction in a graph: its address, its text, and where it
/// goes, if that is known.
pub proof fn law_instructions_have_their_line(
    m: Option<SymbolsModel>,
    a: u64,
    i: InstrModel,
)
    ensures
        instr_note(m, i) is None ==> instr_line(m, a, i) == "    "@ + hex0x_padded(a as int, 8)
            + "  "@ + i.text + "\n"@ && dot_line(m, a, i) == hex0x(a as int) + "  "@ + dot_escaped(
            i.text,
        ) + "\\l"@,
        instr_note(m, i) matches Some(note) ==> instr_line(m, a, i) == "    "@ + hex0x_padded(
            a as int,
            8,
        ) + "  "@ + pad_end(i.text, 38) + " ; "@ + note + "\n"@ && dot_line(m, a, i) == hex0x(
            a as int,
        ) + "  "@ + dot_escaped(i.text) + "  ; "@ + dot_escaped(note) + "\\l"@,
{
}

/// A graph is headed by the address of its function, its label, and how many
/// instructions and blocks it has.
pub proof fn law_graphs_have_their_head(m: SymbolsModel, g: CfgModel)
    ensures
        graph_header(Some(m), g) == "function "@ + hex0x(g.func as int) + (if m.labels.contains_key(
            g.func,
        ) {
            "  "@ + label_text(m.labels[g.func])
        } else {
            Seq::<char>::empty()
        }) + "  ("@ + dec(g.instrs.len() as int) + " instruction(s), "@ + dec(
            g.blocks.len() as int,
        ) + " basic block(s))\n\n"@,
{
}

} // verus!
