//! The graph of a function as a Graphviz drawing.
use crate::cfg::{
    map_instrs, placed, starts_of, Block, BlockModel, Cfg, CfgModel, Instr, InstrModel, Instrs,
};
use crate::keys::{ascending, is_among};
use crate::listing::{
    annotate_call, instr_note, lemma_block_addrs, operands, option_symbols, sound_for, start_vec,
    title, title_of,
};
use crate::symbols::{Memo, Symbols, SymbolsModel};
use crate::text::{chars_of, hex0x, hex_prefixed, models};
use std::collections::BTreeMap;
use vstd::prelude::*;

verus! {

broadcast use vstd::std_specs::btree::group_btree_axioms;

/// A character as it stands inside a quoted string: quotes and backslashes
/// behind a backslash.
pub open spec fn dot_char(c: char) -> Seq<char> {
    if c == '\\' {
        "\\\\"@
    } else if c == '"' {
        "\\\""@
    } else {
        seq![c]
    }
}

/// A text as it stands inside a quoted string.
pub open spec fn dot_escaped(s: Seq<char>) -> Seq<char>
    decreases s.len(),
{
    if s.len() == 0 {
        Seq::empty()
    } else {
        dot_escaped(s.drop_last()) + dot_char(s.last())
    }
}

/// The text as it stands inside a quoted string.
pub fn dot_escape(s: &str) -> (r: String)
    ensures
        r@ == dot_escaped(s@),
{
    let cs = chars_of(s);
    let mut out = String::new();
    for i in 0..cs.len()
        invariant
            cs@ == s@,
            out@ == dot_escaped(s@.take(i as int)),
    {
        let c = cs[i];
        proof {
            assert(s@.take(i + 1).drop_last() =~= s@.take(i as int));
            assert(s@.take(i + 1).last() == c);
        }
        let ghost was = out@;
        if c == '\\' {
            out.append("\\\\");
        } else if c == '"' {
            out.append("\\\"");
        } else {
            out.push(c);
            proof {
                assert(out@ =~= was + seq![c]);
            }
        }
    }
    proof {
        assert(s@.take(s@.len() as int) =~= s@);
    }
    out
}

/// One instruction in the label of a node.
pub open spec fn dot_line(m: Option<SymbolsModel>, a: u64, i: InstrModel) -> Seq<
    char,
> {
    match instr_note(m, i) {
        Some(note) => hex0x(a as int) + "  "@ + dot_escaped(i.text) + "  ; "@ + dot_escaped(note)
            + "\\l"@,
        None => hex0x(a as int) + "  "@ + dot_escaped(i.text) + "\\l"@,
    }
}

/// The label of a node after its first `n` instructions.
pub open spec fn dot_label(
    m: Option<SymbolsModel>,
    instrs: Instrs,
    b: BlockModel,
    n: int,
) -> Seq<char>
    decreases n,
{
    if n <= 0 {
        hex0x(b.start as int) + "\\l"@
    } else {
        dot_label(m, instrs, b, n - 1) + dot_line(m, b.addrs[n - 1], instrs[b.addrs[n - 1]])
    }
}

/// The node of a block; that of the entry is filled.
pub open spec fn dot_node(m: Option<SymbolsModel>, g: CfgModel, b: BlockModel) -> Seq<
    char,
> {
    "  \""@ + hex0x(b.start as int) + "\" [label=\""@ + dot_label(
        m,
        g.instrs,
        b,
        b.addrs.len() as int,
    ) + "\""@ + (if b.start == g.func {
        ", style=filled, fillcolor=\"#d0e0ff\""@
    } else {
        ""@
    }) + "];\n"@
}

/// The nodes of the first `n` blocks.
pub open spec fn dot_nodes(m: Option<SymbolsModel>, g: CfgModel, n: int) -> Seq<char>
    decreases n,
{
    if n <= 0 {
        Seq::empty()
    } else {
        dot_nodes(m, g, n - 1) + dot_node(m, g, g.blocks[n - 1])
    }
}

/// The attributes of an edge: its label, if it has one.
pub open spec fn dot_attrs(label: Seq<char>) -> Seq<char> {
    if label.len() == 0 {
        Seq::empty()
    } else {
        " [label=\""@ + label + "\"]"@
    }
}

/// An edge. One that leaves the function ends at a node of its own.
pub open spec fn dot_edge(starts: Seq<u64>, from: u64, e: (u64, Seq<char>)) -> Seq<char> {
    if starts.contains(e.0) {
        "  \""@ + hex0x(from as int) + "\" -> \""@ + hex0x(e.0 as int) + "\""@ + dot_attrs(e.1)
            + ";\n"@
    } else {
        "  \"ext_"@ + hex0x(e.0 as int) + "\" [shape=oval, style=dashed, label=\""@ + hex0x(
            e.0 as int,
        ) + "\\n(external)\"];\n"@ + "  \""@ + hex0x(from as int) + "\" -> \"ext_"@ + hex0x(
            e.0 as int,
        ) + "\""@ + dot_attrs(e.1) + ";\n"@
    }
}

/// The first `k` edges out of a block.
pub open spec fn dot_edges_of(starts: Seq<u64>, b: BlockModel, k: int) -> Seq<char>
    decreases k,
{
    if k <= 0 {
        Seq::empty()
    } else {
        dot_edges_of(starts, b, k - 1) + dot_edge(starts, b.start, b.succ[k - 1])
    }
}

/// The edges out of the first `n` blocks.
pub open spec fn dot_edges(blocks: Seq<BlockModel>, n: int) -> Seq<char>
    decreases n,
{
    if n <= 0 {
        Seq::empty()
    } else {
        dot_edges(blocks, n - 1) + dot_edges_of(
            starts_of(blocks),
            blocks[n - 1],
            blocks[n - 1].succ.len() as int,
        )
    }
}

/// The drawing of a graph.
pub open spec fn graph_dot(m: Option<SymbolsModel>, g: CfgModel) -> Seq<char> {
    "digraph cfg {\n"@ + "  labelloc=\"t\";\n"@ + "  label=\"CFG of function "@ + hex0x(
        g.func as int,
    ) + dot_escaped(title_of(m, g.func)) + "\";\n"@
        + "  node [shape=box, fontname=\"monospace\", fontsize=10];\n"@ + dot_nodes(
        m,
        g,
        g.blocks.len() as int,
    ) + dot_edges(g.blocks, g.blocks.len() as int) + "}\n"@
}

fn write_dot_line(a: u64, ins: &Instr, note: &Option<String>) -> (r: String)
    ensures
        match note {
            Some(n) => r@ == hex0x(a as int) + "  "@ + dot_escaped(ins.text@) + "  ; "@
                + dot_escaped(n@) + "\\l"@,
            None => r@ == hex0x(a as int) + "  "@ + dot_escaped(ins.text@) + "\\l"@,
        },
{
    let mut s = hex_prefixed(a);
    s.append("  ");
    s.append(dot_escape(ins.text.as_str()).as_str());
    if let Some(n) = note {
        s.append("  ; ");
        s.append(dot_escape(n.as_str()).as_str());
    }
    s.append("\\l");
    s
}

fn write_label(
    instrs: &BTreeMap<u64, Instr>,
    b: &Block,
    syms: Option<&Symbols>,
    memo: &mut Memo,
) -> (r: String)
    requires
        sound_for(option_symbols(syms), old(memo)@),
        placed(map_instrs(instrs@), 0, u64::MAX as int),
        forall|i: int| 0 <= i < b.addrs@.len() ==> instrs@.contains_key(#[trigger] b.addrs@[i]),
    ensures
        sound_for(option_symbols(syms), final(memo)@),
        r@ == dot_label(
                option_symbols(syms),
                map_instrs(instrs@),
                b.deep_view(),
                b.addrs@.len() as int,
            ),
{
    let ghost m = option_symbols(syms);
    let ghost known = map_instrs(instrs@);
    let mut out = hex_prefixed(b.start);
    out.append("\\l");
    for k in 0..b.addrs.len()
        invariant
            m == option_symbols(syms),
            known == map_instrs(instrs@),
            placed(known, 0, u64::MAX as int),
            forall|i: int|
                0 <= i < b.addrs@.len() ==> instrs@.contains_key(#[trigger] b.addrs@[i]),
            sound_for(m, memo@),
            out@ == dot_label(m, known, b.deep_view(), k as int),
    {
        let a = b.addrs[k];
        proof {
            assert(instrs@.contains_key(b.addrs@[k as int]));
            assert(known.contains_key(a));
        }
        if let Some(ins) = instrs.get(&a) {
            let ops = operands(ins.text.as_str());
            let note = annotate_call(syms, ins.flow, ops.as_str(), ins.addr + ins.size, memo);
            let line = write_dot_line(a, ins, &note);
            out.append(line.as_str());
            proof {
                assert(line@ == dot_line(m, a, known[a]));
            }
        }
    }
    out
}

fn write_node(graph: &Cfg, i: usize, syms: Option<&Symbols>, memo: &mut Memo) -> (r: String)
    requires
        i < graph.deep_view().blocks.len(),
        sound_for(option_symbols(syms), old(memo)@),
    ensures
        sound_for(option_symbols(syms), final(memo)@),
        r@ == dot_node(
                option_symbols(syms),
                graph.deep_view(),
                graph.deep_view().blocks[i as int],
            ),
{
    let ghost g = graph.deep_view();
    let instrs = graph.instrs();
    let blocks = graph.blocks();
    let b = &blocks[i];
    proof {
        lemma_block_addrs(g.func, g.instrs, g.blocks, i as int);
        assert(g.blocks[i as int] == b.deep_view());
        assert forall|k: int| 0 <= k < b.addrs@.len() implies instrs@.contains_key(
            #[trigger] b.addrs@[k],
        ) by {
            assert(g.instrs.contains_key(g.blocks[i as int].addrs[k]));
        }
    }
    let label = write_label(instrs, b, syms, memo);
    let mut s = "  \"".to_string();
    s.append(hex_prefixed(b.start).as_str());
    s.append("\" [label=\"");
    s.append(label.as_str());
    s.append("\"");
    s.append(
        if b.start == graph.func() {
            ", style=filled, fillcolor=\"#d0e0ff\""
        } else {
            ""
        },
    );
    s.append("];\n");
    s
}

fn write_attrs(label: &str) -> (r: String)
    ensures
        r@ == dot_attrs(label@),
{
    if label.is_empty() {
        return String::new();
    }
    let mut s = " [label=\"".to_string();
    s.append(label);
    s.append("\"]");
    s
}

fn write_dot_edge(starts: &Vec<u64>, from: u64, to: u64, label: &str) -> (r: String)
    requires
        ascending(starts@),
    ensures
        r@ == dot_edge(starts@, from, (to, label@)),
{
    if is_among(starts.as_slice(), to) {
        let mut s = "  \"".to_string();
        s.append(hex_prefixed(from).as_str());
        s.append("\" -> \"");
        s.append(hex_prefixed(to).as_str());
        s.append("\"");
        s.append(write_attrs(label).as_str());
        s.append(";\n");
        s
    } else {
        let mut s = "  \"ext_".to_string();
        s.append(hex_prefixed(to).as_str());
        s.append("\" [shape=oval, style=dashed, label=\"");
        s.append(hex_prefixed(to).as_str());
        s.append("\\n(external)\"];\n");
        s.append("  \"");
        s.append(hex_prefixed(from).as_str());
        s.append("\" -> \"ext_");
        s.append(hex_prefixed(to).as_str());
        s.append("\"");
        s.append(write_attrs(label).as_str());
        s.append(";\n");
        s
    }
}

fn write_dot_edges(starts: &Vec<u64>, b: &Block) -> (r: String)
    requires
        ascending(starts@),
    ensures
        r@ == dot_edges_of(starts@, b.deep_view(), b.succ@.len() as int),
{
    let mut out = String::new();
    for k in 0..b.succ.len()
        invariant
            ascending(starts@),
            out@ == dot_edges_of(starts@, b.deep_view(), k as int),
    {
        let e = b.succ[k];
        out.append(write_dot_edge(starts, b.start, e.0, e.1).as_str());
    }
    out
}

impl Cfg {
    /// Writes the graph in Graphviz DOT: one box for each block, with its
    /// instructions, and one edge for each way out of it.
    pub fn to_dot(&self, w: &mut String, syms: Option<&Symbols>)
        ensures
            final(w)@ == old(w)@ + graph_dot(option_symbols(syms), self.deep_view()),
    {
        let ghost m = option_symbols(syms);
        let ghost g = self.deep_view();
        let blocks = self.blocks();
        let starts = start_vec(blocks);
        let mut memo = Memo::new();
        let mut out = "digraph cfg {\n".to_string();
        out.append("  labelloc=\"t\";\n");
        out.append("  label=\"CFG of function ");
        out.append(hex_prefixed(self.func()).as_str());
        out.append(dot_escape(title(syms, self.func()).as_str()).as_str());
        out.append("\";\n");
        out.append("  node [shape=box, fontname=\"monospace\", fontsize=10];\n");
        let mut nodes = String::new();
        for i in 0..blocks.len()
            invariant
                m == option_symbols(syms),
                g == self.deep_view(),
                models(blocks@) == g.blocks,
                sound_for(m, memo@),
                nodes@ == dot_nodes(m, g, i as int),
        {
            let node = write_node(self, i, syms, &mut memo);
            nodes.append(node.as_str());
        }
        out.append(nodes.as_str());
        let mut edges = String::new();
        for i in 0..blocks.len()
            invariant
                models(blocks@) == g.blocks,
                ascending(starts@),
                starts@ == starts_of(g.blocks),
                edges@ == dot_edges(g.blocks, i as int),
        {
            proof {
                assert(g.blocks[i as int] == blocks@[i as int].deep_view());
            }
            edges.append(write_dot_edges(&starts, &blocks[i]).as_str());
        }
        out.append(edges.as_str());
        out.append("}\n");
        w.append(out.as_str());
        proof {
            assert(out@ == graph_dot(m, g));
        }
    }
}

} // verus!
