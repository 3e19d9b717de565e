//! Listings of instructions: the graph of a function as text and as a drawing.
use crate::binary::option_view;
use crate::cfg::{
    edge_views, is_graph, map_instrs, next_of, placed, starts_of, Block, BlockModel, Cfg, CfgModel,
    Flow, Instr, InstrModel, Instrs,
};
use crate::keys::{ascending, rank};
use crate::symbols::{
    label_text, place_of, reached, sound, CallTarget, Followed, Memo, Symbols, SymbolsModel,
    TargetModel,
};
use crate::text::{
    chars_of, dec, decimal, hex0x, hex0x_padded, hex_padded, hex_prefixed, join, joined, models,
    pad_end, padded_end, sub_string, views,
};
use std::collections::BTreeMap;
use vstd::prelude::*;

verus! {

broadcast use vstd::std_specs::btree::group_btree_axioms;

// ---------------------------------------------------------------------------
// Notes on calls and jumps
// ---------------------------------------------------------------------------

pub open spec fn option_symbols(s: Option<&Symbols>) -> Option<SymbolsModel> {
    match s {
        Some(x) => Some(x.model()),
        None => None,
    }
}

/// Sound with respect to the symbols, where there are any.
pub open spec fn sound_for(m: Option<SymbolsModel>, t: Followed) -> bool {
    match m {
        Some(x) => sound(x, t),
        None => true,
    }
}

/// What is written of an address that is known: its label.
pub open spec fn label_note(m: SymbolsModel, a: u64) -> Option<Seq<char>> {
    if m.labels.contains_key(a) {
        Some(label_text(m.labels[a]))
    } else {
        None
    }
}

/// What is written of a call target: the name of the API, or the label of the
/// address.
pub open spec fn target_note(m: SymbolsModel, target: TargetModel) -> Option<Seq<char>> {
    match target {
        TargetModel::Import(api) => Some(api),
        TargetModel::Code(a) => label_note(m, a),
        TargetModel::Unknown => None,
    }
}

/// The note on a call or jump with the given operands; none on any other
/// instruction.
pub open spec fn note_of(
    m: Option<SymbolsModel>,
    flow: Flow,
    ops: Seq<char>,
    next: u64,
) -> Option<Seq<char>> {
    match m {
        Some(x) => if flow is Call || flow is Jump {
            target_note(x, reached(x, ops, next))
        } else {
            None
        },
        None => None,
    }
}

/// The note on a call or jump.
pub fn annotate_call(
    syms: Option<&Symbols>,
    flow: Flow,
    ops: &str,
    next: u64,
    memo: &mut Memo,
) -> (r: Option<String>)
    requires
        sound_for(option_symbols(syms), old(memo)@),
    ensures
        sound_for(option_symbols(syms), final(memo)@),
        option_view(r) == note_of(
                option_symbols(syms),
                flow,
                ops@,
                next,
            ),
{
    let s = match syms {
        Some(s) => s,
        None => {
            return None;
        },
    };
    match flow {
        Flow::Call => {},
        Flow::Jump => {},
        _ => {
            return None;
        },
    }
    let target = s.classify_with(ops, next, memo);
    match target {
        CallTarget::Import(api) => Some(api),
        CallTarget::Code(a) => match s.label_at(a) {
            Some(l) => Some(l.text()),
            None => None,
        },
        CallTarget::Unknown => None,
    }
}

/// The operands of an instruction: what follows the first space of its text.
pub open spec fn operands_of(text: Seq<char>) -> Seq<char> {
    let p = place_of(text, ' ', 0);
    if p < text.len() {
        text.subrange(p + 1, text.len() as int)
    } else {
        Seq::empty()
    }
}

pub fn operands(text: &str) -> (r: String)
    ensures
        r@ == operands_of(text@),
{
    let cs = chars_of(text);
    let p = crate::symbols::place(&cs, ' ', 0);
    if p < cs.len() {
        sub_string(&cs, p + 1, cs.len())
    } else {
        String::new()
    }
}

/// The note on an instruction of a graph.
pub open spec fn instr_note(m: Option<SymbolsModel>, i: InstrModel) -> Option<
    Seq<char>,
> {
    note_of(m, i.flow, operands_of(i.text), next_of(i) as u64)
}

/// The name of a function in a title: its label behind two spaces, if it has
/// one.
pub open spec fn title_of(m: Option<SymbolsModel>, func: u64) -> Seq<char> {
    match m {
        Some(x) => match label_note(x, func) {
            Some(l) => "  "@ + l,
            None => Seq::empty(),
        },
        None => Seq::empty(),
    }
}

pub fn title(syms: Option<&Symbols>, func: u64) -> (r: String)
    ensures
        r@ == title_of(option_symbols(syms), func),
{
    if let Some(s) = syms {
        if let Some(l) = s.label_at(func) {
            let mut out = "  ".to_string();
            out.append(l.text().as_str());
            return out;
        }
    }
    String::new()
}

// ---------------------------------------------------------------------------
// Text
// ---------------------------------------------------------------------------

/// One instruction of a listing, with its note.
pub open spec fn instr_line(m: Option<SymbolsModel>, a: u64, i: InstrModel) -> Seq<
    char,
> {
    match instr_note(m, i) {
        Some(note) => "    "@ + hex0x_padded(a as int, 8) + "  "@ + pad_end(i.text, 38) + " ; "@
            + note + "\n"@,
        None => "    "@ + hex0x_padded(a as int, 8) + "  "@ + i.text + "\n"@,
    }
}

/// The first `n` instructions of a block.
pub open spec fn instr_lines(
    m: Option<SymbolsModel>,
    instrs: Instrs,
    addrs: Seq<u64>,
    n: int,
) -> Seq<char>
    decreases n,
{
    if n <= 0 {
        Seq::empty()
    } else {
        instr_lines(m, instrs, addrs, n - 1) + instr_line(
            m,
            addrs[n - 1],
            instrs[addrs[n - 1]],
        )
    }
}

/// Where an edge leads: to a block of the graph, or out of it.
pub open spec fn destination(starts: Seq<u64>, a: u64) -> Seq<char> {
    if starts.contains(a) {
        "block "@ + dec(starts.index_of(a)) + " ("@ + hex0x(a as int) + ")"@
    } else {
        hex0x(a as int) + " (external)"@
    }
}

/// An edge with its label.
pub open spec fn edge_text(starts: Seq<u64>, e: (u64, Seq<char>)) -> Seq<char> {
    if e.1.len() == 0 {
        "-> "@ + destination(starts, e.0)
    } else {
        "-> "@ + destination(starts, e.0) + " ["@ + e.1 + "]"@
    }
}

/// The edges out of a block.
pub open spec fn edges_line(starts: Seq<u64>, succ: Seq<(u64, Seq<char>)>) -> Seq<char> {
    if succ.len() == 0 {
        "    -> (end)\n"@
    } else {
        "    "@ + join(Seq::new(succ.len(), |i: int| edge_text(starts, succ[i])), "   "@) + "\n"@
    }
}

/// One block of the listing.
pub open spec fn block_text(m: Option<SymbolsModel>, g: CfgModel, i: int) -> Seq<
    char,
> {
    let b = g.blocks[i];
    "[block "@ + dec(i) + "] "@ + hex0x(b.start as int) + (if b.start == g.func {
        "  (entry)"@
    } else {
        ""@
    }) + "\n"@ + instr_lines(m, g.instrs, b.addrs, b.addrs.len() as int) + edges_line(
        starts_of(g.blocks),
        b.succ,
    ) + "\n"@
}

/// The first `n` blocks of the listing.
pub open spec fn block_texts(m: Option<SymbolsModel>, g: CfgModel, n: int) -> Seq<char>
    decreases n,
{
    if n <= 0 {
        Seq::empty()
    } else {
        block_texts(m, g, n - 1) + block_text(m, g, n - 1)
    }
}

/// The title of the listing.
pub open spec fn graph_header(m: Option<SymbolsModel>, g: CfgModel) -> Seq<char> {
    "function "@ + hex0x(g.func as int) + title_of(m, g.func) + "  ("@ + dec(
        g.instrs.len() as int,
    ) + " instruction(s), "@ + dec(g.blocks.len() as int) + " basic block(s))\n\n"@
}

/// The listing of a graph.
pub open spec fn graph_text(m: Option<SymbolsModel>, g: CfgModel) -> Seq<char> {
    graph_header(m, g) + block_texts(m, g, g.blocks.len() as int)
}

fn write_instr_line(a: u64, ins: &Instr, note: &Option<String>) -> (r: String)
    ensures
        match note {
            Some(n) => r@ == "    "@ + hex0x_padded(a as int, 8) + "  "@ + pad_end(ins.text@, 38)
                + " ; "@ + n@ + "\n"@,
            None => r@ == "    "@ + hex0x_padded(a as int, 8) + "  "@ + ins.text@ + "\n"@,
        },
{
    let mut s = "    ".to_string();
    s.append(hex_padded(a, 8).as_str());
    s.append("  ");
    match note {
        Some(n) => {
            s.append(padded_end(ins.text.as_str(), 38).as_str());
            s.append(" ; ");
            s.append(n.as_str());
        },
        None => {
            s.append(ins.text.as_str());
        },
    }
    s.append("\n");
    s
}

fn write_instr_lines(
    instrs: &BTreeMap<u64, Instr>,
    addrs: &Vec<u64>,
    syms: Option<&Symbols>,
    memo: &mut Memo,
) -> (r: String)
    requires
        sound_for(option_symbols(syms), old(memo)@),
        placed(map_instrs(instrs@), 0, u64::MAX as int),
        forall|i: int| 0 <= i < addrs@.len() ==> instrs@.contains_key(#[trigger] addrs@[i]),
    ensures
        sound_for(option_symbols(syms), final(memo)@),
        r@ == instr_lines(
                option_symbols(syms),
                map_instrs(instrs@),
                addrs@,
                addrs@.len() as int,
            ),
{
    let ghost m = option_symbols(syms);
    let ghost known = map_instrs(instrs@);
    let mut out = String::new();
    for k in 0..addrs.len()
        invariant
            m == option_symbols(syms),
            known == map_instrs(instrs@),
            placed(known, 0, u64::MAX as int),
            forall|i: int| 0 <= i < addrs@.len() ==> instrs@.contains_key(#[trigger] addrs@[i]),
            sound_for(m, memo@),
            out@ == instr_lines(m, known, addrs@, k as int),
    {
        let a = addrs[k];
        proof {
            assert(instrs@.contains_key(addrs@[k as int]));
            assert(known.contains_key(a));
        }
        if let Some(ins) = instrs.get(&a) {
            let ops = operands(ins.text.as_str());
            let note = annotate_call(syms, ins.flow, ops.as_str(), ins.addr + ins.size, memo);
            let line = write_instr_line(a, ins, &note);
            out.append(line.as_str());
            proof {
                assert(line@ == instr_line(m, a, known[a]));
            }
        }
    }
    out
}

pub fn start_vec(blocks: &Vec<Block>) -> (r: Vec<u64>)
    ensures
        r@ == starts_of(models(blocks@)),
{
    let mut out: Vec<u64> = Vec::new();
    for i in 0..blocks.len()
        invariant
            out@ == starts_of(models(blocks@)).take(i as int),
    {
        proof {
            assert(starts_of(models(blocks@)).take(i + 1) =~= starts_of(models(blocks@)).take(
                i as int,
            ).push(blocks@[i as int].start));
        }
        out.push(blocks[i].start);
    }
    proof {
        assert(starts_of(models(blocks@)).take(blocks@.len() as int) =~= starts_of(
            models(blocks@),
        ));
    }
    out
}

/// The place of a number in an ascending vector.
fn index_in(v: &Vec<u64>, a: u64) -> (r: Option<usize>)
    requires
        ascending(v@),
    ensures
        match r {
            Some(i) => v@.contains(a) && i == v@.index_of(a),
            None => !v@.contains(a),
        },
{
    let n = rank(v.as_slice(), a);
    if n > 0 && v[n - 1] == a {
        proof {
            assert(v@.contains(a));
            let k = v@.index_of(a);
            assert(0 <= k < v@.len() && v@[k] == a);
        }
        Some(n - 1)
    } else {
        None
    }
}

fn write_edge(starts: &Vec<u64>, a: u64, label: &str) -> (r: String)
    requires
        ascending(starts@),
    ensures
        r@ == edge_text(starts@, (a, label@)),
{
    let dest = match index_in(starts, a) {
        Some(i) => {
            let mut d = "block ".to_string();
            d.append(decimal(i as u64).as_str());
            d.append(" (");
            d.append(hex_prefixed(a).as_str());
            d.append(")");
            d
        },
        None => {
            let mut d = hex_prefixed(a);
            d.append(" (external)");
            d
        },
    };
    let mut s = "-> ".to_string();
    s.append(dest.as_str());
    if !label.is_empty() {
        s.append(" [");
        s.append(label);
        s.append("]");
    }
    s
}

fn write_edges(starts: &Vec<u64>, succ: &Vec<(u64, &'static str)>) -> (r: String)
    requires
        ascending(starts@),
    ensures
        r@ == edges_line(starts@, edge_views(succ@)),
{
    if succ.len() == 0 {
        return "    -> (end)\n".to_string();
    }
    let ghost edges = edge_views(succ@);
    let ghost all = Seq::new(edges.len(), |i: int| edge_text(starts@, edges[i]));
    let mut parts: Vec<String> = Vec::new();
    for i in 0..succ.len()
        invariant
            ascending(starts@),
            edges == edge_views(succ@),
            all == Seq::new(edges.len(), |i: int| edge_text(starts@, edges[i])),
            views(parts@) == all.take(i as int),
    {
        let e = succ[i];
        let part = write_edge(starts, e.0, e.1);
        proof {
            crate::text::lemma_views_push(parts@, part);
            assert(all.take(i + 1) =~= all.take(i as int).push(part@));
        }
        parts.push(part);
    }
    proof {
        assert(all.take(all.len() as int) =~= all);
    }
    let mut s = "    ".to_string();
    s.append(joined(&parts, "   ").as_str());
    s.append("\n");
    s
}

/// Every address of a block is that of an instruction.
pub proof fn lemma_block_addrs(func: u64, instrs: Instrs, blocks: Seq<BlockModel>, i: int)
    requires
        is_graph(func, instrs, blocks),
        0 <= i < blocks.len(),
    ensures
        forall|k: int|
            0 <= k < blocks[i].addrs.len() ==> instrs.contains_key(#[trigger] blocks[i].addrs[k]),
{
    let start = blocks[i].start;
    assert(starts_of(blocks)[i] == start);
    assert(starts_of(blocks).contains(start));
    crate::cfg::lemma_run_inside(func, instrs, start);
}

fn write_block(
    graph: &Cfg,
    i: usize,
    starts: &Vec<u64>,
    syms: Option<&Symbols>,
    memo: &mut Memo,
) -> (r: String)
    requires
        i < graph.deep_view().blocks.len(),
        starts@ == starts_of(graph.deep_view().blocks),
        sound_for(option_symbols(syms), old(memo)@),
    ensures
        sound_for(option_symbols(syms), final(memo)@),
        r@ == block_text(
                option_symbols(syms),
                graph.deep_view(),
                i as int,
            ),
{
    let ghost g = graph.deep_view();
    let instrs = graph.instrs();
    let blocks = graph.blocks();
    let b = &blocks[i];
    proof {
        lemma_block_addrs(g.func, g.instrs, g.blocks, i as int);
        assert(g.blocks[i as int] == b.deep_view());
        assert forall|k: int| 0 <= k < b.addrs@.len() implies instrs@.contains_key(
            #[trigger] b.addrs@[k],
        ) by {
            assert(g.instrs.contains_key(g.blocks[i as int].addrs[k]));
        }
    }
    let mut s = "[block ".to_string();
    s.append(decimal(i as u64).as_str());
    s.append("] ");
    s.append(hex_prefixed(b.start).as_str());
    s.append(
        if b.start == graph.func() {
            "  (entry)"
        } else {
            ""
        },
    );
    s.append("\n");
    s.append(write_instr_lines(instrs, &b.addrs, syms, memo).as_str());
    s.append(write_edges(starts, &b.succ).as_str());
    s.append("\n");
    s
}

impl Cfg {
    /// Writes the graph as a listing: each block, its instructions, and its
    /// edges. With symbols, a call or jump to a known place is annotated.
    pub fn to_text(&self, w: &mut String, syms: Option<&Symbols>)
        ensures
            final(w)@ == old(w)@ + graph_text(option_symbols(syms), self.deep_view()),
    {
        let ghost m = option_symbols(syms);
        let ghost g = self.deep_view();
        let blocks = self.blocks();
        let starts = start_vec(blocks);
        let mut memo = Memo::new();
        let mut out = "function ".to_string();
        out.append(hex_prefixed(self.func()).as_str());
        out.append(title(syms, self.func()).as_str());
        out.append("  (");
        out.append(decimal(self.instruction_count() as u64).as_str());
        out.append(" instruction(s), ");
        out.append(decimal(blocks.len() as u64).as_str());
        out.append(" basic block(s))\n\n");
        let mut body = String::new();
        for i in 0..blocks.len()
            invariant
                m == option_symbols(syms),
                g == self.deep_view(),
                models(blocks@) == g.blocks,
                starts@ == starts_of(g.blocks),
                sound_for(m, memo@),
                body@ == block_texts(m, g, i as int),
        {
                let block = write_block(self, i, &starts, syms, &mut memo);
            body.append(block.as_str());
        }
        out.append(body.as_str());
        w.append(out.as_str());
        proof {
            assert(out@ == graph_text(m, g));
        }
    }
}

} // verus!
