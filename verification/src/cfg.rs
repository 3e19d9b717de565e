//! Control flow: what instructions do to it, and the graph of one function.
use crate::binary::{clamped, lemma_section_index, section_holding, Binary, BinaryModel, SectionModel};
pub use crate::disasm::{disassemble, DisasmOpts};
use crate::engine::{
    decode, decoded, failure_text, is_wide, Failure, FailureModel, Insn, InsnModel, Width,
};
use crate::keys::{ascending, is_among, lemma_contains_push, sorted_keys};
use crate::search::{after, begins, contains, has, has_prefix, number, parse_number, strip, trim, trimmed};
use crate::text::{hex0x, hex_prefixed, models, same};
use std::collections::{BTreeMap, VecDeque};
use vstd::prelude::*;

verus! {

broadcast use vstd::std_specs::btree::group_btree_axioms;

/// How a single instruction affects control flow.
#[derive(Debug, Clone, Copy, PartialEq, Eq, Structural)]
pub enum Flow {
    /// Falls through to the next instruction.
    Normal,
    /// Calls a subroutine, then falls through.
    Call,
    /// Ends the function path.
    Return,
    /// One successor, the target; none where the jump is indirect.
    Jump,
    /// Two successors: the next instruction and the target.
    CondJump,
}

/// The flow of an x86 mnemonic. Every mnemonic that starts with `j`, except the
/// plain jump, is a conditional jump; so are the loop instructions.
pub open spec fn flow_of(m: Seq<char>) -> Flow {
    if m == "ret"@ || m == "retn"@ || m == "retf"@ || begins(m, "iret"@) {
        Flow::Return
    } else if m == "call"@ || m == "lcall"@ {
        Flow::Call
    } else if m == "jmp"@ || m == "ljmp"@ {
        Flow::Jump
    } else if begins(m, "j"@) || begins(m, "loop"@) {
        Flow::CondJump
    } else {
        Flow::Normal
    }
}

/// Classifies an x86 mnemonic.
pub fn classify(mnem: &str) -> (r: Flow)
    ensures
        r == flow_of(mnem@),
{
    if same(mnem, "ret") || same(mnem, "retn") || same(mnem, "retf") || has_prefix(mnem, "iret") {
        Flow::Return
    } else if same(mnem, "call") || same(mnem, "lcall") {
        Flow::Call
    } else if same(mnem, "jmp") || same(mnem, "ljmp") {
        Flow::Jump
    } else if has_prefix(mnem, "j") || has_prefix(mnem, "loop") {
        Flow::CondJump
    } else {
        Flow::Normal
    }
}

/// The address in the operands of a direct branch or call, which is written as
/// a bare hexadecimal number. The operands of an indirect one hold no such.
pub open spec fn target_of(ops: Seq<char>) -> Option<int> {
    let t = trimmed(ops);
    if begins(t, "0x"@) {
        number(after(t, "0x"@), 16, u64::MAX as int)
    } else {
        None
    }
}

/// Reads the target of a direct branch or call.
pub fn parse_target(ops: &str) -> (r: Option<u64>)
    ensures
        match r {
            Some(t) => target_of(ops@) == Some(t as int),
            None => target_of(ops@) is None,
        },
{
    let t = trim(ops);
    match strip(t.as_str(), "0x") {
        Some(h) => parse_number(h.as_str(), 16, u64::MAX),
        None => None,
    }
}

/// The operand size that an architecture name stands for, if it is x86.
pub open spec fn width_of(arch: Seq<char>) -> Option<Width> {
    if contains(arch, "x86-64"@) || contains(arch, "AMD64"@) {
        Some(Width::Bits64)
    } else if contains(arch, "x86"@) || contains(arch, "I386"@) {
        Some(Width::Bits32)
    } else {
        None
    }
}

/// The decoder mode for this binary; none if it is not x86.
pub fn x86_mode(bin: &Binary) -> (r: Option<Width>)
    ensures
        r == width_of(bin.arch@),
{
    if has(bin.arch, "x86-64") || has(bin.arch, "AMD64") {
        Some(Width::Bits64)
    } else if has(bin.arch, "x86") || has(bin.arch, "I386") {
        Some(Width::Bits32)
    } else {
        None
    }
}

// ---------------------------------------------------------------------------
// Instructions
// ---------------------------------------------------------------------------

/// An instruction of a function.
#[derive(Debug, Clone)]
pub struct Instr {
    pub addr: u64,
    pub size: u64,
    /// Mnemonic and operands: "mov rax, [rcx]".
    pub text: String,
    pub flow: Flow,
    /// The target of a direct branch or call.
    pub target: Option<u64>,
}

pub ghost struct InstrModel {
    pub addr: u64,
    pub size: u64,
    pub text: Seq<char>,
    pub flow: Flow,
    pub target: Option<u64>,
}

impl DeepView for Instr {
    type V = InstrModel;

    open spec fn deep_view(&self) -> InstrModel {
        InstrModel {
            addr: self.addr,
            size: self.size,
            text: self.text@,
            flow: self.flow,
            target: self.target,
        }
    }
}

pub open spec fn option_instr(i: Option<Instr>) -> Option<InstrModel> {
    match i {
        Some(x) => Some(x.deep_view()),
        None => None,
    }
}

/// Where the next instruction stands.
pub open spec fn next_of(i: InstrModel) -> int {
    i.addr + i.size
}

/// Does an instruction of this flow end its block?
pub open spec fn ends_block(f: Flow) -> bool {
    f is Return || f is Jump || f is CondJump
}

/// An address read out of an operand, as a machine word.
pub open spec fn as_target(t: Option<int>) -> Option<u64> {
    match t {
        Some(a) => Some(a as u64),
        None => None,
    }
}

/// Mnemonic and operands, with a space between them where there are operands.
pub open spec fn insn_text(mnemonic: Seq<char>, operands: Seq<char>) -> Seq<char> {
    if operands.len() == 0 {
        mnemonic
    } else {
        mnemonic + " "@ + operands
    }
}

/// The instruction at `addr`, from what was decoded there: the first of the
/// decoded instructions.
pub open spec fn instr_of(found: Seq<InsnModel>, addr: u64) -> Option<InstrModel> {
    if found.len() == 0 || found[0].size == 0 {
        None
    } else {
        let flow = flow_of(found[0].mnemonic);
        Some(
            InstrModel {
                addr,
                size: found[0].size as u64,
                text: insn_text(found[0].mnemonic, found[0].operands),
                flow,
                target: if flow is Jump || flow is CondJump || flow is Call {
                    as_target(target_of(found[0].operands))
                } else {
                    None
                },
            },
        )
    }
}

/// The instruction at `addr`, from what was decoded there.
pub fn instruction_from(found: &Vec<Insn>, addr: u64) -> (r: Option<Instr>)
    ensures
        option_instr(r) == instr_of(models(found@), addr),
{
    if found.len() == 0 {
        return None;
    }
    let insn = &found[0];
    proof {
        assert(models(found@)[0] == insn.deep_view());
    }
    if insn.size == 0 {
        return None;
    }
    let flow = classify(insn.mnemonic.as_str());
    let target: Option<u64> = match flow {
        Flow::Jump => parse_target(insn.operands.as_str()),
        Flow::CondJump => parse_target(insn.operands.as_str()),
        Flow::Call => parse_target(insn.operands.as_str()),
        _ => None,
    };
    let mut text = insn.mnemonic.clone();
    if !insn.operands.as_str().is_empty() {
        text.append(" ");
        text.append(insn.operands.as_str());
    }
    Some(Instr { addr, size: insn.size as u64, text, flow, target })
}

// ---------------------------------------------------------------------------
// The walk: every instruction of the function that can be reached
// ---------------------------------------------------------------------------

/// Bounds the walk on degenerate input.
pub const MAX_INSNS: usize = 50_000;

/// The code that the walk stays inside of: the bytes of one section, and the
/// address of the first of them.
pub ghost struct Region {
    pub wide: bool,
    pub code: Seq<u8>,
    pub base: u64,
}

/// Where the region ends.
pub open spec fn end_of(r: Region) -> int {
    r.base + r.code.len()
}

/// The instruction that decodes at an address of the region. Where the decoder
/// gives up there is none.
pub open spec fn insn_at(r: Region, a: u64) -> Option<InstrModel> {
    match decoded(r.wide, r.code.skip(a - r.base), a, 1) {
        Ok(found) => instr_of(found, a),
        Err(_) => None,
    }
}

/// Why no decoder can be set up for the code at an address of the region, if
/// none can.
pub open spec fn no_decoder(r: Region, a: u64) -> Option<Seq<char>> {
    match decoded(r.wide, r.code.skip(a - r.base), a, 1) {
        Err(FailureModel::Init(reason)) => Some(reason),
        _ => None,
    }
}

/// The addresses to which control may go from an instruction within its
/// function. A call comes back, so the next instruction follows it.
pub open spec fn flow_successors(i: InstrModel) -> Seq<int> {
    match i.flow {
        Flow::Return => Seq::empty(),
        Flow::Jump => match i.target {
            Some(t) => seq![t as int],
            None => Seq::empty(),
        },
        Flow::CondJump => match i.target {
            Some(t) => seq![next_of(i), t as int],
            None => seq![next_of(i)],
        },
        _ => seq![next_of(i)],
    }
}

pub type Instrs = Map<u64, InstrModel>;

/// Is the address to be decoded? Not if it was already, nor if the walk has
/// seen enough, nor outside the region.
pub open spec fn wanted(base: int, end: int, seen: Instrs, a: u64) -> bool {
    !seen.contains_key(a) && seen.len() < MAX_INSNS && base <= a < end
}

/// The queue with the first `n` of the successors behind it: those in the
/// region that were not decoded yet.
pub open spec fn enqueue(
    base: int,
    end: int,
    seen: Instrs,
    work: Seq<u64>,
    succs: Seq<int>,
    n: int,
) -> Seq<u64>
    decreases n,
{
    if n <= 0 {
        work
    } else {
        let w = enqueue(base, end, seen, work, succs, n - 1);
        if base <= succs[n - 1] < end && !seen.contains_key(succs[n - 1] as u64) {
            w.push(succs[n - 1] as u64)
        } else {
            w
        }
    }
}

/// Is there something to do for the address at the head of the queue?
pub open spec fn visits(
    base: int,
    end: int,
    work: Seq<u64>,
    seen: Instrs,
    found: Option<InstrModel>,
) -> bool {
    wanted(base, end, seen, work[0]) && found is Some
}

/// The instructions after the address at the head of the queue was visited,
/// `found` being what decodes there.
pub open spec fn seen_after(
    base: int,
    end: int,
    work: Seq<u64>,
    seen: Instrs,
    found: Option<InstrModel>,
) -> Instrs {
    if visits(base, end, work, seen, found) {
        seen.insert(work[0], found->0)
    } else {
        seen
    }
}

/// The queue after the address at its head was visited.
pub open spec fn work_after(
    base: int,
    end: int,
    work: Seq<u64>,
    seen: Instrs,
    found: Option<InstrModel>,
) -> Seq<u64> {
    if visits(base, end, work, seen, found) {
        let succs = flow_successors(found->0);
        enqueue(base, end, seen.insert(work[0], found->0), work.skip(1), succs, succs.len() as int)
    } else {
        work.skip(1)
    }
}

/// All instructions that a walk finds which has `work` still to visit and has
/// `seen` so many.
pub open spec fn explore(r: Region, work: Seq<u64>, seen: Instrs) -> Instrs
    decreases MAX_INSNS - seen.len(), work.len(),
    when seen.dom().finite()
{
    if work.len() == 0 {
        seen
    } else {
        let found = insn_at(r, work[0]);
        explore(
            r,
            work_after(r.base as int, end_of(r), work, seen, found),
            seen_after(r.base as int, end_of(r), work, seen, found),
        )
    }
}

/// Where such a walk comes to an address for which no decoder can be set up, the
/// reason.
pub open spec fn stranded(r: Region, work: Seq<u64>, seen: Instrs) -> Option<Seq<char>>
    decreases MAX_INSNS - seen.len(), work.len(),
    when seen.dom().finite()
{
    if work.len() == 0 {
        None
    } else if wanted(r.base as int, end_of(r), seen, work[0]) && no_decoder(r, work[0]) is Some {
        no_decoder(r, work[0])
    } else {
        let found = insn_at(r, work[0]);
        stranded(
            r,
            work_after(r.base as int, end_of(r), work, seen, found),
            seen_after(r.base as int, end_of(r), work, seen, found),
        )
    }
}

/// Every instruction lies in the region, under its own address, and takes up at
/// least one byte.
pub open spec fn placed(instrs: Instrs, base: int, end: int) -> bool {
    forall|a: u64| #[trigger]
        instrs.contains_key(a) ==> instrs[a].addr == a && instrs[a].size >= 1 && base <= a && a
            + instrs[a].size <= end
}

/// A map of instructions, by their models.
pub open spec fn map_instrs(m: Map<u64, Instr>) -> Instrs {
    Map::new(|k: u64| m.contains_key(k), |k: u64| m[k].deep_view())
}

/// A walk through the instructions of a function.
pub struct Walk {
    base: u64,
    end: u64,
    work: VecDeque<u64>,
    instrs: BTreeMap<u64, Instr>,
}

impl Walk {
    pub closed spec fn base(self) -> u64 {
        self.base
    }

    pub closed spec fn end(self) -> u64 {
        self.end
    }

    /// The addresses still to visit.
    pub closed spec fn work(self) -> Seq<u64> {
        self.work@
    }

    /// The instructions found so far.
    pub closed spec fn seen(self) -> Instrs {
        map_instrs(self.instrs@)
    }

    /// A walk that starts at `func` and stays between `base` and `end`.
    pub fn new(base: u64, end: u64, func: u64) -> (w: Self)
        ensures
            w.base() == base,
            w.end() == end,
            w.work() == seq![func],
            w.seen() == Map::<u64, InstrModel>::empty(),
    {
        let mut work: VecDeque<u64> = VecDeque::new();
        work.push_back(func);
        let w = Walk { base, end, work, instrs: BTreeMap::new() };
        proof {
            assert(w.work@ =~= seq![func]);
            assert(w.seen() =~= Map::<u64, InstrModel>::empty());
        }
        w
    }

    /// The address to visit next, taken off the queue.
    pub fn pop(&mut self) -> (a: Option<u64>)
        ensures
            final(self).base() == old(self).base(),
            final(self).end() == old(self).end(),
            final(self).seen() == old(self).seen(),
            match a {
                Some(x) => old(self).work().len() > 0 && x == old(self).work()[0]
                    && final(self).work() == old(self).work().skip(1),
                None => old(self).work().len() == 0 && final(self).work() == old(self).work(),
            },
    {
        self.work.pop_front()
    }

    /// The instructions found.
    pub fn finish(self) -> (r: BTreeMap<u64, Instr>)
        ensures
            map_instrs(r@) == self.seen(),
    {
        self.instrs
    }

    /// Is the address to be decoded?
    pub fn wants(&self, a: u64) -> (r: bool)
        ensures
            r == wanted(self.base() as int, self.end() as int, self.seen(), a),
    {
        proof {
            assert(self.seen().dom() =~= self.instrs@.dom());
        }
        !self.instrs.contains_key(&a) && self.instrs.len() < MAX_INSNS && self.base <= a && a
            < self.end
    }

    fn enqueue_one(&mut self, a: u64)
        ensures
            final(self).base() == old(self).base(),
            final(self).end() == old(self).end(),
            final(self).seen() == old(self).seen(),
            final(self).work() == (if old(self).base() <= a < old(self).end() && !old(
                self,
            ).seen().contains_key(a) {
                old(self).work().push(a)
            } else {
                old(self).work()
            }),
    {
        if self.base <= a && a < self.end && !self.instrs.contains_key(&a) {
            self.work.push_back(a);
        }
    }

    /// Records the instruction found at an address that was taken off the queue,
    /// and queues the addresses that control may go to from it.
    pub fn record(&mut self, a: u64, ins: Instr)
        requires
            ins.addr + ins.size <= u64::MAX,
        ensures
            final(self).base() == old(self).base(),
            final(self).end() == old(self).end(),
            final(self).seen() == old(self).seen().insert(a, ins.deep_view()),
            final(self).work() == enqueue(
                old(self).base() as int,
                old(self).end() as int,
                old(self).seen().insert(a, ins.deep_view()),
                old(self).work(),
                flow_successors(ins.deep_view()),
                flow_successors(ins.deep_view()).len() as int,
            ),
    {
        let flow = ins.flow;
        let target = ins.target;
        let next = ins.addr + ins.size;
        let ghost m = ins.deep_view();
        let ghost was = self.seen();
        self.instrs.insert(a, ins);
        proof {
            assert(self.seen() =~= was.insert(a, m));
            reveal_with_fuel(enqueue, 3);
        }
        match flow {
            Flow::Return => {},
            Flow::Jump => {
                if let Some(t) = target {
                    self.enqueue_one(t);
                }
            },
            Flow::CondJump => {
                self.enqueue_one(next);
                if let Some(t) = target {
                    self.enqueue_one(t);
                }
            },
            _ => {
                self.enqueue_one(next);
            },
        }
    }
}

// ---------------------------------------------------------------------------
// The graph
// ---------------------------------------------------------------------------

/// A run of instructions that is entered only at its start and left only at
/// its end.
#[derive(Debug, Clone)]
pub struct Block {
    pub start: u64,
    /// The instruction addresses, in order.
    pub addrs: Vec<u64>,
    /// Successor addresses, each with the label of its edge.
    pub succ: Vec<(u64, &'static str)>,
}

pub ghost struct BlockModel {
    pub start: u64,
    pub addrs: Seq<u64>,
    pub succ: Seq<(u64, Seq<char>)>,
}

/// The edges with the characters of their labels.
pub open spec fn edge_views(s: Seq<(u64, &str)>) -> Seq<(u64, Seq<char>)> {
    Seq::new(s.len(), |i: int| (s[i].0, s[i].1@))
}

impl DeepView for Block {
    type V = BlockModel;

    open spec fn deep_view(&self) -> BlockModel {
        BlockModel { start: self.start, addrs: self.addrs@, succ: edge_views(self.succ@) }
    }
}

/// Does the instruction make `a` the start of a block? A branch does so for its
/// target, and each branch and return for the instruction behind it.
pub open spec fn leads_to(i: InstrModel, a: u64) -> bool {
    ||| ends_block(i.flow) && next_of(i) == a
    ||| (i.flow is Jump || i.flow is CondJump) && i.target == Some(a)
}

/// Does a block start here? The entry is such a place, and all to which some
/// instruction leads.
pub open spec fn is_leader(func: u64, instrs: Instrs, a: u64) -> bool {
    a == func || exists|b: u64| #[trigger] instrs.contains_key(b) && leads_to(instrs[b], a)
}

/// The addresses of a block from `cur` on: it goes on until an instruction ends
/// it, or the next one starts another block, or there is no next one.
pub open spec fn run_from(func: u64, instrs: Instrs, cur: u64) -> Seq<u64>
    decreases u64::MAX - cur,
{
    let next = cur + instrs[cur].size;
    if ends_block(instrs[cur].flow) || next <= cur || next > u64::MAX || !instrs.contains_key(
        next as u64,
    ) || is_leader(func, instrs, next as u64) {
        seq![cur]
    } else {
        seq![cur] + run_from(func, instrs, next as u64)
    }
}

/// The edges out of a block, from its last instruction.
pub open spec fn edges_of(last: InstrModel) -> Seq<(u64, Seq<char>)> {
    match last.flow {
        Flow::Return => Seq::empty(),
        Flow::Jump => match last.target {
            Some(t) => seq![(t, "jmp"@)],
            None => Seq::empty(),
        },
        Flow::CondJump => match last.target {
            Some(t) => seq![(next_of(last) as u64, "fall"@), (t, "taken"@)],
            None => seq![(next_of(last) as u64, "fall"@)],
        },
        _ => seq![(next_of(last) as u64, ""@)],
    }
}

/// The block that starts at `a`.
pub open spec fn block_at(func: u64, instrs: Instrs, a: u64) -> BlockModel {
    let addrs = run_from(func, instrs, a);
    BlockModel { start: a, addrs, succ: edges_of(instrs[addrs.last()]) }
}

/// The starts of the blocks.
pub open spec fn starts_of(blocks: Seq<BlockModel>) -> Seq<u64> {
    Seq::new(blocks.len(), |i: int| blocks[i].start)
}

/// Is this the control-flow graph of the instructions? One block for each
/// instruction at which a block starts, in ascending order.
pub open spec fn is_graph(func: u64, instrs: Instrs, blocks: Seq<BlockModel>) -> bool {
    &&& ascending(starts_of(blocks))
    &&& forall|a: u64|
        starts_of(blocks).contains(a) <==> instrs.contains_key(a) && is_leader(func, instrs, a)
    &&& forall|i: int|
        0 <= i < blocks.len() ==> #[trigger] blocks[i] == block_at(func, instrs, blocks[i].start)
}

pub proof fn lemma_run_inside(func: u64, instrs: Instrs, cur: u64)
    requires
        instrs.contains_key(cur),
    ensures
        forall|i: int|
            0 <= i < run_from(func, instrs, cur).len() ==> instrs.contains_key(
                #[trigger] run_from(func, instrs, cur)[i],
            ),
    decreases u64::MAX - cur,
{
    let next = cur + instrs[cur].size;
    if !(ends_block(instrs[cur].flow) || next <= cur || next > u64::MAX || !instrs.contains_key(
        next as u64,
    ) || is_leader(func, instrs, next as u64)) {
        lemma_run_inside(func, instrs, next as u64);
        let tail = run_from(func, instrs, next as u64);
        assert forall|i: int| 0 <= i < run_from(func, instrs, cur).len() implies instrs.contains_key(
            #[trigger] run_from(func, instrs, cur)[i],
        ) by {
            if i > 0 {
                assert(run_from(func, instrs, cur)[i] == tail[i - 1]);
            }
        }
    }
}

/// The control-flow graph of one function.
pub struct Cfg {
    func: u64,
    instrs: BTreeMap<u64, Instr>,
    blocks: Vec<Block>,
}

pub ghost struct CfgModel {
    pub func: u64,
    pub instrs: Instrs,
    pub blocks: Seq<BlockModel>,
}

impl DeepView for Cfg {
    type V = CfgModel;

    closed spec fn deep_view(&self) -> CfgModel {
        CfgModel {
            func: self.func,
            instrs: map_instrs(self.instrs@),
            blocks: models(self.blocks@),
        }
    }
}

impl Cfg {
    #[verifier::type_invariant]
    spec fn consistent(self) -> bool {
        &&& is_graph(self.func, map_instrs(self.instrs@), models(self.blocks@))
        &&& placed(map_instrs(self.instrs@), 0, u64::MAX as int)
    }

    pub fn instruction_count(&self) -> (r: usize)
        ensures
            r == self.deep_view().instrs.len(),
    {
        proof {
            assert(map_instrs(self.instrs@).dom() =~= self.instrs@.dom());
        }
        self.instrs.len()
    }

    pub fn block_count(&self) -> (r: usize)
        ensures
            r == self.deep_view().blocks.len(),
    {
        self.blocks.len()
    }

    /// The blocks, in ascending order of their starts.
    pub fn blocks(&self) -> (r: &Vec<Block>)
        ensures
            models(r@) == self.deep_view().blocks,
            is_graph(self.deep_view().func, self.deep_view().instrs, self.deep_view().blocks),
            placed(self.deep_view().instrs, 0, u64::MAX as int),
    {
        proof {
            use_type_invariant(self);
        }
        &self.blocks
    }

    /// The instructions, by their addresses.
    pub fn instrs(&self) -> (r: &BTreeMap<u64, Instr>)
        ensures
            map_instrs(r@) == self.deep_view().instrs,
    {
        &self.instrs
    }

    /// The address of the function.
    pub fn func(&self) -> (r: u64)
        ensures
            r == self.deep_view().func,
    {
        self.func
    }
}

/// The addresses at which blocks start, in ascending order.
fn block_starts(func: u64, instrs: &BTreeMap<u64, Instr>) -> (r: Vec<u64>)
    requires
        placed(map_instrs(instrs@), 0, u64::MAX as int),
    ensures
        ascending(r@),
        forall|a: u64| #[trigger]
            r@.contains(a) <==> instrs@.contains_key(a) && is_leader(func, map_instrs(instrs@), a),
{
    let ghost m = map_instrs(instrs@);
    let keys = sorted_keys(instrs);
    let mut leaders: BTreeMap<u64, bool> = BTreeMap::new();
    leaders.insert(func, true);
    for i in 0..keys.len()
        invariant
            m == map_instrs(instrs@),
            placed(m, 0, u64::MAX as int),
            forall|a: u64| keys@.contains(a) <==> instrs@.contains_key(a),
            forall|a: u64| #[trigger]
                leaders@.contains_key(a) <==> a == func || exists|k: int|
                    0 <= k < i && leads_to(m[#[trigger] keys@[k]], a),
    {
        let key = keys[i];
        proof {
            assert(keys@.contains(keys@[i as int]));
            assert(m.contains_key(key));
        }
        let ghost was = leaders@;
        if let Some(ins) = instrs.get(&key) {
            let next = ins.addr + ins.size;
            match ins.flow {
                Flow::Return => {
                    leaders.insert(next, true);
                },
                Flow::Jump => {
                    leaders.insert(next, true);
                    if let Some(t) = ins.target {
                        leaders.insert(t, true);
                    }
                },
                Flow::CondJump => {
                    leaders.insert(next, true);
                    if let Some(t) = ins.target {
                        leaders.insert(t, true);
                    }
                },
                _ => {},
            }
        }
        proof {
            assert forall|a: u64| #[trigger]
                leaders@.contains_key(a) <==> a == func || exists|k: int|
                    0 <= k < i + 1 && leads_to(m[#[trigger] keys@[k]], a) by {
                assert(leaders@.contains_key(a) <==> was.contains_key(a) || leads_to(m[key], a));
                if leads_to(m[key], a) {
                    assert(leads_to(m[keys@[i as int]], a));
                }
            }
        }
    }
    let order = sorted_keys(&leaders);
    let mut starts: Vec<u64> = Vec::new();
    for i in 0..order.len()
        invariant
            ascending(order@),
            ascending(starts@),
            forall|a: u64| #[trigger]
                starts@.contains(a) <==> instrs@.contains_key(a) && order@.take(i as int).contains(
                    a,
                ),
    {
        let a = order[i];
        let ghost passed = order@.take(i as int);
        let ghost was = starts@;
        proof {
            assert(order@.take(i + 1) =~= passed.push(a));
            assert forall|j: int| 0 <= j < was.len() implies was[j] < a by {
                assert(was.contains(was[j]));
                let k = choose|k: int| 0 <= k < passed.len() && passed[k] == was[j];
                assert(order@[k] < order@[i as int]);
            }
        }
        if instrs.contains_key(&a) {
            starts.push(a);
        }
        proof {
            assert forall|x: u64| #[trigger]
                starts@.contains(x) <==> instrs@.contains_key(x) && order@.take(i + 1).contains(
                    x,
                ) by {
                lemma_contains_push(passed, a, x);
                lemma_contains_push(was, a, x);
            }
        }
    }
    proof {
        assert(order@.take(order@.len() as int) =~= order@);
        assert forall|a: u64| #[trigger] starts@.contains(a) <==> instrs@.contains_key(a)
            && is_leader(func, m, a) by {
            if is_leader(func, m, a) && a != func {
                let b = choose|b: u64| #[trigger] m.contains_key(b) && leads_to(m[b], a);
                assert(keys@.contains(b));
                let k = choose|k: int| 0 <= k < keys@.len() && keys@[k] == b;
                assert(leads_to(m[keys@[k]], a));
                assert(leaders@.contains_key(a));
            }
            if order@.contains(a) && a != func {
                assert(leaders@.contains_key(a));
                let k = choose|k: int|
                    0 <= k < keys@.len() && leads_to(m[#[trigger] keys@[k]], a);
                assert(keys@.contains(keys@[k]));
                assert(m.contains_key(keys@[k]));
            }
        }
    }
    starts
}

fn edges(last: &Instr) -> (r: Vec<(u64, &'static str)>)
    requires
        last.addr + last.size <= u64::MAX,
    ensures
        edge_views(r@) == edges_of(last.deep_view()),
{
    let next = last.addr + last.size;
    let mut v: Vec<(u64, &'static str)> = Vec::new();
    match last.flow {
        Flow::Return => {},
        Flow::Jump => {
            if let Some(t) = last.target {
                v.push((t, "jmp"));
            }
        },
        Flow::CondJump => {
            v.push((next, "fall"));
            if let Some(t) = last.target {
                v.push((t, "taken"));
            }
        },
        _ => {
            v.push((next, ""));
        },
    }
    proof {
        assert(edge_views(v@) =~= edges_of(last.deep_view()));
    }
    v
}

/// The block that starts at `start`.
fn make_block(func: u64, instrs: &BTreeMap<u64, Instr>, starts: &Vec<u64>, start: u64) -> (r: Block)
    requires
        placed(map_instrs(instrs@), 0, u64::MAX as int),
        instrs@.contains_key(start),
        ascending(starts@),
        forall|a: u64| #[trigger]
            starts@.contains(a) <==> instrs@.contains_key(a) && is_leader(
                func,
                map_instrs(instrs@),
                a,
            ),
    ensures
        r.deep_view() == block_at(func, map_instrs(instrs@), start),
{
    let ghost m = map_instrs(instrs@);
    let ghost whole = run_from(func, m, start);
    let mut addrs: Vec<u64> = Vec::new();
    let mut cur: u64 = start;
    proof {
        assert(whole =~= addrs@ + run_from(func, m, cur));
    }
    loop
        invariant
            m == map_instrs(instrs@),
            placed(m, 0, u64::MAX as int),
            instrs@.contains_key(cur),
            ascending(starts@),
            forall|a: u64| #[trigger]
                starts@.contains(a) <==> instrs@.contains_key(a) && is_leader(func, m, a),
            whole == run_from(func, m, start),
            whole == addrs@ + run_from(func, m, cur),
        decreases u64::MAX - cur,
    {
        proof {
            assert(m.contains_key(cur));
        }
        let ins = match instrs.get(&cur) {
            Some(x) => x,
            None => {
                proof {
                    assert(false);
                }
                return Block { start, addrs, succ: Vec::new() };
            },
        };
        let next = ins.addr + ins.size;
        let ghost was = addrs@;
        addrs.push(cur);
        let stop = match ins.flow {
            Flow::Return => true,
            Flow::Jump => true,
            Flow::CondJump => true,
            _ => !instrs.contains_key(&next) || is_among(starts.as_slice(), next),
        };
        if stop {
            let succ = edges(ins);
            proof {
                assert(run_from(func, m, cur) =~= seq![cur]);
                assert(whole =~= addrs@);
                assert(whole.last() == cur);
            }
            return Block { start, addrs, succ };
        }
        proof {
            assert(whole =~= addrs@ + run_from(func, m, next));
        }
        cur = next;
    }
}

/// The control-flow graph of the given instructions: the leaders among them,
/// and the blocks that start there.
pub fn assemble(func: u64, instrs: BTreeMap<u64, Instr>) -> (r: Cfg)
    requires
        placed(map_instrs(instrs@), 0, u64::MAX as int),
    ensures
        r.deep_view().func == func,
        r.deep_view().instrs == map_instrs(instrs@),
        is_graph(func, r.deep_view().instrs, r.deep_view().blocks),
        placed(r.deep_view().instrs, 0, u64::MAX as int),
{
    let ghost m = map_instrs(instrs@);
    let starts = block_starts(func, &instrs);
    let mut blocks: Vec<Block> = Vec::new();
    for i in 0..starts.len()
        invariant
            m == map_instrs(instrs@),
            placed(m, 0, u64::MAX as int),
            ascending(starts@),
            forall|a: u64| #[trigger]
                starts@.contains(a) <==> instrs@.contains_key(a) && is_leader(func, m, a),
            blocks@.len() == i,
            forall|j: int|
                0 <= j < i ==> (#[trigger] blocks@[j]).deep_view() == block_at(
                    func,
                    m,
                    starts@[j],
                ),
    {
        proof {
            assert(starts@.contains(starts@[i as int]));
        }
        blocks.push(make_block(func, &instrs, &starts, starts[i]));
    }
    proof {
        assert(starts_of(models(blocks@)) =~= starts@);
        assert forall|i: int| 0 <= i < blocks@.len() implies #[trigger] models(blocks@)[i]
            == block_at(func, m, models(blocks@)[i].start) by {
            assert(blocks@[i].deep_view() == block_at(func, m, starts@[i]));
        }
    }
    Cfg { func, instrs, blocks }
}

// ---------------------------------------------------------------------------
// The graph of a function of a binary
// ---------------------------------------------------------------------------

pub const NO_ENTRY: &'static str =
    "this image declares no entry point (RVA 0), so there is no default function to graph.\npick one with --addr, or run `sma functions` to list the addresses worth looking at";

/// What is said of code that is not x86.
pub open spec fn not_x86(arch: Seq<char>) -> Seq<char> {
    "disassembly supports x86/x86-64 only (this is "@ + arch + ")"@
}

pub fn not_x86_message(arch: &str) -> (r: String)
    ensures
        r@ == not_x86(arch@),
{
    let mut s = "disassembly supports x86/x86-64 only (this is ".to_string();
    s.append(arch);
    s.append(")");
    s
}

/// The function that is asked for: by default the one at the entry point.
pub open spec fn asked_for(bin: BinaryModel, start: Option<u64>) -> u64 {
    match start {
        Some(a) => a,
        None => bin.entry_point,
    }
}

/// The region of a section: its bytes on disk, at its address.
pub open spec fn region_in(w: Width, file: Seq<u8>, s: SectionModel) -> Region {
    Region {
        wide: is_wide(w),
        code: clamped(file, s.file_offset as int, s.file_size as int),
        base: s.virtual_addr,
    }
}

/// The region that a function lies in, or why there is none.
pub open spec fn region_of(file: Seq<u8>, bin: BinaryModel, start: Option<u64>) -> Result<
    Region,
    Seq<char>,
> {
    let func = asked_for(bin, start);
    match width_of(bin.arch) {
        None => Err(not_x86(bin.arch)),
        Some(w) => if func == 0 && start is None {
            Err(NO_ENTRY@)
        } else {
            match section_holding(bin.sections, func as int) {
                None => Err("no section contains address "@ + hex0x(func as int)),
                Some(s) => {
                    let r = region_in(w, file, s);
                    if end_of(r) <= u64::MAX && r.base <= func < end_of(r) {
                        Ok(r)
                    } else {
                        Err(
                            "address "@ + hex0x(func as int)
                                + " has no on-disk bytes to disassemble"@,
                        )
                    }
                },
            }
        },
    }
}

/// The instructions of the function at `func`, those that a walk through the
/// region finds.
pub open spec fn instrs_of(r: Region, func: u64) -> Instrs {
    explore(r, seq![func], Map::empty())
}

/// What comes of the walk through a function.
pub ghost enum Walked {
    /// Its instructions, which are some.
    Found(Instrs),
    /// There is nothing to walk through, for the reason given.
    Refused(Seq<char>),
    /// No decoder could be set up, for the reason given.
    NoDecoder(Seq<char>),
}

/// What is said where nothing decodes at the start of a function.
pub open spec fn undecodable(func: u64) -> Seq<char> {
    "no decodable instructions at "@ + hex0x(func as int)
}

/// The instructions of a function, or why there are none.
pub open spec fn function_of(file: Seq<u8>, bin: BinaryModel, start: Option<u64>) -> Walked {
    let func = asked_for(bin, start);
    match region_of(file, bin, start) {
        Err(e) => Walked::Refused(e),
        Ok(r) => match stranded(r, seq![func], Map::empty()) {
            Some(reason) => Walked::NoDecoder(reason),
            None => if instrs_of(r, func).len() == 0 {
                Walked::Refused(undecodable(func))
            } else {
                Walked::Found(instrs_of(r, func))
            },
        },
    }
}

/// The instruction at `addr`, from what came of decoding there. Where the decoder
/// gave up, there is none, and that path ends; where it could not be set up, the
/// failure is handed on.
pub fn visit(found: Result<Vec<Insn>, Failure>, addr: u64) -> (r: Result<Option<Instr>, Failure>)
    ensures
        match found {
            Ok(v) => r matches Ok(i) && option_instr(i) == instr_of(models(v@), addr),
            Err(Failure::Decode(_)) => r matches Ok(i) && i is None,
            Err(Failure::Init(e)) => r == Err::<Option<Instr>, Failure>(Failure::Init(e)),
        },
{
    match found {
        Ok(insns) => Ok(instruction_from(&insns, addr)),
        Err(Failure::Decode(_)) => Ok(None),
        Err(Failure::Init(e)) => Err(Failure::Init(e)),
    }
}

/// Finds every instruction of the function at `func` that can be reached.
/// Where the decoder gives up on an address, that path ends.
fn walk_function(width: Width, code: &[u8], base: u64, func: u64) -> (r: Result<
    BTreeMap<u64, Instr>,
    Failure,
>)
    requires
        base + code@.len() <= u64::MAX,
    ensures
        ({
            let g = Region { wide: is_wide(width), code: code@, base };
            match r {
                Ok(m) => {
                    &&& stranded(g, seq![func], Map::empty()) is None
                    &&& map_instrs(m@) == instrs_of(g, func)
                    &&& placed(map_instrs(m@), base as int, base + code@.len())
                },
                Err(f) => f matches Failure::Init(reason) && stranded(
                    g,
                    seq![func],
                    Map::empty(),
                ) == Some(reason@),
            }
        }),
{
    let ghost g = Region { wide: is_wide(width), code: code@, base };
    let len = code.len();
    let end = base + len as u64;
    let mut walk = Walk::new(base, end, func);
    loop
        invariant
            g == (Region { wide: is_wide(width), code: code@, base }),
            len == code@.len(),
            base + len == end,
            walk.base() == base,
            walk.end() == end,
            placed(walk.seen(), base as int, end as int),
            walk.seen().dom().finite(),
            walk.seen().len() <= MAX_INSNS,
            instrs_of(g, func) == explore(g, walk.work(), walk.seen()),
            stranded(g, seq![func], Map::empty()) == stranded(g, walk.work(), walk.seen()),
        decreases MAX_INSNS - walk.seen().len(), walk.work().len(),
    {
        let ghost work = walk.work();
        let ghost seen = walk.seen();
        let a = match walk.pop() {
            Some(a) => a,
            None => {
                return Ok(walk.finish());
            },
        };
        let mut found: Option<Instr> = None;
        if walk.wants(a) {
            let off = (a - base) as usize;
            proof {
                assert(code@.subrange(off as int, code@.len() as int) =~= code@.skip(a - base));
            }
            let insns = decode(width, &code[off..len], a, 1);
            let ghost came = insns;
            match visit(insns, a) {
                Ok(i) => {
                    found = i;
                    proof {
                        if found is Some {
                            assert(models(came->Ok_0@)[0].size <= code@.len() - off) by {
                                reveal_with_fuel(crate::engine::bytes_taken, 2);
                                assert(models(came->Ok_0@).len() == 1);
                            }
                        }
                    }
                },
                Err(f) => {
                    return Err(f);
                },
            }
            proof {
                assert(option_instr(found) == insn_at(g, a));
                assert(no_decoder(g, a) is None);
            }
        }
        proof {
            assert(walk.seen().dom() =~= seen.dom());
            assert(visits(base as int, end as int, work, seen, insn_at(g, a)) ==> insn_at(g, a)
                == option_instr(found));
        }
        if let Some(ins) = found {
            walk.record(a, ins);
        }
    }
}

/// The graph of a function, from the instructions that were found: there is one
/// where there are any.
pub fn graph_of(func: u64, instrs: BTreeMap<u64, Instr>) -> (r: Result<Cfg, String>)
    requires
        placed(map_instrs(instrs@), 0, u64::MAX as int),
    ensures
        match r {
            Ok(g) => {
                let m = g.deep_view();
                &&& instrs@.len() > 0
                &&& m.func == func
                &&& m.instrs == map_instrs(instrs@)
                &&& is_graph(func, m.instrs, m.blocks)
                &&& placed(m.instrs, 0, u64::MAX as int)
            },
            Err(e) => instrs@.len() == 0 && e@ == undecodable(func),
        },
{
    if instrs.len() == 0 {
        let mut e = "no decodable instructions at ".to_string();
        e.append(hex_prefixed(func).as_str());
        return Err(e);
    }
    Ok(assemble(func, instrs))
}

/// Disassembles the function at `start`, by default the one at the entry point,
/// and builds its control-flow graph.
///
/// Fails where the code is not x86, where the function has no bytes on disk or
/// none that decode, and where the decoder cannot be set up.
pub fn build(file: &[u8], bin: &Binary, start: Option<u64>) -> (r: Result<Cfg, String>)
    ensures
        match function_of(file@, bin.deep_view(), start) {
            Walked::Found(instrs) => {
                &&& r is Ok
                &&& {
                    let m = r->Ok_0.deep_view();
                    &&& m.func == asked_for(bin.deep_view(), start)
                    &&& m.instrs == instrs
                    &&& is_graph(m.func, m.instrs, m.blocks)
                    &&& placed(m.instrs, 0, u64::MAX as int)
                }
            },
            Walked::Refused(e) => r is Err && r->Err_0@ == e,
            Walked::NoDecoder(reason) => r is Err && r->Err_0@ == failure_text(
                FailureModel::Init(reason),
            ),
        },
{
    let ghost b = bin.deep_view();
    let width = match x86_mode(bin) {
        Some(w) => w,
        None => {
            return Err(not_x86_message(bin.arch));
        },
    };
    let func: u64 = match start {
        Some(a) => a,
        None => bin.entry_point,
    };
    if func == 0 && start.is_none() {
        return Err(NO_ENTRY.to_string());
    }
    let sec = match bin.section_at(func) {
        Some(s) => s,
        None => {
            let mut e = "no section contains address ".to_string();
            e.append(hex_prefixed(func).as_str());
            return Err(e);
        },
    };
    proof {
        lemma_section_index(b.sections, func as int, 0);
    }
    let code = sec.on_disk_bytes(file);
    let base = sec.virtual_addr;
    let len = code.len() as u64;
    if len > u64::MAX - base || func - base >= len {
        let mut e = "address ".to_string();
        e.append(hex_prefixed(func).as_str());
        e.append(" has no on-disk bytes to disassemble");
        return Err(e);
    }
    proof {
        assert(region_of(file@, b, start) == Ok::<Region, Seq<char>>(
            region_in(width, file@, sec.deep_view()),
        ));
    }
    match walk_function(width, code, base, func) {
        Ok(instrs) => {
            proof {
                assert(map_instrs(instrs@).dom() =~= instrs@.dom());
            }
            graph_of(func, instrs)
        },
        Err(f) => Err(f.message()),
    }
}

} // verus!
