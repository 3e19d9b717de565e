//! What holds of every walk and of every control-flow graph.
use crate::binary::{section_holding, BinaryModel};
use crate::binary_laws::{first_holding, law_first_section_holds, law_on_disk_bytes, on_disk};
use crate::cfg::{
    block_at, edges_of, end_of, ends_block, enqueue, explore, flow_of, flow_successors, insn_at,
    instr_of, instrs_of, is_graph, is_leader, leads_to, next_of, placed, region_of, run_from,
    seen_after, starts_of, target_of, visits, work_after, BlockModel, Flow, InstrModel, Instrs,
    Region, MAX_INSNS,
};
use crate::engine::{decoded, InsnModel};
use crate::keys::lemma_ascending_unique;
use crate::search::{after, begins, is_space, law_numerals_read_back, trim_end, trim_start};
use crate::text::{digit_char, digits, hex};
use vstd::prelude::*;

verus! {

/// A way through the instructions: from each of them but the last, control may
/// go to the next.
pub open spec fn is_path(instrs: Instrs, p: Seq<u64>) -> bool {
    &&& p.len() > 0
    &&& forall|i: int|
        0 <= i < p.len() - 1 ==> instrs.contains_key(#[trigger] p[i]) && flow_successors(
            instrs[p[i]],
        ).contains(p[i + 1] as int)
}

/// Can control go from one address to another?
pub open spec fn reaches(instrs: Instrs, from: u64, to: u64) -> bool {
    exists|p: Seq<u64>| #[trigger] is_path(instrs, p) && p[0] == from && p.last() == to
}

/// Does the instruction map tell all that the other tells?
pub open spec fn grown(now: Instrs, was: Instrs) -> bool {
    forall|a: u64| #[trigger] was.contains_key(a) ==> now.contains_key(a) && now[a] == was[a]
}

proof fn lemma_path_grows(was: Instrs, now: Instrs, from: u64, to: u64)
    requires
        grown(now, was),
        reaches(was, from, to),
    ensures
        reaches(now, from, to),
{
    let p = choose|p: Seq<u64>| #[trigger]
        is_path(was, p) && p[0] == from && p.last() == to;
    assert(is_path(now, p));
}

proof fn lemma_path_extends(instrs: Instrs, from: u64, to: u64, next: u64)
    requires
        reaches(instrs, from, to),
        instrs.contains_key(to),
        flow_successors(instrs[to]).contains(next as int),
    ensures
        reaches(instrs, from, next),
{
    let p = choose|p: Seq<u64>| #[trigger]
        is_path(instrs, p) && p[0] == from && p.last() == to;
    let q = p.push(next);
    assert forall|i: int| 0 <= i < q.len() - 1 implies instrs.contains_key(#[trigger] q[i])
        && flow_successors(instrs[q[i]]).contains(q[i + 1] as int) by {
        if i < p.len() - 1 {
            assert(q[i] == p[i]);
            assert(q[i + 1] == p[i + 1]);
        }
    }
    assert(is_path(instrs, q));
}

/// What is queued was queued before, or is a successor inside the bounds that
/// was not seen.
proof fn lemma_enqueued(
    base: int,
    end: int,
    seen: Instrs,
    work: Seq<u64>,
    succs: Seq<int>,
    n: int,
)
    requires
        0 <= n <= succs.len(),
        0 <= base,
        end <= u64::MAX,
    ensures
        forall|w: u64| #[trigger]
            enqueue(base, end, seen, work, succs, n).contains(w) ==> work.contains(w)
                || succs.contains(w as int),
        forall|w: u64| #[trigger]
            work.contains(w) ==> enqueue(base, end, seen, work, succs, n).contains(w),
        forall|i: int|
            0 <= i < n && base <= #[trigger] succs[i] < end && !seen.contains_key(succs[i] as u64)
                ==> enqueue(base, end, seen, work, succs, n).contains(succs[i] as u64),
    decreases n,
{
    if n > 0 {
        lemma_enqueued(base, end, seen, work, succs, n - 1);
        let w = enqueue(base, end, seen, work, succs, n - 1);
        let s = succs[n - 1];
        let all = enqueue(base, end, seen, work, succs, n);
        if base <= s < end && !seen.contains_key(s as u64) {
            assert(all == w.push(s as u64));
            assert((s as u64) as int == s);
            assert(succs.contains(s));
            assert forall|x: u64| #[trigger] all.contains(x) <==> w.contains(x) || x
                == s as u64 by {
                crate::keys::lemma_contains_push(w, s as u64, x);
            }
            assert(all.contains(s as u64));
        }
        assert forall|i: int|
            0 <= i < n && base <= #[trigger] succs[i] < end && !seen.contains_key(
                succs[i] as u64,
            ) implies all.contains(succs[i] as u64) by {
            if i < n - 1 {
                assert(w.contains(succs[i] as u64));
            }
        }
    }
}

/// What the state of a walk satisfies.
spec fn walk_sound(r: Region, func: u64, work: Seq<u64>, seen: Instrs) -> bool {
    &&& seen.dom().finite()
    &&& forall|a: u64| #[trigger]
        seen.contains_key(a) ==> insn_at(r, a) == Some(seen[a]) && reaches(seen, func, a)
    &&& forall|i: int| 0 <= i < work.len() ==> reaches(seen, func, #[trigger] work[i])
}

proof fn lemma_step_sound(
    r: Region,
    func: u64,
    work: Seq<u64>,
    seen: Instrs,
)
    requires
        work.len() > 0,
        end_of(r) <= u64::MAX,
        walk_sound(r, func, work, seen),
    ensures
        ({
            let found = insn_at(r, work[0]);
            let w = work_after(r.base as int, end_of(r), work, seen, found);
            let s = seen_after(r.base as int, end_of(r), work, seen, found);
            walk_sound(r, func, w, s) && grown(s, seen)
        }),
{
    let base = r.base as int;
    let end = end_of(r);
    let a = work[0];
    let found = insn_at(r, a);
    let w = work_after(base, end, work, seen, found);
    let s = seen_after(base, end, work, seen, found);
    let rest = work.skip(1);
    if visits(base, end, work, seen, found) {
        let ins = found->0;
        let succs = flow_successors(ins);
        assert(grown(s, seen));
        assert forall|x: u64| #[trigger] s.contains_key(x) implies insn_at(r, x) == Some(s[x])
            && reaches(s, func, x) by {
            if x != a {
                assert(seen.contains_key(x));
                lemma_path_grows(seen, s, func, x);
            } else {
                lemma_path_grows(seen, s, func, work[0]);
            }
        }
        lemma_enqueued(base, end, s, rest, succs, succs.len() as int);
        assert forall|i: int| 0 <= i < w.len() implies reaches(s, func, #[trigger] w[i]) by {
            assert(w.contains(w[i]));
            if rest.contains(w[i]) {
                let k = choose|k: int| 0 <= k < rest.len() && rest[k] == w[i];
                assert(work[k + 1] == w[i]);
                lemma_path_grows(seen, s, func, work[k + 1]);
            } else {
                assert(s.contains_key(a));
                assert(reaches(s, func, a));
                lemma_path_extends(s, func, a, w[i]);
            }
        }
    } else {
        assert forall|i: int| 0 <= i < w.len() implies reaches(s, func, #[trigger] w[i]) by {
            assert(work[i + 1] == w[i]);
        }
    }
}

proof fn lemma_explore_sound(
    r: Region,
    func: u64,
    work: Seq<u64>,
    seen: Instrs,
)
    requires
        end_of(r) <= u64::MAX,
        walk_sound(r, func, work, seen),
    ensures
        walk_sound(r, func, Seq::empty(), explore(r, work, seen)),
        grown(explore(r, work, seen), seen),
    decreases MAX_INSNS - seen.len(), work.len(),
{
    if work.len() > 0 {
        let found = insn_at(r, work[0]);
        let w = work_after(r.base as int, end_of(r), work, seen, found);
        let s = seen_after(r.base as int, end_of(r), work, seen, found);
        lemma_step_sound(r, func, work, seen);
        lemma_explore_sound(r, func, w, s);
    }
}

/// Every instruction of a function is one that decodes at its address, and
/// control can reach it from the start of the function.
pub proof fn law_walk_finds_only_reachable_code(r: Region, func: u64)
    requires
        end_of(r) <= u64::MAX,
    ensures
        forall|a: u64| #[trigger]
            instrs_of(r, func).contains_key(a) ==> insn_at(r, a) == Some(
                instrs_of(r, func)[a],
            ) && reaches(instrs_of(r, func), func, a),
{
    let start = seq![func];
    let none: Instrs = Map::empty();
    assert(is_path(none, start));
    assert(start[0] == func && start.last() == func);
    assert(reaches(none, func, func));
    lemma_explore_sound(r, func, start, none);
}

/// A walk never finds more instructions than its bound.
pub proof fn law_walk_is_bounded(r: Region, func: u64)
    ensures
        instrs_of(r, func).len() <= 50_000,
        instrs_of(r, func).dom().finite(),
{
    lemma_explore_bounded(r, seq![func], Map::empty());
}

proof fn lemma_explore_bounded(r: Region, work: Seq<u64>, seen: Instrs)
    requires
        seen.dom().finite(),
        seen.len() <= MAX_INSNS,
    ensures
        explore(r, work, seen).len() <= MAX_INSNS,
        explore(r, work, seen).dom().finite(),
        explore(r, work, seen).len() >= seen.len(),
    decreases MAX_INSNS - seen.len(), work.len(),
{
    if work.len() > 0 {
        let found = insn_at(r, work[0]);
        let w = work_after(r.base as int, end_of(r), work, seen, found);
        let s = seen_after(r.base as int, end_of(r), work, seen, found);
        lemma_explore_bounded(r, w, s);
    }
}

/// Every place inside the region to which control may go from an instruction
/// that was found is found too, is still to be visited, or does not decode.
spec fn walk_closed(r: Region, work: Seq<u64>, seen: Instrs) -> bool {
    forall|a: u64, i: int|
        #![trigger seen.contains_key(a), flow_successors(seen[a])[i]]
        seen.contains_key(a) && 0 <= i < flow_successors(seen[a]).len() && r.base
            <= flow_successors(seen[a])[i] < end_of(r) ==> {
            let s = flow_successors(seen[a])[i] as u64;
            seen.contains_key(s) || work.contains(s) || insn_at(r, s) is None
        }
}

proof fn lemma_explore_closed(r: Region, work: Seq<u64>, seen: Instrs)
    requires
        end_of(r) <= u64::MAX,
        seen.dom().finite(),
        walk_closed(r, work, seen),
        seen.len() <= MAX_INSNS,
        explore(r, work, seen).len() < MAX_INSNS,
    ensures
        walk_closed(r, Seq::empty(), explore(r, work, seen)),
    decreases MAX_INSNS - seen.len(), work.len(),
{
    let base = r.base as int;
    let end = end_of(r);
    lemma_explore_bounded(r, work, seen);
    if work.len() > 0 {
        let a = work[0];
        let rest = work.skip(1);
        let found = insn_at(r, a);
        let w = work_after(base, end, work, seen, found);
        let s = seen_after(base, end, work, seen, found);
        assert forall|x: u64| work.contains(x) implies x == a || rest.contains(x) by {
            let k = choose|k: int| 0 <= k < work.len() && work[k] == x;
            if k > 0 {
                assert(rest[k - 1] == x);
            }
        }
        if visits(base, end, work, seen, found) {
            let succs = flow_successors(found->0);
            lemma_enqueued(base, end, s, rest, succs, succs.len() as int);
            assert forall|b: u64, i: int|
                #![trigger s.contains_key(b), flow_successors(s[b])[i]]
                s.contains_key(b) && 0 <= i < flow_successors(s[b]).len() && r.base
                    <= flow_successors(s[b])[i] < end_of(r) implies {
                let t = flow_successors(s[b])[i] as u64;
                s.contains_key(t) || w.contains(t) || insn_at(r, t) is None
            } by {
                let t = flow_successors(s[b])[i] as u64;
                if b == a {
                    assert(succs[i] == t);
                } else {
                    assert(seen.contains_key(b));
                    assert(flow_successors(seen[b])[i] == flow_successors(s[b])[i]);
                    if work.contains(t) && t != a {
                        assert(rest.contains(t));
                        assert(w.contains(t));
                    }
                }
            }
        } else {
            assert forall|b: u64, i: int|
                #![trigger s.contains_key(b), flow_successors(s[b])[i]]
                s.contains_key(b) && 0 <= i < flow_successors(s[b]).len() && r.base
                    <= flow_successors(s[b])[i] < end_of(r) implies {
                let t = flow_successors(s[b])[i] as u64;
                s.contains_key(t) || w.contains(t) || insn_at(r, t) is None
            } by {
                let t = flow_successors(s[b])[i] as u64;
                assert(flow_successors(seen[b])[i] == flow_successors(s[b])[i]);
                if work.contains(t) && t == a {
                    assert(seen.contains_key(t) || insn_at(r, t) is None);
                }
            }
        }
        lemma_explore_closed(r, w, s);
    }
}

/// A walk that did not run into its bound misses nothing: every place inside the
/// region to which control may go from an instruction it found is an instruction
/// it found, or does not decode.
pub proof fn law_walk_misses_nothing(r: Region, func: u64, a: u64, i: int)
    requires
        end_of(r) <= u64::MAX,
        instrs_of(r, func).len() < 50_000,
        instrs_of(r, func).contains_key(a),
        0 <= i < flow_successors(instrs_of(r, func)[a]).len(),
        r.base <= flow_successors(instrs_of(r, func)[a])[i] < end_of(r),
    ensures
        ({
            let s = flow_successors(instrs_of(r, func)[a])[i] as u64;
            instrs_of(r, func).contains_key(s) || insn_at(r, s) is None
        }),
{
    let none: Instrs = Map::empty();
    assert(walk_closed(r, seq![func], none));
    lemma_explore_closed(r, seq![func], none);
    let all = instrs_of(r, func);
    assert(all.contains_key(a));
    let s = flow_successors(all[a])[i] as u64;
    assert(!Seq::<u64>::empty().contains(s));
}

/// A walk that finds anything finds the instruction at the start of the
/// function.
pub proof fn law_walk_starts_at_the_function(r: Region, func: u64)
    requires
        end_of(r) <= u64::MAX,
        instrs_of(r, func).len() > 0,
    ensures
        instrs_of(r, func).contains_key(func),
{
    let none: Instrs = Map::empty();
    let work = seq![func];
    let found = insn_at(r, func);
    let w = work_after(r.base as int, end_of(r), work, none, found);
    let s = seen_after(r.base as int, end_of(r), work, none, found);
    assert(instrs_of(r, func) == explore(r, w, s));
    if visits(r.base as int, end_of(r), work, none, found) {
        assert(is_path(s, seq![func]) && seq![func].last() == func);
        assert(reaches(s, func, func));
        assert(is_path(none, seq![func]));
        assert(reaches(none, func, func));
        lemma_step_sound(r, func, work, none);
        lemma_explore_sound(r, func, w, s);
        assert(s.contains_key(func));
    } else {
        assert(w =~= Seq::<u64>::empty());
    }
}

// ---------------------------------------------------------------------------
// Graphs
// ---------------------------------------------------------------------------

/// The graph of a function has a block for the start of the function.
pub proof fn law_graph_has_an_entry_block(func: u64, instrs: Instrs, blocks: Seq<BlockModel>)
    requires
        is_graph(func, instrs, blocks),
        instrs.contains_key(func),
    ensures
        exists|i: int| 0 <= i < blocks.len() && (#[trigger] blocks[i]).start == func,
{
    assert(starts_of(blocks).contains(func));
    let i = choose|i: int| 0 <= i < starts_of(blocks).len() && starts_of(blocks)[i] == func;
    assert(blocks[i].start == func);
}

/// No two blocks start at the same address.
pub proof fn law_blocks_are_distinct(
    func: u64,
    instrs: Instrs,
    blocks: Seq<BlockModel>,
    i: int,
    j: int,
)
    requires
        is_graph(func, instrs, blocks),
        0 <= i < j < blocks.len(),
    ensures
        blocks[i].start < blocks[j].start,
{
    assert(starts_of(blocks)[i] < starts_of(blocks)[j]);
}

/// An edge of the graph ends at the start of a block, or outside the function.
pub proof fn law_edges_end_at_blocks(
    func: u64,
    instrs: Instrs,
    blocks: Seq<BlockModel>,
    i: int,
    k: int,
)
    requires
        is_graph(func, instrs, blocks),
        placed(instrs, 0, u64::MAX as int),
        0 <= i < blocks.len(),
        0 <= k < blocks[i].succ.len(),
        instrs.contains_key(blocks[i].succ[k].0),
    ensures
        exists|j: int| 0 <= j < blocks.len() && (#[trigger] blocks[j]).start == blocks[i].succ[k].0,
{
    let start = blocks[i].start;
    assert(starts_of(blocks)[i] == start);
    assert(starts_of(blocks).contains(start));
    assert(blocks[i] == block_at(func, instrs, start));
    let run = run_from(func, instrs, start);
    lemma_run_ends(func, instrs, start);
    let last = instrs[run.last()];
    let t = blocks[i].succ[k].0;
    assert(instrs.contains_key(run.last()));
    assert(is_leader(func, instrs, t)) by {
        if ends_block(last.flow) {
            assert(leads_to(instrs[run.last()], t));
        }
    }
    assert(starts_of(blocks).contains(t));
    let j = choose|j: int| 0 <= j < starts_of(blocks).len() && starts_of(blocks)[j] == t;
    assert(blocks[j].start == t);
}

/// The last instruction of a run ends it, or the next one starts another run, or
/// there is no next one.
proof fn lemma_run_ends(func: u64, instrs: Instrs, cur: u64)
    requires
        placed(instrs, 0, u64::MAX as int),
        instrs.contains_key(cur),
    ensures
        run_from(func, instrs, cur).len() > 0,
        ({
            let last = run_from(func, instrs, cur).last();
            &&& instrs.contains_key(last)
            &&& ends_block(instrs[last].flow) || !instrs.contains_key(
                next_of(instrs[last]) as u64,
            ) || is_leader(func, instrs, next_of(instrs[last]) as u64)
        }),
    decreases u64::MAX - cur,
{
    let next = cur + instrs[cur].size;
    if !(ends_block(instrs[cur].flow) || next <= cur || next > u64::MAX || !instrs.contains_key(
        next as u64,
    ) || is_leader(func, instrs, next as u64)) {
        lemma_run_ends(func, instrs, next as u64);
        let tail = run_from(func, instrs, next as u64);
        assert((seq![cur] + tail).last() == tail.last());
    }
}

/// A run goes on from each of its instructions to the next one, unless that one
/// starts another run.
proof fn lemma_run_goes_on(func: u64, instrs: Instrs, cur: u64, k: int)
    requires
        placed(instrs, 0, u64::MAX as int),
        instrs.contains_key(cur),
        0 <= k < run_from(func, instrs, cur).len(),
        ({
            let i = instrs[run_from(func, instrs, cur)[k]];
            &&& !ends_block(i.flow)
            &&& instrs.contains_key(next_of(i) as u64)
            &&& !is_leader(func, instrs, next_of(i) as u64)
        }),
    ensures
        run_from(func, instrs, cur).contains(
            next_of(instrs[run_from(func, instrs, cur)[k]]) as u64,
        ),
    decreases u64::MAX - cur,
{
    let run = run_from(func, instrs, cur);
    let next = cur + instrs[cur].size;
    if ends_block(instrs[cur].flow) || next <= cur || next > u64::MAX || !instrs.contains_key(
        next as u64,
    ) || is_leader(func, instrs, next as u64) {
        assert(run[k] == cur);
    } else {
        let tail = run_from(func, instrs, next as u64);
        if k == 0 {
            assert(tail[0] == next as u64);
            assert(run[1] == next as u64);
        } else {
            assert(run[k] == tail[k - 1]);
            lemma_run_goes_on(func, instrs, next as u64, k - 1);
            let t = next_of(instrs[tail[k - 1]]) as u64;
            let j = choose|j: int| 0 <= j < tail.len() && tail[j] == t;
            assert(run[j + 1] == t);
        }
    }
}

/// Is the instruction in a block?
pub open spec fn in_some_block(blocks: Seq<BlockModel>, a: u64) -> bool {
    exists|i: int| 0 <= i < blocks.len() && (#[trigger] blocks[i]).addrs.contains(a)
}

/// An instruction from which control goes to a place that starts no block falls
/// through to it.
proof fn lemma_falls_through(i: InstrModel, a: u64)
    requires
        flow_successors(i).contains(a as int),
        !leads_to(i, a),
    ensures
        !ends_block(i.flow),
        next_of(i) == a,
{
}

/// A block that holds an instruction holds the one that it falls through to.
proof fn lemma_block_goes_on(
    func: u64,
    instrs: Instrs,
    blocks: Seq<BlockModel>,
    i: int,
    b: u64,
)
    requires
        is_graph(func, instrs, blocks),
        placed(instrs, 0, u64::MAX as int),
        0 <= i < blocks.len(),
        blocks[i].addrs.contains(b),
        !ends_block(instrs[b].flow),
        instrs.contains_key(next_of(instrs[b]) as u64),
        !is_leader(func, instrs, next_of(instrs[b]) as u64),
    ensures
        blocks[i].addrs.contains(next_of(instrs[b]) as u64),
{
    let start = blocks[i].start;
    assert(starts_of(blocks)[i] == start);
    assert(starts_of(blocks).contains(start));
    assert(blocks[i] == block_at(func, instrs, start));
    let run = run_from(func, instrs, start);
    let j = choose|j: int| 0 <= j < run.len() && run[j] == b;
    lemma_run_goes_on(func, instrs, start, j);
}

proof fn lemma_leader_covered(func: u64, instrs: Instrs, blocks: Seq<BlockModel>, a: u64)
    requires
        is_graph(func, instrs, blocks),
        instrs.contains_key(a),
        is_leader(func, instrs, a),
    ensures
        in_some_block(blocks, a),
{
    assert(starts_of(blocks).contains(a));
    let i = choose|i: int| 0 <= i < starts_of(blocks).len() && starts_of(blocks)[i] == a;
    assert(blocks[i] == block_at(func, instrs, a));
    assert(blocks[i].addrs[0] == a);
}

proof fn lemma_path_covered(
    func: u64,
    instrs: Instrs,
    blocks: Seq<BlockModel>,
    p: Seq<u64>,
    k: int,
)
    requires
        is_graph(func, instrs, blocks),
        placed(instrs, 0, u64::MAX as int),
        is_path(instrs, p),
        p[0] == func,
        0 <= k < p.len(),
        instrs.contains_key(p[k]),
    ensures
        in_some_block(blocks, p[k]),
    decreases k,
{
    let a = p[k];
    if is_leader(func, instrs, a) {
        lemma_leader_covered(func, instrs, blocks, a);
    } else {
        assert(k > 0);
        let b = p[k - 1];
        assert(instrs.contains_key(p[k - 1]));
        assert(flow_successors(instrs[b]).contains(a as int));
        lemma_path_covered(func, instrs, blocks, p, k - 1);
        assert(!leads_to(instrs[b], a));
        lemma_falls_through(instrs[b], a);
        let i = choose|i: int| 0 <= i < blocks.len() && (#[trigger] blocks[i]).addrs.contains(b);
        lemma_block_goes_on(func, instrs, blocks, i, b);
    }
}

/// Every instruction that control can reach from the start of the function is in
/// a block of its graph.
pub proof fn law_graph_covers_the_function(
    func: u64,
    instrs: Instrs,
    blocks: Seq<BlockModel>,
    a: u64,
)
    requires
        is_graph(func, instrs, blocks),
        placed(instrs, 0, u64::MAX as int),
        instrs.contains_key(a),
        reaches(instrs, func, a),
    ensures
        in_some_block(blocks, a),
{
    let p = choose|p: Seq<u64>| #[trigger]
        is_path(instrs, p) && p[0] == func && p.last() == a;
    lemma_path_covered(func, instrs, blocks, p, p.len() - 1);
}

/// The same instructions always give the same graph.
pub proof fn law_graph_is_determined(
    func: u64,
    instrs: Instrs,
    a: Seq<BlockModel>,
    b: Seq<BlockModel>,
)
    requires
        is_graph(func, instrs, a),
        is_graph(func, instrs, b),
    ensures
        a == b,
{
    assert forall|x: u64| starts_of(a).contains(x) <==> starts_of(b).contains(x) by {}
    lemma_ascending_unique(starts_of(a), starts_of(b));
    assert forall|i: int| 0 <= i < a.len() implies a[i] == b[i] by {
        assert(starts_of(a)[i] == a[i].start);
        assert(starts_of(b)[i] == b[i].start);
    }
    assert(a.len() == starts_of(a).len() && b.len() == starts_of(b).len());
    assert(a =~= b);
}

// ---------------------------------------------------------------------------
// Where control goes
// ---------------------------------------------------------------------------

/// Can control go from the instruction to an address without leaving the
/// function? To the one behind it, unless it returns or always jumps; and to the
/// target of a jump.
pub open spec fn goes_to(i: InstrModel, t: u64) -> bool {
    ||| i.addr + i.size == t && !(i.flow is Return) && !(i.flow is Jump)
    ||| (i.flow is Jump || i.flow is CondJump) && i.target == Some(t)
}

/// The walk follows an instruction exactly to the places that control can go to
/// from it.
pub proof fn law_walk_follows_control(i: InstrModel, t: u64)
    ensures
        flow_successors(i).contains(t as int) <==> goes_to(i, t),
{
    let s = flow_successors(i);
    if goes_to(i, t) {
        if i.addr + i.size == t && !(i.flow is Return) && !(i.flow is Jump) {
            assert(s[0] == t);
        } else if i.flow is Jump {
            assert(s[0] == t);
        } else {
            assert(s[1] == t);
        }
    }
}

/// Every graph block is a run of instructions that starts at an instruction.
proof fn lemma_block(func: u64, instrs: Instrs, blocks: Seq<BlockModel>, i: int)
    requires
        is_graph(func, instrs, blocks),
        placed(instrs, 0, u64::MAX as int),
        0 <= i < blocks.len(),
    ensures
        instrs.contains_key(blocks[i].start),
        is_leader(func, instrs, blocks[i].start),
        blocks[i] == block_at(func, instrs, blocks[i].start),
        blocks[i].addrs.len() > 0,
        instrs.contains_key(blocks[i].addrs.last()),
{
    let start = blocks[i].start;
    assert(starts_of(blocks)[i] == start);
    assert(starts_of(blocks).contains(start));
    lemma_run_ends(func, instrs, start);
}

/// The edges out of a block lead exactly to the places that control can go to
/// from its last instruction.
pub proof fn law_edges_are_the_ways_out(
    func: u64,
    instrs: Instrs,
    blocks: Seq<BlockModel>,
    i: int,
    t: u64,
)
    requires
        is_graph(func, instrs, blocks),
        placed(instrs, 0, u64::MAX as int),
        0 <= i < blocks.len(),
    ensures
        blocks[i].addrs.len() > 0,
        instrs.contains_key(blocks[i].addrs.last()),
        (exists|k: int| 0 <= k < blocks[i].succ.len() && (#[trigger] blocks[i].succ[k]).0 == t)
            <==> goes_to(instrs[blocks[i].addrs.last()], t),
{
    lemma_block(func, instrs, blocks, i);
    let last = instrs[blocks[i].addrs.last()];
    let succ = blocks[i].succ;
    assert(succ == edges_of(last));
    assert(placed(instrs, 0, u64::MAX as int));
    if goes_to(last, t) {
        if last.addr + last.size == t && !(last.flow is Return) && !(last.flow is Jump) {
            assert(succ[0].0 == t);
        } else if last.flow is Jump {
            assert(succ[0].0 == t);
        } else {
            assert(succ[1].0 == t);
        }
    }
}

/// The label of an edge tells how control takes it: `jmp` for a jump that is
/// always taken, `taken` and `fall` for the two ways out of a conditional one, and
/// none for an instruction that just goes on.
pub proof fn law_edge_labels_tell_the_way(
    func: u64,
    instrs: Instrs,
    blocks: Seq<BlockModel>,
    i: int,
    t: u64,
)
    requires
        is_graph(func, instrs, blocks),
        placed(instrs, 0, u64::MAX as int),
        0 <= i < blocks.len(),
    ensures
        ({
            let last = instrs[blocks[i].addrs.last()];
            let succ = blocks[i].succ;
            let next = last.addr + last.size;
            &&& succ.contains((t, "jmp"@)) <==> last.flow is Jump && last.target == Some(t)
            &&& succ.contains((t, "taken"@)) <==> last.flow is CondJump && last.target == Some(t)
            &&& succ.contains((t, "fall"@)) <==> last.flow is CondJump && next == t
            &&& succ.contains((t, ""@)) <==> (last.flow is Normal || last.flow is Call) && next == t
            &&& succ.len() <= 2
        }),
{
    reveal_strlit("jmp");
    reveal_strlit("taken");
    reveal_strlit("fall");
    reveal_strlit("");
    assert("jmp"@.len() == 3 && "taken"@.len() == 5 && "fall"@.len() == 4 && ""@.len() == 0);
    lemma_block(func, instrs, blocks, i);
    let last = instrs[blocks[i].addrs.last()];
    let succ = blocks[i].succ;
    assert(succ == edges_of(last));
    if succ.len() > 0 {
        assert(succ.contains(succ[0]));
    }
    if succ.len() > 1 {
        assert(succ.contains(succ[1]));
    }
    match last.flow {
        Flow::Return => {},
        Flow::Jump => {
            if last.target == Some(t) {
                assert(succ[0] == (t, "jmp"@));
            }
        },
        Flow::CondJump => {
            if last.target == Some(t) {
                assert(succ[1] == (t, "taken"@));
            }
            if last.addr + last.size == t {
                assert(succ[0] == (t, "fall"@));
            }
        },
        _ => {
            if last.addr + last.size == t {
                assert(succ[0] == (t, ""@));
            }
        },
    }
}

/// A run goes from each instruction to the one behind it, over instructions that
/// just go on and start no block.
proof fn lemma_run_is_straight(func: u64, instrs: Instrs, cur: u64, k: int)
    requires
        placed(instrs, 0, u64::MAX as int),
        instrs.contains_key(cur),
        0 <= k < run_from(func, instrs, cur).len() - 1,
    ensures
        ({
            let run = run_from(func, instrs, cur);
            let i = instrs[run[k]];
            &&& instrs.contains_key(run[k])
            &&& instrs.contains_key(run[k + 1])
            &&& run[k + 1] == i.addr + i.size
            &&& i.flow is Normal || i.flow is Call
            &&& !is_leader(func, instrs, run[k + 1])
        }),
    decreases u64::MAX - cur,
{
    let run = run_from(func, instrs, cur);
    let next = (cur + instrs[cur].size) as u64;
    let tail = run_from(func, instrs, next);
    assert(run == seq![cur] + tail);
    assert(tail[0] == next);
    if k > 0 {
        lemma_run_is_straight(func, instrs, next, k - 1);
        assert(run[k] == tail[k - 1]);
        assert(run[k + 1] == tail[k]);
    } else {
        assert(run[1] == tail[0]);
    }
}

/// A block starts at its first instruction and goes from each to the one behind
/// it, without a branch or a return and without the start of a block in between.
pub proof fn law_blocks_are_straight(
    func: u64,
    instrs: Instrs,
    blocks: Seq<BlockModel>,
    i: int,
    k: int,
)
    requires
        is_graph(func, instrs, blocks),
        placed(instrs, 0, u64::MAX as int),
        0 <= i < blocks.len(),
        0 <= k < blocks[i].addrs.len() - 1,
    ensures
        ({
            let a = blocks[i].addrs[k];
            let next = blocks[i].addrs[k + 1];
            &&& blocks[i].addrs[0] == blocks[i].start
            &&& instrs.contains_key(a)
            &&& next == a + instrs[a].size
            &&& instrs[a].flow is Normal || instrs[a].flow is Call
            &&& forall|j: int| 0 <= j < blocks.len() ==> (#[trigger] blocks[j]).start != next
        }),
{
    lemma_block(func, instrs, blocks, i);
    lemma_run_is_straight(func, instrs, blocks[i].start, k);
    let next = blocks[i].addrs[k + 1];
    assert forall|j: int| 0 <= j < blocks.len() implies (#[trigger] blocks[j]).start != next by {
        lemma_block(func, instrs, blocks, j);
    }
}

/// A block ends only where it must: at a branch or a return, before the start of
/// a block, and where no instruction follows.
pub proof fn law_blocks_end_where_they_must(
    func: u64,
    instrs: Instrs,
    blocks: Seq<BlockModel>,
    i: int,
)
    requires
        is_graph(func, instrs, blocks),
        placed(instrs, 0, u64::MAX as int),
        0 <= i < blocks.len(),
    ensures
        ({
            let last = instrs[blocks[i].addrs.last()];
            let next = last.addr + last.size;
            ||| last.flow is Return || last.flow is Jump || last.flow is CondJump
            ||| !instrs.contains_key(next as u64)
            ||| exists|j: int| 0 <= j < blocks.len() && (#[trigger] blocks[j]).start == next
        }),
{
    lemma_block(func, instrs, blocks, i);
    lemma_run_ends(func, instrs, blocks[i].start);
    let last = instrs[blocks[i].addrs.last()];
    let next = (last.addr + last.size) as u64;
    if is_leader(func, instrs, next) && instrs.contains_key(next) {
        assert(starts_of(blocks).contains(next));
        let j = choose|j: int| 0 <= j < starts_of(blocks).len() && starts_of(blocks)[j] == next;
        assert(blocks[j].start == next);
    }
}

/// A block starts at the entry, at the target of every branch, and behind every
/// branch and return, as far as there are instructions; and nowhere else.
pub proof fn law_where_blocks_start(func: u64, instrs: Instrs, blocks: Seq<BlockModel>, a: u64)
    requires
        is_graph(func, instrs, blocks),
    ensures
        (exists|i: int| 0 <= i < blocks.len() && (#[trigger] blocks[i]).start == a) <==> {
            &&& instrs.contains_key(a)
            &&& a == func || exists|b: u64| #[trigger]
                instrs.contains_key(b) && {
                    let f = instrs[b].flow;
                    ||| (f is Return || f is Jump || f is CondJump) && instrs[b].addr
                        + instrs[b].size == a
                    ||| (f is Jump || f is CondJump) && instrs[b].target == Some(a)
                }
        },
{
    if exists|i: int| 0 <= i < blocks.len() && (#[trigger] blocks[i]).start == a {
        let i = choose|i: int| 0 <= i < blocks.len() && (#[trigger] blocks[i]).start == a;
        assert(starts_of(blocks)[i] == a);
        assert(starts_of(blocks).contains(a));
        if a != func {
            let b = choose|b: u64| #[trigger] instrs.contains_key(b) && leads_to(instrs[b], a);
            assert(instrs.contains_key(b));
        }
    }
    if instrs.contains_key(a) && (a == func || exists|b: u64| #[trigger]
        instrs.contains_key(b) && {
            let f = instrs[b].flow;
            ||| (f is Return || f is Jump || f is CondJump) && instrs[b].addr + instrs[b].size == a
            ||| (f is Jump || f is CondJump) && instrs[b].target == Some(a)
        }) {
        if a != func {
            let b = choose|b: u64| #[trigger]
                instrs.contains_key(b) && {
                    let f = instrs[b].flow;
                    ||| (f is Return || f is Jump || f is CondJump) && instrs[b].addr
                        + instrs[b].size == a
                    ||| (f is Jump || f is CondJump) && instrs[b].target == Some(a)
                };
            assert(leads_to(instrs[b], a));
        }
        assert(starts_of(blocks).contains(a));
        let i = choose|i: int| 0 <= i < starts_of(blocks).len() && starts_of(blocks)[i] == a;
        assert(blocks[i].start == a);
    }
}

/// Every step that control can take between two instructions of the function is
/// in the graph: inside a block, from one instruction to the next, or along an
/// edge to the start of a block.
pub proof fn law_every_step_is_in_the_graph(
    func: u64,
    instrs: Instrs,
    blocks: Seq<BlockModel>,
    i: int,
    k: int,
    t: u64,
)
    requires
        is_graph(func, instrs, blocks),
        placed(instrs, 0, u64::MAX as int),
        0 <= i < blocks.len(),
        0 <= k < blocks[i].addrs.len(),
        instrs.contains_key(t),
        goes_to(instrs[blocks[i].addrs[k]], t),
    ensures
        ({
            ||| k + 1 < blocks[i].addrs.len() && blocks[i].addrs[k + 1] == t
            ||| k + 1 == blocks[i].addrs.len() && (exists|e: int|
                0 <= e < blocks[i].succ.len() && (#[trigger] blocks[i].succ[e]).0 == t) && exists|
                j: int,
            |
                0 <= j < blocks.len() && (#[trigger] blocks[j]).start == t
        }),
{
    if k + 1 < blocks[i].addrs.len() {
        law_blocks_are_straight(func, instrs, blocks, i, k);
        lemma_block(func, instrs, blocks, i);
        let a = blocks[i].addrs[k];
        assert(instrs[a].addr == a);
    } else {
        law_edges_are_the_ways_out(func, instrs, blocks, i, t);
        let e = choose|e: int|
            0 <= e < blocks[i].succ.len() && (#[trigger] blocks[i].succ[e]).0 == t;
        law_edges_end_at_blocks(func, instrs, blocks, i, e);
    }
}

// ---------------------------------------------------------------------------
// What an instruction is
// ---------------------------------------------------------------------------

/// How mnemonics move control: the returns, the two calls, the two plain jumps,
/// and the conditional jumps, which are all other mnemonics that begin with `j`
/// and those that begin with `loop`.
pub proof fn law_mnemonics_tell_the_flow(m: Seq<char>)
    ensures
        flow_of(m) is Return <==> (m == "ret"@ || m == "retn"@ || m == "retf"@ || m.len() >= 4
            && m[0] == 'i' && m[1] == 'r' && m[2] == 'e' && m[3] == 't'),
        flow_of(m) is Call <==> (m == "call"@ || m == "lcall"@),
        flow_of(m) is Jump <==> (m == "jmp"@ || m == "ljmp"@),
        flow_of(m) is CondJump <==> (m != "jmp"@ && m.len() >= 1 && m[0] == 'j' || m.len() >= 4
            && m[0] == 'l' && m[1] == 'o' && m[2] == 'o' && m[3] == 'p'),
{
    reveal_strlit("ret");
    reveal_strlit("retn");
    reveal_strlit("retf");
    reveal_strlit("iret");
    reveal_strlit("call");
    reveal_strlit("lcall");
    reveal_strlit("jmp");
    reveal_strlit("ljmp");
    reveal_strlit("j");
    reveal_strlit("loop");
    lemma_begins(m, "iret"@);
    lemma_begins(m, "j"@);
    lemma_begins(m, "loop"@);
    assert("ret"@[0] == 'r' && "retn"@[0] == 'r' && "retf"@[0] == 'r');
    assert("call"@[0] == 'c' && "lcall"@[1] == 'c' && "jmp"@[0] == 'j' && "ljmp"@[1] == 'j');
    assert("ret"@ != "call"@ && "ret"@.len() == 3 && "jmp"@.len() == 3);
}

/// A text begins with another where it has its characters.
proof fn lemma_begins(s: Seq<char>, p: Seq<char>)
    ensures
        begins(s, p) <==> s.len() >= p.len() && forall|i: int| 0 <= i < p.len() ==> s[i] == p[i],
{
    if s.len() >= p.len() && (forall|i: int| 0 <= i < p.len() ==> s[i] == p[i]) {
        assert(s.subrange(0, p.len() as int) =~= p);
    }
    if begins(s, p) {
        assert forall|i: int| 0 <= i < p.len() implies s[i] == p[i] by {
            assert(s.subrange(0, p.len() as int)[i] == p[i]);
        }
    }
}

/// An instruction stands where it was decoded, has the size and the words that
/// the decoder gave it, and the flow of its mnemonic; nothing decoded is no
/// instruction.
pub proof fn law_instructions_are_as_decoded(found: Seq<InsnModel>, a: u64)
    ensures
        instr_of(found, a) is Some <==> found.len() > 0 && found[0].size > 0,
        instr_of(found, a) matches Some(i) ==> {
            &&& i.addr == a
            &&& i.size == found[0].size
            &&& i.flow == flow_of(found[0].mnemonic)
            &&& found[0].operands.len() == 0 ==> i.text == found[0].mnemonic
            &&& found[0].operands.len() > 0 ==> i.text == found[0].mnemonic + " "@
                + found[0].operands
        },
{
}

/// A branch or call whose operand is an address in hexadecimal has that address
/// for its target.
pub proof fn law_written_addresses_are_targets(found: Seq<InsnModel>, a: u64, t: u64)
    requires
        found.len() > 0,
        found[0].size > 0,
        found[0].operands == "0x"@ + hex(t as int),
    ensures
        target_of(found[0].operands) == Some(t as int),
        instr_of(found, a) matches Some(i) && ((i.flow is Jump || i.flow is CondJump || i.flow
            is Call) ==> i.target == Some(t)),
{
    let ops = found[0].operands;
    let h = hex(t as int);
    law_numerals_read_back(t as int, 16, u64::MAX as int);
    reveal_strlit("0x");
    lemma_digits_solid(t as int);
    assert(ops[0] == '0');
    assert(ops.last() == h.last());
    assert(trim_start(ops) == ops);
    assert(trim_end(ops) == ops);
    lemma_begins(ops, "0x"@);
    assert(after(ops, "0x"@) =~= h);
}

proof fn lemma_digits_solid(n: int)
    requires
        n >= 0,
    ensures
        hex(n).len() > 0,
        !is_space(hex(n).last()),
{
    reveal_with_fuel(digits, 2);
    let d = if n < 16 {
        n
    } else {
        n % 16
    };
    assert(hex(n).last() == digit_char(d));
}

/// An operand that is written otherwise than as `0x` and digits has no target: an
/// indirect branch leads to no known place.
pub proof fn law_indirect_branches_have_no_target(ops: Seq<char>)
    requires
        ops.len() > 0,
        !is_space(ops[0]),
        ops[0] != '0',
    ensures
        target_of(ops) is None,
{
    reveal_strlit("0x");
    assert(trim_start(ops) == ops);
    lemma_trim_end_front(ops);
    lemma_begins(trim_end(ops), "0x"@);
}

proof fn lemma_trim_end_front(s: Seq<char>)
    requires
        s.len() > 0,
        !is_space(s[0]),
    ensures
        trim_end(s).len() > 0,
        trim_end(s)[0] == s[0],
    decreases s.len(),
{
    if s.len() > 1 && is_space(s.last()) {
        lemma_trim_end_front(s.drop_last());
    }
}

/// Every instruction of a function is what the decoder finds in the bytes at its
/// address.
pub proof fn law_functions_hold_what_decodes(r: Region, func: u64, a: u64)
    requires
        end_of(r) <= u64::MAX,
        instrs_of(r, func).contains_key(a),
    ensures
        decoded(r.wide, r.code.skip(a - r.base), a, 1) is Ok,
        ({
            let found = decoded(r.wide, r.code.skip(a - r.base), a, 1)->Ok_0;
            found.len() > 0 && instr_of(found, a) == Some(instrs_of(r, func)[a])
        }),
{
    law_walk_finds_only_reachable_code(r, func);
}

/// A function that was asked for by its address, or by the entry point where no
/// address is given, is looked for in the bytes on disk of the first section that
/// holds the address.
pub proof fn law_functions_lie_in_their_section(
    file: Seq<u8>,
    b: BinaryModel,
    start: Option<u64>,
    func: u64,
)
    requires
        start is Some ==> func == start->0,
        start is None ==> func == b.entry_point,
        region_of(file, b, start) is Ok,
    ensures
        ({
            let r = region_of(file, b, start)->Ok_0;
            &&& r.base <= func < r.base + r.code.len()
            &&& r.base + r.code.len() <= u64::MAX
            &&& exists|i: int| #[trigger]
                first_holding(b.sections, func as int, i) && r.base == b.sections[i].virtual_addr
                    && r.code == on_disk(file, b.sections[i])
        }),
{
    let r = region_of(file, b, start)->Ok_0;
    law_first_section_holds(b.sections, func as int);
    let s = section_holding(b.sections, func as int)->0;
    let i = choose|i: int| #[trigger]
        first_holding(b.sections, func as int, i) && b.sections[i] == s;
    law_on_disk_bytes(file, s);
    assert(first_holding(b.sections, func as int, i));
}

} // verus!
