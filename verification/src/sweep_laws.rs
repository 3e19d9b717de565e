//! What holds of every linear sweep over code: no byte of it is passed over, and
//! every instruction that is decoded is counted or listed.
use crate::binary::SectionModel;
use crate::binary_laws::{law_on_disk_bytes, on_disk};
use crate::cfg::{as_target, flow_of, target_of};
use crate::disasm::{insn_line, insn_lines, sweep_from, sweeps_in_line, wrapped, Sweep};
use crate::engine::{bytes_taken, decoded, in_line, in_place, FailureModel, InsnModel};
use crate::listing::note_of;
use crate::search::begins;
use crate::symbols::{reached, SymbolsModel};
use crate::tally::{
    calls_in_line, event_of, events_from, events_in, events_upto, is_call, CallEvent,
};
use crate::text::{hex, hex0x_padded, pad_start};
use vstd::prelude::*;

verus! {

// ---------------------------------------------------------------------------
// Calls
// ---------------------------------------------------------------------------

/// The address of a place in code.
pub open spec fn address_at(base: u64, at: int) -> u64 {
    ((base + at) % 0x1_0000_0000_0000_0000) as u64
}

/// What is decoded from a place in the code on, 8192 instructions at most.
pub open spec fn found_at(wide: bool, code: Seq<u8>, base: u64, at: int) -> Seq<InsnModel> {
    decoded(wide, code.skip(at), address_at(base, at), 8192)->Ok_0
}

/// Do the places part the code, from its first byte to its last? From each place
/// to the next one go the instructions that are decoded there or, where nothing
/// can be decoded, a single byte.
pub open spec fn parts_code(wide: bool, code: Seq<u8>, base: u64, cuts: Seq<int>) -> bool {
    &&& cuts.len() >= 1
    &&& cuts[0] == 0
    &&& cuts.last() == code.len()
    &&& forall|k: int| 0 <= k < cuts.len() - 1 ==> #[trigger] steps_on(wide, code, base, cuts, k)
}

/// Does the code go on from one place to the next by what is decoded there?
pub open spec fn steps_on(wide: bool, code: Seq<u8>, base: u64, cuts: Seq<int>, k: int) -> bool {
    let insns = found_at(wide, code, base, cuts[k]);
    &&& 0 <= cuts[k] < cuts[k + 1] <= code.len()
    &&& decoded(wide, code.skip(cuts[k]), address_at(base, cuts[k]), 8192) is Ok
    &&& insns.len() == 0 ==> cuts[k + 1] == cuts[k] + 1
    &&& insns.len() > 0 ==> insns[0].address == address_at(base, cuts[k])
    &&& insns.len() > 0 ==> address_at(base, cuts[k + 1]) == address_at(
        insns.last().address,
        insns.last().size as int,
    )
    &&& forall|i: int, j: int|
        0 <= i && j == i + 1 && j < insns.len() ==> (#[trigger] insns[j]).address == address_at(
            (#[trigger] insns[i]).address,
            insns[i].size as int,
        )
}

/// The instructions that are decoded at the places, one place after the other.
pub open spec fn all_found(wide: bool, code: Seq<u8>, base: u64, cuts: Seq<int>) -> Seq<InsnModel> {
    Seq::new((cuts.len() - 1) as nat, |k: int| found_at(wide, code, base, cuts[k])).flatten()
}

/// Is this the call that an instruction makes: from its own address, with the
/// operands that it has, and the address behind it as the one to come back to?
pub open spec fn called_by(m: SymbolsModel, i: InsnModel) -> CallEvent {
    CallEvent {
        site: i.address,
        target: reached(m, i.operands, address_at(i.address, i.size as int)),
        direct: as_target(target_of(i.operands)),
    }
}

proof fn lemma_address(base: u64, at: int)
    ensures
        wrapped(base + at) == address_at(base, at),
{
}

proof fn lemma_behind(insns: Seq<InsnModel>, addr: u64, len: int, count: int, i: int)
    requires
        in_line(insns, addr, len, count),
        0 <= i < insns.len(),
    ensures
        address_at(insns[i].address, insns[i].size as int) == (addr + bytes_taken(insns, i + 1))
            % 0x1_0000_0000_0000_0000,
{
    assert(in_place(insns, addr, i));
    vstd::arithmetic::div_mod::lemma_add_mod_noop(
        addr + bytes_taken(insns, i),
        insns[i].size as int,
        0x1_0000_0000_0000_0000,
    );
    vstd::arithmetic::div_mod::lemma_mod_bound(
        (addr + bytes_taken(insns, i)),
        0x1_0000_0000_0000_0000,
    );
    assert(insns[i].size as int % 0x1_0000_0000_0000_0000 == insns[i].size);
}

proof fn lemma_wrap_shift(base: u64, at: int, more: int)
    requires
        0 <= at,
        0 <= more,
    ensures
        (address_at(base, at) + more) % 0x1_0000_0000_0000_0000 == address_at(base, at + more),
{
    vstd::arithmetic::div_mod::lemma_add_mod_noop(base + at, more, 0x1_0000_0000_0000_0000);
    vstd::arithmetic::div_mod::lemma_add_mod_noop(
        (base + at) % 0x1_0000_0000_0000_0000,
        more,
        0x1_0000_0000_0000_0000,
    );
    vstd::arithmetic::div_mod::lemma_mod_twice(base + at, 0x1_0000_0000_0000_0000);
    assert(base + at + more == base + (at + more));
}

proof fn lemma_taken(insns: Seq<InsnModel>, addr: u64, len: int, count: int, n: int)
    requires
        in_line(insns, addr, len, count),
        0 <= n <= insns.len(),
    ensures
        n <= bytes_taken(insns, n),
    decreases n,
{
    if n > 0 {
        lemma_taken(insns, addr, len, count, n - 1);
        assert(insns[n - 1].size >= 1);
    }
}

#[verifier::rlimit(50)]
proof fn lemma_step(wide: bool, code: Seq<u8>, base: u64, cuts: Seq<int>, k: int)
    requires
        0 <= k < cuts.len() - 1,
        0 <= cuts[k] < code.len(),
        decoded(wide, code.skip(cuts[k]), address_at(base, cuts[k]), 8192) is Ok,
        in_line(
            found_at(wide, code, base, cuts[k]),
            address_at(base, cuts[k]),
            code.len() - cuts[k],
            8192,
        ),
        ({
            let insns = found_at(wide, code, base, cuts[k]);
            &&& insns.len() == 0 ==> cuts[k + 1] == cuts[k] + 1
            &&& insns.len() > 0 ==> cuts[k + 1] == cuts[k] + bytes_taken(insns, insns.len() as int)
        }),
    ensures
        steps_on(wide, code, base, cuts, k),
{
    let insns = found_at(wide, code, base, cuts[k]);
    let addr = address_at(base, cuts[k]);
    let len = code.len() - cuts[k];
    lemma_taken(insns, addr, len, 8192, insns.len() as int);
    if insns.len() > 0 {
        let n = insns.len() as int;
        assert(in_place(insns, addr, 0));
        assert(bytes_taken(insns, 0) == 0);
        assert(addr as int % 0x1_0000_0000_0000_0000 == addr);
        lemma_behind(insns, addr, len, 8192, n - 1);
        lemma_wrap_shift(base, cuts[k], bytes_taken(insns, n));
        assert forall|i: int, j: int| 0 <= i && j == i + 1 && j < insns.len() implies (
        #[trigger] insns[j]).address == address_at(
            (#[trigger] insns[i]).address,
            insns[i].size as int,
        ) by {
            lemma_behind(insns, addr, len, 8192, i);
            assert(in_place(insns, addr, j));
        }
    }
}

#[verifier::rlimit(50)]
proof fn lemma_events_in(m: SymbolsModel, insns: Seq<InsnModel>, n: int)
    requires
        0 <= n <= insns.len(),
    ensures
        events_in(m, insns, n) == insns.take(n).filter(
            |i: InsnModel| i.mnemonic == "call"@ || i.mnemonic == "lcall"@,
        ).map_values(|i: InsnModel| called_by(m, i)),
    decreases n,
{
    reveal(Seq::filter);
    reveal_strlit("ret");
    reveal_strlit("retn");
    reveal_strlit("retf");
    reveal_strlit("iret");
    reveal_strlit("call");
    reveal_strlit("lcall");
    let calls = |i: InsnModel| i.mnemonic == "call"@ || i.mnemonic == "lcall"@;
    let event = |i: InsnModel| called_by(m, i);
    if n > 0 {
        lemma_events_in(m, insns, n - 1);
        let i = insns[n - 1];
        let before = insns.take(n - 1);
        assert(insns.take(n).drop_last() =~= before);
        assert(insns.take(n).last() == i);
        assert(is_call(i) <==> calls(i)) by {
            let mn = i.mnemonic;
            if mn == "call"@ {
                assert("call"@[0] == 'c');
                assert("ret"@[0] == 'r' && "retn"@[0] == 'r' && "retf"@[0] == 'r');
                if begins(mn, "iret"@) {
                    assert(mn.subrange(0, 4)[0] == "iret"@[0]);
                }
            }
            if mn == "lcall"@ {
                assert("lcall"@[0] == 'l');
                assert("ret"@[0] == 'r' && "retn"@[0] == 'r' && "retf"@[0] == 'r');
                if begins(mn, "iret"@) {
                    assert(mn.subrange(0, 4)[0] == "iret"@[0]);
                }
            }
        }
        assert(event_of(m, i) == event(i));
        if calls(i) {
            assert(insns.take(n).filter(calls) == before.filter(calls).push(i));
            assert(before.filter(calls).push(i).map_values(event) =~= before.filter(
                calls,
            ).map_values(event).push(event(i)));
        }
    } else {
        assert(insns.take(n).filter(calls).map_values(event) =~= Seq::<CallEvent>::empty());
    }
}

/// The places of a sweep from an offset on, and what it comes across there.
spec fn swept_from(
    m: SymbolsModel,
    wide: bool,
    code: Seq<u8>,
    base: u64,
    off: int,
    cuts: Seq<int>,
) -> bool {
    &&& cuts.len() >= 1
    &&& cuts[0] == off
    &&& cuts.last() == code.len()
    &&& forall|k: int| 0 <= k < cuts.len() - 1 ==> #[trigger] steps_on(wide, code, base, cuts, k)
    &&& events_from(m, wide, code, base, off).events == all_found(wide, code, base, cuts).filter(
        |i: InsnModel| i.mnemonic == "call"@ || i.mnemonic == "lcall"@,
    ).map_values(|i: InsnModel| called_by(m, i))
}

#[verifier::rlimit(50)]
proof fn lemma_sweep(m: SymbolsModel, wide: bool, code: Seq<u8>, base: u64, off: int) -> (cuts: Seq<
    int,
>)
    requires
        0 <= off <= code.len(),
        calls_in_line(wide, code, base, off),
        events_from(m, wide, code, base, off).failed is None,
    ensures
        swept_from(m, wide, code, base, off, cuts),
    decreases code.len() - off,
{
    reveal(events_from);
    reveal(calls_in_line);
    let calls = |i: InsnModel| i.mnemonic == "call"@ || i.mnemonic == "lcall"@;
    let event = |i: InsnModel| called_by(m, i);
    if off >= code.len() {
        let cuts = seq![off];
        assert(all_found(wide, code, base, cuts) =~= Seq::<InsnModel>::empty());
        reveal(Seq::filter);
        assert(all_found(wide, code, base, cuts).filter(calls).map_values(event) =~= Seq::<
            CallEvent,
        >::empty());
        cuts
    } else {
        lemma_address(base, off);
        let insns = found_at(wide, code, base, off);
        let taken = bytes_taken(insns, insns.len() as int);
        lemma_taken(insns, address_at(base, off), code.len() - off, 8192, insns.len() as int);
        let next = if insns.len() == 0 {
            off + 1
        } else {
            off + taken
        };
        let rest = lemma_sweep(m, wide, code, base, next);
        let cuts = seq![off] + rest;
        assert(cuts.last() == rest.last());
        assert forall|k: int| 0 <= k < cuts.len() - 1 implies #[trigger] steps_on(
            wide,
            code,
            base,
            cuts,
            k,
        ) by {
            if k == 0 {
                assert(cuts[1] == rest[0]);
                lemma_step(wide, code, base, cuts, 0);
            } else {
                assert(steps_on(wide, code, base, rest, k - 1));
                assert(cuts[k] == rest[k - 1]);
                assert(cuts[k + 1] == rest[k]);
            }
        }
        let batches = Seq::new(
            (cuts.len() - 1) as nat,
            |k: int| found_at(wide, code, base, cuts[k]),
        );
        let others = Seq::new(
            (rest.len() - 1) as nat,
            |k: int| found_at(wide, code, base, rest[k]),
        );
        assert(batches.drop_first() =~= others);
        assert(batches.first() == insns);
        assert(batches.flatten() == insns + others.flatten());
        Seq::filter_distributes_over_add(insns, others.flatten(), calls);
        lemma_events_in(m, insns, insns.len() as int);
        assert(insns.take(insns.len() as int) =~= insns);
        let mine = insns.filter(calls);
        let theirs = others.flatten().filter(calls);
        assert((mine + theirs).map_values(event) =~= mine.map_values(event) + theirs.map_values(
            event,
        ));
        if insns.len() == 0 {
            assert(mine.map_values(event) =~= Seq::<CallEvent>::empty());
            assert(mine.map_values(event) + theirs.map_values(event) =~= theirs.map_values(event));
        }
        cuts
    }
}

/// A sweep for calls parts the code from its first byte to its last, where the
/// decoder does not fail: behind a byte that cannot be decoded it goes on with the
/// next one. The calls are those of the instructions that are decoded on the way
/// whose mnemonic is `call` or `lcall`: all of them, in order.
pub proof fn law_sweeps_part_the_code(
    m: SymbolsModel,
    wide: bool,
    code: Seq<u8>,
    base: u64,
) -> (cuts: Seq<int>)
    requires
        calls_in_line(wide, code, base, 0),
        events_from(m, wide, code, base, 0).failed is None,
    ensures
        parts_code(wide, code, base, cuts),
        events_from(m, wide, code, base, 0).events == all_found(wide, code, base, cuts).filter(
            |i: InsnModel| i.mnemonic == "call"@ || i.mnemonic == "lcall"@,
        ).map_values(|i: InsnModel| called_by(m, i)),
{
    lemma_sweep(m, wide, code, base, 0)
}

/// A byte that cannot be decoded hides no call behind it: the sweep finds there
/// what it finds from the next byte on.
pub proof fn law_sweeps_go_on_behind_bad_bytes(
    m: SymbolsModel,
    wide: bool,
    code: Seq<u8>,
    base: u64,
    at: int,
)
    requires
        0 <= at < code.len(),
        decoded(wide, code.skip(at), address_at(base, at), 8192) == Ok::<
            Seq<InsnModel>,
            FailureModel,
        >(Seq::empty()),
    ensures
        events_from(m, wide, code, base, at) == events_from(m, wide, code, base, at + 1),
{
    reveal(events_from);
    lemma_address(base, at);
}

/// A sweep for calls fails only as the decoder does, at some place in the code.
pub proof fn law_sweeps_fail_as_the_decoder_does(
    m: SymbolsModel,
    wide: bool,
    code: Seq<u8>,
    base: u64,
    off: int,
) -> (at: int)
    requires
        0 <= off,
        events_from(m, wide, code, base, off).failed is Some,
    ensures
        off <= at < code.len(),
        decoded(wide, code.skip(at), address_at(base, at), 8192) == Err::<
            Seq<InsnModel>,
            FailureModel,
        >(events_from(m, wide, code, base, off).failed->0),
    decreases code.len() - off,
{
    reveal(events_from);
    lemma_address(base, off);
    match decoded(wide, code.skip(off), address_at(base, off), 8192) {
        Err(_) => off,
        Ok(insns) => if insns.len() == 0 {
            law_sweeps_fail_as_the_decoder_does(m, wide, code, base, off + 1)
        } else {
            law_sweeps_fail_as_the_decoder_does(
                m,
                wide,
                code,
                base,
                off + bytes_taken(insns, insns.len() as int),
            )
        },
    }
}

/// The calls in a section: those of its code where it is executable.
pub open spec fn calls_in(
    m: SymbolsModel,
    wide: bool,
    file: Seq<u8>,
    s: SectionModel,
) -> Seq<CallEvent> {
    if s.executable {
        events_from(m, wide, on_disk(file, s), s.virtual_addr, 0).events
    } else {
        Seq::empty()
    }
}

proof fn lemma_sections(
    m: SymbolsModel,
    wide: bool,
    file: Seq<u8>,
    secs: Seq<SectionModel>,
    n: int,
)
    requires
        0 <= n <= secs.len(),
        events_upto(m, wide, file, secs, n).failed is None,
    ensures
        events_upto(m, wide, file, secs, n).events == Seq::new(
            n as nat,
            |i: int| calls_in(m, wide, file, secs[i]),
        ).flatten(),
        forall|i: int|
            0 <= i < n && (#[trigger] secs[i]).executable ==> events_from(
                m,
                wide,
                on_disk(file, secs[i]),
                secs[i].virtual_addr,
                0,
            ).failed is None,
    decreases n,
{
    let parts = Seq::new(n as nat, |i: int| calls_in(m, wide, file, secs[i]));
    if n > 0 {
        lemma_sections(m, wide, file, secs, n - 1);
        law_on_disk_bytes(file, secs[n - 1]);
        let before = Seq::new((n - 1) as nat, |i: int| calls_in(m, wide, file, secs[i]));
        let last = calls_in(m, wide, file, secs[n - 1]);
        assert(parts =~= before.push(last));
        before.lemma_flatten_push(last);
        assert(before.flatten() + Seq::<CallEvent>::empty() =~= before.flatten());
    } else {
        assert(parts.flatten() =~= Seq::<CallEvent>::empty());
    }
}

/// The calls of a binary are those in its executable sections: all of them, one
/// section after the other. Where the decoder fails in none, that is so of every
/// section.
pub proof fn law_every_executable_section_is_swept(
    m: SymbolsModel,
    wide: bool,
    file: Seq<u8>,
    secs: Seq<SectionModel>,
)
    requires
        events_upto(m, wide, file, secs, secs.len() as int).failed is None,
    ensures
        events_upto(m, wide, file, secs, secs.len() as int).events == Seq::new(
            secs.len(),
            |i: int| calls_in(m, wide, file, secs[i]),
        ).flatten(),
        forall|i: int|
            0 <= i < secs.len() && (#[trigger] secs[i]).executable ==> events_from(
                m,
                wide,
                on_disk(file, secs[i]),
                secs[i].virtual_addr,
                0,
            ).failed is None,
{
    lemma_sections(m, wide, file, secs, secs.len() as int);
}

// ---------------------------------------------------------------------------
// Listings
// ---------------------------------------------------------------------------

/// A place on the way of a listing: how far it has come in the code, and how many
/// instructions it has listed.
pub ghost struct Stop {
    pub at: int,
    pub count: int,
}

/// What is decoded at a place of a listing: 8192 instructions at most, and no more
/// than are left to list.
pub open spec fn batch_at(s: Sweep, p: Stop) -> Seq<InsnModel> {
    decoded(s.wide, s.code.skip(p.at), address_at(s.base, p.at), room_at(s, p))->Ok_0
}

/// The instructions that may be decoded at a place.
pub open spec fn room_at(s: Sweep, p: Stop) -> int {
    if s.limit - p.count < 8192 {
        s.limit - p.count
    } else {
        8192
    }
}

/// The line of an instruction: its address, mnemonic and operands, and where it
/// goes, if that is known.
pub open spec fn line_of(m: Option<SymbolsModel>, i: InsnModel) -> Seq<char> {
    let next = address_at(i.address, i.size as int);
    let start = hex0x_padded(i.address as int, 10) + "  "@ + i.mnemonic;
    if i.operands.len() == 0 {
        start + "\n"@
    } else {
        match note_of(m, flow_of(i.mnemonic), i.operands, next) {
            Some(note) => start + " "@ + i.operands + "        ; "@ + note + "\n"@,
            None => start + " "@ + i.operands + "\n"@,
        }
    }
}

/// The text at a place: a line for each instruction, or one for a byte that
/// cannot be decoded.
pub open spec fn text_at(s: Sweep, p: Stop) -> Seq<char> {
    if batch_at(s, p).len() == 0 {
        hex0x_padded(address_at(s.base, p.at) as int, 10) + "  "@ + pad_start(
            hex(s.code[p.at] as int),
            2,
            '0',
        ) + "          .byte (bad)\n"@
    } else {
        batch_at(s, p).map_values(|i: InsnModel| line_of(s.symbols, i)).flatten()
    }
}

/// Does the listing go on from one place to the next by what is decoded there?
pub open spec fn lists_on(s: Sweep, stops: Seq<Stop>, k: int) -> bool {
    let insns = batch_at(s, stops[k]);
    &&& 0 <= stops[k].at < stops[k + 1].at <= s.code.len()
    &&& stops[k].count < s.limit
    &&& insns.len() <= room_at(s, stops[k])
    &&& stops[k + 1].count == stops[k].count + insns.len()
    &&& decoded(
        s.wide,
        s.code.skip(stops[k].at),
        address_at(s.base, stops[k].at),
        room_at(s, stops[k]),
    ) is Ok
    &&& insns.len() == 0 ==> stops[k + 1].at == stops[k].at + 1
    &&& insns.len() > 0 ==> stops[k + 1].at == stops[k].at + bytes_taken(
        insns,
        insns.len() as int,
    )
}

spec fn lists_from(s: Sweep, off: int, count: int, stops: Seq<Stop>) -> bool {
    &&& stops.len() >= 1
    &&& stops[0] == (Stop { at: off, count })
    &&& stops.last().at == s.code.len() || stops.last().count >= s.limit
    &&& forall|k: int| 0 <= k < stops.len() - 1 ==> #[trigger] lists_on(s, stops, k)
    &&& sweep_from(s, off, count).count == stops.last().count
    &&& sweep_from(s, off, count).text == Seq::new(
        (stops.len() - 1) as nat,
        |k: int| text_at(s, stops[k]),
    ).flatten()
}

proof fn lemma_lines(m: Option<SymbolsModel>, insns: Seq<InsnModel>, n: int)
    requires
        0 <= n <= insns.len(),
    ensures
        insn_lines(m, insns, n) == insns.take(n).map_values(
            |i: InsnModel| line_of(m, i),
        ).flatten(),
    decreases n,
{
    let line = |i: InsnModel| line_of(m, i);
    if n > 0 {
        lemma_lines(m, insns, n - 1);
        let before = insns.take(n - 1).map_values(line);
        assert(insns.take(n).map_values(line) =~= before.push(line(insns[n - 1])));
        before.lemma_flatten_push(line(insns[n - 1]));
        assert(insn_line(m, insns[n - 1]) =~= line_of(m, insns[n - 1]));
    } else {
        assert(insns.take(0).map_values(line).flatten() =~= Seq::<char>::empty());
    }
}

#[verifier::rlimit(50)]
proof fn lemma_listing(s: Sweep, off: int, count: int) -> (stops: Seq<Stop>)
    requires
        0 <= off <= s.code.len(),
        sweeps_in_line(s, off, count),
        sweep_from(s, off, count).failed is None,
    ensures
        lists_from(s, off, count, stops),
    decreases s.code.len() - off,
{
    reveal(sweep_from);
    reveal(sweeps_in_line);
    let here = Stop { at: off, count };
    if off >= s.code.len() || count >= s.limit {
        let stops = seq![here];
        assert(Seq::new((stops.len() - 1) as nat, |k: int| text_at(s, stops[k])).flatten()
            =~= Seq::<char>::empty());
        stops
    } else {
        lemma_address(s.base, off);
        let insns = batch_at(s, here);
        let taken = bytes_taken(insns, insns.len() as int);
        lemma_taken(
            insns,
            address_at(s.base, off),
            s.code.len() - off,
            room_at(s, here),
            insns.len() as int,
        );
        let rest = if insns.len() == 0 {
            lemma_listing(s, off + 1, count)
        } else {
            lemma_listing(s, off + taken, (count + insns.len()) as int)
        };
        let stops = seq![here] + rest;
        assert(stops.last() == rest.last());
        assert forall|k: int| 0 <= k < stops.len() - 1 implies #[trigger] lists_on(s, stops, k) by {
            if k == 0 {
                assert(stops[1] == rest[0]);
            } else {
                assert(lists_on(s, rest, k - 1));
                assert(stops[k] == rest[k - 1]);
                assert(stops[k + 1] == rest[k]);
            }
        }
        let texts = Seq::new((stops.len() - 1) as nat, |k: int| text_at(s, stops[k]));
        let others = Seq::new((rest.len() - 1) as nat, |k: int| text_at(s, rest[k]));
        assert(texts.drop_first() =~= others);
        assert(texts.first() == text_at(s, here));
        assert(texts.flatten() == text_at(s, here) + others.flatten());
        lemma_lines(s.symbols, insns, insns.len() as int);
        assert(insns.take(insns.len() as int) =~= insns);
        stops
    }
}

/// A listing parts the code from its first byte to its last, or until it has
/// listed as many instructions as it may, where the decoder does not fail. Its
/// text has a line for each instruction that is decoded on the way and for each
/// byte that cannot be decoded, in order, and it counts the instructions.
pub proof fn law_listings_part_the_code(s: Sweep) -> (stops: Seq<Stop>)
    requires
        sweeps_in_line(s, 0, 0),
        sweep_from(s, 0, 0).failed is None,
    ensures
        stops.len() >= 1,
        stops[0] == (Stop { at: 0, count: 0 }),
        stops.last().at == s.code.len() || stops.last().count >= s.limit,
        forall|k: int| 0 <= k < stops.len() - 1 ==> #[trigger] lists_on(s, stops, k),
        sweep_from(s, 0, 0).count == stops.last().count,
        sweep_from(s, 0, 0).text == Seq::new(
            (stops.len() - 1) as nat,
            |k: int| text_at(s, stops[k]),
        ).flatten(),
{
    lemma_listing(s, 0, 0)
}

} // verus!
