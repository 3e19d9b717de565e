//! Linear disassembly: a flat listing, top to bottom.
//!
//! A linear sweep decodes whatever bytes it comes across, data included. The
//! graph of a function follows control flow instead.
use crate::binary::{
    clamped, lesser, section_holding, Binary, BinaryModel, Section, SectionModel,
};
use crate::cfg::{classify, flow_of, not_x86, not_x86_message, width_of, x86_mode};
use crate::engine::{
    bytes_taken, decode, decoded, failure_text, in_line, is_wide, Failure, FailureModel, Insn,
    InsnModel, Width,
};
use crate::listing::{annotate_call, note_of, option_symbols, sound_for};
use crate::search::{lowered, same_ignoring_case};
use crate::symbols::{Memo, Symbols, SymbolsModel};
use crate::text::{
    dec, decimal, hex, hex0x, hex0x_padded, hex_padded, hex_prefixed, models, pad_start,
    padded_start, render, same,
};
use vstd::prelude::*;

verus! {

/// The number of instructions decoded at a time.
pub const BATCH: usize = 8192;

/// An address that wraps around at the end of the address space.
pub open spec fn wrapped(a: int) -> u64 {
    (a % 0x1_0000_0000_0000_0000) as u64
}

/// The sum of two addresses, wrapping around.
pub fn wrap_add(a: u64, b: u64) -> (r: u64)
    ensures
        r == wrapped(a + b),
{
    if a > u64::MAX - b {
        a - (u64::MAX - b) - 1
    } else {
        a + b
    }
}

/// The address behind an instruction.
pub open spec fn behind(i: InsnModel) -> u64 {
    wrapped(i.address + i.size)
}

/// One instruction of the listing. A call or jump to a known place is annotated.
pub open spec fn insn_line(m: Option<SymbolsModel>, i: InsnModel) -> Seq<char> {
    if i.operands.len() == 0 {
        hex0x_padded(i.address as int, 10) + "  "@ + i.mnemonic + "\n"@
    } else {
        match note_of(m, flow_of(i.mnemonic), i.operands, behind(i)) {
            Some(n) => hex0x_padded(i.address as int, 10) + "  "@ + i.mnemonic + " "@ + i.operands
                + "        ; "@ + n + "\n"@,
            None => hex0x_padded(i.address as int, 10) + "  "@ + i.mnemonic + " "@ + i.operands
                + "\n"@,
        }
    }
}

/// The first `n` instructions of a batch.
pub open spec fn insn_lines(
    m: Option<SymbolsModel>,
    insns: Seq<InsnModel>,
    n: int,
) -> Seq<char>
    decreases n,
{
    if n <= 0 {
        Seq::empty()
    } else {
        insn_lines(m, insns, n - 1) + insn_line(m, insns[n - 1])
    }
}

/// A byte that does not decode: data, padding, or a truncated tail.
pub open spec fn bad_line(addr: u64, byte: u8) -> Seq<char> {
    hex0x_padded(addr as int, 10) + "  "@ + pad_start(hex(byte as int), 2, '0')
        + "          .byte (bad)\n"@
}

/// What is swept: code at an address, up to a number of instructions.
pub ghost struct Sweep {
    pub symbols: Option<SymbolsModel>,
    pub wide: bool,
    pub code: Seq<u8>,
    pub base: u64,
    pub limit: int,
}

/// What decodes next, at an offset into the code and after `count` instructions.
pub open spec fn next_batch(s: Sweep, off: int, count: int) -> Result<
    Seq<InsnModel>,
    FailureModel,
> {
    decoded(s.wide, s.code.skip(off), wrapped(s.base + off), lesser(BATCH as int, s.limit - count))
}

/// What a sweep lists: the text, the instructions in all, and how the decoder
/// failed where it did, which ends the sweep.
pub ghost struct Swept {
    pub text: Seq<char>,
    pub count: int,
    pub failed: Option<FailureModel>,
}

/// The listing from an offset on, after `count` instructions.
#[verifier::opaque]
pub open spec fn sweep_from(s: Sweep, off: int, count: int) -> Swept
    decreases s.code.len() - off,
{
    if off >= s.code.len() || count >= s.limit {
        Swept { text: Seq::empty(), count, failed: None }
    } else {
        match next_batch(s, off, count) {
            Err(f) => Swept { text: Seq::empty(), count, failed: Some(f) },
            Ok(insns) => {
                let taken = bytes_taken(insns, insns.len() as int);
                if insns.len() == 0 {
                    let rest = sweep_from(s, off + 1, count);
                    Swept {
                        text: bad_line(wrapped(s.base + off), s.code[off]) + rest.text,
                        ..rest
                    }
                } else if taken <= 0 || off + taken > s.code.len() {
                    Swept { text: Seq::empty(), count, failed: None }
                } else {
                    let rest = sweep_from(s, off + taken, count + insns.len());
                    Swept {
                        text: insn_lines(s.symbols, insns, insns.len() as int) + rest.text,
                        ..rest
                    }
                }
            },
        }
    }
}

/// Do the instructions of every batch that a sweep lists from an offset on follow
/// one another from its address, inside the code?
#[verifier::opaque]
pub open spec fn sweeps_in_line(s: Sweep, off: int, count: int) -> bool
    decreases s.code.len() - off,
{
    if off >= s.code.len() || count >= s.limit {
        true
    } else {
        match next_batch(s, off, count) {
            Err(_) => true,
            Ok(insns) => {
                let taken = bytes_taken(insns, insns.len() as int);
                &&& in_line(
                    insns,
                    wrapped(s.base + off),
                    s.code.len() - off,
                    lesser(BATCH as int, s.limit - count),
                )
                &&& if insns.len() == 0 {
                    sweeps_in_line(s, off + 1, count)
                } else if taken <= 0 || off + taken > s.code.len() {
                    true
                } else {
                    sweeps_in_line(s, off + taken, count + insns.len())
                }
            },
        }
    }
}

fn write_insn_line(insn: &Insn, note: &Option<String>) -> (r: String)
    ensures
        insn.operands@.len() == 0 ==> r@ == hex0x_padded(insn.address as int, 10) + "  "@
            + insn.mnemonic@ + "\n"@,
        insn.operands@.len() > 0 ==> match note {
            Some(n) => r@ == hex0x_padded(insn.address as int, 10) + "  "@ + insn.mnemonic@ + " "@
                + insn.operands@ + "        ; "@ + n@ + "\n"@,
            None => r@ == hex0x_padded(insn.address as int, 10) + "  "@ + insn.mnemonic@ + " "@
                + insn.operands@ + "\n"@,
        },
{
    let mut s = hex_padded(insn.address, 10);
    s.append("  ");
    s.append(insn.mnemonic.as_str());
    if !insn.operands.as_str().is_empty() {
        s.append(" ");
        s.append(insn.operands.as_str());
        if let Some(n) = note {
            s.append("        ; ");
            s.append(n.as_str());
        }
    }
    s.append("\n");
    s
}

fn write_batch(insns: &Vec<Insn>, syms: Option<&Symbols>, memo: &mut Memo) -> (r: String)
    requires
        sound_for(option_symbols(syms), old(memo)@),
    ensures
        sound_for(option_symbols(syms), final(memo)@),
        r@ == insn_lines(
                option_symbols(syms),
                models(insns@),
                insns@.len() as int,
            ),
{
    let ghost m = option_symbols(syms);
    let ghost all = models(insns@);
    let mut out = String::new();
    for k in 0..insns.len()
        invariant
            m == option_symbols(syms),
            all == models(insns@),
            sound_for(m, memo@),
            out@ == insn_lines(m, all, k as int),
    {
        let insn = &insns[k];
        proof {
            assert(all[k as int] == insn.deep_view());
        }
        let flow = classify(insn.mnemonic.as_str());
        let next = wrap_add(insn.address, insn.size as u64);
        let note = annotate_call(syms, flow, insn.operands.as_str(), next, memo);
        let line = write_insn_line(insn, &note);
        out.append(line.as_str());
        proof {
            assert(line@ == insn_line(m, all[k as int]));
        }
    }
    out
}

fn write_bad(addr: u64, byte: u8) -> (r: String)
    ensures
        r@ == bad_line(addr, byte),
{
    let mut s = hex_padded(addr, 10);
    s.append("  ");
    s.append(padded_start(render(byte as u64, 16).as_str(), 2, '0').as_str());
    s.append("          .byte (bad)\n");
    s
}

/// Do the instructions of a batch fit into `len` bytes, each with a byte at least?
pub open spec fn batch_fits(insns: Seq<InsnModel>, len: int) -> bool {
    &&& bytes_taken(insns, insns.len() as int) <= len
    &&& forall|i: int| 0 <= i < insns.len() ==> (#[trigger] insns[i]).size >= 1
}

/// Lists what the decoder found at the beginning of `code`, which stands at
/// `addr`: the instructions or, where there are none, the first byte. Returns
/// how many bytes that takes up, and how many instructions. Where the decoder
/// gave up, nothing is listed and its failure is handed on.
pub fn list_batch(
    found: Result<Vec<Insn>, Failure>,
    code: &[u8],
    addr: u64,
    w: &mut String,
    syms: Option<&Symbols>,
    memo: &mut Memo,
) -> (r: Result<(usize, usize), Failure>)
    requires
        code@.len() > 0,
        match found {
            Ok(v) => batch_fits(models(v@), code@.len() as int),
            Err(e) => true,
        },
        sound_for(option_symbols(syms), old(memo)@),
    ensures
        sound_for(option_symbols(syms), final(memo)@),
        match found {
            Ok(v) => if v@.len() == 0 {
                &&& r == Ok::<(usize, usize), Failure>((1, 0))
                &&& final(w)@ == old(w)@ + bad_line(addr, code@[0])
                &&& *final(memo) == *old(memo)
            } else {
                &&& r matches Ok((taken, n)) && n == v@.len() && taken == bytes_taken(
                    models(v@),
                    n as int,
                ) && 1 <= taken
                &&& final(w)@ == old(w)@ + insn_lines(
                        option_symbols(syms),
                        models(v@),
                        v@.len() as int,
                    )
            },
            Err(e) => {
                &&& r == Err::<(usize, usize), Failure>(e)
                &&& *final(w) == *old(w)
                &&& *final(memo) == *old(memo)
            },
        },
{
    let insns = match found {
        Ok(v) => v,
        Err(e) => {
            return Err(e);
        },
    };
    if insns.len() == 0 {
        let line = write_bad(addr, code[0]);
        w.append(line.as_str());
        return Ok((1, 0));
    }
    let lines = write_batch(&insns, syms, memo);
    w.append(lines.as_str());
    let room = code.len();
    let taken = total_size(&insns, Ghost(room as int));
    Ok((taken, insns.len()))
}

/// The listing that was begun with `start` and has come to `now` is completed
/// by the rest of the sweep.
spec fn so_far(s: Sweep, start: Seq<char>, now: Seq<char>, off: int, count: int) -> bool {
    let whole = sweep_from(s, 0, 0);
    let rest = sweep_from(s, off, count);
    &&& start + whole.text == now + rest.text
    &&& whole.count == rest.count
    &&& whole.failed == rest.failed
    &&& sweeps_in_line(s, off, count) ==> sweeps_in_line(s, 0, 0)
}

/// Decodes `code` as if it started at address `base`, listing up to `limit`
/// instructions, and returns how many there were. The instructions of one batch
/// at most are held at a time.
///
/// Fails where the decoder gives up or cannot be set up. The listing up to that
/// place has been written then.
fn sweep(
    width: Width,
    code: &[u8],
    base: u64,
    limit: usize,
    w: &mut String,
    syms: Option<&Symbols>,
    memo: &mut Memo,
) -> (r: Result<u64, Failure>)
    requires
        sound_for(option_symbols(syms), old(memo)@),
    ensures
        sound_for(option_symbols(syms), final(memo)@),
        ({
            let s = Sweep {
                symbols: option_symbols(syms),
                wide: is_wide(width),
                code: code@,
                base,
                limit: limit as int,
            };
            let swept = sweep_from(s, 0, 0);
            &&& final(w)@ == old(w)@ + swept.text
            &&& sweeps_in_line(s, 0, 0)
            &&& match r {
                Ok(n) => n <= limit && n == swept.count && swept.failed is None,
                Err(e) => swept.failed == Some(e.deep_view()),
            }
        }),
{
    let ghost s = Sweep {
        symbols: option_symbols(syms),
        wide: is_wide(width),
        code: code@,
        base,
        limit: limit as int,
    };
    let ghost start = w@;
    let len = code.len();
    let mut off: usize = 0;
    let mut count: usize = 0;
    while off < len && count < limit
        invariant
            s == (Sweep {
                symbols: option_symbols(syms),
                wide: is_wide(width),
                code: code@,
                base,
                limit: limit as int,
            }),
            len == code@.len(),
            off <= len,
            count <= limit,
            start == old(w)@,
            sound_for(s.symbols, memo@),
            so_far(s, start, w@, off as int, count as int),
        decreases len - off,
    {
        let addr = wrap_add(base, off as u64);
        let batch: usize = if limit - count < BATCH {
            limit - count
        } else {
            BATCH
        };
        proof {
            assert(code@.subrange(off as int, len as int) =~= s.code.skip(off as int));
        }
        let rest = &code[off..len];
        let found = decode(width, rest, addr, batch);
        let ghost was = w@;
        match list_batch(found, rest, addr, w, syms, memo) {
            Ok((taken, n)) => {
                proof {
                    lemma_step(s, start, was, off as int, count as int);
                }
                off += taken;
                count += n;
            },
            Err(e) => {
                proof {
                    reveal(sweep_from);
                    reveal(sweeps_in_line);
                    assert(w@ + Seq::<char>::empty() =~= w@);
                }
                return Err(e);
            },
        }
    }
    proof {
        reveal(sweep_from);
        reveal(sweeps_in_line);
        assert(w@ + Seq::<char>::empty() =~= w@);
    }
    Ok(count as u64)
}

/// What one batch adds to the listing.
proof fn lemma_step(s: Sweep, start: Seq<char>, was: Seq<char>, off: int, count: int)
    requires
        0 <= off < s.code.len(),
        count < s.limit,
        next_batch(s, off, count) is Ok,
        in_line(
            next_batch(s, off, count)->Ok_0,
            wrapped(s.base + off),
            s.code.len() - off,
            lesser(BATCH as int, s.limit - count),
        ),
        so_far(s, start, was, off, count),
    ensures
        ({
            let insns = next_batch(s, off, count)->Ok_0;
            let n = insns.len() as int;
            if n == 0 {
                so_far(
                    s,
                    start,
                    was + bad_line(wrapped(s.base + off), s.code[off]),
                    off + 1,
                    count,
                )
            } else {
                so_far(
                    s,
                    start,
                    was + insn_lines(s.symbols, insns, n),
                    off + bytes_taken(insns, n),
                    count + n,
                )
            }
        }),
{
    reveal(sweep_from);
    reveal(sweeps_in_line);
    let insns = next_batch(s, off, count)->Ok_0;
    let n = insns.len() as int;
    if n == 0 {
        let line = bad_line(wrapped(s.base + off), s.code[off]);
        let rest = sweep_from(s, off + 1, count).text;
        assert(was + (line + rest) =~= (was + line) + rest);
    } else {
        let lines = insn_lines(s.symbols, insns, n);
        let rest = sweep_from(s, off + bytes_taken(insns, n), count + n).text;
        assert(was + (lines + rest) =~= (was + lines) + rest);
        lemma_taken_grows(insns, 1, n);
        assert(bytes_taken(insns, 1) == bytes_taken(insns, 0) + insns[0].size);
    }
}

/// The bytes that a batch of instructions takes up.
pub(crate) fn total_size(insns: &Vec<Insn>, room: Ghost<int>) -> (r: usize)
    requires
        insns@.len() > 0,
        bytes_taken(models(insns@), insns@.len() as int) <= room@ <= usize::MAX,
        forall|i: int| 0 <= i < insns@.len() ==> (#[trigger] models(insns@)[i]).size >= 1,
    ensures
        r == bytes_taken(models(insns@), insns@.len() as int),
        r >= 1,
{
    let ghost all = models(insns@);
    let mut total: usize = 0;
    for k in 0..insns.len()
        invariant
            all == models(insns@),
            bytes_taken(all, all.len() as int) <= room@ <= usize::MAX,
            forall|i: int| 0 <= i < all.len() ==> (#[trigger] all[i]).size >= 1,
            total == bytes_taken(all, k as int),
            total >= k,
    {
        proof {
            lemma_taken_grows(all, k + 1, all.len() as int);
            assert(all[k as int] == insns@[k as int].deep_view());
        }
        total += insns[k].size;
    }
    total
}

pub proof fn lemma_taken_grows(insns: Seq<InsnModel>, a: int, b: int)
    requires
        0 <= a <= b,
    ensures
        0 <= bytes_taken(insns, a) <= bytes_taken(insns, b),
    decreases b,
{
    if b > a {
        lemma_taken_grows(insns, a, b - 1);
    } else if a > 0 {
        lemma_taken_grows(insns, a - 1, a - 1);
    }
}

// ---------------------------------------------------------------------------
// Sections and windows
// ---------------------------------------------------------------------------

/// What a listing covers.
#[derive(Debug, Default, Clone)]
pub struct DisasmOpts<'a> {
    /// Start here instead of walking whole sections.
    pub addr: Option<u64>,
    /// Stop after this many instructions; none for no limit.
    pub count: Option<usize>,
    /// Restrict to one section by name.
    pub section: Option<&'a str>,
}

pub ghost struct DisasmOptsModel {
    pub addr: Option<u64>,
    pub count: Option<usize>,
    pub section: Option<Seq<char>>,
}

impl<'a> DeepView for DisasmOpts<'a> {
    type V = DisasmOptsModel;

    open spec fn deep_view(&self) -> DisasmOptsModel {
        DisasmOptsModel {
            addr: self.addr,
            count: self.count,
            section: option_str(self.section),
        }
    }
}

/// The name of a section, where it has one.
pub open spec fn section_title(name: Seq<char>) -> Seq<char> {
    if name.len() == 0 {
        "(unnamed)"@
    } else {
        name
    }
}

/// The name of a section, where it has one.
pub fn section_label(name: &String) -> (r: &str)
    ensures
        r@ == section_title(name@),
{
    if name.as_str().is_empty() {
        "(unnamed)"
    } else {
        name.as_str()
    }
}

pub open spec fn option_str(s: Option<&str>) -> Option<Seq<char>> {
    match s {
        Some(x) => Some(x@),
        None => None,
    }
}

/// Is the section listed? It must be executable and, where one name is asked
/// for, have that name, in whatever case.
pub open spec fn listed(s: SectionModel, name: Option<Seq<char>>) -> bool {
    s.executable && match name {
        Some(n) => s.name == n || lowered(s.name) == lowered(n),
        None => true,
    }
}

fn is_listed(s: &Section, name: Option<&str>) -> (r: bool)
    ensures
        r == listed(s.deep_view(), option_str(name)),
{
    s.is_executable() && match name {
        Some(n) => same(s.name.as_str(), n) || same_ignoring_case(s.name.as_str(), n),
        None => true,
    }
}

/// The greatest number of instructions to list.
pub open spec fn limit_of(count: Option<usize>) -> int {
    match count {
        Some(n) => n as int,
        None => usize::MAX as int,
    }
}

/// How far a listing of sections has come.
pub ghost struct Progress {
    pub text: Seq<char>,
    pub total: int,
    pub matched: bool,
    pub stopped: bool,
    pub failed: Option<FailureModel>,
}

/// What is listed, whatever the sections: the symbols, the code width, the
/// file, the section asked for, and the limit.
pub ghost struct Listing {
    pub symbols: Option<SymbolsModel>,
    pub wide: bool,
    pub file: Seq<u8>,
    pub name: Option<Seq<char>>,
    pub limit: int,
}

/// The sweep over the bytes of a section that starts `delta` bytes into it.
pub open spec fn section_sweep(l: Listing, s: SectionModel, delta: int, limit: int) -> Sweep {
    Sweep {
        symbols: l.symbols,
        wide: l.wide,
        code: clamped(l.file, s.file_offset as int, s.file_size as int).skip(delta),
        base: wrapped(s.virtual_addr + delta),
        limit,
    }
}

/// The line above the code of a section.
pub open spec fn section_header(s: SectionModel, len: int) -> Seq<char> {
    "\n== section "@ + section_title(s.name) + "  (addr "@ + hex0x(s.virtual_addr as int) + ", "@
        + dec(len) + " bytes) ==\n"@
}

/// Is the code of a section swept over, where the listing has come so far?
pub open spec fn is_swept(l: Listing, p: Progress, s: SectionModel) -> bool {
    !p.stopped && p.failed is None && listed(s, l.name) && p.total < l.limit && clamped(
        l.file,
        s.file_offset as int,
        s.file_size as int,
    ).len() > 0
}

/// The listing with one more section.
pub open spec fn with_section(l: Listing, p: Progress, s: SectionModel) -> Progress {
    let len = clamped(l.file, s.file_offset as int, s.file_size as int).len();
    if p.stopped || p.failed is Some || !listed(s, l.name) {
        p
    } else if len == 0 {
        Progress { matched: true, ..p }
    } else if p.total >= l.limit {
        Progress {
            text: p.text + section_header(s, len as int),
            matched: true,
            stopped: true,
            ..p
        }
    } else {
        let rest = sweep_from(section_sweep(l, s, 0, l.limit - p.total), 0, 0);
        Progress {
            text: p.text + section_header(s, len as int) + rest.text,
            total: p.total + rest.count,
            matched: true,
            stopped: false,
            failed: rest.failed,
        }
    }
}

/// The listing of the first `n` sections.
pub open spec fn listing_upto(l: Listing, secs: Seq<SectionModel>, n: int) -> Progress
    decreases n,
{
    if n <= 0 {
        Progress { text: Seq::empty(), total: 0, matched: false, stopped: false, failed: None }
    } else {
        with_section(l, listing_upto(l, secs, n - 1), secs[n - 1])
    }
}

/// Does the sweep over the code of a section, where there is one, list
/// instructions that follow one another?
pub open spec fn section_in_line(l: Listing, secs: Seq<SectionModel>, i: int) -> bool {
    let p = listing_upto(l, secs, i);
    is_swept(l, p, secs[i]) ==> sweeps_in_line(
        section_sweep(l, secs[i], 0, l.limit - p.total),
        0,
        0,
    )
}

/// What comes of a listing.
pub ghost enum Outcome {
    /// The text, and the number of its instructions.
    Listed(Seq<char>, int),
    /// There is nothing to list, for the reason given.
    Refused(Seq<char>),
    /// The decoder failed after this text.
    Failed(Seq<char>, FailureModel),
}

/// What is shown of a listing on which the decoder fails: the lines before the
/// failure, and nothing where the decoder cannot be set up.
pub open spec fn shown_before(text: Seq<char>, f: FailureModel) -> Seq<char> {
    match f {
        FailureModel::Init(_) => Seq::empty(),
        FailureModel::Decode(_) => text,
    }
}

/// The listing from one address on.
pub open spec fn window_listing(l: Listing, secs: Seq<SectionModel>, start: u64) -> Outcome {
    match section_holding(secs, start as int) {
        None => Outcome::Refused("no section contains address "@ + hex0x(start as int)),
        Some(s) => {
            let delta = start - s.virtual_addr;
            if delta >= clamped(l.file, s.file_offset as int, s.file_size as int).len() {
                Outcome::Refused(
                    "address "@ + hex0x(start as int)
                        + " has no bytes on disk (it lands in the part of '"@ + s.name
                        + "' that only exists once loaded)"@,
                )
            } else {
                let rest = sweep_from(section_sweep(l, s, delta, l.limit), 0, 0);
                let text = "== "@ + section_title(s.name) + " from "@ + hex0x(start as int)
                    + " ==\n\n"@ + rest.text;
                match rest.failed {
                    Some(f) => Outcome::Failed(shown_before(text, f), f),
                    None => Outcome::Listed(text, rest.count),
                }
            }
        },
    }
}

/// The listing of all sections that are asked for.
pub open spec fn sections_listing(l: Listing, secs: Seq<SectionModel>) -> Outcome {
    let p = listing_upto(l, secs, secs.len() as int);
    match p.failed {
        Some(f) => Outcome::Failed(shown_before(p.text, f), f),
        None => if p.matched {
            Outcome::Listed(p.text, p.total)
        } else {
            match l.name {
                Some(n) => Outcome::Refused("no executable section named '"@ + n + "'"@),
                None => Outcome::Refused(
                    "this binary has no executable section with bytes on disk"@,
                ),
            }
        },
    }
}

/// What a listing rests on: the symbols, the code width, and what is asked for.
pub open spec fn listing_of(
    file: Seq<u8>,
    opts: DisasmOptsModel,
    m: Option<SymbolsModel>,
    w: Width,
) -> Listing {
    Listing {
        symbols: m,
        wide: is_wide(w),
        file,
        name: opts.section,
        limit: limit_of(opts.count),
    }
}

/// The listing of a binary.
pub open spec fn disassembly(
    file: Seq<u8>,
    bin: BinaryModel,
    opts: DisasmOptsModel,
    m: Option<SymbolsModel>,
) -> Outcome {
    match width_of(bin.arch) {
        None => Outcome::Refused(not_x86(bin.arch)),
        Some(w) => {
            let l = listing_of(file, opts, m, w);
            match opts.addr {
                Some(start) => window_listing(l, bin.sections, start),
                None => sections_listing(l, bin.sections),
            }
        },
    }
}

/// Do the instructions of every batch that the listing of a binary shows follow
/// one another from the address of its first byte?
pub open spec fn disassembly_in_line(
    file: Seq<u8>,
    bin: BinaryModel,
    opts: DisasmOptsModel,
    m: Option<SymbolsModel>,
) -> bool {
    match width_of(bin.arch) {
        None => true,
        Some(w) => {
            let l = listing_of(file, opts, m, w);
            match opts.addr {
                Some(start) => match section_holding(bin.sections, start as int) {
                    Some(s) => sweeps_in_line(
                        section_sweep(l, s, start - s.virtual_addr, l.limit),
                        0,
                        0,
                    ),
                    None => true,
                },
                None => forall|i: int|
                    0 <= i < bin.sections.len() ==> #[trigger] section_in_line(
                        l,
                        bin.sections,
                        i,
                    ),
            }
        },
    }
}

fn write_section_header(s: &Section, len: usize) -> (r: String)
    ensures
        r@ == section_header(s.deep_view(), len as int),
{
    let mut h = "\n== section ".to_string();
    h.append(section_label(&s.name));
    h.append("  (addr ");
    h.append(hex_prefixed(s.virtual_addr).as_str());
    h.append(", ");
    h.append(decimal(len as u64).as_str());
    h.append(" bytes) ==\n");
    h
}

/// Writes what is shown of a listing on which the decoder fails.
fn write_before(w: &mut String, text: &str, f: &Failure)
    ensures
        final(w)@ == old(w)@ + shown_before(text@, f.deep_view()),
{
    match f {
        Failure::Init(_) => {
            proof {
                assert(w@ + Seq::<char>::empty() =~= w@);
            }
        },
        Failure::Decode(_) => {
            w.append(text);
        },
    }
}

/// Writes the listing of one address window.
fn list_window(
    width: Width,
    file: &[u8],
    bin: &Binary,
    start: u64,
    limit: usize,
    w: &mut String,
    syms: Option<&Symbols>,
    l: Ghost<Listing>,
) -> (r: Result<u64, String>)
    requires
        l@.symbols == option_symbols(syms),
        l@.wide == is_wide(width),
        l@.file == file@,
        l@.limit == limit,
    ensures
        match window_listing(l@, models(bin.sections@), start) {
            Outcome::Listed(text, n) => {
                &&& r is Ok && r->Ok_0 == n && final(w)@ == old(w)@ + text
                &&& n <= limit
                &&& section_holding(models(bin.sections@), start as int) matches Some(s)
                    && sweeps_in_line(
                    section_sweep(l@, s, start - s.virtual_addr, limit as int),
                    0,
                    0,
                )
            },
            Outcome::Refused(e) => r is Err && r->Err_0@ == e && final(w)@ == old(w)@,
            Outcome::Failed(text, f) => r is Err && r->Err_0@ == failure_text(f) && final(w)@
                == old(w)@ + text,
        },
{
    let sec = match bin.section_at(start) {
        Some(s) => s,
        None => {
            let mut e = "no section contains address ".to_string();
            e.append(hex_prefixed(start).as_str());
            return Err(e);
        },
    };
    proof {
        crate::binary::lemma_section_index(models(bin.sections@), start as int, 0);
    }
    let bytes = sec.on_disk_bytes(file);
    let delta = start - sec.virtual_addr;
    if delta >= bytes.len() as u64 {
        let mut e = "address ".to_string();
        e.append(hex_prefixed(start).as_str());
        e.append(" has no bytes on disk (it lands in the part of '");
        e.append(sec.name.as_str());
        e.append("' that only exists once loaded)");
        return Err(e);
    }
    let mut text = "== ".to_string();
    text.append(section_label(&sec.name));
    text.append(" from ");
    text.append(hex_prefixed(start).as_str());
    text.append(" ==\n\n");
    let from = delta as usize;
    proof {
        assert(bytes@.subrange(from as int, bytes@.len() as int) =~= bytes@.skip(delta as int));
        assert(wrapped(sec.virtual_addr + delta) == start);
    }
    let mut memo = Memo::new();
    match sweep(width, &bytes[from..bytes.len()], start, limit, &mut text, syms, &mut memo) {
        Ok(n) => {
            w.append(text.as_str());
            Ok(n)
        },
        Err(f) => {
            write_before(w, text.as_str(), &f);
            Err(f.message())
        },
    }
}

/// Writes the listing of all sections that are asked for, and tells whether there
/// are any.
fn list_sections(
    width: Width,
    file: &[u8],
    sections: &Vec<Section>,
    name: Option<&str>,
    limit: usize,
    out: &mut String,
    syms: Option<&Symbols>,
    l: Ghost<Listing>,
) -> (r: Result<(u64, bool), Failure>)
    requires
        old(out)@ == Seq::<char>::empty(),
        l@.symbols == option_symbols(syms),
        l@.wide == is_wide(width),
        l@.file == file@,
        l@.name == option_str(name),
        l@.limit == limit,
    ensures
        ({
            let secs = models(sections@);
            let p = listing_upto(l@, secs, secs.len() as int);
            &&& final(out)@ == p.text
            &&& match r {
                Ok((n, matched)) => {
                    &&& p.failed is None
                    &&& p.total == n && p.matched == matched
                    &&& n <= limit
                    &&& forall|i: int|
                        0 <= i < secs.len() ==> #[trigger] section_in_line(l@, secs, i)
                },
                Err(e) => p.failed == Some(e.deep_view()),
            }
        }),
{
    let ghost secs = models(sections@);
    let mut memo = Memo::new();
    let mut total: usize = 0;
    let mut matched = false;
    let mut stopped = false;
    for i in 0..sections.len()
        invariant
            secs == models(sections@),
            l@.symbols == option_symbols(syms),
            l@.wide == is_wide(width),
            l@.file == file@,
            l@.name == option_str(name),
            l@.limit == limit,
            total <= limit,
            sound_for(option_symbols(syms), memo@),
            listing_upto(l@, secs, i as int) == (Progress {
                text: out@,
                total: total as int,
                matched,
                stopped,
                failed: None,
            }),
            forall|k: int| 0 <= k < i ==> #[trigger] section_in_line(l@, secs, k),
    {
        let s = &sections[i];
        proof {
            assert(secs[i as int] == s.deep_view());
        }
        if !stopped && is_listed(s, name) {
            matched = true;
            let bytes = s.on_disk_bytes(file);
            if bytes.len() > 0 {
                let header = write_section_header(s, bytes.len());
                out.append(header.as_str());
                if total >= limit {
                    stopped = true;
                } else {
                    proof {
                        assert(bytes@.skip(0) =~= bytes@);
                        assert(section_sweep(l@, secs[i as int], 0, limit - total) == (Sweep {
                            symbols: option_symbols(syms),
                            wide: is_wide(width),
                            code: bytes@,
                            base: s.virtual_addr,
                            limit: limit - total,
                        }));
                    }
                    match sweep(
                        width,
                        bytes,
                        s.virtual_addr,
                        limit - total,
                        out,
                        syms,
                        &mut memo,
                    ) {
                        Ok(n) => {
                            total += n as usize;
                        },
                        Err(e) => {
                            proof {
                                lemma_failure_stays(l@, secs, i + 1, secs.len() as int);
                            }
                            return Err(e);
                        },
                    }
                }
            }
        }
        proof {
            assert(section_in_line(l@, secs, i as int));
        }
    }
    Ok((total as u64, matched))
}

/// Once the decoder has failed, nothing more is listed.
proof fn lemma_failure_stays(l: Listing, secs: Seq<SectionModel>, i: int, n: int)
    requires
        0 <= i <= n,
        listing_upto(l, secs, i).failed is Some,
    ensures
        listing_upto(l, secs, n) == listing_upto(l, secs, i),
    decreases n,
{
    if i < n {
        lemma_failure_stays(l, secs, i, n - 1);
    }
}

/// Writes a linear listing: by default of all executable sections, with an
/// address of one window. Bytes that do not decode are listed as such. Returns
/// the number of instructions, which is never above the number asked for.
///
/// Fails where the code is not x86, where there is no such section or window,
/// and where the decoder fails. Where it gives up in the midst of a listing, the
/// lines before that have been written; else nothing has. A thunk on which the
/// decoder fails goes without a note.
pub fn disassemble(
    file: &[u8],
    bin: &Binary,
    w: &mut String,
    opts: &DisasmOpts,
    syms: Option<&Symbols>,
) -> (r: Result<u64, String>)
    ensures
        match disassembly(file@, bin.deep_view(), opts.deep_view(), option_symbols(syms)) {
            Outcome::Listed(text, n) => {
                &&& r is Ok && r->Ok_0 == n && n <= limit_of(opts.count)
                &&& final(w)@ == old(w)@ + text
                &&& disassembly_in_line(file@, bin.deep_view(), opts.deep_view(), option_symbols(syms))
            },
            Outcome::Refused(e) => r is Err && r->Err_0@ == e && final(w)@ == old(w)@,
            Outcome::Failed(text, f) => r is Err && r->Err_0@ == failure_text(f) && final(w)@
                == old(w)@ + text,
        },
{
    let width = match x86_mode(bin) {
        Some(x) => x,
        None => {
            return Err(not_x86_message(bin.arch));
        },
    };
    let limit: usize = match opts.count {
        Some(n) => n,
        None => usize::MAX,
    };
    let ghost l = listing_of(file@, opts.deep_view(), option_symbols(syms), width);
    if let Some(start) = opts.addr {
        return list_window(width, file, bin, start, limit, w, syms, Ghost(l));
    }
    let mut text = String::new();
    match list_sections(
        width,
        file,
        &bin.sections,
        opts.section,
        limit,
        &mut text,
        syms,
        Ghost(l),
    ) {
        Ok((n, matched)) => {
            if matched {
                w.append(text.as_str());
                Ok(n)
            } else {
                match opts.section {
                    Some(name) => {
                        let mut e = "no executable section named '".to_string();
                        e.append(name);
                        e.append("'");
                        Err(e)
                    },
                    None => Err(
                        "this binary has no executable section with bytes on disk".to_string(),
                    ),
                }
            }
        },
        Err(f) => {
            write_before(w, text.as_str(), &f);
            Err(f.message())
        },
    }
}

// ---------------------------------------------------------------------------
// Laws
// ---------------------------------------------------------------------------

/// The addresses at the head of the lines of a sweep, from an offset on.
#[verifier::opaque]
pub open spec fn line_addresses(s: Sweep, off: int, count: int) -> Seq<u64>
    decreases s.code.len() - off,
{
    if off >= s.code.len() || count >= s.limit {
        Seq::empty()
    } else {
        match next_batch(s, off, count) {
            Err(_) => Seq::empty(),
            Ok(insns) => {
                let taken = bytes_taken(insns, insns.len() as int);
                if insns.len() == 0 {
                    seq![wrapped(s.base + off)] + line_addresses(s, off + 1, count)
                } else if taken <= 0 || off + taken > s.code.len() {
                    Seq::empty()
                } else {
                    Seq::new(insns.len(), |i: int| insns[i].address) + line_addresses(
                        s,
                        off + taken,
                        count + insns.len(),
                    )
                }
            },
        }
    }
}

/// The addresses of a listing ascend from line to line, within one section and
/// within one window. (Not where the code runs over the end of the address space,
/// at which addresses start again from zero.)
pub proof fn law_addresses_ascend(s: Sweep, i: int, j: int)
    requires
        sweeps_in_line(s, 0, 0),
        s.base + s.code.len() <= 0x1_0000_0000_0000_0000,
        0 <= i < j < line_addresses(s, 0, 0).len(),
    ensures
        line_addresses(s, 0, 0)[i] < line_addresses(s, 0, 0)[j],
{
    lemma_addresses(s, 0, 0);
}

/// Where an instruction of a batch stands.
proof fn lemma_address(insns: Seq<InsnModel>, addr: u64, len: int, count: int, i: int)
    requires
        in_line(insns, addr, len, count),
        addr + len <= 0x1_0000_0000_0000_0000,
        0 <= i < insns.len(),
    ensures
        insns[i].address == addr + bytes_taken(insns, i),
        0 <= bytes_taken(insns, i) < bytes_taken(insns, i + 1),
        bytes_taken(insns, i + 1) <= bytes_taken(insns, insns.len() as int),
{
    lemma_taken_grows(insns, i + 1, insns.len() as int);
    lemma_taken_grows(insns, 0, i);
    let at = bytes_taken(insns, i);
    assert(bytes_taken(insns, i + 1) == at + insns[i].size);
    assert(crate::engine::in_place(insns, addr, i));
}

/// The addresses of a batch ascend, between its first byte and the one behind it.
proof fn lemma_batch_addresses(insns: Seq<InsnModel>, addr: u64, len: int, count: int)
    requires
        in_line(insns, addr, len, count),
        addr + len <= 0x1_0000_0000_0000_0000,
    ensures
        rises_from(Seq::new(insns.len(), |i: int| insns[i].address), addr as int),
        forall|i: int|
            0 <= i < insns.len() ==> (#[trigger] insns[i]).address < addr + bytes_taken(
                insns,
                insns.len() as int,
            ),
{
    let n = insns.len() as int;
    let end = addr + bytes_taken(insns, n);
    let v = Seq::new(insns.len(), |i: int| insns[i].address);
    assert forall|i: int| 0 <= i < n implies addr <= (#[trigger] insns[i]).address < end by {
        lemma_address(insns, addr, len, count, i);
    }
    assert forall|i: int, j: int| 0 <= i < j < n implies #[trigger] v[i] < #[trigger] v[j] by {
        lemma_address(insns, addr, len, count, i);
        lemma_address(insns, addr, len, count, j);
        lemma_taken_grows(insns, i + 1, j);
    }
}

spec fn rises_from(v: Seq<u64>, low: int) -> bool {
    &&& forall|i: int| 0 <= i < v.len() ==> low <= #[trigger] v[i]
    &&& forall|i: int, j: int| 0 <= i < j < v.len() ==> #[trigger] v[i] < #[trigger] v[j]
}

proof fn lemma_rises_on(a: Seq<u64>, b: Seq<u64>, low: int, mid: int)
    requires
        rises_from(a, low),
        rises_from(b, mid),
        low <= mid,
        forall|i: int| 0 <= i < a.len() ==> #[trigger] a[i] < mid,
    ensures
        rises_from(a + b, low),
{
    let all = a + b;
    assert forall|i: int| 0 <= i < all.len() implies low <= #[trigger] all[i] by {
        if i >= a.len() {
            assert(all[i] == b[i - a.len()]);
        }
    }
    assert forall|i: int, j: int| 0 <= i < j < all.len() implies #[trigger] all[i] < #[trigger]
        all[j] by {
        if i >= a.len() {
            assert(all[i] == b[i - a.len()]);
        }
        if j >= a.len() {
            assert(all[j] == b[j - a.len()]);
        }
    }
}

proof fn lemma_addresses(s: Sweep, off: int, count: int)
    requires
        0 <= off,
        sweeps_in_line(s, off, count),
        s.base + s.code.len() <= 0x1_0000_0000_0000_0000,
    ensures
        rises_from(line_addresses(s, off, count), s.base + off),
    decreases s.code.len() - off,
{
    reveal(sweeps_in_line);
    reveal(line_addresses);
    if off < s.code.len() && count < s.limit && next_batch(s, off, count) is Ok {
        let insns = next_batch(s, off, count)->Ok_0;
        let n = insns.len() as int;
        let taken = bytes_taken(insns, n);
        let at = wrapped(s.base + off);
        assert(at == s.base + off);
        if n == 0 {
            lemma_addresses(s, off + 1, count);
            lemma_rises_on(
                seq![at],
                line_addresses(s, off + 1, count),
                s.base + off,
                s.base + off + 1,
            );
        } else if taken > 0 && off + taken <= s.code.len() {
            lemma_addresses(s, off + taken, count + n);
            lemma_batch_addresses(
                insns,
                at,
                s.code.len() - off,
                lesser(BATCH as int, s.limit - count),
            );
            lemma_rises_on(
                Seq::new(insns.len(), |i: int| insns[i].address),
                line_addresses(s, off + taken, count + n),
                s.base + off,
                s.base + off + taken,
            );
        }
    }
}

} // verus!
