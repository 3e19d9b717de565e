//! What holds of every name that code reaches.
use crate::binary::{
    callbacks_of, file_offset_of, BinaryModel, ExportModel, ImportModel, ImportedFnModel,
};
use crate::cfg::target_of;
use crate::engine::{decoded, is_wide, memory_operand, FailureModel, InsnModel, Memory};
use crate::rule_laws::{law_lower_case_forgets_case, same_but_for_case};
use crate::search::{
    after, begins, either_number, is_space, law_numerals_read_back, trim_end, trim_start, trimmed,
};
use crate::symbols::{
    described, early_labels, labels_with, library, memory_slot, place_of, qualified, reached, slots,
    slots_in, symbols_of, thunk_api, thunk_slot, LabelModel, SymbolsModel, TargetModel,
};
use crate::text::{digit_char, hex};
use vstd::prelude::*;

verus! {

// ---------------------------------------------------------------------------
// Names of imports
// ---------------------------------------------------------------------------

/// The name of a library loses a `.dll` at its end, in any case, where something
/// stands before it, and no more.
pub proof fn law_library_names_lose_their_suffix(front: Seq<char>, suffix: Seq<char>)
    ensures
        front.len() > 0 && same_but_for_case(suffix, ".dll"@) ==> library(front + suffix) == front,
        (forall|f: Seq<char>, s: Seq<char>|
            f.len() > 0 && same_but_for_case(s, ".dll"@) ==> #[trigger] (f + s) != front)
            ==> library(front) == front,
{
    reveal_strlit(".dll");
    let all = front + suffix;
    if front.len() > 0 && same_but_for_case(suffix, ".dll"@) {
        law_lower_case_forgets_case(suffix, ".dll"@);
        assert(all.subrange(all.len() - 4, all.len() as int) =~= suffix);
        assert(all.subrange(0, all.len() - 4) =~= front);
    }
    let n = front.len() - 4;
    if n > 0 {
        let f = front.subrange(0, n);
        let s = front.subrange(n, front.len() as int);
        law_lower_case_forgets_case(s, ".dll"@);
        assert(f + s =~= front);
    }
}

/// A function is named by its library and its own name, with a `!` between them.
pub proof fn law_functions_are_named_by_library(dll: Seq<char>, func: Seq<char>)
    ensures
        qualified(dll, func) == library(dll) + seq!['!'] + func,
{
    reveal_strlit("!");
    assert("!"@ =~= seq!['!']);
}

/// Is this the last function that is bound to the slot?
pub open spec fn last_bound_to(imports: Seq<ImportModel>, slot: u64, i: int, j: int) -> bool {
    &&& 0 <= i < imports.len()
    &&& 0 <= j < imports[i].functions.len()
    &&& imports[i].functions[j].iat_rva == Some(slot)
    &&& forall|k: int, l: int|
        0 <= k < imports.len() && 0 <= l < imports[k].functions.len() && (k > i || k == i && l > j)
            ==> (#[trigger] imports[k].functions[l]).iat_rva != Some(slot)
}

proof fn lemma_slots_in(
    known: Map<u64, Seq<char>>,
    dll: Seq<char>,
    fns: Seq<ImportedFnModel>,
    slot: u64,
    n: int,
)
    requires
        0 <= n <= fns.len(),
    ensures
        (forall|l: int| 0 <= l < n ==> (#[trigger] fns[l]).iat_rva != Some(slot)) ==> (slots_in(
            known,
            dll,
            fns,
            n,
        ).contains_key(slot) <==> known.contains_key(slot)) && slots_in(known, dll, fns, n)[slot]
            == known[slot],
        forall|j: int|
            0 <= j < n && (#[trigger] fns[j]).iat_rva == Some(slot) && (forall|l: int|
                j < l < n ==> (#[trigger] fns[l]).iat_rva != Some(slot)) ==> slots_in(
                known,
                dll,
                fns,
                n,
            ).contains_key(slot) && slots_in(known, dll, fns, n)[slot] == qualified(
                dll,
                fns[j].name,
            ),
    decreases n,
{
    if n > 0 {
        lemma_slots_in(known, dll, fns, slot, n - 1);
    }
}

proof fn lemma_slots(imports: Seq<ImportModel>, slot: u64, i: int, j: int, n: int)
    requires
        last_bound_to(imports, slot, i, j),
        i < n <= imports.len(),
    ensures
        slots(imports, n).contains_key(slot),
        slots(imports, n)[slot] == qualified(imports[i].dll, imports[i].functions[j].name),
    decreases n,
{
    let lib = imports[n - 1];
    let known = slots(imports, n - 1);
    lemma_slots_in(known, lib.dll, lib.functions, slot, lib.functions.len() as int);
    if i == n - 1 {
        assert(lib.functions[j].iat_rva == Some(slot));
        assert forall|l: int| j < l < lib.functions.len() implies (#[trigger] lib.functions[l]).iat_rva
            != Some(slot) by {
            assert(imports[i].functions[l].iat_rva != Some(slot));
        }
    } else {
        lemma_slots(imports, slot, i, j, n - 1);
        assert forall|l: int| 0 <= l < lib.functions.len() implies (
        #[trigger] lib.functions[l]).iat_rva != Some(slot) by {
            assert(imports[n - 1].functions[l].iat_rva != Some(slot));
        }
    }
}

/// A slot is named after the last function that is bound to it.
pub proof fn law_last_binding_names_the_slot(
    file: Seq<u8>,
    bin: BinaryModel,
    slot: u64,
    i: int,
    j: int,
)
    requires
        last_bound_to(bin.imports, slot, i, j),
    ensures
        symbols_of(file, bin).imports.contains_key(slot),
        symbols_of(file, bin).imports[slot] == qualified(
            bin.imports[i].dll,
            bin.imports[i].functions[j].name,
        ),
{
    lemma_slots(bin.imports, slot, i, j, bin.imports.len() as int);
}

// ---------------------------------------------------------------------------
// Labels
// ---------------------------------------------------------------------------

/// Is this the last export at an address that is no forwarder?
pub open spec fn last_exported_at(exports: Seq<ExportModel>, a: u64, i: int) -> bool {
    &&& 0 <= i < exports.len()
    &&& exports[i].rva == a
    &&& exports[i].forwarder is None
    &&& forall|k: int|
        i < k < exports.len() ==> (#[trigger] exports[k]).rva != a || exports[k].forwarder is Some
}

proof fn lemma_early(entry: u64, callbacks: Seq<u64>, a: u64, n: int)
    requires
        0 <= n <= callbacks.len(),
    ensures
        ({
            let m = early_labels(entry, callbacks, n);
            let called = exists|k: int| 0 <= k < n && #[trigger] callbacks[k] == a;
            &&& m.contains_key(a) <==> called || a == entry
            &&& called ==> m[a] == LabelModel::TlsCallback
            &&& !called && a == entry ==> m[a] == LabelModel::Entry
        }),
    decreases n,
{
    if n > 0 {
        lemma_early(entry, callbacks, a, n - 1);
        let before = exists|k: int| 0 <= k < n - 1 && #[trigger] callbacks[k] == a;
        let called = exists|k: int| 0 <= k < n && #[trigger] callbacks[k] == a;
        if callbacks[n - 1] == a {
            assert(called);
        } else {
            assert(called == before);
        }
    }
}

proof fn lemma_exported(known: Map<u64, LabelModel>, exports: Seq<ExportModel>, a: u64, n: int)
    requires
        0 <= n <= exports.len(),
    ensures
        ({
            let m = labels_with(known, exports, n);
            &&& (forall|k: int|
                0 <= k < n ==> (#[trigger] exports[k]).rva != a || exports[k].forwarder is Some)
                ==> (m.contains_key(a) <==> known.contains_key(a)) && m[a] == known[a]
            &&& forall|i: int|
                0 <= i < n && (#[trigger] exports[i]).rva == a && exports[i].forwarder is None && (
                forall|k: int|
                    i < k < n ==> (#[trigger] exports[k]).rva != a || exports[k].forwarder is Some)
                    ==> m.contains_key(a) && m[a] == LabelModel::Export(exports[i].name)
        }),
    decreases n,
{
    if n > 0 {
        lemma_exported(known, exports, a, n - 1);
    }
}

/// An address is labelled after the last export there, else as a callback that
/// runs before the program, else as the entry point; all others have no label.
#[verifier::rlimit(50)]
pub proof fn law_labels_name_the_ways_in(file: Seq<u8>, bin: BinaryModel, a: u64)
    ensures
        ({
            let labels = symbols_of(file, bin).labels;
            let exported = exists|i: int|
                0 <= i < bin.exports.len() && (#[trigger] bin.exports[i]).rva == a
                    && bin.exports[i].forwarder is None;
            let callbacks = callbacks_of(bin.pe_meta);
            let called = exists|k: int| 0 <= k < callbacks.len() && #[trigger] callbacks[k] == a;
            &&& labels.contains_key(a) <==> exported || called || a == bin.entry_point
            &&& forall|i: int| #[trigger]
                last_exported_at(bin.exports, a, i) ==> labels.contains_key(a) && labels[a]
                    == LabelModel::Export(bin.exports[i].name)
            &&& !exported && called ==> labels[a] == LabelModel::TlsCallback
            &&& !exported && !called && a == bin.entry_point ==> labels[a] == LabelModel::Entry
        }),
{
    let callbacks = callbacks_of(bin.pe_meta);
    let known = early_labels(bin.entry_point, callbacks, callbacks.len() as int);
    let n = bin.exports.len() as int;
    lemma_early(bin.entry_point, callbacks, a, callbacks.len() as int);
    lemma_exported(known, bin.exports, a, n);
    if exists|i: int|
        0 <= i < bin.exports.len() && (#[trigger] bin.exports[i]).rva == a
            && bin.exports[i].forwarder is None {
        let i = lemma_last_export(bin.exports, a, n);
        assert(last_exported_at(bin.exports, a, i));
        assert(bin.exports[i].rva == a);
    }
}

proof fn lemma_last_export(exports: Seq<ExportModel>, a: u64, n: int) -> (i: int)
    requires
        0 <= n <= exports.len(),
        exists|i: int|
            0 <= i < n && (#[trigger] exports[i]).rva == a && exports[i].forwarder is None,
    ensures
        0 <= i < n,
        exports[i].rva == a && exports[i].forwarder is None,
        forall|k: int|
            i < k < n ==> (#[trigger] exports[k]).rva != a || exports[k].forwarder is Some,
    decreases n,
{
    if exports[n - 1].rva == a && exports[n - 1].forwarder is None {
        n - 1
    } else {
        lemma_last_export(exports, a, n - 1)
    }
}

// ---------------------------------------------------------------------------
// Operands
// ---------------------------------------------------------------------------

proof fn lemma_place(s: Seq<char>, c: char, from: int, at: int)
    requires
        0 <= from <= at < s.len(),
        s[at] == c,
        forall|k: int| from <= k < at ==> #[trigger] s[k] != c,
    ensures
        place_of(s, c, from) == at,
    decreases at - from,
{
    if from < at {
        assert(s[from] != c);
        lemma_place(s, c, from + 1, at);
    }
}

proof fn lemma_solid(s: Seq<char>)
    requires
        s.len() > 0,
        !is_space(s[0]),
        !is_space(s.last()),
    ensures
        trimmed(s) == s,
{
    assert(trim_start(s) == s);
    assert(trim_end(s) == s);
}

proof fn lemma_spaced(s: Seq<char>, t: Seq<char>)
    requires
        s == seq![' '] + t,
        t.len() > 0,
        !is_space(t[0]),
        !is_space(t.last()),
    ensures
        trimmed(s) == t,
{
    assert(s.skip(1) =~= t);
    assert(is_space(s[0]));
    reveal_with_fuel(trim_start, 2);
    lemma_solid(t);
}

proof fn lemma_hex_chars(n: int)
    requires
        n >= 0,
    ensures
        hex(n).len() > 0,
        forall|i: int|
            0 <= i < hex(n).len() ==> ('0' <= #[trigger] hex(n)[i] <= '9' || 'a' <= hex(n)[i]
                <= 'f'),
    decreases n,
{
    if n >= 16 {
        lemma_hex_chars(n / 16);
        assert(hex(n) == hex(n / 16).push(digit_char(n % 16)));
    }
}

proof fn lemma_number(n: int)
    requires
        0 <= n <= u64::MAX,
    ensures
        either_number("0x"@ + hex(n), u64::MAX as int) == Some(n),
        trimmed("0x"@ + hex(n)) == "0x"@ + hex(n),
        ("0x"@ + hex(n)).len() > 2,
        ("0x"@ + hex(n))[0] == '0',
        !is_space(("0x"@ + hex(n)).last()),
{
    reveal_strlit("0x");
    let s = "0x"@ + hex(n);
    lemma_hex_chars(n);
    law_numerals_read_back(n, 16, u64::MAX as int);
    assert(s.subrange(0, 2) =~= "0x"@);
    assert(after(s, "0x"@) =~= hex(n));
    assert(s.last() == hex(n).last());
    lemma_solid(s);
}

proof fn lemma_brackets(pre: Seq<char>, inner: Seq<char>)
    requires
        forall|k: int| 0 <= k < pre.len() ==> #[trigger] pre[k] != '[',
        forall|k: int| 0 <= k < inner.len() ==> #[trigger] inner[k] != ']',
    ensures
        ({
            let ops = pre + seq!['['] + inner + seq![']'];
            &&& place_of(ops, '[', 0) == pre.len()
            &&& place_of(ops, ']', pre.len() as int) == ops.len() - 1
            &&& ops.subrange(pre.len() as int + 1, ops.len() - 1) == inner
        }),
{
    let ops = pre + seq!['['] + inner + seq![']'];
    let n = pre.len() as int;
    lemma_place(ops, '[', 0, n);
    assert forall|k: int| n <= k < ops.len() - 1 implies #[trigger] ops[k] != ']' by {
        if k > n {
            assert(ops[k] == inner[k - n - 1]);
        }
    }
    lemma_place(ops, ']', n, ops.len() - 1);
    assert(ops.subrange(n + 1, ops.len() - 1) =~= inner);
}

/// An operand that reaches memory so many bytes behind the instruction gives that
/// place, and none where it would be past the last address.
#[verifier::rlimit(50)]
pub proof fn law_operands_reach_ahead(pre: Seq<char>, d: u64, next: u64, base: u64)
    requires
        forall|k: int| 0 <= k < pre.len() ==> #[trigger] pre[k] != '[',
    ensures
        ({
            let ops = pre + seq!['['] + ("rip + "@ + ("0x"@ + hex(d as int))) + seq![']'];
            &&& next + d <= u64::MAX ==> memory_slot(ops, next, base) == Some((next + d) as u64)
            &&& next + d > u64::MAX ==> memory_slot(ops, next, base) is None
        }),
{
    reveal_strlit("rip + ");
    reveal_strlit("rip");
    reveal_strlit("0x");
    let num = "0x"@ + hex(d as int);
    let inner = "rip + "@ + num;
    lemma_number(d as int);
    lemma_hex_chars(d as int);
    lemma_brackets(pre, inner);
    assert(inner.last() == num.last());
    lemma_solid(inner);
    assert(inner.subrange(0, 3) =~= "rip"@);
    let tail = after(inner, "rip"@);
    let sign = seq!['+'] + (seq![' '] + num);
    assert(tail =~= seq![' '] + sign);
    assert(sign.last() == num.last());
    lemma_spaced(tail, sign);
    assert(sign.skip(1) =~= seq![' '] + num);
    lemma_spaced(sign.skip(1), num);
}

/// An operand that reaches memory so many bytes before the end of the instruction
/// gives that place, and none where it would be before the first address.
#[verifier::rlimit(50)]
pub proof fn law_operands_reach_back(pre: Seq<char>, d: u64, next: u64, base: u64)
    requires
        forall|k: int| 0 <= k < pre.len() ==> #[trigger] pre[k] != '[',
    ensures
        ({
            let ops = pre + seq!['['] + ("rip - "@ + ("0x"@ + hex(d as int))) + seq![']'];
            &&& next >= d ==> memory_slot(ops, next, base) == Some((next - d) as u64)
            &&& next < d ==> memory_slot(ops, next, base) is None
        }),
{
    reveal_strlit("rip - ");
    reveal_strlit("rip");
    reveal_strlit("0x");
    let num = "0x"@ + hex(d as int);
    let inner = "rip - "@ + num;
    lemma_number(d as int);
    lemma_hex_chars(d as int);
    lemma_brackets(pre, inner);
    assert(inner.last() == num.last());
    lemma_solid(inner);
    assert(inner.subrange(0, 3) =~= "rip"@);
    let tail = after(inner, "rip"@);
    let sign = seq!['-'] + (seq![' '] + num);
    assert(tail =~= seq![' '] + sign);
    assert(sign.last() == num.last());
    lemma_spaced(tail, sign);
    assert(sign.skip(1) =~= seq![' '] + num);
    lemma_spaced(sign.skip(1), num);
}

/// An operand that gives the address itself reaches it, counted from the image
/// base.
pub proof fn law_operands_reach_addresses(pre: Seq<char>, va: u64, next: u64, base: u64)
    requires
        forall|k: int| 0 <= k < pre.len() ==> #[trigger] pre[k] != '[',
    ensures
        ({
            let ops = pre + seq!['['] + ("0x"@ + hex(va as int)) + seq![']'];
            &&& va >= base ==> memory_slot(ops, next, base) == Some((va - base) as u64)
            &&& va < base ==> memory_slot(ops, next, base) is None
        }),
{
    reveal_strlit("rip");
    reveal_strlit("0x");
    let num = "0x"@ + hex(va as int);
    lemma_number(va as int);
    lemma_hex_chars(va as int);
    lemma_brackets(pre, num);
    if begins(num, "rip"@) {
        assert(num.subrange(0, 3)[0] == "rip"@[0]);
    }
}

/// An operand without brackets reaches no memory.
pub proof fn law_operands_without_brackets_reach_nothing(ops: Seq<char>, next: u64, base: u64)
    requires
        forall|k: int| 0 <= k < ops.len() ==> #[trigger] ops[k] != '[' && ops[k] != ']',
    ensures
        memory_slot(ops, next, base) is None,
{
    lemma_no_place(ops, '[', 0);
}

proof fn lemma_no_place(s: Seq<char>, c: char, from: int)
    requires
        0 <= from <= s.len(),
        forall|k: int| 0 <= k < s.len() ==> #[trigger] s[k] != c,
    ensures
        place_of(s, c, from) == s.len(),
    decreases s.len() - from,
{
    if from < s.len() {
        assert(s[from] != c);
        lemma_no_place(s, c, from + 1);
    }
}

// ---------------------------------------------------------------------------
// Where calls go
// ---------------------------------------------------------------------------

/// A call of an address reaches the function that is bound there, or that the
/// jump there leads to, or else the code there.
pub proof fn law_direct_calls_reach_their_address(m: SymbolsModel, a: u64, next: u64)
    ensures
        ({
            let r = reached(m, "0x"@ + hex(a as int), next);
            &&& m.imports.contains_key(a) ==> r == TargetModel::Import(m.imports[a])
            &&& !m.imports.contains_key(a) ==> match thunk_slot(m, a) {
                Some(slot) => if m.imports.contains_key(slot) {
                    r == TargetModel::Import(m.imports[slot])
                } else {
                    r == TargetModel::Code(a)
                },
                None => r == TargetModel::Code(a),
            }
        }),
{
    reveal_strlit("0x");
    let s = "0x"@ + hex(a as int);
    lemma_number(a as int);
    law_numerals_read_back(a as int, 16, u64::MAX as int);
    assert(s.subrange(0, 2) =~= "0x"@);
    assert(after(s, "0x"@) =~= hex(a as int));
    assert(target_of(s) == Some(a as int));
}

/// A call through memory reaches the function that is bound to the slot there;
/// where none is, nothing is known of it.
pub proof fn law_calls_through_slots_reach_imports(
    m: SymbolsModel,
    ops: Seq<char>,
    next: u64,
    slot: u64,
)
    requires
        target_of(ops) is None,
        memory_slot(ops, next, m.image_base) == Some(slot),
    ensures
        m.imports.contains_key(slot) ==> reached(m, ops, next) == TargetModel::Import(
            m.imports[slot],
        ),
        !m.imports.contains_key(slot) ==> reached(m, ops, next) == TargetModel::Unknown,
{
}

/// Of a call through a register, or through memory that no slot is known of,
/// nothing is known.
pub proof fn law_other_calls_are_unknown(m: SymbolsModel, ops: Seq<char>, next: u64)
    requires
        target_of(ops) is None,
        memory_slot(ops, next, m.image_base) is None,
    ensures
        reached(m, ops, next) == TargetModel::Unknown,
{
}

/// A thunk is a jump through memory: the slot is as far behind the jump as its
/// displacement says or, where the address does not hang on a register, the
/// displacement itself, counted from the image base.
pub proof fn law_thunks_jump_through_slots(
    m: SymbolsModel,
    rva: u64,
    off: int,
    found: Seq<InsnModel>,
    mem: Memory,
)
    requires
        m.width is Some,
        file_offset_of(m.sections, rva as int) == Some(off as usize),
        0 <= off <= m.file.len(),
        off <= usize::MAX,
        ({
            let bytes = if off + 16 <= m.file.len() {
                m.file.subrange(off, off + 16)
            } else {
                m.file.skip(off)
            };
            &&& decoded(is_wide(m.width->0), bytes, rva, 1) == Ok::<
                Seq<InsnModel>,
                FailureModel,
            >(found)
            &&& memory_operand(is_wide(m.width->0), bytes, rva) == Some(mem)
        }),
        found.len() > 0,
        found[0].mnemonic == "jmp"@,
    ensures
        mem.base == 41 && rva + found[0].size <= u64::MAX && 0 <= rva + found[0].size + mem.disp
            <= u64::MAX ==> thunk_slot(m, rva) == Some((rva + found[0].size + mem.disp) as u64),
        mem.base == 0 && mem.index == 0 && mem.disp >= m.image_base ==> thunk_slot(m, rva) == Some(
            (mem.disp - m.image_base) as u64,
        ),
        mem.base != 41 && (mem.base != 0 || mem.index != 0) ==> thunk_slot(m, rva) is None,
{
    if off + 16 <= m.file.len() {
    } else {
        assert(m.file.subrange(off, m.file.len() as int) =~= m.file.skip(off));
    }
}

/// What is no jump is no thunk, and neither is a jump that does not go through
/// memory.
pub proof fn law_only_jumps_are_thunks(m: SymbolsModel, rva: u64, off: int)
    requires
        m.width is Some,
        file_offset_of(m.sections, rva as int) == Some(off as usize),
        0 <= off <= m.file.len(),
        off + 16 <= m.file.len(),
        off <= usize::MAX,
        match decoded(is_wide(m.width->0), m.file.subrange(off, off + 16), rva, 1) {
            Ok(found) => found.len() == 0 || found[0].mnemonic != "jmp"@ || memory_operand(
                is_wide(m.width->0),
                m.file.subrange(off, off + 16),
                rva,
            ) is None,
            Err(_) => true,
        },
    ensures
        thunk_slot(m, rva) is None,
        described(m, rva) is Some <==> m.imports.contains_key(rva),
{
}

/// Where the architecture is not x86, or the address has no bytes in the file,
/// there are no thunks.
pub proof fn law_no_code_no_thunks(m: SymbolsModel, rva: u64)
    requires
        m.width is None || file_offset_of(m.sections, rva as int) is None,
    ensures
        thunk_slot(m, rva) is None,
        thunk_api(m, rva) is None,
{
}

} // verus!
