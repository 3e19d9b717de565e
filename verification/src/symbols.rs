//! Names for addresses: imported APIs, exports, the entry point.
use crate::binary::{
    callbacks_of, file_offset_of, lesser, option_view, Binary, BinaryModel, ExportModel,
    ImportModel, ImportedFnModel, SectionModel,
};
use crate::cfg::{parse_target, target_of, width_of, x86_mode};
use crate::engine::{
    decode, decode_memory, decoded, is_wide, memory_operand, Insn, InsnModel, Memory, Width, RIP,
};
use crate::keys::sorted_keys;
use crate::search::{after, begins, either_number, lowered, parse_either, same_ignoring_case, strip, trim, trimmed};
use crate::text::{chars_of, models, same, sub_string};
use std::collections::BTreeMap;
use vstd::prelude::*;

verus! {

broadcast use vstd::std_specs::btree::group_btree_axioms;

/// What a known address is, when it is no import.
#[derive(Debug, Clone, PartialEq, Eq)]
pub enum Label {
    /// The image's entry point.
    Entry,
    /// An exported function, by name.
    Export(String),
    /// A TLS callback, which runs before the entry point.
    TlsCallback,
}

pub ghost enum LabelModel {
    Entry,
    Export(Seq<char>),
    TlsCallback,
}

impl DeepView for Label {
    type V = LabelModel;

    open spec fn deep_view(&self) -> LabelModel {
        match self {
            Label::Entry => LabelModel::Entry,
            Label::Export(n) => LabelModel::Export(n@),
            Label::TlsCallback => LabelModel::TlsCallback,
        }
    }
}

pub open spec fn option_label(l: Option<Label>) -> Option<LabelModel> {
    match l {
        Some(x) => Some(x.deep_view()),
        None => None,
    }
}

/// How a label is written.
pub open spec fn label_text(l: LabelModel) -> Seq<char> {
    match l {
        LabelModel::Entry => "[entry]"@,
        LabelModel::Export(n) => "[export: "@ + n + "]"@,
        LabelModel::TlsCallback => "[TLS callback]"@,
    }
}

impl Label {
    pub fn text(&self) -> (r: String)
        ensures
            r@ == label_text(self.deep_view()),
    {
        match self {
            Label::Entry => "[entry]".to_string(),
            Label::Export(n) => {
                let mut s = "[export: ".to_string();
                s.append(n.as_str());
                s.append("]");
                s
            },
            Label::TlsCallback => "[TLS callback]".to_string(),
        }
    }

    /// A copy of the label.
    pub fn copied(&self) -> (r: Label)
        ensures
            r.deep_view() == self.deep_view(),
    {
        match self {
            Label::Entry => Label::Entry,
            Label::Export(n) => Label::Export(n.clone()),
            Label::TlsCallback => Label::TlsCallback,
        }
    }
}

/// What a call instruction reaches.
#[derive(Debug, Clone, PartialEq, Eq)]
pub enum CallTarget {
    /// A known address inside the image.
    Code(u64),
    /// An imported API, reached directly or through one thunk.
    Import(String),
    /// Computed at runtime, so that it cannot be known statically.
    Unknown,
}

pub ghost enum TargetModel {
    Code(u64),
    Import(Seq<char>),
    Unknown,
}

impl DeepView for CallTarget {
    type V = TargetModel;

    open spec fn deep_view(&self) -> TargetModel {
        match self {
            CallTarget::Code(a) => TargetModel::Code(*a),
            CallTarget::Import(n) => TargetModel::Import(n@),
            CallTarget::Unknown => TargetModel::Unknown,
        }
    }
}

// ---------------------------------------------------------------------------
// Library names
// ---------------------------------------------------------------------------

/// The name of a library without its `.dll` suffix, in whatever case that is
/// written. A name that is nothing but the suffix keeps it.
pub open spec fn library(dll: Seq<char>) -> Seq<char> {
    let n = dll.len() - 4;
    if n > 0 && lowered(dll.subrange(n, dll.len() as int)) == lowered(".dll"@) {
        dll.subrange(0, n)
    } else {
        dll
    }
}

/// `KERNEL32.dll` becomes `KERNEL32`, as debuggers write it.
pub fn trim_dll_suffix(dll: &str) -> (r: String)
    ensures
        r@ == library(dll@),
{
    let cs = chars_of(dll);
    if cs.len() > 4 {
        let n = cs.len() - 4;
        let tail = sub_string(&cs, n, cs.len());
        if same_ignoring_case(tail.as_str(), ".dll") {
            return sub_string(&cs, 0, n);
        }
    }
    dll.to_string()
}

/// An API under its library: `KERNEL32!VirtualAlloc`.
pub open spec fn qualified(dll: Seq<char>, func: Seq<char>) -> Seq<char> {
    library(dll) + "!"@ + func
}

/// The one spelling of an API's name, wherever the name comes from.
pub fn qualified_name(dll: &str, func: &str) -> (r: String)
    ensures
        r@ == qualified(dll@, func@),
{
    let mut s = trim_dll_suffix(dll);
    s.append("!");
    s.append(func);
    s
}

// ---------------------------------------------------------------------------
// The tables
// ---------------------------------------------------------------------------

/// The import address table slots of the first `n` functions of a library,
/// over those of the libraries before it. A later entry for a slot prevails.
pub open spec fn slots_in(
    known: Map<u64, Seq<char>>,
    dll: Seq<char>,
    fns: Seq<ImportedFnModel>,
    n: int,
) -> Map<u64, Seq<char>>
    decreases n,
{
    if n <= 0 {
        known
    } else {
        let rest = slots_in(known, dll, fns, n - 1);
        match fns[n - 1].iat_rva {
            Some(slot) => rest.insert(slot, qualified(dll, fns[n - 1].name)),
            None => rest,
        }
    }
}

/// The import address table slots of the first `n` libraries.
pub open spec fn slots(imports: Seq<ImportModel>, n: int) -> Map<u64, Seq<char>>
    decreases n,
{
    if n <= 0 {
        Map::empty()
    } else {
        slots_in(
            slots(imports, n - 1),
            imports[n - 1].dll,
            imports[n - 1].functions,
            imports[n - 1].functions.len() as int,
        )
    }
}

/// The labels of the entry point and of the first `n` TLS callbacks.
pub open spec fn early_labels(entry: u64, callbacks: Seq<u64>, n: int) -> Map<u64, LabelModel>
    decreases n,
{
    if n <= 0 {
        Map::empty().insert(entry, LabelModel::Entry)
    } else {
        early_labels(entry, callbacks, n - 1).insert(callbacks[n - 1], LabelModel::TlsCallback)
    }
}

/// The labels with those of the first `n` exports put over them: the name of an
/// export says more than that an address is the entry point. A forwarded export
/// names no address here.
pub open spec fn labels_with(
    known: Map<u64, LabelModel>,
    exports: Seq<ExportModel>,
    n: int,
) -> Map<u64, LabelModel>
    decreases n,
{
    if n <= 0 {
        known
    } else {
        let rest = labels_with(known, exports, n - 1);
        if exports[n - 1].forwarder is None {
            rest.insert(exports[n - 1].rva, LabelModel::Export(exports[n - 1].name))
        } else {
            rest
        }
    }
}

/// All that is known about the addresses of a binary.
pub ghost struct SymbolsModel {
    pub file: Seq<u8>,
    pub sections: Seq<SectionModel>,
    pub image_base: u64,
    pub width: Option<Width>,
    /// Import address table slot to the API it leads to.
    pub imports: Map<u64, Seq<char>>,
    /// Code address to what that address is.
    pub labels: Map<u64, LabelModel>,
}

/// What is known about the addresses of the given binary.
pub open spec fn symbols_of(file: Seq<u8>, bin: BinaryModel) -> SymbolsModel {
    let callbacks = callbacks_of(bin.pe_meta);
    SymbolsModel {
        file,
        sections: bin.sections,
        image_base: bin.image_base,
        width: width_of(bin.arch),
        imports: slots(bin.imports, bin.imports.len() as int),
        labels: labels_with(
            early_labels(bin.entry_point, callbacks, callbacks.len() as int),
            bin.exports,
            bin.exports.len() as int,
        ),
    }
}

/// A map of strings, by their characters.
pub open spec fn map_views(m: Map<u64, String>) -> Map<u64, Seq<char>> {
    Map::new(|k: u64| m.contains_key(k), |k: u64| m[k]@)
}

/// A map of labels, by their models.
pub open spec fn map_labels(m: Map<u64, Label>) -> Map<u64, LabelModel> {
    Map::new(|k: u64| m.contains_key(k), |k: u64| m[k].deep_view())
}

pub struct Symbols<'a> {
    file: &'a [u8],
    bin: &'a Binary,
    imports: BTreeMap<u64, String>,
    labels: BTreeMap<u64, Label>,
    width: Option<Width>,
}

impl<'a> Symbols<'a> {
    pub closed spec fn model(self) -> SymbolsModel {
        SymbolsModel {
            file: self.file@,
            sections: models(self.bin.sections@),
            image_base: self.bin.image_base,
            width: self.width,
            imports: map_views(self.imports@),
            labels: map_labels(self.labels@),
        }
    }

    /// Collects what the tables of a binary say about its addresses.
    pub fn build(file: &'a [u8], bin: &'a Binary) -> (r: Self)
        ensures
            r.model() == symbols_of(file@, bin.deep_view()),
    {
        let imports = import_slots(bin);
        let labels = known_labels(bin);
        Symbols { file, bin, imports, labels, width: x86_mode(bin) }
    }

    /// What a code address is known to be.
    pub fn label_at(&self, rva: u64) -> (r: Option<&Label>)
        ensures
            match r {
                Some(l) => self.model().labels.contains_key(rva) && l.deep_view()
                    == self.model().labels[rva],
                None => !self.model().labels.contains_key(rva),
            },
    {
        self.labels.get(&rva)
    }

    /// The API behind an import address table slot.
    pub fn import_at(&self, rva: u64) -> (r: Option<&str>)
        ensures
            match r {
                Some(n) => self.model().imports.contains_key(rva) && n@
                    == self.model().imports[rva],
                None => !self.model().imports.contains_key(rva),
            },
    {
        match self.imports.get(&rva) {
            Some(s) => Some(s.as_str()),
            None => None,
        }
    }
}

fn import_slots(bin: &Binary) -> (r: BTreeMap<u64, String>)
    ensures
        map_views(r@) == slots(models(bin.imports@), bin.imports@.len() as int),
{
    let mut out: BTreeMap<u64, String> = BTreeMap::new();
    let ghost imports = models(bin.imports@);
    proof {
        assert(map_views(out@) =~= Map::<u64, Seq<char>>::empty());
    }
    for i in 0..bin.imports.len()
        invariant
            imports == models(bin.imports@),
            map_views(out@) == slots(imports, i as int),
    {
        let imp = &bin.imports[i];
        let ghost known = slots(imports, i as int);
        proof {
            assert(imports[i as int] == imp.deep_view());
        }
        for j in 0..imp.functions.len()
            invariant
                map_views(out@) == slots_in(known, imp.dll@, models(imp.functions@), j as int),
        {
            let f = &imp.functions[j];
            proof {
                assert(models(imp.functions@)[j as int] == f.deep_view());
            }
            if let Some(slot) = f.iat_rva {
                let ghost was = out@;
                let name = qualified_name(imp.dll.as_str(), f.name.as_str());
                out.insert(slot, name);
                proof {
                    assert(map_views(out@) =~= map_views(was).insert(slot, name@));
                }
            }
        }
    }
    out
}

fn known_labels(bin: &Binary) -> (r: BTreeMap<u64, Label>)
    ensures
        map_labels(r@) == symbols_of(Seq::empty(), bin.deep_view()).labels,
{
    let mut out: BTreeMap<u64, Label> = BTreeMap::new();
    let callbacks = bin.tls_callbacks();
    out.insert(bin.entry_point, Label::Entry);
    proof {
        assert(map_labels(out@) =~= Map::<u64, LabelModel>::empty().insert(
            bin.entry_point,
            LabelModel::Entry,
        ));
    }
    for i in 0..callbacks.len()
        invariant
            map_labels(out@) == early_labels(bin.entry_point, callbacks@, i as int),
    {
        let ghost was = out@;
        out.insert(callbacks[i], Label::TlsCallback);
        proof {
            assert(map_labels(out@) =~= map_labels(was).insert(
                callbacks@[i as int],
                LabelModel::TlsCallback,
            ));
        }
    }
    let ghost known = map_labels(out@);
    for i in 0..bin.exports.len()
        invariant
            map_labels(out@) == labels_with(known, models(bin.exports@), i as int),
    {
        let e = &bin.exports[i];
        proof {
            assert(models(bin.exports@)[i as int] == e.deep_view());
        }
        if e.forwarder.is_none() {
            let ghost was = out@;
            out.insert(e.rva, Label::Export(e.name.clone()));
            proof {
                assert(map_labels(out@) =~= map_labels(was).insert(
                    e.rva,
                    LabelModel::Export(e.name@),
                ));
            }
        }
    }
    out
}

// ---------------------------------------------------------------------------
// Operands
// ---------------------------------------------------------------------------

/// The place of the first `c` from `from` on; the length of the text where
/// there is none.
pub open spec fn place_of(s: Seq<char>, c: char, from: int) -> int
    decreases s.len() - from,
{
    if from >= s.len() {
        s.len() as int
    } else if s[from] == c {
        from
    } else {
        place_of(s, c, from + 1)
    }
}

/// A sum of two integers, where it is an address.
pub open spec fn address(a: int) -> Option<u64> {
    if 0 <= a <= u64::MAX {
        Some(a as u64)
    } else {
        None
    }
}

/// What follows `rip` in an operand: nothing, or a sign and a displacement.
pub open spec fn rip_slot(rest: Seq<char>, next_rva: u64) -> Option<u64> {
    if rest.len() == 0 {
        Some(next_rva)
    } else {
        match either_number(trimmed(rest.skip(1)), u64::MAX as int) {
            Some(disp) => if rest[0] == '+' {
                address(next_rva + disp)
            } else if rest[0] == '-' {
                address(next_rva - disp)
            } else {
                None
            },
            None => None,
        }
    }
}

/// The address that the text between the brackets of an operand stands for:
/// relative to the next instruction behind `rip`, otherwise an absolute virtual
/// address, from which the image base comes off.
pub open spec fn bracket_slot(inner: Seq<char>, next_rva: u64, image_base: u64) -> Option<u64> {
    if begins(inner, "rip"@) {
        rip_slot(trimmed(after(inner, "rip"@)), next_rva)
    } else {
        match either_number(inner, u64::MAX as int) {
            Some(va) => address(va - image_base),
            None => None,
        }
    }
}

/// The address through which the memory operand of a call or jump reads.
pub open spec fn memory_slot(ops: Seq<char>, next_rva: u64, image_base: u64) -> Option<u64> {
    let open = place_of(ops, '[', 0);
    let close = place_of(ops, ']', open);
    if close < ops.len() {
        bracket_slot(trimmed(ops.subrange(open + 1, close)), next_rva, image_base)
    } else {
        None
    }
}

pub fn place(cs: &Vec<char>, c: char, from: usize) -> (r: usize)
    requires
        from <= cs@.len(),
    ensures
        r == place_of(cs@, c, from as int),
        from <= r <= cs@.len(),
        r < cs@.len() ==> cs@[r as int] == c,
{
    let mut i: usize = from;
    while i < cs.len() && cs[i] != c
        invariant
            from <= i <= cs@.len(),
            place_of(cs@, c, from as int) == place_of(cs@, c, i as int),
        decreases cs@.len() - i,
    {
        i += 1;
    }
    i
}

fn parse_rip(rest: &str, next_rva: u64) -> (r: Option<u64>)
    ensures
        r == rip_slot(rest@, next_rva),
{
    let cs = chars_of(rest);
    if cs.len() == 0 {
        return Some(next_rva);
    }
    let tail = sub_string(&cs, 1, cs.len());
    proof {
        assert(tail@ =~= rest@.skip(1));
    }
    match parse_either(trim(tail.as_str()).as_str(), u64::MAX) {
        Some(disp) => if cs[0] == '+' {
            next_rva.checked_add(disp)
        } else if cs[0] == '-' {
            next_rva.checked_sub(disp)
        } else {
            None
        },
        None => None,
    }
}

/// The address through which the memory operand of a call or jump reads, from
/// the text of its operands: `qword ptr [rip + 0x2a5e]` or `dword ptr [0x40a000]`.
/// None where a register other than `rip` takes part: that is computed at
/// runtime and must not be guessed at.
pub fn parse_mem_operand(ops: &str, next_rva: u64, image_base: u64) -> (r: Option<u64>)
    ensures
        r == memory_slot(ops@, next_rva, image_base),
{
    let cs = chars_of(ops);
    let open = place(&cs, '[', 0);
    let close = place(&cs, ']', open);
    if close >= cs.len() {
        return None;
    }
    let inner = trim(sub_string(&cs, open + 1, close).as_str());
    if let Some(rest) = strip(inner.as_str(), "rip") {
        return parse_rip(trim(rest.as_str()).as_str(), next_rva);
    }
    match parse_either(inner.as_str(), u64::MAX) {
        Some(va) => va.checked_sub(image_base),
        None => None,
    }
}

// ---------------------------------------------------------------------------
// Thunks
// ---------------------------------------------------------------------------

/// The address through which a memory operand of the instruction at `rva`
/// reads: relative to the end of the instruction for one based on the
/// instruction pointer; less the image base for an absolute one. None where
/// another register takes part.
pub open spec fn operand_slot(m: Memory, rva: u64, size: usize, image_base: u64) -> Option<u64> {
    if m.base == RIP {
        if rva + size <= u64::MAX {
            address(rva + size + m.disp)
        } else {
            None
        }
    } else if m.base == 0 && m.index == 0 {
        address(unsigned_disp(m.disp) - image_base)
    } else {
        None
    }
}

/// A displacement read as an unsigned number, as an absolute address is.
pub open spec fn unsigned_disp(disp: i64) -> int {
    if disp >= 0 {
        disp as int
    } else {
        disp + 0x1_0000_0000_0000_0000
    }
}

/// The slot through which the first decoded instruction jumps, if it is a jump
/// through memory.
pub open spec fn jump_slot(
    found: Seq<InsnModel>,
    memory: Option<Memory>,
    rva: u64,
    image_base: u64,
) -> Option<u64> {
    match memory {
        Some(m) => if found.len() > 0 && found[0].mnemonic == "jmp"@ {
            operand_slot(m, rva, found[0].size, image_base)
        } else {
            None
        },
        None => None,
    }
}

/// Is the first decoded instruction a jump?
pub open spec fn is_jump(found: Seq<InsnModel>) -> bool {
    found.len() > 0 && found[0].mnemonic == "jmp"@
}

fn first_is_jump(found: &Vec<Insn>) -> (r: bool)
    ensures
        r == is_jump(models(found@)),
{
    if found.len() == 0 {
        return false;
    }
    proof {
        assert(models(found@)[0] == found@[0].deep_view());
    }
    same(found[0].mnemonic.as_str(), "jmp")
}

/// The slot through which the first of the instructions jumps that were decoded
/// at `rva`, by its memory operand.
pub fn jump_target(found: &Vec<Insn>, memory: Option<Memory>, rva: u64, image_base: u64) -> (r: Option<
    u64,
>)
    ensures
        r == jump_slot(models(found@), memory, rva, image_base),
{
    let m = match memory {
        Some(m) => m,
        None => {
            return None;
        },
    };
    if !first_is_jump(found) {
        return None;
    }
    proof {
        assert(models(found@)[0] == found@[0].deep_view());
    }
    if m.base == RIP {
        match rva.checked_add(found[0].size as u64) {
            Some(next) => checked_offset(next, m.disp),
            None => None,
        }
    } else if m.base == 0 && m.index == 0 {
        as_unsigned(m.disp).checked_sub(image_base)
    } else {
        None
    }
}

fn as_unsigned(disp: i64) -> (r: u64)
    ensures
        r == unsigned_disp(disp),
{
    if disp >= 0 {
        disp as u64
    } else {
        let back = (-(disp + 1)) as u64;
        u64::MAX - back
    }
}

/// An address displaced by a signed distance.
pub fn checked_offset(base: u64, disp: i64) -> (r: Option<u64>)
    ensures
        r == address(base + disp),
{
    if disp >= 0 {
        base.checked_add(disp as u64)
    } else {
        let back = (-(disp + 1)) as u64;
        match base.checked_sub(back) {
            Some(b) => b.checked_sub(1),
            None => None,
        }
    }
}

/// The bytes at a file offset that hold one instruction: no more than 16.
pub open spec fn one_insn(file: Seq<u8>, off: int) -> Seq<u8> {
    file.subrange(off, lesser(off + 16, file.len() as int))
}

/// The slot that the thunk at `rva` jumps through, if there is a thunk. Where the
/// decoder fails there is none.
pub open spec fn thunk_slot(m: SymbolsModel, rva: u64) -> Option<u64> {
    match (m.width, file_offset_of(m.sections, rva as int)) {
        (Some(w), Some(off)) => if off <= m.file.len() {
            match decoded(is_wide(w), one_insn(m.file, off as int), rva, 1) {
                Ok(found) => jump_slot(
                    found,
                    memory_operand(is_wide(w), one_insn(m.file, off as int), rva),
                    rva,
                    m.image_base,
                ),
                Err(_) => None,
            }
        } else {
            None
        },
        _ => None,
    }
}

/// The API that the thunk at `rva` leads to, if there is a thunk and its slot
/// belongs to an import.
pub open spec fn thunk_api(m: SymbolsModel, rva: u64) -> Option<Seq<char>> {
    match thunk_slot(m, rva) {
        Some(slot) => if m.imports.contains_key(slot) {
            Some(m.imports[slot])
        } else {
            None
        },
        None => None,
    }
}

// ---------------------------------------------------------------------------
// Resolving call targets
// ---------------------------------------------------------------------------

/// What following the code at an address led to, for the addresses followed so
/// far.
pub type Followed = Map<u64, Option<Seq<char>>>;

/// Following an address leads to the API behind its thunk.
pub open spec fn sound(m: SymbolsModel, t: Followed) -> bool {
    forall|a: u64| #[trigger] t.contains_key(a) ==> t[a] == thunk_api(m, a)
}

/// The API that an address reaches: as an import slot itself, or through one
/// thunk.
pub open spec fn described(m: SymbolsModel, rva: u64) -> Option<Seq<char>> {
    if m.imports.contains_key(rva) {
        Some(m.imports[rva])
    } else {
        thunk_api(m, rva)
    }
}

/// What a call or jump with the given operands reaches. It names an address; or
/// it reads one through the import address table; or its target is computed at
/// runtime.
pub open spec fn reached(m: SymbolsModel, ops: Seq<char>, next_rva: u64) -> TargetModel {
    match target_of(ops) {
        Some(direct) => match described(m, direct as u64) {
            Some(api) => TargetModel::Import(api),
            None => TargetModel::Code(direct as u64),
        },
        None => match memory_slot(ops, next_rva, m.image_base) {
            Some(slot) => if m.imports.contains_key(slot) {
                TargetModel::Import(m.imports[slot])
            } else {
                TargetModel::Unknown
            },
            None => TargetModel::Unknown,
        },
    }
}

/// The results of following addresses, each address followed once.
pub struct Memo {
    map: BTreeMap<u64, Option<String>>,
}

impl View for Memo {
    type V = Followed;

    closed spec fn view(&self) -> Followed {
        Map::new(|a: u64| self.map@.contains_key(a), |a: u64| option_view(self.map@[a]))
    }
}

impl Memo {
    pub fn new() -> (r: Self)
        ensures
            r@ == Map::<u64, Option<Seq<char>>>::empty(),
    {
        let r = Memo { map: BTreeMap::new() };
        proof {
            assert(r@ =~= Map::<u64, Option<Seq<char>>>::empty());
        }
        r
    }
}

fn copy_name(s: &Option<String>) -> (r: Option<String>)
    ensures
        option_view(r) == option_view(*s),
{
    match s {
        Some(t) => Some(t.clone()),
        None => None,
    }
}

impl<'a> Symbols<'a> {
    /// Are there any import slots at all?
    pub fn has_imports(&self) -> (r: bool)
        ensures
            r == (exists|slot: u64| self.model().imports.contains_key(slot)),
    {
        let slots = sorted_keys(&self.imports);
        if slots.len() > 0 {
            proof {
                assert(slots@.contains(slots@[0]));
                assert(self.model().imports.contains_key(slots@[0]));
            }
            true
        } else {
            proof {
                assert forall|slot: u64| !self.model().imports.contains_key(slot) by {
                    assert(!slots@.contains(slot));
                }
            }
            false
        }
    }

    /// Decodes the instruction at `rva`; if it is a jump through memory, gives
    /// the address that it jumps through.
    fn follow_thunk(&self, rva: u64) -> (r: Option<u64>)
        ensures
            r == thunk_slot(self.model(), rva),
    {
        let width = match self.width {
            Some(w) => w,
            None => {
                return None;
            },
        };
        let off = match self.bin.va_to_file_offset(rva) {
            Some(o) => o,
            None => {
                return None;
            },
        };
        let len = self.file.len();
        if off > len {
            return None;
        }
        let end: usize = if len - off > 16 {
            off + 16
        } else {
            len
        };
        proof {
            assert(self.file@.subrange(off as int, end as int) =~= one_insn(
                self.file@,
                off as int,
            ));
        }
        let code = &self.file[off..end];
        let found = match decode(width, code, rva, 1) {
            Ok(v) => v,
            Err(_) => {
                return None;
            },
        };
        if !first_is_jump(&found) {
            return None;
        }
        jump_target(&found, decode_memory(width, code, rva), rva, self.bin.image_base)
    }

    /// The API that an address reaches, following each address once.
    pub fn describe_with(&self, rva: u64, memo: &mut Memo) -> (r: Option<String>)
        requires
            sound(self.model(), old(memo)@),
        ensures
            sound(self.model(), final(memo)@),
            option_view(r) == described(self.model(), rva),
    {
        if let Some(direct) = self.imports.get(&rva) {
            return Some(direct.clone());
        }
        if let Some(hit) = memo.map.get(&rva) {
            proof {
                assert(memo@.contains_key(rva));
            }
            return copy_name(hit);
        }
        let resolved: Option<String> = match self.follow_thunk(rva) {
            Some(slot) => match self.imports.get(&slot) {
                Some(name) => Some(name.clone()),
                None => None,
            },
            None => None,
        };
        let ghost was = memo@;
        let kept = copy_name(&resolved);
        memo.map.insert(rva, kept);
        proof {
            assert(memo@ =~= was.insert(rva, option_view(resolved)));
        }
        resolved
    }

    /// What a call or jump reaches, from the text of its operands, following
    /// each address once. Two forms end at an API: a call of a thunk, which
    /// jumps through a slot, and a call straight through the slot.
    pub fn classify_with(&self, ops: &str, next_rva: u64, memo: &mut Memo) -> (r: CallTarget)
        requires
            sound(self.model(), old(memo)@),
        ensures
            sound(self.model(), final(memo)@),
            r.deep_view() == reached(self.model(), ops@, next_rva),
    {
        if let Some(direct) = parse_target(ops) {
            return match self.describe_with(direct, memo) {
                Some(api) => CallTarget::Import(api),
                None => CallTarget::Code(direct),
            };
        }
        if let Some(slot) = parse_mem_operand(ops, next_rva, self.bin.image_base) {
            if let Some(api) = self.imports.get(&slot) {
                return CallTarget::Import(api.clone());
            }
        }
        CallTarget::Unknown
    }

    /// The API that an address reaches, directly or through one thunk. None
    /// means ordinary code, or something that cannot be followed statically.
    pub fn describe(&self, rva: u64) -> (r: Option<String>)
        ensures
            option_view(r) == described(self.model(), rva),
    {
        let mut memo = Memo::new();
        self.describe_with(rva, &mut memo)
    }

    /// What a call or jump reaches, from the text of its operands.
    pub fn classify_call(&self, ops: &str, next_rva: u64) -> (r: CallTarget)
        ensures
            r.deep_view() == reached(self.model(), ops@, next_rva),
    {
        let mut memo = Memo::new();
        self.classify_with(ops, next_rva, &mut memo)
    }
}

// ---------------------------------------------------------------------------
// Laws
// ---------------------------------------------------------------------------

proof fn lemma_slot_known_in(
    known: Map<u64, Seq<char>>,
    dll: Seq<char>,
    fns: Seq<ImportedFnModel>,
    n: int,
    slot: u64,
)
    requires
        0 <= n <= fns.len(),
    ensures
        slots_in(known, dll, fns, n).contains_key(slot) <==> known.contains_key(slot) || exists|
            j: int,
        |
            0 <= j < n && (#[trigger] fns[j]).iat_rva == Some(slot),
        slots_in(known, dll, fns, n).contains_key(slot) ==> slots_in(known, dll, fns, n)[slot]
            == known[slot] && known.contains_key(slot) || exists|j: int|
            0 <= j < n && (#[trigger] fns[j]).iat_rva == Some(slot) && slots_in(
                known,
                dll,
                fns,
                n,
            )[slot] == qualified(dll, fns[j].name),
    decreases n,
{
    if n > 0 {
        lemma_slot_known_in(known, dll, fns, n - 1, slot);
    }
}

proof fn lemma_slot_known(imports: Seq<ImportModel>, n: int, slot: u64)
    requires
        0 <= n <= imports.len(),
    ensures
        slots(imports, n).contains_key(slot) <==> exists|i: int, j: int|
            0 <= i < n && 0 <= j < imports[i].functions.len() && (
            #[trigger] imports[i].functions[j]).iat_rva == Some(slot),
        slots(imports, n).contains_key(slot) ==> exists|i: int, j: int|
            0 <= i < n && 0 <= j < imports[i].functions.len() && (
            #[trigger] imports[i].functions[j]).iat_rva == Some(slot) && slots(imports, n)[slot]
                == qualified(imports[i].dll, imports[i].functions[j].name),
    decreases n,
{
    if n > 0 {
        lemma_slot_known(imports, n - 1, slot);
        let fns = imports[n - 1].functions;
        lemma_slot_known_in(
            slots(imports, n - 1),
            imports[n - 1].dll,
            fns,
            fns.len() as int,
            slot,
        );
        if exists|j: int| 0 <= j < fns.len() && (#[trigger] fns[j]).iat_rva == Some(slot) {
            let j = choose|j: int| 0 <= j < fns.len() && (#[trigger] fns[j]).iat_rva == Some(slot);
            assert(imports[n - 1].functions[j].iat_rva == Some(slot));
        }
    }
}

/// An address is an import slot exactly where some import has it as its slot,
/// and is then called by the name of such an import.
pub proof fn law_slots_are_named_after_imports(file: Seq<u8>, bin: BinaryModel, slot: u64)
    ensures
        symbols_of(file, bin).imports.contains_key(slot) <==> exists|i: int, j: int|
            0 <= i < bin.imports.len() && 0 <= j < bin.imports[i].functions.len() && (
            #[trigger] bin.imports[i].functions[j]).iat_rva == Some(slot),
        symbols_of(file, bin).imports.contains_key(slot) ==> exists|i: int, j: int|
            0 <= i < bin.imports.len() && 0 <= j < bin.imports[i].functions.len() && (
            #[trigger] bin.imports[i].functions[j]).iat_rva == Some(slot) && symbols_of(
                file,
                bin,
            ).imports[slot] == qualified(bin.imports[i].dll, bin.imports[i].functions[j].name),
{
    lemma_slot_known(bin.imports, bin.imports.len() as int, slot);
}

proof fn lemma_early_labels(entry: u64, callbacks: Seq<u64>, n: int)
    ensures
        early_labels(entry, callbacks, n).contains_key(entry),
    decreases n,
{
    if n > 0 {
        lemma_early_labels(entry, callbacks, n - 1);
    }
}

proof fn lemma_export_labels(
    known: Map<u64, LabelModel>,
    exports: Seq<ExportModel>,
    n: int,
    a: u64,
)
    requires
        0 <= n <= exports.len(),
    ensures
        known.contains_key(a) ==> labels_with(known, exports, n).contains_key(a),
        (exists|i: int|
            0 <= i < n && (#[trigger] exports[i]).forwarder is None && exports[i].rva == a)
            ==> labels_with(known, exports, n).contains_key(a) && labels_with(
            known,
            exports,
            n,
        )[a] is Export,
    decreases n,
{
    if n > 0 {
        lemma_export_labels(known, exports, n - 1, a);
    }
}

/// The entry point always has a label.
pub proof fn law_entry_point_is_labelled(file: Seq<u8>, bin: BinaryModel)
    ensures
        symbols_of(file, bin).labels.contains_key(bin.entry_point),
{
    let callbacks = callbacks_of(bin.pe_meta);
    let early = early_labels(bin.entry_point, callbacks, callbacks.len() as int);
    lemma_early_labels(bin.entry_point, callbacks, callbacks.len() as int);
    lemma_export_labels(early, bin.exports, bin.exports.len() as int, bin.entry_point);
}

/// The name of an export prevails over any other label of its address.
pub proof fn law_export_names_prevail(file: Seq<u8>, bin: BinaryModel, i: int)
    requires
        0 <= i < bin.exports.len(),
        bin.exports[i].forwarder is None,
    ensures
        symbols_of(file, bin).labels.contains_key(bin.exports[i].rva),
        symbols_of(file, bin).labels[bin.exports[i].rva] is Export,
{
    let callbacks = callbacks_of(bin.pe_meta);
    let early = early_labels(bin.entry_point, callbacks, callbacks.len() as int);
    lemma_export_labels(early, bin.exports, bin.exports.len() as int, bin.exports[i].rva);
}

} // verus!
