//! The x86 decoder: calls into Capstone, on plain values.
//!
//! Everything that this library asks of Capstone goes through the two functions
//! `decode` and `decode_memory`. Capstone decides how bytes read as instructions;
//! the library decides what follows from it.
use crate::text::models;
use capstone::arch::x86::{ArchMode, ArchSyntax, X86OperandType};
use capstone::arch::{BuildsCapstone, BuildsCapstoneSyntax, DetailsArchInsn};
use capstone::Capstone;
use vstd::prelude::*;

verus! {

/// The operand size of the code.
#[derive(Debug, Clone, Copy, PartialEq, Eq, Structural)]
pub enum Width {
    Bits32,
    Bits64,
}

/// Is this 64-bit code?
pub open spec fn is_wide(w: Width) -> bool {
    w is Bits64
}

/// One decoded instruction.
#[derive(Debug, Clone)]
pub struct Insn {
    pub address: u64,
    pub size: usize,
    pub mnemonic: String,
    pub operands: String,
}

pub ghost struct InsnModel {
    pub address: u64,
    pub size: usize,
    pub mnemonic: Seq<char>,
    pub operands: Seq<char>,
}

impl DeepView for Insn {
    type V = InsnModel;

    open spec fn deep_view(&self) -> InsnModel {
        InsnModel {
            address: self.address,
            size: self.size,
            mnemonic: self.mnemonic@,
            operands: self.operands@,
        }
    }
}

/// Why nothing was decoded, with the reason that Capstone gives: the decoder
/// could not be set up, or it gave up, which it does for want of memory.
#[derive(Debug, Clone)]
pub enum Failure {
    Init(String),
    Decode(String),
}

pub ghost enum FailureModel {
    Init(Seq<char>),
    Decode(Seq<char>),
}

impl DeepView for Failure {
    type V = FailureModel;

    open spec fn deep_view(&self) -> FailureModel {
        match self {
            Failure::Init(reason) => FailureModel::Init(reason@),
            Failure::Decode(reason) => FailureModel::Decode(reason@),
        }
    }
}

/// What to tell the user of a failure.
pub open spec fn failure_text(f: FailureModel) -> Seq<char> {
    match f {
        FailureModel::Init(reason) => "capstone init failed: "@ + reason,
        FailureModel::Decode(reason) => "capstone: "@ + reason,
    }
}

impl Failure {
    /// What to tell the user.
    pub fn message(&self) -> (r: String)
        ensures
            r@ == failure_text(self.deep_view()),
    {
        match self {
            Failure::Init(reason) => {
                let mut s = "capstone init failed: ".to_string();
                s.append(reason.as_str());
                s
            },
            Failure::Decode(reason) => {
                let mut s = "capstone: ".to_string();
                s.append(reason.as_str());
                s
            },
        }
    }
}

/// What `Capstone::disasm_count` decodes: at most `count` instructions of
/// `code`, in Intel syntax, as if its first byte stood at `addr`; or how it
/// fails, with the text of its error.
pub uninterp spec fn decoded(wide: bool, code: Seq<u8>, addr: u64, count: int) -> Result<
    Seq<InsnModel>,
    FailureModel,
>;

/// The bytes that the first `n` instructions take up.
pub open spec fn bytes_taken(insns: Seq<InsnModel>, n: int) -> int
    decreases n,
{
    if n <= 0 {
        0
    } else {
        bytes_taken(insns, n - 1) + insns[n - 1].size
    }
}

/// Does an instruction stand behind those before it, the first at `addr`?
/// (Addresses wrap around at the end of the address space.)
pub open spec fn in_place(insns: Seq<InsnModel>, addr: u64, i: int) -> bool {
    insns[i].address == (addr + bytes_taken(insns, i)) % 0x1_0000_0000_0000_0000
}

/// Instructions that follow one another from `addr` on: each takes at least one
/// byte and at most 15, and all of them together no more than there are.
pub open spec fn in_line(insns: Seq<InsnModel>, addr: u64, len: int, count: int) -> bool {
    &&& insns.len() <= count
    &&& bytes_taken(insns, insns.len() as int) <= len
    &&& forall|i: int| 0 <= i < insns.len() ==> 1 <= (#[trigger] insns[i]).size <= 15
    &&& forall|i: int| 0 <= i < insns.len() ==> #[trigger] in_place(insns, addr, i)
}

/// `Capstone::disasm_count` on a decoder for x86 code, in Intel syntax and
/// without detail.
///
/// What it decodes depends on the mode, the bytes, the address and the count
/// alone, and is given the name `decoded`. Its source shows that it starts at
/// the first byte, goes from one instruction to the next, and stops at the first
/// byte it cannot decode, at the end of the code, or after `count`
/// instructions; that the address of each is that of its first byte; that an
/// instruction has from 1 to 15 bytes. An empty result is no error. Its source
/// sets an error, here and in setting the decoder up, only where an allocation
/// fails; how much memory the machine has is left aside, so that a failure too
/// goes by the name, and with it the text of Capstone's error. That any call
/// succeeds is not stated.
#[verifier::external_body]
pub(crate) fn decode(width: Width, code: &[u8], addr: u64, count: usize) -> (r: Result<
    Vec<Insn>,
    Failure,
>)
    requires
        count > 0,
    ensures
        match r {
            Ok(v) => decoded(is_wide(width), code@, addr, count as int) == Ok::<
                Seq<InsnModel>,
                FailureModel,
            >(models(v@)) && in_line(models(v@), addr, code@.len() as int, count as int),
            Err(e) => decoded(is_wide(width), code@, addr, count as int) == Err::<
                Seq<InsnModel>,
                FailureModel,
            >(e.deep_view()),
        },
{
    let mode = match width {
        Width::Bits32 => ArchMode::Mode32,
        Width::Bits64 => ArchMode::Mode64,
    };
    let intel = Capstone::new().x86().mode(mode).syntax(ArchSyntax::Intel).detail(false);
    let cs = intel.build().map_err(|e| Failure::Init(e.to_string()))?;
    let found = cs.disasm_count(code, addr, count).map_err(|e| Failure::Decode(e.to_string()))?;
    Ok(found.iter().map(|i| Insn {
        address: i.address(),
        size: i.bytes().len(),
        mnemonic: i.mnemonic().unwrap_or("").to_string(),
        operands: i.op_str().unwrap_or("").to_string(),
    }).collect())
}

/// A memory operand: the numbers of its base and index registers, zero where it
/// has none, and its displacement.
#[derive(Debug, Clone, Copy, PartialEq, Eq, Structural)]
pub struct Memory {
    pub base: u16,
    pub index: u16,
    pub disp: i64,
}

/// Capstone's number of the instruction pointer register, `X86_REG_RIP`.
pub const RIP: u16 = 41;

/// What `Capstone::insn_detail` says of the first operand of the first
/// instruction of `code`, as if its first byte stood at `addr`; none where
/// nothing decodes, where that operand is not in memory, and where the decoder
/// fails.
pub uninterp spec fn memory_operand(wide: bool, code: Seq<u8>, addr: u64) -> Option<Memory>;

/// `Capstone::insn_detail` of the first instruction that
/// `Capstone::disasm_count` decodes, on a decoder for x86 code with detail.
///
/// What it says depends on the mode, the bytes and the address alone, and is
/// given the name `memory_operand`; what that is on given bytes is not stated.
/// As in `decode`, how much memory the machine has is left aside.
#[verifier::external_body]
pub(crate) fn decode_memory(width: Width, code: &[u8], addr: u64) -> (r: Option<Memory>)
    ensures
        r == memory_operand(is_wide(width), code@, addr),
{
    let mode = match width {
        Width::Bits32 => ArchMode::Mode32,
        Width::Bits64 => ArchMode::Mode64,
    };
    let intel = Capstone::new().x86().mode(mode).syntax(ArchSyntax::Intel).detail(true);
    let cs = intel.build().ok()?;
    let found = cs.disasm_count(code, addr, 1).ok()?;
    let detail = cs.insn_detail(found.iter().next()?).ok()?;
    let operand = detail.arch_detail().x86()?.operands().next()?;
    match operand.op_type {
        X86OperandType::Mem(m) => Some(Memory { base: m.base().0, index: m.index().0, disp: m.disp() }),
        _ => None,
    }
}

} // verus!
