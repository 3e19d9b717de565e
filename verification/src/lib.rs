//! Static analysis of PE and ELF executables: what their bytes say about them,
//! and where that evidence ends. Nothing is ever executed.
pub mod binary;
pub mod binary_laws;
pub mod calendar;
pub mod cfg;
pub mod cfg_laws;
pub mod cli;
pub mod cli_laws;
pub mod count_laws;
pub mod disasm;
pub mod document_laws;
pub mod dot;
pub mod elf;
pub mod elf_laws;
pub mod engine;
pub mod entropy;
pub mod error;
pub mod exports;
pub mod functions;
pub mod functions_laws;
pub mod hexdump;
pub mod hexdump_laws;
pub mod import_laws;
pub mod imports;
pub mod indicator_laws;
pub mod inventory;
pub mod json;
pub mod json_form_laws;
pub mod json_grammar;
pub mod json_laws;
pub mod keys;
pub mod layout_laws;
pub mod limit_laws;
pub mod limits;
pub mod listing;
pub mod order;
pub mod output_laws;
pub mod packers;
pub mod pe;
pub mod pe_laws;
pub mod picks;
pub mod reader;
pub mod refusal_laws;
pub mod report;
pub mod report_laws;
pub mod rule_laws;
pub mod rules;
pub mod search;
pub mod strings;
pub mod strings_laws;
pub mod sweep_laws;
pub mod symbols;
pub mod symbols_laws;
pub mod tally;
pub mod text;
pub mod text_laws;
pub mod view;
pub mod view_laws;
pub mod wrapping;

use crate::binary::{Binary, BinaryModel};
use crate::elf::{elf_of, ELF_MAGIC};
use crate::error::ParseError;
use crate::pe::pe_of;
use vstd::prelude::*;

verus! {

/// Does the file begin with the DOS magic?
pub open spec fn begins_as_pe(data: Seq<u8>) -> bool {
    data.len() >= 2 && data[0] == 0x4d && data[1] == 0x5a
}

/// Does the file begin with the ELF magic?
pub open spec fn begins_as_elf(data: Seq<u8>) -> bool {
    data.len() >= 4 && data.take(4) == ELF_MAGIC@
}

/// What a file is, by the format that its first bytes announce.
pub open spec fn parsed(data: Seq<u8>) -> Result<BinaryModel, ParseError> {
    if begins_as_pe(data) {
        pe_of(data)
    } else if begins_as_elf(data) {
        elf_of(data)
    } else {
        Err(ParseError::UnknownFormat)
    }
}

fn has_elf_magic(data: &[u8]) -> (r: bool)
    ensures
        r == begins_as_elf(data@),
{
    if data.len() < 4 {
        return false;
    }
    proof {
        assert(data@.take(4)[0] == data@[0]);
        assert(data@.take(4)[1] == data@[1]);
        assert(data@.take(4)[2] == data@[2]);
        assert(data@.take(4)[3] == data@[3]);
    }
    if data[0] == ELF_MAGIC[0] && data[1] == ELF_MAGIC[1] && data[2] == ELF_MAGIC[2] && data[3]
        == ELF_MAGIC[3] {
        proof {
            assert(data@.take(4) =~= ELF_MAGIC@);
        }
        true
    } else {
        false
    }
}

/// Parses an executable of either format. The entropies of its sections and of
/// its overlay are zero until they are measured and recorded with
/// `Binary::record_entropy`.
pub fn parse(data: &[u8]) -> (r: Result<Binary, ParseError>)
    ensures
        match r {
            Ok(b) => parsed(data@) == Ok::<BinaryModel, ParseError>(b.deep_view()),
            Err(e) => parsed(data@) == Err::<BinaryModel, ParseError>(e),
        },
{
    if data.len() >= 2 && data[0] == 0x4d && data[1] == 0x5a {
        crate::pe::parse(data)
    } else if has_elf_magic(data) {
        crate::elf::parse(data)
    } else {
        Err(ParseError::UnknownFormat)
    }
}

} // verus!
