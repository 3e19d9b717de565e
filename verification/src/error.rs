//! Why a file could not be parsed.
use crate::text::{dec, decimal, hex0x, hex0x_padded, hex_padded, hex_prefixed};
use vstd::prelude::*;

verus! {

#[derive(Debug, Clone, PartialEq, Eq)]
pub enum ParseError {
    /// Wanted `needed` bytes at `offset`, but the file only has `have` bytes.
    TooShort { offset: usize, needed: usize, have: usize },
    /// The file did not start with the "MZ" DOS magic.
    BadDosMagic,
    /// e_lfanew did not point at the "PE\0\0" signature.
    BadPeSignature,
    /// Optional-header magic was neither PE32 (0x10b) nor PE32+ (0x20b).
    UnknownOptionalMagic(u16),
    /// The file did not start with the "\x7fELF" magic.
    BadElfMagic,
    /// ELF class byte was neither 1 (32-bit) nor 2 (64-bit).
    UnsupportedElfClass(u8),
    /// Big-endian ELF, which the little-endian reader cannot decode.
    UnsupportedElfEndian,
    /// The leading bytes matched no format we recognize (not "MZ" or "\x7fELF").
    UnknownFormat,
}

/// What a parse error says to the user.
pub open spec fn parse_error_text(e: ParseError) -> Seq<char> {
    match e {
        ParseError::TooShort { offset, needed, have } => "buffer too short: need "@ + dec(
            needed as int,
        ) + " byte(s) at offset "@ + hex0x(offset as int) + ", but file is only "@ + dec(
            have as int,
        ) + " bytes"@,
        ParseError::BadDosMagic => "not a PE file: missing 'MZ' magic"@,
        ParseError::BadPeSignature => "not a PE file: missing 'PE\\0\\0' signature"@,
        ParseError::UnknownOptionalMagic(m) => "unknown optional-header magic: "@ + hex0x_padded(
            m as int,
            4,
        ),
        ParseError::BadElfMagic => "not an ELF file: missing '\\x7fELF' magic"@,
        ParseError::UnsupportedElfClass(c) => "unsupported ELF class byte: "@ + dec(c as int)
            + " (want 1=32-bit or 2=64-bit)"@,
        ParseError::UnsupportedElfEndian => "big-endian ELF is not supported"@,
        ParseError::UnknownFormat => "unrecognized file format (not PE 'MZ' or ELF '\\x7fELF')"@,
    }
}

impl ParseError {
    /// The message for the user.
    pub fn message(&self) -> (r: String)
        ensures
            r@ == parse_error_text(*self),
    {
        match self {
            ParseError::TooShort { offset, needed, have } => {
                let mut s = "buffer too short: need ".to_string();
                s.append(decimal(*needed as u64).as_str());
                s.append(" byte(s) at offset ");
                s.append(hex_prefixed(*offset as u64).as_str());
                s.append(", but file is only ");
                s.append(decimal(*have as u64).as_str());
                s.append(" bytes");
                s
            },
            ParseError::BadDosMagic => "not a PE file: missing 'MZ' magic".to_string(),
            ParseError::BadPeSignature => "not a PE file: missing 'PE\\0\\0' signature".to_string(),
            ParseError::UnknownOptionalMagic(m) => {
                let mut s = "unknown optional-header magic: ".to_string();
                s.append(hex_padded(*m as u64, 4).as_str());
                s
            },
            ParseError::BadElfMagic => "not an ELF file: missing '\\x7fELF' magic".to_string(),
            ParseError::UnsupportedElfClass(c) => {
                let mut s = "unsupported ELF class byte: ".to_string();
                s.append(decimal(*c as u64).as_str());
                s.append(" (want 1=32-bit or 2=64-bit)");
                s
            },
            ParseError::UnsupportedElfEndian => "big-endian ELF is not supported".to_string(),
            ParseError::UnknownFormat => "unrecognized file format (not PE 'MZ' or ELF '\\x7fELF')".to_string(),
        }
    }
}

} // verus!
