//! Windows executables: the PE format.
use crate::binary::{
    find_overlay, lesser, overlay_of, str_views, unmeasured_overlay, Binary, BinaryModel, Format,
    PeMeta, PeMetaModel, Section, SectionModel,
};
use crate::entropy::Entropy;
use crate::error::ParseError;
use crate::exports::{callbacks_at, exports_at, parse_exports, parse_tls_callbacks};
use crate::imports::{
    imports_at, lossy, lossy_text, mapped, parse_imports, rva_to_offset, string_end,
};
use crate::reader::{fits, flag, has_flag, le, read_or_zero, too_short, ByteReader};
use crate::strings::{scan, scan_of, MIN_STRING};
use crate::text::{lemma_models_push, lemma_views_push, models, views};
use vstd::prelude::*;

verus! {

pub const DOS_MAGIC: u16 = 0x5A4D;

pub const E_LFANEW_OFFSET: u64 = 0x3C;

pub const PE_SIGNATURE: u32 = 0x00004550;

pub const COFF_HEADER_SIZE: u64 = 20;

pub const SECTION_ENTRY_SIZE: u64 = 40;

pub const OPT_MAGIC_PE32: u16 = 0x10b;

pub const OPT_MAGIC_PE32_PLUS: u16 = 0x20b;

pub const MEM_EXECUTE: u64 = 0x2000_0000;

pub const MEM_READ: u64 = 0x4000_0000;

pub const MEM_WRITE: u64 = 0x8000_0000;

// Data directories, each an RVA and a size.
pub const DATA_DIR_ENTRY_SIZE: u64 = 8;

pub const DIR_EXPORT: u64 = 0;

pub const DIR_IMPORT: u64 = 1;

pub const DIR_RESOURCE: u64 = 2;

pub const DIR_CERTIFICATE: u64 = 4;

pub const DIR_DEBUG: u64 = 6;

pub const DIR_TLS: u64 = 9;

pub const DIR_CLR: u64 = 14;

pub const DEBUG_ENTRY_SIZE: u64 = 28;

pub const MAX_DEBUG_ENTRIES: u64 = 64;

pub const IMAGE_DEBUG_TYPE_REPRO: u32 = 16;

// ---------------------------------------------------------------------------
// Names and flags
// ---------------------------------------------------------------------------

/// The name of a subsystem.
pub open spec fn subsystem_of(s: u16) -> Seq<char> {
    match s {
        1 => "native (driver / no subsystem)"@,
        2 => "Windows GUI"@,
        3 => "Windows console"@,
        5 => "OS/2 console"@,
        7 => "POSIX console"@,
        9 => "Windows CE GUI"@,
        10 => "EFI application"@,
        11 => "EFI boot service driver"@,
        12 => "EFI runtime driver"@,
        13 => "EFI ROM"@,
        14 => "Xbox"@,
        16 => "Windows boot application"@,
        _ => "unknown"@,
    }
}

fn subsystem_name(s: u16) -> (r: &'static str)
    ensures
        r@ == subsystem_of(s),
{
    match s {
        1 => "native (driver / no subsystem)",
        2 => "Windows GUI",
        3 => "Windows console",
        5 => "OS/2 console",
        7 => "POSIX console",
        9 => "Windows CE GUI",
        10 => "EFI application",
        11 => "EFI boot service driver",
        12 => "EFI runtime driver",
        13 => "EFI ROM",
        14 => "Xbox",
        16 => "Windows boot application",
        _ => "unknown",
    }
}

/// The name of a machine.
pub open spec fn machine_of(machine: u16) -> Seq<char> {
    match machine {
        0x014c => "x86 (I386)"@,
        0x8664 => "x86-64 (AMD64)"@,
        0xaa64 => "ARM64"@,
        0x01c0 | 0x01c4 => "ARM"@,
        _ => "unknown"@,
    }
}

fn machine_name(machine: u16) -> (r: &'static str)
    ensures
        r@ == machine_of(machine),
{
    match machine {
        0x014c => "x86 (I386)",
        0x8664 => "x86-64 (AMD64)",
        0xaa64 => "ARM64",
        0x01c0 | 0x01c4 => "ARM",
        _ => "unknown",
    }
}

/// Mitigations that the linker opted into, and other traits of an image.
pub const DLL_FLAGS: [(u64, &'static str); 9] = [
    (0x0020, "HIGH_ENTROPY_VA"),
    (0x0040, "ASLR"),
    (0x0080, "FORCE_INTEGRITY"),
    (0x0100, "DEP"),
    (0x0400, "NO_SEH"),
    (0x1000, "APPCONTAINER"),
    (0x2000, "WDM_DRIVER"),
    (0x4000, "CFG"),
    (0x8000, "TERMINAL_SERVER_AWARE"),
];

pub const FILE_FLAGS: [(u64, &'static str); 5] = [
    (0x0002, "EXECUTABLE_IMAGE"),
    (0x2000, "DLL"),
    (0x0020, "LARGE_ADDRESS_AWARE"),
    (0x0100, "32BIT_MACHINE"),
    (0x0001, "RELOCS_STRIPPED"),
];

pub const IS_DLL: u64 = 0x2000;

/// The names of those of the first `n` flags of a table that are set.
pub open spec fn flags_upto(table: Seq<(u64, &'static str)>, c: int, n: int) -> Seq<Seq<char>>
    decreases n,
{
    if n <= 0 {
        Seq::empty()
    } else if flag(c, table[n - 1].0 as int) {
        flags_upto(table, c, n - 1).push(table[n - 1].1@)
    } else {
        flags_upto(table, c, n - 1)
    }
}

/// The mitigations that a header lists.
pub open spec fn dll_flags(c: int) -> Seq<Seq<char>> {
    flags_upto(DLL_FLAGS@, c, DLL_FLAGS@.len() as int)
}

/// The attributes that a header lists.
pub open spec fn file_flags(c: int) -> Seq<Seq<char>> {
    flags_upto(FILE_FLAGS@, c, FILE_FLAGS@.len() as int)
}

fn dll_characteristics_attrs(c: u16) -> (r: Vec<&'static str>)
    ensures
        str_views(r@) == dll_flags(c as int),
{
    let mut v: Vec<&'static str> = Vec::new();
    proof {
        assert(str_views(v@) =~= Seq::<Seq<char>>::empty());
    }
    for i in 0..DLL_FLAGS.len()
        invariant
            str_views(v@) == flags_upto(DLL_FLAGS@, c as int, i as int),
    {
        let (bit, name) = DLL_FLAGS[i];
        if bit > 0 && has_flag(c as u64, bit) {
            proof {
                assert(str_views(v@.push(name)) =~= str_views(v@).push(name@));
            }
            v.push(name);
        }
    }
    v
}

fn characteristics_attrs(c: u16) -> (r: Vec<String>)
    ensures
        views(r@) == file_flags(c as int),
{
    let mut v: Vec<String> = Vec::new();
    proof {
        assert(views(v@) =~= Seq::<Seq<char>>::empty());
    }
    for i in 0..FILE_FLAGS.len()
        invariant
            views(v@) == flags_upto(FILE_FLAGS@, c as int, i as int),
    {
        let (bit, name) = FILE_FLAGS[i];
        if bit > 0 && has_flag(c as u64, bit) {
            let s = name.to_string();
            proof {
                lemma_views_push(v@, s);
            }
            v.push(s);
        }
    }
    v
}

/// The name in a field of fixed width, up to the first zero byte.
pub open spec fn field_text(raw: Seq<u8>) -> Seq<char> {
    lossy(raw.take(string_end(raw, 0, raw.len() as int)))
}

fn section_name(raw: &[u8]) -> (r: String)
    ensures
        r@ == field_text(raw@),
{
    let mut end: usize = 0;
    while end < raw.len() && raw[end] != 0
        invariant
            end <= raw@.len(),
            string_end(raw@, 0, raw@.len() as int) == string_end(
                raw@,
                end as int,
                raw@.len() as int,
            ),
        decreases raw@.len() - end,
    {
        end += 1;
    }
    proof {
        assert(raw@.subrange(0, end as int) =~= raw@.take(end as int));
    }
    lossy_text(&raw[0..end])
}

// ---------------------------------------------------------------------------
// Headers
// ---------------------------------------------------------------------------

/// Where the headers stand: the COFF header follows the four bytes of the
/// signature, to which the DOS header points.
pub open spec fn signature_at(data: Seq<u8>) -> int {
    le(data, E_LFANEW_OFFSET as int, 4)
}

pub open spec fn coff_at(data: Seq<u8>) -> int {
    signature_at(data) + 4
}

pub open spec fn optional_at(data: Seq<u8>) -> int {
    coff_at(data) + COFF_HEADER_SIZE
}

/// Is this the 64-bit layout?
pub open spec fn is_wide_image(data: Seq<u8>) -> bool {
    le(data, optional_at(data), 2) == OPT_MAGIC_PE32_PLUS
}

/// What keeps the headers from being read: the first field, in the order they
/// are read, that is past the end of the file or has a wrong value.
pub open spec fn header_error(data: Seq<u8>) -> Option<ParseError> {
    let sig = signature_at(data);
    let coff = coff_at(data);
    let opt = optional_at(data);
    let magic = le(data, opt, 2);
    if !fits(data, 0, 2) {
        Some(too_short(data, 0, 2))
    } else if le(data, 0, 2) != DOS_MAGIC {
        Some(ParseError::BadDosMagic)
    } else if !fits(data, E_LFANEW_OFFSET as int, 4) {
        Some(too_short(data, E_LFANEW_OFFSET as int, 4))
    } else if !fits(data, sig, 4) {
        Some(too_short(data, sig, 4))
    } else if le(data, sig, 4) != PE_SIGNATURE {
        Some(ParseError::BadPeSignature)
    } else if !fits(data, coff, 2) {
        Some(too_short(data, coff, 2))
    } else if !fits(data, coff + 2, 2) {
        Some(too_short(data, coff + 2, 2))
    } else if !fits(data, coff + 16, 2) {
        Some(too_short(data, coff + 16, 2))
    } else if !fits(data, coff + 18, 2) {
        Some(too_short(data, coff + 18, 2))
    } else if !fits(data, opt, 2) {
        Some(too_short(data, opt, 2))
    } else if magic != OPT_MAGIC_PE32 && magic != OPT_MAGIC_PE32_PLUS {
        Some(ParseError::UnknownOptionalMagic(magic as u16))
    } else if !fits(data, opt + 16, 4) {
        Some(too_short(data, opt + 16, 4))
    } else if magic == OPT_MAGIC_PE32_PLUS && !fits(data, opt + 24, 8) {
        Some(too_short(data, opt + 24, 8))
    } else if magic == OPT_MAGIC_PE32 && !fits(data, opt + 28, 4) {
        Some(too_short(data, opt + 28, 4))
    } else {
        None
    }
}

/// The address that the image prefers to be loaded at.
pub open spec fn image_base_of(data: Seq<u8>) -> u64 {
    let opt = optional_at(data);
    if is_wide_image(data) {
        le(data, opt + 24, 8) as u64
    } else {
        le(data, opt + 28, 4) as u64
    }
}

/// The fields of the headers that a parse goes by.
struct Header {
    coff: u64,
    opt: u64,
    machine: u16,
    number_of_sections: u16,
    size_of_optional_header: u16,
    characteristics: u16,
    is_pe32_plus: bool,
    entry_point: u32,
    image_base: u64,
}

spec fn is_header(h: Header, data: Seq<u8>) -> bool {
    let coff = coff_at(data);
    let opt = optional_at(data);
    &&& h.coff == coff
    &&& h.opt == opt
    &&& h.machine == le(data, coff, 2)
    &&& h.number_of_sections == le(data, coff + 2, 2)
    &&& h.size_of_optional_header == le(data, coff + 16, 2)
    &&& h.characteristics == le(data, coff + 18, 2)
    &&& h.is_pe32_plus == is_wide_image(data)
    &&& h.entry_point == le(data, opt + 16, 4)
    &&& h.image_base == image_base_of(data)
    &&& opt <= u32::MAX + 24
}

fn read_header(reader: &ByteReader) -> (r: Result<Header, ParseError>)
    ensures
        match r {
            Ok(h) => header_error(reader@) is None && is_header(h, reader@),
            Err(e) => header_error(reader@) == Some(e),
        },
{
    let dos = match reader.u16_at(0) {
        Ok(v) => v,
        Err(e) => {
            return Err(e);
        },
    };
    if dos != DOS_MAGIC {
        return Err(ParseError::BadDosMagic);
    }
    let e_lfanew = match reader.u32_at(E_LFANEW_OFFSET) {
        Ok(v) => v,
        Err(e) => {
            return Err(e);
        },
    };
    let sig = e_lfanew as u64;
    let signature = match reader.u32_at(sig) {
        Ok(v) => v,
        Err(e) => {
            return Err(e);
        },
    };
    if signature != PE_SIGNATURE {
        return Err(ParseError::BadPeSignature);
    }
    let coff = sig + 4;
    let machine = match reader.u16_at(coff) {
        Ok(v) => v,
        Err(e) => {
            return Err(e);
        },
    };
    let number_of_sections = match reader.u16_at(coff + 2) {
        Ok(v) => v,
        Err(e) => {
            return Err(e);
        },
    };
    let size_of_optional_header = match reader.u16_at(coff + 16) {
        Ok(v) => v,
        Err(e) => {
            return Err(e);
        },
    };
    let characteristics = match reader.u16_at(coff + 18) {
        Ok(v) => v,
        Err(e) => {
            return Err(e);
        },
    };
    let opt = coff + COFF_HEADER_SIZE;
    let magic = match reader.u16_at(opt) {
        Ok(v) => v,
        Err(e) => {
            return Err(e);
        },
    };
    if magic != OPT_MAGIC_PE32 && magic != OPT_MAGIC_PE32_PLUS {
        return Err(ParseError::UnknownOptionalMagic(magic));
    }
    let is_pe32_plus = magic == OPT_MAGIC_PE32_PLUS;
    let entry_point = match reader.u32_at(opt + 16) {
        Ok(v) => v,
        Err(e) => {
            return Err(e);
        },
    };
    let image_base: u64 = if is_pe32_plus {
        match reader.u64_at(opt + 24) {
            Ok(v) => v,
            Err(e) => {
                return Err(e);
            },
        }
    } else {
        match reader.u32_at(opt + 28) {
            Ok(v) => v as u64,
            Err(e) => {
                return Err(e);
            },
        }
    };
    Ok(
        Header {
            coff,
            opt,
            machine,
            number_of_sections,
            size_of_optional_header,
            characteristics,
            is_pe32_plus,
            entry_point,
            image_base,
        },
    )
}

// ---------------------------------------------------------------------------
// Sections
// ---------------------------------------------------------------------------

/// The section that the table entry at an offset describes. Its entropy is left
/// at zero until it is measured.
pub open spec fn section_of(data: Seq<u8>, base: int) -> SectionModel {
    let ch = le(data, base + 36, 4);
    SectionModel {
        name: field_text(data.subrange(base, base + 8)),
        virtual_addr: le(data, base + 12, 4) as u64,
        virtual_size: le(data, base + 8, 4) as u64,
        file_offset: le(data, base + 20, 4) as u64,
        file_size: le(data, base + 16, 4) as u64,
        readable: flag(ch, MEM_READ as int),
        writable: flag(ch, MEM_WRITE as int),
        executable: flag(ch, MEM_EXECUTE as int),
        entropy: Entropy::of_bits(0),
    }
}

/// What keeps a table entry from being read.
pub open spec fn section_error(data: Seq<u8>, base: int) -> Option<ParseError> {
    if !fits(data, base, 8) {
        Some(too_short(data, base, 8))
    } else if !fits(data, base + 8, 4) {
        Some(too_short(data, base + 8, 4))
    } else if !fits(data, base + 12, 4) {
        Some(too_short(data, base + 12, 4))
    } else if !fits(data, base + 16, 4) {
        Some(too_short(data, base + 16, 4))
    } else if !fits(data, base + 20, 4) {
        Some(too_short(data, base + 20, 4))
    } else if !fits(data, base + 36, 4) {
        Some(too_short(data, base + 36, 4))
    } else {
        None
    }
}

/// What keeps the first `n` entries of the table from being read: the first of
/// them that is not all in the file.
pub open spec fn table_error(data: Seq<u8>, table: int, n: int) -> Option<ParseError>
    decreases n,
{
    if n <= 0 {
        None
    } else if table_error(data, table, n - 1) is Some {
        table_error(data, table, n - 1)
    } else {
        section_error(data, table + (n - 1) * SECTION_ENTRY_SIZE)
    }
}

/// The first `n` sections of the table.
pub open spec fn sections_of(data: Seq<u8>, table: int, n: int) -> Seq<SectionModel> {
    Seq::new(n as nat, |i: int| section_of(data, table + i * SECTION_ENTRY_SIZE))
}

proof fn lemma_table_error(data: Seq<u8>, table: int, m: int, n: int)
    requires
        m <= n,
        table_error(data, table, m) is Some,
    ensures
        table_error(data, table, n) == table_error(data, table, m),
    decreases n - m,
{
    if m < n {
        lemma_table_error(data, table, m, n - 1);
    }
}

fn read_section(reader: &ByteReader, base: u64) -> (r: Result<Section, ParseError>)
    requires
        base <= u32::MAX * 2,
    ensures
        match r {
            Ok(s) => section_error(reader@, base as int) is None && s.deep_view() == section_of(
                reader@,
                base as int,
            ),
            Err(e) => section_error(reader@, base as int) == Some(e),
        },
{
    let raw = match reader.bytes_at(base, 8) {
        Ok(b) => b,
        Err(e) => {
            return Err(e);
        },
    };
    let name = section_name(raw);
    let virtual_size = match reader.u32_at(base + 8) {
        Ok(v) => v,
        Err(e) => {
            return Err(e);
        },
    };
    let virtual_addr = match reader.u32_at(base + 12) {
        Ok(v) => v,
        Err(e) => {
            return Err(e);
        },
    };
    let file_size = match reader.u32_at(base + 16) {
        Ok(v) => v,
        Err(e) => {
            return Err(e);
        },
    };
    let file_offset = match reader.u32_at(base + 20) {
        Ok(v) => v,
        Err(e) => {
            return Err(e);
        },
    };
    let ch = match reader.u32_at(base + 36) {
        Ok(v) => v,
        Err(e) => {
            return Err(e);
        },
    };
    Ok(
        Section {
            name,
            virtual_addr: virtual_addr as u64,
            virtual_size: virtual_size as u64,
            file_offset: file_offset as u64,
            file_size: file_size as u64,
            readable: has_flag(ch as u64, MEM_READ),
            writable: has_flag(ch as u64, MEM_WRITE),
            executable: has_flag(ch as u64, MEM_EXECUTE),
            entropy: Entropy::zero(),
        },
    )
}

fn read_sections(reader: &ByteReader, table: u64, n: u16) -> (r: Result<Vec<Section>, ParseError>)
    requires
        table <= u32::MAX + 24 + 0xffff,
    ensures
        match r {
            Ok(s) => table_error(reader@, table as int, n as int) is None && models(s@)
                == sections_of(reader@, table as int, n as int),
            Err(e) => table_error(reader@, table as int, n as int) == Some(e),
        },
{
    let mut sections: Vec<Section> = Vec::new();
    proof {
        assert(models(sections@) =~= sections_of(reader@, table as int, 0));
    }
    for i in 0..n
        invariant
            table <= u32::MAX + 24 + 0xffff,
            table_error(reader@, table as int, i as int) is None,
            models(sections@) == sections_of(reader@, table as int, i as int),
    {
        let base = table + i as u64 * SECTION_ENTRY_SIZE;
        match read_section(reader, base) {
            Ok(s) => {
                proof {
                    lemma_models_push(sections@, s);
                    assert(models(sections@).push(s.deep_view()) =~= sections_of(
                        reader@,
                        table as int,
                        i + 1,
                    ));
                }
                sections.push(s);
            },
            Err(e) => {
                proof {
                    lemma_table_error(reader@, table as int, i + 1, n as int);
                }
                return Err(e);
            },
        }
    }
    Ok(sections)
}

// ---------------------------------------------------------------------------
// Data directories
// ---------------------------------------------------------------------------

/// Where the headers count the data directories; the directories follow.
pub open spec fn directory_count_at(data: Seq<u8>) -> int {
    optional_at(data) + if is_wide_image(data) {
        108int
    } else {
        92int
    }
}

/// The RVA and the size in a data directory; zeros for one that the headers do
/// not count.
pub open spec fn directory(data: Seq<u8>, index: int) -> (int, int) {
    let count = directory_count_at(data);
    let at = count + 4 + index * DATA_DIR_ENTRY_SIZE;
    if index >= read_or_zero(data, count, 4) {
        (0, 0)
    } else {
        (read_or_zero(data, at, 4), read_or_zero(data, at + 4, 4))
    }
}

fn read_directory(reader: &ByteReader, h: &Header, index: u64) -> (r: (u32, u32))
    requires
        is_header(*h, reader@),
        index < 16,
    ensures
        directory(reader@, index as int) == (r.0 as int, r.1 as int),
{
    let count_at = h.opt + if h.is_pe32_plus {
        108u64
    } else {
        92u64
    };
    let count = reader.u32_or_zero(count_at, 0);
    if index >= count as u64 {
        return (0, 0);
    }
    let at = count_at + 4 + index * DATA_DIR_ENTRY_SIZE;
    (reader.u32_or_zero(at, 0), reader.u32_or_zero(at, 4))
}

/// Does one of the debug directory's first entries say that the build is
/// reproducible?
pub open spec fn repro_marked(data: Seq<u8>, secs: Seq<SectionModel>, rva: int, size: int) -> bool {
    match mapped(secs, rva) {
        Some(base) => rva != 0 && repro_among(
            data,
            base as int,
            lesser(size / DEBUG_ENTRY_SIZE as int, MAX_DEBUG_ENTRIES as int),
        ),
        None => false,
    }
}

/// Is one of the first `n` entries of that type?
pub open spec fn repro_among(data: Seq<u8>, base: int, n: int) -> bool {
    exists|i: int| 0 <= i < n && #[trigger] debug_type(data, base, i) == IMAGE_DEBUG_TYPE_REPRO
}

/// The type of the debug directory entry at place `i`.
pub open spec fn debug_type(data: Seq<u8>, base: int, i: int) -> int {
    read_or_zero(data, base + (i * DEBUG_ENTRY_SIZE + 12), 4)
}

/// A reproducible build replaces the timestamp by a hash of the contents, and
/// says so with a debug directory entry.
fn has_repro_marker(reader: &ByteReader, sections: &[Section], rva: u32, size: u32) -> (r: bool)
    ensures
        r == repro_marked(reader@, models(sections@), rva as int, size as int),
{
    if rva == 0 || size < DEBUG_ENTRY_SIZE as u32 {
        return false;
    }
    let base = match rva_to_offset(sections, rva) {
        Some(o) => o as u64,
        None => {
            return false;
        },
    };
    let all = size as u64 / DEBUG_ENTRY_SIZE;
    let count: u64 = if all < MAX_DEBUG_ENTRIES {
        all
    } else {
        MAX_DEBUG_ENTRIES
    };
    for i in 0..count
        invariant
            count == lesser(size as int / DEBUG_ENTRY_SIZE as int, MAX_DEBUG_ENTRIES as int),
            rva != 0,
            mapped(models(sections@), rva as int) == Some(base as usize),
            base as usize == base,
            forall|j: int|
                0 <= j < i ==> #[trigger] debug_type(reader@, base as int, j)
                    != IMAGE_DEBUG_TYPE_REPRO,
    {
        let kind = reader.u32_or_zero(base, i * DEBUG_ENTRY_SIZE + 12);
        proof {
            assert(kind == debug_type(reader@, base as int, i as int));
        }
        if kind == IMAGE_DEBUG_TYPE_REPRO {
            proof {
                assert(repro_among(reader@, base as int, count as int));
            }
            return true;
        }
    }
    false
}

// ---------------------------------------------------------------------------
// The whole
// ---------------------------------------------------------------------------

/// The sections that the headers describe.
pub open spec fn image_sections(data: Seq<u8>) -> Seq<SectionModel> {
    let coff = coff_at(data);
    sections_of(data, optional_at(data) + le(data, coff + 16, 2), le(data, coff + 2, 2))
}

/// The metadata of an image.
pub open spec fn meta_of(data: Seq<u8>) -> PeMetaModel {
    let coff = coff_at(data);
    let opt = optional_at(data);
    let secs = image_sections(data);
    let certificate = directory(data, DIR_CERTIFICATE as int);
    let debug = directory(data, DIR_DEBUG as int);
    PeMetaModel {
        timestamp: read_or_zero(data, coff + 4, 4) as u32,
        reproducible_build: repro_marked(data, secs, debug.0, debug.1),
        subsystem: subsystem_of(read_or_zero(data, opt + 68, 2) as u16),
        dll_characteristics: dll_flags(read_or_zero(data, opt + 70, 2)),
        is_dotnet: directory(data, DIR_CLR as int).0 != 0,
        signed: certificate.0 != 0 && certificate.1 != 0,
        has_resources: directory(data, DIR_RESOURCE as int).0 != 0,
        tls_callbacks: callbacks_at(
            data,
            secs,
            is_wide_image(data),
            directory(data, DIR_TLS as int).0,
            image_base_of(data) as int,
        ),
    }
}

/// The place of the signature: the certificate directory holds a file offset,
/// not an RVA.
pub open spec fn signature_of(data: Seq<u8>) -> Option<(u64, u64)> {
    let (offset, size) = directory(data, DIR_CERTIFICATE as int);
    if offset != 0 && size != 0 {
        Some((offset as u64, size as u64))
    } else {
        None
    }
}

/// The executable that a file holds whose headers and section table are all
/// there.
pub open spec fn image_of(data: Seq<u8>) -> BinaryModel {
    let coff = coff_at(data);
    let secs = image_sections(data);
    let wide = is_wide_image(data);
    let exports = directory(data, DIR_EXPORT as int);
    let characteristics = le(data, coff + 18, 2);
    BinaryModel {
        format: Format::Pe,
        arch: machine_of(le(data, coff, 2) as u16),
        bits: if wide {
            64
        } else {
            32
        },
        kind: if flag(characteristics, IS_DLL as int) {
            "DLL"@
        } else {
            "executable"@
        },
        attributes: file_flags(characteristics),
        entry_point: le(data, optional_at(data) + 16, 4) as u64,
        image_base: image_base_of(data),
        sections: secs,
        imports: imports_at(data, secs, wide, directory(data, DIR_IMPORT as int).0 as u32),
        exports: exports_at(data, secs, exports.0, exports.1),
        overlay: unmeasured_overlay(overlay_of(data.len() as int, secs, signature_of(data))),
        pe_meta: Some(meta_of(data)),
        strings: scan_of(data, MIN_STRING as int),
    }
}

/// What a file is as a Windows executable.
pub open spec fn pe_of(data: Seq<u8>) -> Result<BinaryModel, ParseError> {
    let coff = coff_at(data);
    match header_error(data) {
        Some(e) => Err(e),
        None => match table_error(
            data,
            optional_at(data) + le(data, coff + 16, 2),
            le(data, coff + 2, 2),
        ) {
            Some(e) => Err(e),
            None => Ok(image_of(data)),
        },
    }
}

fn read_meta(data: &[u8], reader: &ByteReader, h: &Header, sections: &[Section]) -> (r: PeMeta)
    requires
        reader@ == data@,
        is_header(*h, data@),
        models(sections@) == image_sections(data@),
    ensures
        r.deep_view() == meta_of(data@),
{
    let (resource_rva, _) = read_directory(reader, h, DIR_RESOURCE);
    let (certificate_at, certificate_size) = read_directory(reader, h, DIR_CERTIFICATE);
    let (debug_rva, debug_size) = read_directory(reader, h, DIR_DEBUG);
    let (tls_rva, _) = read_directory(reader, h, DIR_TLS);
    let (clr_rva, _) = read_directory(reader, h, DIR_CLR);
    PeMeta {
        timestamp: reader.u32_or_zero(h.coff, 4),
        reproducible_build: has_repro_marker(reader, sections, debug_rva, debug_size),
        subsystem: subsystem_name(reader.u16_or_zero(h.opt, 68)),
        dll_characteristics: dll_characteristics_attrs(reader.u16_or_zero(h.opt, 70)),
        is_dotnet: clr_rva != 0,
        signed: certificate_at != 0 && certificate_size != 0,
        has_resources: resource_rva != 0,
        tls_callbacks: parse_tls_callbacks(data, sections, h.is_pe32_plus, tls_rva, h.image_base),
    }
}

/// Parses a Windows executable. It fails where the headers or the section table
/// are not all in the file or are no headers; the structures behind them are
/// read as far as they go.
pub fn parse(data: &[u8]) -> (r: Result<Binary, ParseError>)
    ensures
        match r {
            Ok(b) => pe_of(data@) == Ok::<BinaryModel, ParseError>(b.deep_view()),
            Err(e) => pe_of(data@) == Err::<BinaryModel, ParseError>(e),
        },
{
    let reader = ByteReader::new(data);
    let h = match read_header(&reader) {
        Ok(h) => h,
        Err(e) => {
            return Err(e);
        },
    };
    let table = h.opt + h.size_of_optional_header as u64;
    let sections = match read_sections(&reader, table, h.number_of_sections) {
        Ok(s) => s,
        Err(e) => {
            return Err(e);
        },
    };
    let (export_rva, export_size) = read_directory(&reader, &h, DIR_EXPORT);
    let (import_rva, _) = read_directory(&reader, &h, DIR_IMPORT);
    let (certificate_at, certificate_size) = read_directory(&reader, &h, DIR_CERTIFICATE);
    let imports = parse_imports(data, sections.as_slice(), h.is_pe32_plus, import_rva);
    let exports = parse_exports(data, sections.as_slice(), export_rva, export_size);
    let pe_meta = read_meta(data, &reader, &h, sections.as_slice());
    let signature: Option<(u64, u64)> = if certificate_at != 0 && certificate_size != 0 {
        Some((certificate_at as u64, certificate_size as u64))
    } else {
        None
    };
    let overlay = find_overlay(data, sections.as_slice(), signature);
    let strings = scan(data, MIN_STRING);
    let arch = machine_name(h.machine);
    let kind = if has_flag(h.characteristics as u64, IS_DLL) {
        "DLL"
    } else {
        "executable"
    };
    let attributes = characteristics_attrs(h.characteristics);
    let b = Binary {
        format: Format::Pe,
        arch,
        bits: if h.is_pe32_plus {
            64
        } else {
            32
        },
        kind,
        attributes,
        entry_point: h.entry_point as u64,
        image_base: h.image_base,
        sections,
        imports,
        exports,
        overlay,
        pe_meta: Some(pe_meta),
        strings,
    };
    Ok(b)
}

// ---------------------------------------------------------------------------
// Laws
// ---------------------------------------------------------------------------

proof fn lemma_table_too_short(data: Seq<u8>, table: int, n: int)
    ensures
        table_error(data, table, n) matches Some(e) ==> e is TooShort,
    decreases n,
{
    if n > 0 {
        lemma_table_too_short(data, table, n - 1);
    }
}

/// A file is called no Windows executable for its magic exactly where its first
/// two bytes are another's.
pub proof fn law_dos_magic_decides(data: Seq<u8>)
    ensures
        pe_of(data) == Err::<BinaryModel, ParseError>(ParseError::BadDosMagic) <==> data.len() >= 2
            && !(data[0] == 0x4d && data[1] == 0x5a),
{
    let coff = coff_at(data);
    crate::reader::lemma_le_range(data, 0);
    lemma_table_too_short(
        data,
        optional_at(data) + le(data, coff + 16, 2),
        le(data, coff + 2, 2),
    );
}

} // verus!
