//! Linux and Unix executables: the ELF format.
use crate::binary::{
    lesser, Binary, BinaryModel, Format, Import, ImportModel, ImportedFn, ImportedFnModel, Section,
    SectionModel,
};
use crate::entropy::Entropy;
use crate::error::ParseError;
use crate::exports::unless_empty;
use crate::imports::{read_cstr_near, string_at};
use crate::reader::{fits, flag, has_flag, le, read_or_zero, too_short, ByteReader};
use crate::strings::{scan, scan_of, MIN_STRING};
use crate::text::{lemma_models_push, lemma_views_push, models, views};
use vstd::prelude::*;

verus! {

pub const ELF_MAGIC: [u8; 4] = [0x7f, 0x45, 0x4c, 0x46];

/// 1 for the 32-bit layout, 2 for the 64-bit one.
pub const EI_CLASS: usize = 4;

/// 1 for little-endian, 2 for big-endian.
pub const EI_DATA: usize = 5;

// Types of section headers.
pub const SHT_SYMTAB: u32 = 2;

pub const SHT_DYNAMIC: u32 = 6;

/// A section with memory but without bytes in the file.
pub const SHT_NOBITS: u32 = 8;

pub const SHT_DYNSYM: u32 = 11;

// Section flags.
pub const SHF_WRITE: u64 = 0x1;

/// Occupies memory during execution.
pub const SHF_ALLOC: u64 = 0x2;

pub const SHF_EXECINSTR: u64 = 0x4;

// Tags of the dynamic table.
pub const DT_NULL: u64 = 0;

/// The value is the place of a library's name in the string table.
pub const DT_NEEDED: u64 = 1;

pub const MAX_HEADERS: u64 = 65536;

pub const MAX_DYNAMIC: u64 = 65536;

pub const MAX_SYMBOLS: u64 = 500_000;

// ---------------------------------------------------------------------------
// Names
// ---------------------------------------------------------------------------

/// The name of a machine.
pub open spec fn machine_of(m: u16) -> Seq<char> {
    match m {
        3 => "x86 (I386)"@,
        40 => "ARM"@,
        62 => "x86-64 (AMD64)"@,
        183 => "ARM64 (AArch64)"@,
        243 => "RISC-V"@,
        21 => "PowerPC64"@,
        _ => "unknown"@,
    }
}

fn machine_name(m: u16) -> (r: &'static str)
    ensures
        r@ == machine_of(m),
{
    match m {
        3 => "x86 (I386)",
        40 => "ARM",
        62 => "x86-64 (AMD64)",
        183 => "ARM64 (AArch64)",
        243 => "RISC-V",
        21 => "PowerPC64",
        _ => "unknown",
    }
}

/// The name of a kind of file.
pub open spec fn kind_of(t: u16) -> Seq<char> {
    match t {
        1 => "relocatable object"@,
        2 => "executable"@,
        3 => "shared object / PIE"@,
        4 => "core dump"@,
        _ => "unknown"@,
    }
}

fn elf_kind(t: u16) -> (r: &'static str)
    ensures
        r@ == kind_of(t),
{
    match t {
        1 => "relocatable object",
        2 => "executable",
        3 => "shared object / PIE",
        4 => "core dump",
        _ => "unknown",
    }
}

// ---------------------------------------------------------------------------
// Section headers
// ---------------------------------------------------------------------------

/// A section header: the fields that both layouts have.
#[derive(Debug, Clone, Copy)]
pub struct Shdr {
    pub name_off: u32,
    pub sh_type: u32,
    pub flags: u64,
    pub addr: u64,
    pub offset: u64,
    pub size: u64,
    pub link: u32,
    pub entsize: u64,
}

/// The section header at an offset, where the file has all of it.
pub open spec fn header_at(data: Seq<u8>, base: int, wide: bool) -> Option<Shdr> {
    if wide && fits(data, base, 64) {
        Some(Shdr {
            name_off: le(data, base + 0, 4) as u32,
            sh_type: le(data, base + 4, 4) as u32,
            flags: le(data, base + 8, 8) as u64,
            addr: le(data, base + 16, 8) as u64,
            offset: le(data, base + 24, 8) as u64,
            size: le(data, base + 32, 8) as u64,
            link: le(data, base + 40, 4) as u32,
            entsize: le(data, base + 56, 8) as u64,
        })
    } else if !wide && fits(data, base, 40) {
        Some(Shdr {
            name_off: le(data, base + 0, 4) as u32,
            sh_type: le(data, base + 4, 4) as u32,
            flags: le(data, base + 8, 4) as u64,
            addr: le(data, base + 12, 4) as u64,
            offset: le(data, base + 16, 4) as u64,
            size: le(data, base + 20, 4) as u64,
            link: le(data, base + 24, 4) as u32,
            entsize: le(data, base + 36, 4) as u64,
        })
    } else {
        None
    }
}

fn read_wide_header(reader: &ByteReader, base: u64, delta: u64) -> (r: Option<Shdr>)
    requires
        delta <= u64::MAX - 64,
    ensures
        r == header_at(reader@, base + delta, true),
{
    let name_off = match reader.u32_near(base, delta + 0) {
        Some(v) => v,
        None => {
            return None;
        },
    };
    let sh_type = match reader.u32_near(base, delta + 4) {
        Some(v) => v,
        None => {
            return None;
        },
    };
    let flags = match reader.u64_near(base, delta + 8) {
        Some(v) => v,
        None => {
            return None;
        },
    };
    let addr = match reader.u64_near(base, delta + 16) {
        Some(v) => v,
        None => {
            return None;
        },
    };
    let offset = match reader.u64_near(base, delta + 24) {
        Some(v) => v,
        None => {
            return None;
        },
    };
    let size = match reader.u64_near(base, delta + 32) {
        Some(v) => v,
        None => {
            return None;
        },
    };
    let link = match reader.u32_near(base, delta + 40) {
        Some(v) => v,
        None => {
            return None;
        },
    };
    let entsize = match reader.u64_near(base, delta + 56) {
        Some(v) => v,
        None => {
            return None;
        },
    };
    Some(Shdr { name_off, sh_type, flags, addr, offset, size, link, entsize })
}

fn read_narrow_header(reader: &ByteReader, base: u64, delta: u64) -> (r: Option<Shdr>)
    requires
        delta <= u64::MAX - 64,
    ensures
        r == header_at(reader@, base + delta, false),
{
    let name_off = match reader.u32_near(base, delta + 0) {
        Some(v) => v,
        None => {
            return None;
        },
    };
    let sh_type = match reader.u32_near(base, delta + 4) {
        Some(v) => v,
        None => {
            return None;
        },
    };
    let flags = match reader.u32_near(base, delta + 8) {
        Some(v) => v as u64,
        None => {
            return None;
        },
    };
    let addr = match reader.u32_near(base, delta + 12) {
        Some(v) => v as u64,
        None => {
            return None;
        },
    };
    let offset = match reader.u32_near(base, delta + 16) {
        Some(v) => v as u64,
        None => {
            return None;
        },
    };
    let size = match reader.u32_near(base, delta + 20) {
        Some(v) => v as u64,
        None => {
            return None;
        },
    };
    let link = match reader.u32_near(base, delta + 24) {
        Some(v) => v,
        None => {
            return None;
        },
    };
    let entsize = match reader.u32_near(base, delta + 36) {
        Some(v) => v as u64,
        None => {
            return None;
        },
    };
    Some(Shdr { name_off, sh_type, flags, addr, offset, size, link, entsize })
}

fn read_shdr(reader: &ByteReader, base: u64, delta: u64, is64: bool) -> (r: Option<Shdr>)
    requires
        delta <= u64::MAX - 64,
    ensures
        r == header_at(reader@, base + delta, is64),
{
    if is64 {
        read_wide_header(reader, base, delta)
    } else {
        read_narrow_header(reader, base, delta)
    }
}

/// The section headers from place `i` of the table on, up to the first that is
/// not all in the file.
pub open spec fn headers_from(
    data: Seq<u8>,
    wide: bool,
    table: int,
    entry: int,
    n: int,
    i: int,
) -> Seq<Shdr>
    decreases n - i,
{
    if i >= n {
        Seq::empty()
    } else {
        match header_at(data, table + i * entry, wide) {
            Some(h) => seq![h] + headers_from(data, wide, table, entry, n, i + 1),
            None => Seq::empty(),
        }
    }
}

fn read_headers(reader: &ByteReader, is64: bool, table: u64, entry: u16, n: u16) -> (r: Vec<Shdr>)
    ensures
        r@ == headers_from(
            reader@,
            is64,
            table as int,
            entry as int,
            lesser(n as int, MAX_HEADERS as int),
            0,
        ),
{
    let mut out: Vec<Shdr> = Vec::new();
    let ghost all = headers_from(reader@, is64, table as int, entry as int, n as int, 0);
    proof {
        assert(out@ + all =~= all);
    }
    let mut i: u64 = 0;
    while i < n as u64
        invariant
            i <= n,
            all == headers_from(reader@, is64, table as int, entry as int, n as int, 0),
            all == out@ + headers_from(
                reader@,
                is64,
                table as int,
                entry as int,
                n as int,
                i as int,
            ),
        decreases n - i,
    {
        proof {
            assert(0 <= i * entry <= 0xffff * 0xffff) by (nonlinear_arith)
                requires
                    0 <= i <= 0xffff,
                    0 <= entry <= 0xffff,
            ;
            assert(out@ + Seq::<Shdr>::empty() =~= out@);
        }
        match read_shdr(reader, table, i * entry as u64, is64) {
            Some(h) => {
                proof {
                    let rest = headers_from(
                        reader@,
                        is64,
                        table as int,
                        entry as int,
                        n as int,
                        i + 1,
                    );
                    assert(out@ + (seq![h] + rest) =~= out@.push(h) + rest);
                }
                out.push(h);
            },
            None => {
                return out;
            },
        }
        i += 1;
    }
    proof {
        assert(out@ + Seq::<Shdr>::empty() =~= out@);
    }
    out
}

/// The first header of a type, from place `i` on.
pub open spec fn header_of_type(headers: Seq<Shdr>, t: u32, i: int) -> Option<Shdr>
    decreases headers.len() - i,
{
    if i >= headers.len() {
        None
    } else if headers[i].sh_type == t {
        Some(headers[i])
    } else {
        header_of_type(headers, t, i + 1)
    }
}

fn find_header(headers: &Vec<Shdr>, t: u32) -> (r: Option<Shdr>)
    ensures
        r == header_of_type(headers@, t, 0),
{
    for i in 0..headers.len()
        invariant
            header_of_type(headers@, t, 0) == header_of_type(headers@, t, i as int),
    {
        if headers[i].sh_type == t {
            return Some(headers[i]);
        }
    }
    None
}

/// The header at a place of the table, where there is one.
pub open spec fn header_number(headers: Seq<Shdr>, i: int) -> Option<Shdr> {
    if i < headers.len() {
        Some(headers[i])
    } else {
        None
    }
}

fn nth_header(headers: &Vec<Shdr>, i: u32) -> (r: Option<Shdr>)
    ensures
        r == header_number(headers@, i as int),
{
    if (i as u64) < headers.len() as u64 {
        Some(headers[i as usize])
    } else {
        None
    }
}

// ---------------------------------------------------------------------------
// Sections
// ---------------------------------------------------------------------------

/// The offset of the table of section names; zero where there is none.
pub open spec fn names_offset(headers: Seq<Shdr>, index: int) -> u64 {
    match header_number(headers, index) {
        Some(h) => h.offset,
        None => 0,
    }
}

/// The section that a header describes. Its entropy is left at zero until it is
/// measured. The format has no flag for reading: what is in memory can be read.
pub open spec fn section_of(data: Seq<u8>, h: Shdr, names: u64) -> SectionModel {
    SectionModel {
        name: if names != 0 {
            string_at(data, names + h.name_off)
        } else {
            Seq::empty()
        },
        virtual_addr: h.addr,
        virtual_size: h.size,
        file_offset: h.offset,
        file_size: if h.sh_type == SHT_NOBITS {
            0
        } else {
            h.size
        },
        readable: flag(h.flags as int, SHF_ALLOC as int),
        writable: flag(h.flags as int, SHF_WRITE as int),
        executable: flag(h.flags as int, SHF_EXECINSTR as int),
        entropy: Entropy::of_bits(0),
    }
}

/// The sections that the headers describe.
pub open spec fn sections_of(data: Seq<u8>, headers: Seq<Shdr>, names: u64) -> Seq<SectionModel> {
    Seq::new(headers.len(), |i: int| section_of(data, headers[i], names))
}

fn read_section(data: &[u8], h: &Shdr, names: u64) -> (r: Section)
    ensures
        r.deep_view() == section_of(data@, *h, names),
{
    let name = if names != 0 {
        read_cstr_near(data, names, h.name_off as u64)
    } else {
        String::new()
    };
    proof {
        if names == 0 {
            assert(name@ =~= Seq::<char>::empty());
        }
    }
    Section {
        name,
        virtual_addr: h.addr,
        virtual_size: h.size,
        file_offset: h.offset,
        file_size: if h.sh_type == SHT_NOBITS {
            0
        } else {
            h.size
        },
        readable: has_flag(h.flags, SHF_ALLOC),
        writable: has_flag(h.flags, SHF_WRITE),
        executable: has_flag(h.flags, SHF_EXECINSTR),
        entropy: Entropy::zero(),
    }
}

fn read_sections(data: &[u8], headers: &Vec<Shdr>, names: u64) -> (r: Vec<Section>)
    ensures
        models(r@) == sections_of(data@, headers@, names),
{
    let mut out: Vec<Section> = Vec::new();
    for i in 0..headers.len()
        invariant
            models(out@) == sections_of(data@, headers@, names).take(i as int),
    {
        let s = read_section(data, &headers[i], names);
        proof {
            lemma_models_push(out@, s);
            let all = sections_of(data@, headers@, names);
            assert(all.take(i as int).push(all[i as int]) =~= all.take(i + 1));
        }
        out.push(s);
    }
    proof {
        let all = sections_of(data@, headers@, names);
        assert(all.take(headers@.len() as int) =~= all);
    }
    out
}

/// Does the section lie in memory, elsewhere than at zero?
pub open spec fn is_loaded(s: SectionModel) -> bool {
    s.readable && s.virtual_addr != 0
}

/// The lowest address among the first `n` sections, of those that are loaded.
pub open spec fn lowest_among(secs: Seq<SectionModel>, n: int) -> Option<u64>
    decreases n,
{
    if n <= 0 {
        None
    } else if !is_loaded(secs[n - 1]) {
        lowest_among(secs, n - 1)
    } else {
        match lowest_among(secs, n - 1) {
            Some(a) => if a <= secs[n - 1].virtual_addr {
                Some(a)
            } else {
                Some(secs[n - 1].virtual_addr)
            },
            None => Some(secs[n - 1].virtual_addr),
        }
    }
}

/// The format has no field for the image base: it is taken to be the lowest
/// address of a loaded section, and zero where none is loaded.
pub open spec fn base_of(secs: Seq<SectionModel>) -> u64 {
    match lowest_among(secs, secs.len() as int) {
        Some(a) => a,
        None => 0,
    }
}

fn lowest_address(sections: &Vec<Section>) -> (r: u64)
    ensures
        r == base_of(models(sections@)),
{
    let mut low: Option<u64> = None;
    for i in 0..sections.len()
        invariant
            low == lowest_among(models(sections@), i as int),
    {
        let s = &sections[i];
        proof {
            assert(models(sections@)[i as int] == s.deep_view());
        }
        if s.readable && s.virtual_addr != 0 {
            low = match low {
                Some(a) => if a <= s.virtual_addr {
                    Some(a)
                } else {
                    Some(s.virtual_addr)
                },
                None => Some(s.virtual_addr),
            };
        }
    }
    match low {
        Some(a) => a,
        None => 0,
    }
}

// ---------------------------------------------------------------------------
// Imports
// ---------------------------------------------------------------------------

/// The size of a table entry: what the header says, else that of the layout.
pub open spec fn entry_size(h: Shdr, default: int) -> int {
    if h.entsize > 0 {
        h.entsize as int
    } else {
        default
    }
}

/// The entries of a table, as far as `most` of them.
pub open spec fn entry_count(h: Shdr, default: int, most: int) -> int {
    lesser(h.size as int / entry_size(h, default), most)
}

fn entries(h: &Shdr, default: u64, most: u64) -> (r: (u64, u64))
    requires
        default > 0,
    ensures
        r.0 == entry_size(*h, default as int),
        r.1 == entry_count(*h, default as int, most as int),
        r.0 > 0,
        r.1 * r.0 <= h.size,
{
    let entry: u64 = if h.entsize > 0 {
        h.entsize
    } else {
        default
    };
    let all = h.size / entry;
    let count: u64 = if all < most {
        all
    } else {
        most
    };
    proof {
        let size = h.size as int;
        assert((size / (entry as int)) * entry <= size) by (nonlinear_arith)
            requires
                entry > 0,
                size >= 0,
        ;
        assert(count * entry <= all * entry) by (nonlinear_arith)
            requires
                count <= all,
                entry > 0,
        ;
    }
    (entry, count)
}

proof fn lemma_entry_offset(i: int, n: int, entry: int, size: int)
    requires
        0 <= i < n <= MAX_SYMBOLS,
        0 < entry,
        n * entry <= size <= u64::MAX,
    ensures
        0 <= i * entry,
        i * entry + 16 <= u64::MAX,
{
    assert(0 <= i * entry) by (nonlinear_arith)
        requires
            0 <= i,
            0 < entry,
    ;
    if entry >= 16 {
        assert(i * entry + entry <= n * entry) by (nonlinear_arith)
            requires
                i + 1 <= n,
                0 < entry,
        ;
    } else {
        assert(i * entry <= i * 16) by (nonlinear_arith)
            requires
                0 <= i,
                entry <= 16,
        ;
    }
}

/// The string at a place of a string table, unless it is empty.
pub open spec fn table_string(data: Seq<u8>, table: Shdr, at: int) -> Option<Seq<char>> {
    unless_empty(string_at(data, table.offset + at))
}

/// The tag and the value of a dynamic table entry.
pub open spec fn dynamic_entry(data: Seq<u8>, wide: bool, at: int) -> (int, int) {
    if wide {
        (read_or_zero(data, at, 8), read_or_zero(data, at + 8, 8))
    } else {
        (read_or_zero(data, at, 4), read_or_zero(data, at + 4, 4))
    }
}

/// The libraries that the dynamic table asks for, from place `i` on, up to the
/// entry that ends it.
pub open spec fn needed_from(
    data: Seq<u8>,
    wide: bool,
    dynamic: Shdr,
    strings: Shdr,
    i: int,
) -> Seq<ImportModel>
    decreases entry_count(dynamic, dynamic_size(wide), MAX_DYNAMIC as int) - i,
{
    let size = entry_size(dynamic, dynamic_size(wide));
    let (tag, value) = dynamic_entry(data, wide, dynamic.offset + i * size);
    if i >= entry_count(dynamic, dynamic_size(wide), MAX_DYNAMIC as int) || tag == DT_NULL {
        Seq::empty()
    } else {
        let rest = needed_from(data, wide, dynamic, strings, i + 1);
        match table_string(data, strings, value) {
            Some(s) => if tag == DT_NEEDED {
                seq![ImportModel { dll: s, functions: Seq::empty() }] + rest
            } else {
                rest
            },
            None => rest,
        }
    }
}

/// The size of a dynamic table entry.
pub open spec fn dynamic_size(wide: bool) -> int {
    if wide {
        16
    } else {
        8
    }
}

/// The size of a symbol.
pub open spec fn symbol_size(wide: bool) -> int {
    if wide {
        24
    } else {
        16
    }
}

/// The place of a symbol's section index.
pub open spec fn symbol_section(wide: bool) -> int {
    if wide {
        6
    } else {
        14
    }
}

/// The functions that the dynamic symbols import, from place `i` on: symbols
/// with a name that belong to no section of the file.
pub open spec fn undefined_from(
    data: Seq<u8>,
    wide: bool,
    symbols: Shdr,
    strings: Shdr,
    i: int,
) -> Seq<ImportedFnModel>
    decreases entry_count(symbols, symbol_size(wide), MAX_SYMBOLS as int) - i,
{
    if i >= entry_count(symbols, symbol_size(wide), MAX_SYMBOLS as int) {
        Seq::empty()
    } else {
        let at = symbols.offset + i * entry_size(symbols, symbol_size(wide));
        let name = read_or_zero(data, at, 4);
        let section = read_or_zero(data, at + symbol_section(wide), 2);
        let rest = undefined_from(data, wide, symbols, strings, i + 1);
        match table_string(data, strings, name) {
            Some(s) => if section == 0 && name != 0 {
                seq![ImportedFnModel { name: s, iat_rva: None, ordinal: None }] + rest
            } else {
                rest
            },
            None => rest,
        }
    }
}

/// The libraries that the file asks for.
pub open spec fn needed(data: Seq<u8>, wide: bool, headers: Seq<Shdr>) -> Seq<ImportModel> {
    match header_of_type(headers, SHT_DYNAMIC, 0) {
        Some(dynamic) => match header_number(headers, dynamic.link as int) {
            Some(strings) => needed_from(data, wide, dynamic, strings, 0),
            None => Seq::empty(),
        },
        None => Seq::empty(),
    }
}

/// The functions that the file imports.
pub open spec fn undefined(data: Seq<u8>, wide: bool, headers: Seq<Shdr>) -> Seq<ImportedFnModel> {
    match header_of_type(headers, SHT_DYNSYM, 0) {
        Some(symbols) => match header_number(headers, symbols.link as int) {
            Some(strings) => undefined_from(data, wide, symbols, strings, 0),
            None => Seq::empty(),
        },
        None => Seq::empty(),
    }
}

/// The libraries, then the functions under one heading: the file does not say
/// which library a function comes from.
pub open spec fn imports_of(data: Seq<u8>, wide: bool, headers: Seq<Shdr>) -> Seq<ImportModel> {
    let functions = undefined(data, wide, headers);
    if functions.len() == 0 {
        needed(data, wide, headers)
    } else {
        needed(data, wide, headers).push(ImportModel { dll: "(imported symbols)"@, functions })
    }
}

fn read_needed(data: &[u8], is64: bool, dynamic: &Shdr, strings: &Shdr) -> (r: Vec<Import>)
    ensures
        models(r@) == needed_from(data@, is64, *dynamic, *strings, 0),
{
    let reader = ByteReader::new(data);
    let mut out: Vec<Import> = Vec::new();
    let ghost all = needed_from(data@, is64, *dynamic, *strings, 0);
    proof {
        assert(models(out@) =~= Seq::<ImportModel>::empty());
        assert(models(out@) + all =~= all);
    }
    let default: u64 = if is64 {
        16
    } else {
        8
    };
    let (size, count) = entries(dynamic, default, MAX_DYNAMIC);
    let mut i: u64 = 0;
    while i < count
        invariant
            reader@ == data@,
            i <= count <= MAX_DYNAMIC,
            default == dynamic_size(is64),
            size == entry_size(*dynamic, default as int),
            count == entry_count(*dynamic, default as int, MAX_DYNAMIC as int),
            size > 0,
            count * size <= dynamic.size,
            all == needed_from(data@, is64, *dynamic, *strings, 0),
            all == models(out@) + needed_from(data@, is64, *dynamic, *strings, i as int),
        decreases count - i,
    {
        proof {
            lemma_entry_offset(i as int, count as int, size as int, dynamic.size as int);
            assert(models(out@) + Seq::<ImportModel>::empty() =~= models(out@));
        }
        let at = i * size;
        let tag: u64 = if is64 {
            reader.u64_or_zero(dynamic.offset, at)
        } else {
            reader.u32_or_zero(dynamic.offset, at) as u64
        };
        let value: u64 = if is64 {
            reader.u64_or_zero(dynamic.offset, at + 8)
        } else {
            reader.u32_or_zero(dynamic.offset, at + 4) as u64
        };
        if tag == DT_NULL {
            return out;
        }
        if tag == DT_NEEDED {
            let dll = read_cstr_near(data, strings.offset, value);
            if !dll.as_str().is_empty() {
                let imp = Import { dll, functions: Vec::new() };
                proof {
                    lemma_models_push(out@, imp);
                    assert(imp.deep_view().functions =~= Seq::<ImportedFnModel>::empty());
                    let rest = needed_from(data@, is64, *dynamic, *strings, i + 1);
                    assert(models(out@) + (seq![imp.deep_view()] + rest) =~= models(out@).push(
                        imp.deep_view(),
                    ) + rest);
                }
                out.push(imp);
            }
        }
        i += 1;
    }
    proof {
        assert(models(out@) + Seq::<ImportModel>::empty() =~= models(out@));
    }
    out
}

fn read_undefined(data: &[u8], is64: bool, symbols: &Shdr, strings: &Shdr) -> (r: Vec<ImportedFn>)
    ensures
        models(r@) == undefined_from(data@, is64, *symbols, *strings, 0),
{
    let reader = ByteReader::new(data);
    let mut out: Vec<ImportedFn> = Vec::new();
    let ghost all = undefined_from(data@, is64, *symbols, *strings, 0);
    proof {
        assert(models(out@) =~= Seq::<ImportedFnModel>::empty());
        assert(models(out@) + all =~= all);
    }
    let default: u64 = if is64 {
        24
    } else {
        16
    };
    let place: u64 = if is64 {
        6
    } else {
        14
    };
    let (size, count) = entries(symbols, default, MAX_SYMBOLS);
    let mut i: u64 = 0;
    while i < count
        invariant
            reader@ == data@,
            i <= count <= MAX_SYMBOLS,
            default == symbol_size(is64),
            place == symbol_section(is64),
            size == entry_size(*symbols, default as int),
            count == entry_count(*symbols, default as int, MAX_SYMBOLS as int),
            size > 0,
            count * size <= symbols.size,
            all == models(out@) + undefined_from(data@, is64, *symbols, *strings, i as int),
        decreases count - i,
    {
        proof {
            lemma_entry_offset(i as int, count as int, size as int, symbols.size as int);
        }
        let at = i * size;
        let name_off = reader.u32_or_zero(symbols.offset, at);
        let section = reader.u16_or_zero(symbols.offset, at + place);
        if section == 0 && name_off != 0 {
            let name = read_cstr_near(data, strings.offset, name_off as u64);
            if !name.as_str().is_empty() {
                let f = ImportedFn::named(name.as_str());
                proof {
                    lemma_models_push(out@, f);
                    let rest = undefined_from(data@, is64, *symbols, *strings, i + 1);
                    assert(models(out@) + (seq![f.deep_view()] + rest) =~= models(out@).push(
                        f.deep_view(),
                    ) + rest);
                }
                out.push(f);
            }
        }
        i += 1;
    }
    proof {
        assert(models(out@) + Seq::<ImportedFnModel>::empty() =~= models(out@));
    }
    out
}

/// The needed libraries and the undefined dynamic symbols.
fn parse_dynamic_imports(data: &[u8], headers: &Vec<Shdr>, is64: bool) -> (r: Vec<Import>)
    ensures
        models(r@) == imports_of(data@, is64, headers@),
{
    let mut imports: Vec<Import> = Vec::new();
    proof {
        assert(models(imports@) =~= Seq::<ImportModel>::empty());
    }
    if let Some(dynamic) = find_header(headers, SHT_DYNAMIC) {
        if let Some(strings) = nth_header(headers, dynamic.link) {
            imports = read_needed(data, is64, &dynamic, &strings);
        }
    }
    let mut functions: Vec<ImportedFn> = Vec::new();
    proof {
        assert(models(functions@) =~= Seq::<ImportedFnModel>::empty());
    }
    if let Some(symbols) = find_header(headers, SHT_DYNSYM) {
        if let Some(strings) = nth_header(headers, symbols.link) {
            functions = read_undefined(data, is64, &symbols, &strings);
        }
    }
    if functions.len() > 0 {
        let imp = Import { dll: "(imported symbols)".to_string(), functions };
        proof {
            lemma_models_push(imports@, imp);
        }
        imports.push(imp);
    }
    imports
}

// ---------------------------------------------------------------------------
// The whole
// ---------------------------------------------------------------------------

/// Is this the 64-bit layout?
pub open spec fn is_wide_file(data: Seq<u8>) -> bool {
    data[EI_CLASS as int] == 2
}

/// What keeps the header from being read: the first field, in the order they
/// are read, that is past the end of the file or has a wrong value.
pub open spec fn header_error(data: Seq<u8>) -> Option<ParseError> {
    if !fits(data, 0, 4) {
        Some(too_short(data, 0, 4))
    } else if data.take(4) != ELF_MAGIC@ {
        Some(ParseError::BadElfMagic)
    } else if !fits(data, EI_CLASS as int, 1) {
        Some(too_short(data, EI_CLASS as int, 1))
    } else if data[EI_CLASS as int] != 1 && data[EI_CLASS as int] != 2 {
        Some(ParseError::UnsupportedElfClass(data[EI_CLASS as int]))
    } else if fits(data, EI_DATA as int, 1) && data[EI_DATA as int] == 2 {
        Some(ParseError::UnsupportedElfEndian)
    } else if !fits(data, 16, 2) {
        Some(too_short(data, 16, 2))
    } else if !fits(data, 18, 2) {
        Some(too_short(data, 18, 2))
    } else if is_wide_file(data) {
        if !fits(data, 24, 8) {
            Some(too_short(data, 24, 8))
        } else if !fits(data, 40, 8) {
            Some(too_short(data, 40, 8))
        } else if !fits(data, 58, 2) {
            Some(too_short(data, 58, 2))
        } else if !fits(data, 60, 2) {
            Some(too_short(data, 60, 2))
        } else if !fits(data, 62, 2) {
            Some(too_short(data, 62, 2))
        } else {
            None
        }
    } else {
        if !fits(data, 24, 4) {
            Some(too_short(data, 24, 4))
        } else if !fits(data, 32, 4) {
            Some(too_short(data, 32, 4))
        } else if !fits(data, 46, 2) {
            Some(too_short(data, 46, 2))
        } else if !fits(data, 48, 2) {
            Some(too_short(data, 48, 2))
        } else if !fits(data, 50, 2) {
            Some(too_short(data, 50, 2))
        } else {
            None
        }
    }
}

/// The fields of the header whose places differ between the layouts.
pub struct Header {
    pub entry: u64,
    pub table: u64,
    pub entry_size: u16,
    pub count: u16,
    pub names_index: u16,
}

pub open spec fn header_of(data: Seq<u8>) -> Header {
    if is_wide_file(data) {
        Header {
            entry: le(data, 24, 8) as u64,
            table: le(data, 40, 8) as u64,
            entry_size: le(data, 58, 2) as u16,
            count: le(data, 60, 2) as u16,
            names_index: le(data, 62, 2) as u16,
        }
    } else {
        Header {
            entry: le(data, 24, 4) as u64,
            table: le(data, 32, 4) as u64,
            entry_size: le(data, 46, 2) as u16,
            count: le(data, 48, 2) as u16,
            names_index: le(data, 50, 2) as u16,
        }
    }
}

/// The section headers of a file.
pub open spec fn headers_of(data: Seq<u8>) -> Seq<Shdr> {
    let h = header_of(data);
    headers_from(
        data,
        is_wide_file(data),
        h.table as int,
        h.entry_size as int,
        lesser(h.count as int, MAX_HEADERS as int),
        0,
    )
}

/// Notes on a file: what it is, how it is linked, whether it is stripped.
pub open spec fn notes_of(kind: u16, headers: Seq<Shdr>) -> Seq<Seq<char>> {
    let first = if kind == 1 {
        seq!["relocatable object"@]
    } else if kind == 3 {
        seq!["PIE / shared object"@]
    } else {
        Seq::empty()
    };
    let linked = first.push(
        if header_of_type(headers, SHT_DYNAMIC, 0) is Some {
            "dynamically linked"@
        } else {
            "statically linked"@
        },
    );
    if header_of_type(headers, SHT_SYMTAB, 0) is Some {
        linked
    } else {
        linked.push("stripped (no .symtab)"@)
    }
}

fn push_note(notes: &mut Vec<String>, s: &str)
    ensures
        views(final(notes)@) == views(old(notes)@).push(s@),
{
    let note = s.to_string();
    proof {
        lemma_views_push(notes@, note);
    }
    notes.push(note);
}

fn notes(kind: u16, headers: &Vec<Shdr>) -> (r: Vec<String>)
    ensures
        views(r@) == notes_of(kind, headers@),
{
    let mut out: Vec<String> = Vec::new();
    proof {
        assert(views(out@) =~= Seq::<Seq<char>>::empty());
    }
    if kind == 1 {
        push_note(&mut out, "relocatable object");
        proof {
            assert(views(out@) =~= seq!["relocatable object"@]);
        }
    } else if kind == 3 {
        push_note(&mut out, "PIE / shared object");
        proof {
            assert(views(out@) =~= seq!["PIE / shared object"@]);
        }
    }
    if find_header(headers, SHT_DYNAMIC).is_some() {
        push_note(&mut out, "dynamically linked");
    } else {
        push_note(&mut out, "statically linked");
    }
    if !find_header(headers, SHT_SYMTAB).is_some() {
        push_note(&mut out, "stripped (no .symtab)");
    }
    out
}

/// The executable that a file holds whose header is all there.
pub open spec fn file_of(data: Seq<u8>) -> BinaryModel {
    let h = header_of(data);
    let headers = headers_of(data);
    let secs = sections_of(data, headers, names_offset(headers, h.names_index as int));
    let kind = le(data, 16, 2) as u16;
    BinaryModel {
        format: Format::Elf,
        arch: machine_of(le(data, 18, 2) as u16),
        bits: if is_wide_file(data) {
            64
        } else {
            32
        },
        kind: kind_of(kind),
        attributes: notes_of(kind, headers),
        entry_point: h.entry,
        image_base: base_of(secs),
        sections: secs,
        imports: imports_of(data, is_wide_file(data), headers),
        exports: Seq::empty(),
        overlay: None,
        pe_meta: None,
        strings: scan_of(data, MIN_STRING as int),
    }
}

/// What a file is as a Linux or Unix executable.
pub open spec fn elf_of(data: Seq<u8>) -> Result<BinaryModel, ParseError> {
    match header_error(data) {
        Some(e) => Err(e),
        None => Ok(file_of(data)),
    }
}

fn check_ident(data: &[u8]) -> (r: Result<bool, ParseError>)
    ensures
        match r {
            Ok(wide) => data@.len() > 4 && data@.take(4) == ELF_MAGIC@ && wide == is_wide_file(data@)
                && (data@[EI_CLASS as int] == 1 || data@[EI_CLASS as int] == 2) && !(fits(
                data@,
                EI_DATA as int,
                1,
            ) && data@[EI_DATA as int] == 2),
            Err(e) => header_error(data@) == Some(e),
        },
{
    let have = data.len();
    if have < 4 {
        return Err(ParseError::TooShort { offset: 0, needed: 4, have });
    }
    proof {
        assert(ELF_MAGIC@ =~= seq![0x7fu8, 0x45u8, 0x4cu8, 0x46u8]);
    }
    if data[0] != ELF_MAGIC[0] || data[1] != ELF_MAGIC[1] || data[2] != ELF_MAGIC[2] || data[3]
        != ELF_MAGIC[3] {
        proof {
            assert(data@.take(4)[0] == data@[0]);
            assert(data@.take(4)[1] == data@[1]);
            assert(data@.take(4)[2] == data@[2]);
            assert(data@.take(4)[3] == data@[3]);
        }
        return Err(ParseError::BadElfMagic);
    }
    proof {
        assert(data@.take(4) =~= ELF_MAGIC@);
    }
    if have <= EI_CLASS {
        return Err(ParseError::TooShort { offset: EI_CLASS, needed: 1, have });
    }
    let class = data[EI_CLASS];
    if class != 1 && class != 2 {
        return Err(ParseError::UnsupportedElfClass(class));
    }
    if have > EI_DATA && data[EI_DATA] == 2 {
        return Err(ParseError::UnsupportedElfEndian);
    }
    Ok(class == 2)
}

fn read_header(data: &[u8]) -> (r: Result<(bool, u16, u16, Header), ParseError>)
    ensures
        match r {
            Ok((wide, kind, machine, h)) => header_error(data@) is None && wide == is_wide_file(
                data@,
            ) && kind == le(data@, 16, 2) && machine == le(data@, 18, 2) && h == header_of(data@),
            Err(e) => header_error(data@) == Some(e),
        },
{
    let is64 = match check_ident(data) {
        Ok(w) => w,
        Err(e) => {
            return Err(e);
        },
    };
    let reader = ByteReader::new(data);
    let kind = match reader.u16_at(16) {
        Ok(v) => v,
        Err(e) => {
            return Err(e);
        },
    };
    let machine = match reader.u16_at(18) {
        Ok(v) => v,
        Err(e) => {
            return Err(e);
        },
    };
    if is64 {
        let entry = match reader.u64_at(24) {
            Ok(v) => v,
            Err(e) => {
                return Err(e);
            },
        };
        let table = match reader.u64_at(40) {
            Ok(v) => v,
            Err(e) => {
                return Err(e);
            },
        };
        let entry_size = match reader.u16_at(58) {
            Ok(v) => v,
            Err(e) => {
                return Err(e);
            },
        };
        let count = match reader.u16_at(60) {
            Ok(v) => v,
            Err(e) => {
                return Err(e);
            },
        };
        let names_index = match reader.u16_at(62) {
            Ok(v) => v,
            Err(e) => {
                return Err(e);
            },
        };
        Ok((true, kind, machine, Header { entry, table, entry_size, count, names_index }))
    } else {
        let entry = match reader.u32_at(24) {
            Ok(v) => v as u64,
            Err(e) => {
                return Err(e);
            },
        };
        let table = match reader.u32_at(32) {
            Ok(v) => v as u64,
            Err(e) => {
                return Err(e);
            },
        };
        let entry_size = match reader.u16_at(46) {
            Ok(v) => v,
            Err(e) => {
                return Err(e);
            },
        };
        let count = match reader.u16_at(48) {
            Ok(v) => v,
            Err(e) => {
                return Err(e);
            },
        };
        let names_index = match reader.u16_at(50) {
            Ok(v) => v,
            Err(e) => {
                return Err(e);
            },
        };
        Ok((false, kind, machine, Header { entry, table, entry_size, count, names_index }))
    }
}

/// Parses a Linux or Unix executable. It fails where the header is not all in
/// the file or is no header; the structures behind it are read as far as they
/// go.
pub fn parse(data: &[u8]) -> (r: Result<Binary, ParseError>)
    ensures
        match r {
            Ok(b) => elf_of(data@) == Ok::<BinaryModel, ParseError>(b.deep_view()),
            Err(e) => elf_of(data@) == Err::<BinaryModel, ParseError>(e),
        },
{
    let (is64, kind, machine, h) = match read_header(data) {
        Ok(v) => v,
        Err(e) => {
            return Err(e);
        },
    };
    let reader = ByteReader::new(data);
    let headers = read_headers(&reader, is64, h.table, h.entry_size, h.count);
    let names: u64 = match nth_header(&headers, h.names_index as u32) {
        Some(s) => s.offset,
        None => 0,
    };
    let sections = read_sections(data, &headers, names);
    let image_base = lowest_address(&sections);
    let imports = parse_dynamic_imports(data, &headers, is64);
    let attributes = notes(kind, &headers);
    let strings = scan(data, MIN_STRING);
    let b = Binary {
        format: Format::Elf,
        arch: machine_name(machine),
        bits: if is64 {
            64
        } else {
            32
        },
        kind: elf_kind(kind),
        attributes,
        entry_point: h.entry,
        image_base,
        sections,
        imports,
        exports: Vec::new(),
        overlay: None,
        pe_meta: None,
        strings,
    };
    proof {
        assert(models(b.exports@) =~= Seq::<crate::binary::ExportModel>::empty());
    }
    Ok(b)
}

/// A file is called no Linux or Unix executable for its magic exactly where its
/// first four bytes are another's.
pub proof fn law_elf_magic_decides(data: Seq<u8>)
    ensures
        elf_of(data) == Err::<BinaryModel, ParseError>(ParseError::BadElfMagic) <==> data.len() >= 4
            && data.take(4) != ELF_MAGIC@,
{
}

} // verus!
