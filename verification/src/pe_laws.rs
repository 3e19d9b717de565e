//! What holds of every Windows executable.
use crate::binary::{overlay_of, BinaryModel, Format, SectionModel};
use crate::error::ParseError;
use crate::exports::{callbacks_at, exports_at};
use crate::imports::{imports_at, lossy, mapped, string_end};
use crate::pe::{
    debug_type, directory, dll_flags, field_text, file_flags, flags_upto, image_of, meta_of, optional_at,
    pe_of, repro_marked, section_error, signature_of, table_error, DLL_FLAGS, FILE_FLAGS,
};
use crate::picks::{lemma_picks_last, lemma_picks_none, picks};
use crate::reader::{le, read_or_zero};
use crate::strings::scan_of;
use vstd::prelude::*;

verus! {

/// Where the file header stands: behind the signature, whose place the DOS header
/// gives.
pub open spec fn file_header_at(data: Seq<u8>) -> int {
    read_or_zero(data, 60, 4) + 4
}

/// Where the optional header stands, behind the 20 bytes of the file header.
pub open spec fn optional_header_at(data: Seq<u8>) -> int {
    file_header_at(data) + 20
}

/// Where the section table stands, behind the optional header.
pub open spec fn section_table_at(data: Seq<u8>) -> int {
    optional_header_at(data) + read_or_zero(data, file_header_at(data) + 16, 2)
}

/// The number of sections.
pub open spec fn section_count(data: Seq<u8>) -> int {
    read_or_zero(data, file_header_at(data) + 2, 2)
}

/// Is it an image of 64 bits?
pub open spec fn is_image64(data: Seq<u8>) -> bool {
    read_or_zero(data, optional_header_at(data), 2) == 0x20b
}

/// Does the file have all of what an image needs: both magics, the headers, and
/// 40 bytes for each section?
pub open spec fn is_whole_image(data: Seq<u8>) -> bool {
    &&& data.len() >= 64
    &&& read_or_zero(data, 0, 2) == 0x5a4d
    &&& file_header_at(data) <= data.len()
    &&& read_or_zero(data, file_header_at(data) - 4, 4) == 0x4550
    &&& optional_header_at(data) + 32 <= data.len()
    &&& is_image64(data) || read_or_zero(data, optional_header_at(data), 2) == 0x10b
    &&& section_count(data) > 0 ==> section_table_at(data) + 40 * section_count(data) <= data.len()
}

proof fn lemma_bounds(data: Seq<u8>, at: int)
    ensures
        0 <= le(data, at, 2) <= 0xffff,
        0 <= le(data, at, 4) <= 0xffff_ffff,
        0 <= le(data, at, 8) <= 0xffff_ffff_ffff_ffff,
{
    reveal_with_fuel(le, 9);
}

proof fn lemma_table(data: Seq<u8>, table: int, n: int)
    requires
        0 <= table,
        0 <= n,
    ensures
        table_error(data, table, n) is None <==> n == 0 || table + 40 * n <= data.len(),
    decreases n,
{
    if n > 0 {
        lemma_table(data, table, n - 1);
        assert(section_error(data, table + (n - 1) * 40) is None <==> table + (n - 1) * 40 + 40
            <= data.len());
    }
}

/// A file is read as an image exactly where it has all of what one needs.
#[verifier::rlimit(50)]
pub proof fn law_whole_images_are_read(data: Seq<u8>)
    ensures
        pe_of(data) is Ok <==> is_whole_image(data),
        pe_of(data) is Ok ==> pe_of(data) == Ok::<BinaryModel, ParseError>(image_of(data)),
{
    let coff = file_header_at(data);
    lemma_bounds(data, 60);
    lemma_bounds(data, coff + 2);
    lemma_bounds(data, coff + 16);
    lemma_table(data, section_table_at(data), section_count(data));
}

/// Is this the section that 40 bytes of the table describe?
pub open spec fn is_section(data: Seq<u8>, at: int, s: SectionModel) -> bool {
    let flags = read_or_zero(data, at + 36, 4);
    &&& s.name == field_text(data.subrange(at, at + 8))
    &&& s.virtual_size == read_or_zero(data, at + 8, 4)
    &&& s.virtual_addr == read_or_zero(data, at + 12, 4)
    &&& s.file_size == read_or_zero(data, at + 16, 4)
    &&& s.file_offset == read_or_zero(data, at + 20, 4)
    &&& s.executable == ((flags / 0x2000_0000) % 2 == 1)
    &&& s.readable == ((flags / 0x4000_0000) % 2 == 1)
    &&& s.writable == ((flags / 0x8000_0000) % 2 == 1)
}

/// An image has one section for each entry of its section table, in order, with
/// the fields of the entry.
pub proof fn law_one_section_for_each_entry(data: Seq<u8>)
    requires
        is_whole_image(data),
    ensures
        image_of(data).sections.len() == section_count(data),
        forall|i: int|
            0 <= i < section_count(data) ==> is_section(
                data,
                section_table_at(data) + 40 * i,
                #[trigger] image_of(data).sections[i],
            ),
{
    lemma_bounds(data, 60);
    lemma_bounds(data, file_header_at(data) + 2);
    lemma_bounds(data, file_header_at(data) + 16);
    assert forall|i: int| 0 <= i < section_count(data) implies is_section(
        data,
        section_table_at(data) + 40 * i,
        #[trigger] image_of(data).sections[i],
    ) by {
        let at = section_table_at(data) + 40 * i;
        lemma_bounds(data, at + 8);
        lemma_bounds(data, at + 12);
        lemma_bounds(data, at + 16);
        lemma_bounds(data, at + 20);
        assert(40 * i == i * 40);
    }
}

/// A directory of an image: an address and a size, or zeros where the image has
/// fewer directories.
pub open spec fn is_directory(data: Seq<u8>, index: int, rva: int, size: int) -> bool {
    let count = if is_image64(data) {
        optional_header_at(data) + 108
    } else {
        optional_header_at(data) + 92
    };
    &&& index < read_or_zero(data, count, 4) ==> {
        &&& rva == read_or_zero(data, count + 4 + 8 * index, 4)
        &&& size == read_or_zero(data, count + 8 + 8 * index, 4)
    }
    &&& index >= read_or_zero(data, count, 4) ==> rva == 0 && size == 0
}

/// Directories are found by their number.
pub proof fn law_directories_go_by_number(data: Seq<u8>, index: int, rva: int, size: int)
    requires
        is_whole_image(data),
        0 <= index,
        is_directory(data, index, rva, size),
    ensures
        directory(data, index) == (rva, size),
{
    assert(8 * index == index * 8);
}

/// The header fields of an image: the address at which it starts and its base.
pub proof fn law_image_header_fields(data: Seq<u8>)
    requires
        is_whole_image(data),
    ensures
        ({
            let b = image_of(data);
            let opt = optional_header_at(data);
            &&& b.entry_point == read_or_zero(data, opt + 16, 4)
            &&& is_image64(data) ==> b.bits == 64 && b.image_base == read_or_zero(data, opt + 24, 8)
            &&& !is_image64(data) ==> b.bits == 32 && b.image_base == read_or_zero(
                data,
                opt + 28,
                4,
            )
            &&& b.kind == (if (read_or_zero(data, file_header_at(data) + 18, 2) / 0x2000) % 2 == 1 {
                "DLL"@
            } else {
                "executable"@
            })
        }),
{
    lemma_bounds(data, 60);
    lemma_bounds(data, file_header_at(data) + 2);
    lemma_bounds(data, optional_header_at(data) + 16);
    lemma_bounds(data, optional_header_at(data) + 24);
    lemma_bounds(data, optional_header_at(data) + 28);
}

/// The architecture goes by the machine number.
pub proof fn law_machines_are_named(data: Seq<u8>)
    requires
        is_whole_image(data),
    ensures
        ({
            let machine = read_or_zero(data, file_header_at(data), 2);
            let arch = image_of(data).arch;
            &&& machine == 0x014c ==> arch == "x86 (I386)"@
            &&& machine == 0x8664 ==> arch == "x86-64 (AMD64)"@
            &&& machine == 0xaa64 ==> arch == "ARM64"@
            &&& machine == 0x01c0 || machine == 0x01c4 ==> arch == "ARM"@
            &&& !(machine == 0x014c || machine == 0x8664 || machine == 0xaa64 || machine == 0x01c0
                || machine == 0x01c4) ==> arch == "unknown"@
        }),
{
    lemma_bounds(data, file_header_at(data));
}

/// The subsystem goes by its number.
pub proof fn law_subsystems_are_named(data: Seq<u8>)
    ensures
        ({
            let n = read_or_zero(data, optional_at(data) + 68, 2);
            let name = meta_of(data).subsystem;
            &&& n == 1 ==> name == "native (driver / no subsystem)"@
            &&& n == 2 ==> name == "Windows GUI"@
            &&& n == 3 ==> name == "Windows console"@
            &&& n == 5 ==> name == "OS/2 console"@
            &&& n == 7 ==> name == "POSIX console"@
            &&& n == 9 ==> name == "Windows CE GUI"@
            &&& n == 10 ==> name == "EFI application"@
            &&& n == 11 ==> name == "EFI boot service driver"@
            &&& n == 12 ==> name == "EFI runtime driver"@
            &&& n == 13 ==> name == "EFI ROM"@
            &&& n == 14 ==> name == "Xbox"@
            &&& n == 16 ==> name == "Windows boot application"@
            &&& !(n == 1 || n == 2 || n == 3 || n == 5 || n == 7 || 9 <= n <= 14 || n == 16) ==> name
                == "unknown"@
        }),
{
    lemma_bounds(data, optional_at(data) + 68);
}

/// What an image imports, exports and calls early is read from the directories of
/// that number: imports from the second, exports from the first, and so on.
#[verifier::rlimit(50)]
pub proof fn law_tables_are_found_by_their_directories(data: Seq<u8>)
    requires
        is_whole_image(data),
    ensures
        ({
            let b = image_of(data);
            let meta = b.pe_meta->0;
            let secs = b.sections;
            &&& b.imports == imports_at(data, secs, is_image64(data), directory(data, 1).0 as u32)
            &&& b.exports == exports_at(data, secs, directory(data, 0).0, directory(data, 0).1)
            &&& b.pe_meta is Some
            &&& meta.has_resources <==> directory(data, 2).0 != 0
            &&& meta.signed <==> directory(data, 4).0 != 0 && directory(data, 4).1 != 0
            &&& meta.is_dotnet <==> directory(data, 14).0 != 0
            &&& meta.tls_callbacks == callbacks_at(
                data,
                secs,
                is_image64(data),
                directory(data, 9).0,
                b.image_base as int,
            )
            &&& meta.timestamp == read_or_zero(data, file_header_at(data) + 4, 4)
            &&& meta.reproducible_build <==> directory(data, 6).0 != 0 && mapped(
                secs,
                directory(data, 6).0,
            ) is Some && exists|i: int|
                0 <= i < 64 && i < directory(data, 6).1 / 28 && #[trigger] read_or_zero(
                    data,
                    mapped(secs, directory(data, 6).0)->0 + 28 * i + 12,
                    4,
                ) == 16
        }),
{
    let secs = image_of(data).sections;
    let (rva, size) = directory(data, 6);
    lemma_bounds(data, file_header_at(data) + 4);
    if mapped(secs, rva) is Some {
        let base = mapped(secs, rva)->0 as int;
        assert forall|i: int| #[trigger] debug_type(data, base, i) == read_or_zero(
            data,
            base + 28 * i + 12,
            4,
        ) by {
            assert(28 * i == i * 28);
        }
        if repro_marked(data, secs, rva, size) {
            let i = choose|i: int|
                0 <= i < 64 && i < size / 28 && #[trigger] debug_type(data, base, i) == 16;
            assert(read_or_zero(data, base + 28 * i + 12, 4) == 16);
        }
        if exists|i: int|
            0 <= i < 64 && i < size / 28 && #[trigger] read_or_zero(data, base + 28 * i + 12, 4)
                == 16 {
            let i = choose|i: int|
                0 <= i < 64 && i < size / 28 && #[trigger] read_or_zero(
                    data,
                    base + 28 * i + 12,
                    4,
                ) == 16;
            assert(debug_type(data, base, i) == 16);
        }
    }
}

proof fn lemma_flags(table: Seq<(u64, &'static str)>, c: int, n: int) -> (places: Seq<int>)
    requires
        0 <= n <= table.len(),
    ensures
        picks(places, 0, n, |i: int| (c / table[i].0 as int) % 2 == 1),
        flags_upto(table, c, n).len() == places.len(),
        forall|j: int|
            0 <= j < places.len() ==> #[trigger] flags_upto(table, c, n)[j] == table[places[j]].1@,
    decreases n,
{
    let holds = |i: int| (c / table[i].0 as int) % 2 == 1;
    if n <= 0 {
        lemma_picks_none(0, n, holds);
        Seq::empty()
    } else {
        let places = lemma_flags(table, c, n - 1);
        assert(picks(places, 0, n - 1, holds));
        lemma_picks_last(places, 0, n, holds);
        if holds(n - 1) {
            places.push(n - 1)
        } else {
            places
        }
    }
}

/// The mitigations of an image are those whose bit is set: all of them, in the
/// order of the table.
pub proof fn law_mitigations_are_the_bits_set(c: int) -> (places: Seq<int>)
    ensures
        picks(places, 0, 9, |i: int| (c / DLL_FLAGS@[i].0 as int) % 2 == 1),
        dll_flags(c).len() == places.len(),
        forall|j: int| 0 <= j < places.len() ==> #[trigger] dll_flags(c)[j] == DLL_FLAGS@[places[j]].1@,
{
    lemma_flags(DLL_FLAGS@, c, 9)
}

/// The attributes of an image are those whose bit is set: all of them, in the
/// order of the table.
pub proof fn law_attributes_are_the_bits_set(c: int) -> (places: Seq<int>)
    ensures
        picks(places, 0, 5, |i: int| (c / FILE_FLAGS@[i].0 as int) % 2 == 1),
        file_flags(c).len() == places.len(),
        forall|j: int|
            0 <= j < places.len() ==> #[trigger] file_flags(c)[j] == FILE_FLAGS@[places[j]].1@,
{
    lemma_flags(FILE_FLAGS@, c, 5)
}

/// The flags are read from the headers, and each has its bit.
pub proof fn law_flags_have_their_bits(data: Seq<u8>)
    requires
        is_whole_image(data),
    ensures
        image_of(data).attributes == file_flags(read_or_zero(data, file_header_at(data) + 18, 2)),
        image_of(data).pe_meta->0.dll_characteristics == dll_flags(
            read_or_zero(data, optional_header_at(data) + 70, 2),
        ),
        DLL_FLAGS@[0] == (0x20u64, "HIGH_ENTROPY_VA"),
        DLL_FLAGS@[1] == (0x40u64, "ASLR"),
        DLL_FLAGS@[2] == (0x80u64, "FORCE_INTEGRITY"),
        DLL_FLAGS@[3] == (0x100u64, "DEP"),
        DLL_FLAGS@[4] == (0x400u64, "NO_SEH"),
        DLL_FLAGS@[5] == (0x1000u64, "APPCONTAINER"),
        DLL_FLAGS@[6] == (0x2000u64, "WDM_DRIVER"),
        DLL_FLAGS@[7] == (0x4000u64, "CFG"),
        DLL_FLAGS@[8] == (0x8000u64, "TERMINAL_SERVER_AWARE"),
        FILE_FLAGS@[0] == (0x2u64, "EXECUTABLE_IMAGE"),
        FILE_FLAGS@[1] == (0x2000u64, "DLL"),
        FILE_FLAGS@[2] == (0x20u64, "LARGE_ADDRESS_AWARE"),
        FILE_FLAGS@[3] == (0x100u64, "32BIT_MACHINE"),
        FILE_FLAGS@[4] == (0x1u64, "RELOCS_STRIPPED"),
{
}

/// The signature that the overlay stops at is the one that the certificate
/// directory gives.
pub proof fn law_signatures_are_certificates(data: Seq<u8>)
    ensures
        directory(data, 4).0 != 0 && directory(data, 4).1 != 0 ==> signature_of(data) == Some(
            (directory(data, 4).0 as u64, directory(data, 4).1 as u64),
        ),
        directory(data, 4).0 == 0 || directory(data, 4).1 == 0 ==> signature_of(data) is None,
{
}

/// The overlay of an image stands behind its sections, and its strings are those
/// of the whole file, five characters or longer.
pub proof fn law_images_are_seen_whole(data: Seq<u8>)
    ensures
        match overlay_of(data.len() as int, image_of(data).sections, signature_of(data)) {
            Some((start, size)) => image_of(data).overlay matches Some(o) && o.file_offset
                == start as u64 && o.size == size as u64,
            None => image_of(data).overlay is None,
        },
        image_of(data).strings == scan_of(data, 5),
        image_of(data).format == Format::Pe,
{
}

/// The name of a section is what stands in its field up to the first zero byte.
pub proof fn law_names_end_at_zero(raw: Seq<u8>, n: int)
    requires
        0 <= n <= raw.len(),
        forall|i: int| 0 <= i < n ==> #[trigger] raw[i] != 0,
        n == raw.len() || raw[n] == 0,
    ensures
        field_text(raw) == lossy(raw.take(n)),
{
    lemma_field_end(raw, 0, n);
}

proof fn lemma_field_end(raw: Seq<u8>, i: int, n: int)
    requires
        0 <= i <= n <= raw.len(),
        forall|k: int| i <= k < n ==> #[trigger] raw[k] != 0,
        n == raw.len() || raw[n] == 0,
    ensures
        string_end(raw, i, raw.len() as int) == n,
    decreases n - i,
{
    if i < n {
        lemma_field_end(raw, i + 1, n);
    }
}

} // verus!
