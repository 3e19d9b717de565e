//! What holds of every section table, and of every number that is read.
use crate::binary::{
    clamped, described_end, entropy_reading, file_offset_of, functions_among, holds_address, lesser,
    overlay_of, packed, packed_among, section_holding, section_index_from, total_functions,
    ImportModel, ImportedFnModel, SectionModel,
};
use crate::entropy::Entropy;
use crate::imports::{mapped, string_bytes, string_end};
use crate::picks::{lemma_picks_last, lemma_picks_none, picks};
use crate::reader::{le, read, read_or_zero};
use vstd::prelude::*;

verus! {

// ---------------------------------------------------------------------------
// Numbers
// ---------------------------------------------------------------------------

/// Numbers are little-endian, and come to zero where the file ends before they
/// do.
pub proof fn law_numbers_are_little_endian(data: Seq<u8>, at: int)
    ensures
        0 <= at && at + 2 <= data.len() ==> read_or_zero(data, at, 2) == data[at] + 0x100 * data[at
            + 1] && read(data, at, 2) == Some(read_or_zero(data, at, 2)),
        0 <= at && at + 4 <= data.len() ==> read_or_zero(data, at, 4) == data[at] + 0x100 * data[at
            + 1] + 0x1_0000 * data[at + 2] + 0x100_0000 * data[at + 3] && read(data, at, 4) == Some(
            read_or_zero(data, at, 4),
        ),
        0 <= at && at + 8 <= data.len() ==> read_or_zero(data, at, 8) == read_or_zero(data, at, 4)
            + 0x1_0000_0000 * read_or_zero(data, at + 4, 4),
        at + 2 > data.len() ==> read_or_zero(data, at, 2) == 0 && read(data, at, 2) is None,
        at + 4 > data.len() ==> read_or_zero(data, at, 4) == 0 && read(data, at, 4) is None,
        at + 8 > data.len() ==> read_or_zero(data, at, 8) == 0,
{
    reveal_with_fuel(le, 9);
}

// ---------------------------------------------------------------------------
// Sections
// ---------------------------------------------------------------------------

/// Is the section at place `i` the first that holds the address? A section goes as
/// far as the greater of its sizes.
pub open spec fn first_holding(secs: Seq<SectionModel>, va: int, i: int) -> bool {
    &&& 0 <= i < secs.len()
    &&& secs[i].virtual_addr <= va
    &&& va < secs[i].virtual_addr + secs[i].virtual_size || va < secs[i].virtual_addr
        + secs[i].file_size
    &&& forall|j: int|
        0 <= j < i ==> va < (#[trigger] secs[j]).virtual_addr || (va >= secs[j].virtual_addr
            + secs[j].virtual_size && va >= secs[j].virtual_addr + secs[j].file_size)
}

proof fn lemma_index(secs: Seq<SectionModel>, va: int, i: int)
    requires
        0 <= i <= secs.len(),
        forall|j: int| 0 <= j < i ==> !holds_address(#[trigger] secs[j], va),
    ensures
        match section_index_from(secs, va, i) {
            Some(k) => first_holding(secs, va, k),
            None => forall|j: int| 0 <= j < secs.len() ==> !holds_address(#[trigger] secs[j], va),
        },
    decreases secs.len() - i,
{
    if i < secs.len() && !holds_address(secs[i], va) {
        lemma_index(secs, va, i + 1);
    }
}

/// An address belongs to the first section that holds it, and to none where none
/// does.
pub proof fn law_first_section_holds(secs: Seq<SectionModel>, va: int)
    ensures
        match section_holding(secs, va) {
            Some(s) => exists|i: int| #[trigger] first_holding(secs, va, i) && secs[i] == s,
            None => forall|i: int| !#[trigger] first_holding(secs, va, i),
        },
        forall|i: int| #[trigger]
            first_holding(secs, va, i) ==> section_holding(secs, va) == Some(secs[i]),
{
    lemma_index(secs, va, 0);
    assert forall|i: int| #[trigger] first_holding(secs, va, i) implies section_holding(secs, va)
        == Some(secs[i]) by {
        assert(holds_address(secs[i], va));
        let k = section_index_from(secs, va, 0)->0;
        assert(first_holding(secs, va, k));
        assert(holds_address(secs[k], va));
        if k < i {
            assert(va < secs[k].virtual_addr || (va >= secs[k].virtual_addr
                + secs[k].virtual_size && va >= secs[k].virtual_addr + secs[k].file_size));
        }
        if i < k {
            assert(va < secs[i].virtual_addr || (va >= secs[i].virtual_addr
                + secs[i].virtual_size && va >= secs[i].virtual_addr + secs[i].file_size));
        }
    }
}

/// An address is at its distance from the start of its section, in memory as in
/// the file. Code is looked for only where the section has bytes in the file.
pub proof fn law_addresses_keep_their_distance(secs: Seq<SectionModel>, va: int, i: int)
    requires
        first_holding(secs, va, i),
        secs[i].file_offset + (va - secs[i].virtual_addr) <= usize::MAX,
    ensures
        mapped(secs, va) == Some((secs[i].file_offset + (va - secs[i].virtual_addr)) as usize),
        va - secs[i].virtual_addr < secs[i].file_size ==> file_offset_of(secs, va) == Some(
            (secs[i].file_offset + (va - secs[i].virtual_addr)) as usize,
        ),
        va - secs[i].virtual_addr >= secs[i].file_size ==> file_offset_of(secs, va) is None,
{
    law_first_section_holds(secs, va);
}

/// An address that no section holds is nowhere in the file.
pub proof fn law_unheld_addresses_are_nowhere(secs: Seq<SectionModel>, va: int)
    requires
        forall|i: int| !#[trigger] first_holding(secs, va, i),
    ensures
        mapped(secs, va) is None,
        file_offset_of(secs, va) is None,
{
    law_first_section_holds(secs, va);
}

/// The bytes of a section in the file, as far as the file goes.
pub open spec fn on_disk(file: Seq<u8>, s: SectionModel) -> Seq<u8> {
    if s.file_offset >= file.len() {
        Seq::empty()
    } else if s.file_offset + s.file_size > file.len() {
        file.skip(s.file_offset as int)
    } else {
        file.subrange(s.file_offset as int, s.file_offset + s.file_size)
    }
}

/// The bytes of a section are those of the file from its offset on, as many as
/// its size says and the file has.
pub proof fn law_on_disk_bytes(file: Seq<u8>, s: SectionModel)
    ensures
        clamped(file, s.file_offset as int, s.file_size as int) == on_disk(file, s),
{
    assert(clamped(file, s.file_offset as int, s.file_size as int) =~= on_disk(file, s));
}

/// A string is what stands in the file up to the first zero byte, the end of the
/// file, or the greatest length, whichever comes first.
pub proof fn law_strings_end_at_zero(data: Seq<u8>, at: int)
    requires
        0 <= at <= data.len(),
    ensures
        ({
            let s = string_bytes(data, at);
            &&& at + s.len() <= data.len()
            &&& s == data.subrange(at, at + s.len())
            &&& s.len() <= 256
            &&& forall|i: int| 0 <= i < s.len() ==> #[trigger] s[i] != 0
            &&& s.len() == 256 || at + s.len() == data.len() || data[at + s.len()] == 0
        }),
{
    if at < data.len() {
        let limit = lesser(at + 256, data.len() as int);
        lemma_string_end(data, at, limit);
        let s = string_bytes(data, at);
        assert forall|i: int| 0 <= i < s.len() implies #[trigger] s[i] != 0 by {
            assert(data[at + i] != 0);
        }
    } else {
        assert(string_bytes(data, at) =~= data.subrange(at, at));
    }
}

proof fn lemma_string_end(data: Seq<u8>, i: int, limit: int)
    requires
        0 <= i <= limit <= data.len(),
    ensures
        ({
            let e = string_end(data, i, limit);
            &&& i <= e <= limit
            &&& forall|k: int| i <= k < e ==> #[trigger] data[k] != 0
            &&& e == limit || data[e] == 0
        }),
    decreases limit - i,
{
    if i < limit && data[i] != 0 {
        lemma_string_end(data, i + 1, limit);
    }
}

// ---------------------------------------------------------------------------
// Packed sections and imports
// ---------------------------------------------------------------------------

/// Is the section executable, and are its bytes as good as random: 7 bits of
/// entropy for each byte, or more?
pub open spec fn looks_packed(s: SectionModel) -> bool {
    s.executable && s.entropy.bits() >= 0x401c_0000_0000_0000
}

proof fn lemma_packed(secs: Seq<SectionModel>, n: int) -> (places: Seq<int>)
    requires
        0 <= n <= secs.len(),
    ensures
        picks(places, 0, n, |i: int| looks_packed(secs[i])),
        packed_among(secs, n).len() == places.len(),
        forall|j: int| 0 <= j < places.len() ==> #[trigger] packed_among(secs, n)[j] == secs[places[j]],
    decreases n,
{
    let holds = |i: int| looks_packed(secs[i]);
    if n <= 0 {
        lemma_picks_none(0, n, holds);
        Seq::empty()
    } else {
        let places = lemma_packed(secs, n - 1);
        assert(picks(places, 0, n - 1, holds));
        lemma_picks_last(places, 0, n, holds);
        if holds(n - 1) {
            places.push(n - 1)
        } else {
            places
        }
    }
}

/// The packed sections are the executable ones of high entropy: all of them, in
/// order.
pub proof fn law_packed_sections_are_dense_code(secs: Seq<SectionModel>) -> (places: Seq<int>)
    ensures
        picks(places, 0, secs.len() as int, |i: int| looks_packed(secs[i])),
        packed(secs).len() == places.len(),
        forall|j: int| 0 <= j < places.len() ==> #[trigger] packed(secs)[j] == secs[places[j]],
{
    lemma_packed(secs, secs.len() as int)
}

/// Entropy is read by five ranges: from 7.5 bits on, from 7, from 5, from 1, and
/// below.
pub proof fn law_entropy_is_read_by_ranges(e: Entropy)
    ensures
        e.bits() >= 0x401e_0000_0000_0000 ==> entropy_reading(e) == "packed/encrypted?"@,
        0x401c_0000_0000_0000 <= e.bits() < 0x401e_0000_0000_0000 ==> entropy_reading(e)
            == "compressed?"@,
        0x4014_0000_0000_0000 <= e.bits() < 0x401c_0000_0000_0000 ==> entropy_reading(e)
            == "code/data"@,
        0x3ff0_0000_0000_0000 <= e.bits() < 0x4014_0000_0000_0000 ==> entropy_reading(e)
            == "structured"@,
        e.bits() < 0x3ff0_0000_0000_0000 ==> entropy_reading(e) == "uniform/empty"@,
{
}

proof fn lemma_functions(imports: Seq<ImportModel>, n: int)
    requires
        0 <= n <= imports.len(),
    ensures
        functions_among(imports, n) == Seq::new(
            n as nat,
            |i: int| imports[i].functions,
        ).flatten().len(),
    decreases n,
{
    let all = Seq::new(n as nat, |i: int| imports[i].functions);
    if n > 0 {
        lemma_functions(imports, n - 1);
        let before = Seq::new((n - 1) as nat, |i: int| imports[i].functions);
        assert(all =~= before.push(imports[n - 1].functions));
        before.lemma_flatten_push(imports[n - 1].functions);
    } else {
        assert(all.flatten() =~= Seq::<ImportedFnModel>::empty());
    }
}

/// The imported functions are counted over all libraries.
pub proof fn law_functions_of_all_libraries_count(imports: Seq<ImportModel>)
    ensures
        ({
            let all = Seq::new(imports.len(), |i: int| imports[i].functions).flatten();
            &&& all.len() <= usize::MAX ==> total_functions(imports) == all.len()
            &&& all.len() > usize::MAX ==> total_functions(imports) == usize::MAX
        }),
{
    lemma_functions(imports, imports.len() as int);
}

// ---------------------------------------------------------------------------
// The overlay
// ---------------------------------------------------------------------------

/// Is this where the last section with bytes in the file ends, or zero where
/// there is none?
pub open spec fn is_last_end(secs: Seq<SectionModel>, end: int) -> bool {
    &&& forall|i: int|
        0 <= i < secs.len() && (#[trigger] secs[i]).file_size > 0 ==> secs[i].file_offset
            + secs[i].file_size <= end
    &&& end == 0 || exists|i: int|
        0 <= i < secs.len() && (#[trigger] secs[i]).file_size > 0 && secs[i].file_offset
            + secs[i].file_size == end
}

proof fn lemma_described(secs: Seq<SectionModel>, end: int, n: int)
    requires
        0 <= n <= secs.len(),
        end <= u64::MAX,
        forall|i: int|
            0 <= i < secs.len() && (#[trigger] secs[i]).file_size > 0 ==> secs[i].file_offset
                + secs[i].file_size <= end,
    ensures
        0 <= described_end(secs, n),
        forall|i: int|
            0 <= i < n && (#[trigger] secs[i]).file_size > 0 ==> secs[i].file_offset
                + secs[i].file_size <= described_end(secs, n),
        described_end(secs, n) == 0 || described_end(secs, n) <= end,
    decreases n,
{
    if n > 0 {
        lemma_described(secs, end, n - 1);
        assert(secs[n - 1].file_size > 0 ==> secs[n - 1].file_offset + secs[n - 1].file_size
            <= end);
    }
}

/// The overlay is what stands behind the last section, up to the signature where
/// one stands behind it, else up to the end of the file. There is one exactly
/// where that is not empty and some section has bytes in the file.
pub proof fn law_overlay_is_the_rest_of_the_file(
    len: int,
    secs: Seq<SectionModel>,
    signature: Option<(u64, u64)>,
    start: int,
    end: int,
)
    requires
        is_last_end(secs, start),
        0 <= start <= u64::MAX,
        match signature {
            Some((offset, size)) => if size > 0 && offset >= start && offset < len {
                end == offset
            } else {
                end == len
            },
            None => end == len,
        },
    ensures
        start == 0 || start >= end ==> overlay_of(len, secs, signature) is None,
        0 < start < end ==> overlay_of(len, secs, signature) == Some((start, end - start)),
{
    let n = secs.len() as int;
    lemma_described(secs, start, n);
    if start > 0 {
        let i = choose|i: int|
            0 <= i < secs.len() && (#[trigger] secs[i]).file_size > 0 && secs[i].file_offset
                + secs[i].file_size == start;
        assert(secs[i].file_offset + secs[i].file_size <= described_end(secs, n));
    }
}

} // verus!
