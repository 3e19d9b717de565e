//! What holds of every import table, export directory and list of TLS callbacks.
use crate::binary::{lesser, ExportModel, ImportModel, ImportedFnModel, SectionModel};
use crate::exports::{
    callbacks_at, callbacks_from, exports_at, exports_from, names_at, names_from, string_of,
};
use crate::imports::{
    descriptor_field, function_of_thunk, functions_at, imports_at, imports_from, mapped, slot_of,
    string_at, thunks_from,
};
use crate::picks::{lemma_picks_first, lemma_picks_none, picks};
use crate::reader::{le, read, read_or_zero};
use crate::text::dec;
use vstd::prelude::*;

verus! {

// ---------------------------------------------------------------------------
// Libraries
// ---------------------------------------------------------------------------

/// A 32-bit number of the descriptor at place `i` of the import table: each
/// descriptor has 20 bytes.
pub open spec fn of_descriptor(data: Seq<u8>, table: int, i: int, field: int) -> int {
    read_or_zero(data, table + 20 * i + field, 4)
}

/// Does the import table end at place `i`: with a descriptor without names, name
/// and slots, or with one whose name lies in no section?
pub open spec fn ends_libraries(
    data: Seq<u8>,
    secs: Seq<SectionModel>,
    table: int,
    i: int,
) -> bool {
    ||| of_descriptor(data, table, i, 0) == 0 && of_descriptor(data, table, i, 12) == 0
        && of_descriptor(data, table, i, 16) == 0
    ||| mapped(secs, of_descriptor(data, table, i, 12)) is None
}

/// Is this the number of descriptors before the end of the table, 1024 at most?
pub open spec fn library_count(
    data: Seq<u8>,
    secs: Seq<SectionModel>,
    table: int,
    k: int,
) -> bool {
    &&& 0 <= k <= 1024
    &&& forall|i: int| 0 <= i < k ==> !#[trigger] ends_libraries(data, secs, table, i)
    &&& k == 1024 || ends_libraries(data, secs, table, k)
}

/// Is this the library of a descriptor? Its name is what the descriptor points
/// to. Its functions are read from the table of names where there is one, else
/// from that of slots.
pub open spec fn is_library(
    data: Seq<u8>,
    secs: Seq<SectionModel>,
    wide: bool,
    table: int,
    i: int,
    lib: ImportModel,
) -> bool {
    let names = of_descriptor(data, table, i, 0);
    let slots = of_descriptor(data, table, i, 16);
    &&& mapped(secs, of_descriptor(data, table, i, 12)) matches Some(at) && lib.dll == string_at(
        data,
        at as int,
    )
    &&& names != 0 ==> lib.functions == functions_at(data, secs, wide, names as u32, slots as u32)
    &&& names == 0 ==> lib.functions == functions_at(data, secs, wide, slots as u32, slots as u32)
}

proof fn lemma_field(data: Seq<u8>, table: int, i: int, field: int)
    ensures
        descriptor_field(data, table, i, field) == of_descriptor(
            data,
            table,
            i,
            field,
        ),
        0 <= of_descriptor(data, table, i, field) <= u32::MAX,
{
    lemma_four_bytes(data, table + 20 * i + field);
    assert(table + (20 * i + field) == table + 20 * i + field);
}

proof fn lemma_four_bytes(data: Seq<u8>, at: int)
    ensures
        0 <= read_or_zero(data, at, 4) <= u32::MAX,
{
    reveal_with_fuel(le, 5);
}

proof fn lemma_libraries(
    data: Seq<u8>,
    secs: Seq<SectionModel>,
    wide: bool,
    table: int,
    k: int,
    i: int,
)
    requires
        library_count(data, secs, table, k),
        0 <= i <= k,
    ensures
        imports_from(data, secs, wide, table, i).len() == k - i,
        forall|j: int|
            0 <= j < k - i ==> is_library(
                data,
                secs,
                wide,
                table,
                i + j,
                #[trigger] imports_from(data, secs, wide, table, i)[j],
            ),
    decreases k - i,
{
    lemma_field(data, table, i, 0);
    lemma_field(data, table, i, 12);
    lemma_field(data, table, i, 16);
    let all = imports_from(data, secs, wide, table, i);
    if i < k {
        assert(!ends_libraries(data, secs, table, i));
        lemma_libraries(data, secs, wide, table, k, i + 1);
        let rest = imports_from(data, secs, wide, table, i + 1);
        assert(all == seq![all[0]] + rest);
        assert forall|j: int| 0 <= j < k - i implies is_library(
            data,
            secs,
            wide,
            table,
            i + j,
            #[trigger] all[j],
        ) by {
            if j > 0 {
                assert(all[j] == rest[j - 1]);
                assert(i + 1 + (j - 1) == i + j);
            }
        }
    } else if k < 1024 {
        assert(ends_libraries(data, secs, table, k));
    }
}

/// An import directory has one library for each descriptor before the end of its
/// table, in the order of the table.
pub proof fn law_one_library_for_each_descriptor(
    data: Seq<u8>,
    secs: Seq<SectionModel>,
    wide: bool,
    rva: u32,
    k: int,
)
    requires
        rva != 0,
        mapped(secs, rva as int) is Some,
        library_count(data, secs, mapped(secs, rva as int)->0 as int, k),
    ensures
        imports_at(data, secs, wide, rva).len() == k,
        forall|i: int|
            0 <= i < k ==> is_library(
                data,
                secs,
                wide,
                mapped(secs, rva as int)->0 as int,
                i,
                #[trigger] imports_at(data, secs, wide, rva)[i],
            ),
{
    let table = mapped(secs, rva as int)->0 as int;
    lemma_libraries(data, secs, wide, table, k, 0);
    let all = imports_from(data, secs, wide, table, 0);
    assert forall|i: int| 0 <= i < k implies is_library(data, secs, wide, table, i, #[trigger] imports_at(
        data,
        secs,
        wide,
        rva,
    )[i]) by {
        assert(0 + i == i);
        assert(is_library(data, secs, wide, table, 0 + i, all[i]));
    }
}

/// Every import table comes to an end.
pub proof fn law_import_tables_end(data: Seq<u8>, secs: Seq<SectionModel>, table: int)
    ensures
        exists|k: int| library_count(data, secs, table, k),
{
    lemma_count_libraries(data, secs, table, 0);
}

proof fn lemma_count_libraries(data: Seq<u8>, secs: Seq<SectionModel>, table: int, i: int)
    requires
        0 <= i <= 1024,
        forall|j: int| 0 <= j < i ==> !#[trigger] ends_libraries(data, secs, table, j),
    ensures
        exists|k: int| library_count(data, secs, table, k),
    decreases 1024 - i,
{
    if i == 1024 || ends_libraries(data, secs, table, i) {
        assert(library_count(data, secs, table, i));
    } else {
        lemma_count_libraries(data, secs, table, i + 1);
    }
}

/// Without an import directory, or with one in no section, nothing is imported.
pub proof fn law_no_directory_no_imports(
    data: Seq<u8>,
    secs: Seq<SectionModel>,
    wide: bool,
    rva: u32,
)
    requires
        rva == 0 || mapped(secs, rva as int) is None,
    ensures
        imports_at(data, secs, wide, rva).len() == 0,
{
}

// ---------------------------------------------------------------------------
// Functions of a library
// ---------------------------------------------------------------------------

/// The thunk at place `i`: a number of 8 bytes or of 4.
pub open spec fn thunk_value(data: Seq<u8>, wide: bool, off: int, i: int) -> int {
    if wide {
        read_or_zero(data, off + 8 * i, 8)
    } else {
        read_or_zero(data, off + 4 * i, 4)
    }
}

/// Is this the number of thunks before the zero one, 8192 at most?
pub open spec fn thunk_count(data: Seq<u8>, wide: bool, off: int, n: int) -> bool {
    &&& 0 <= n <= 8192
    &&& forall|i: int| 0 <= i < n ==> #[trigger] thunk_value(data, wide, off, i) != 0
    &&& n == 8192 || thunk_value(data, wide, off, n) == 0
}

/// Does a thunk import by number?
pub open spec fn is_numbered(wide: bool, raw: int) -> bool {
    if wide {
        raw >= 0x8000_0000_0000_0000
    } else {
        raw >= 0x8000_0000
    }
}

/// Does a thunk stand for a function: one by number, or one whose name is in a
/// section?
pub open spec fn imports_something(secs: Seq<SectionModel>, wide: bool, raw: int) -> bool {
    is_numbered(wide, raw) || mapped(secs, raw % 0x8000_0000) is Some
}

/// Is this the function of the thunk at place `i`? One by number is named after
/// it; the name of another stands behind a hint of two bytes. Its slot is at the
/// same place of the table of slots, where there is one.
pub open spec fn is_imported_function(
    data: Seq<u8>,
    secs: Seq<SectionModel>,
    wide: bool,
    off: int,
    iat: u32,
    i: int,
    f: ImportedFnModel,
) -> bool {
    let raw = thunk_value(data, wide, off, i);
    &&& iat == 0 ==> f.iat_rva is None
    &&& iat != 0 && wide ==> f.iat_rva == Some((iat + 8 * i) as u64)
    &&& iat != 0 && !wide ==> f.iat_rva == Some((iat + 4 * i) as u64)
    &&& is_numbered(wide, raw) ==> f.ordinal == Some((raw % 0x1_0000) as u16) && f.name == "#"@
        + dec(raw % 0x1_0000)
    &&& !is_numbered(wide, raw) ==> f.ordinal is None && (mapped(secs, raw % 0x8000_0000) matches Some(
        at,
    ) && f.name == string_at(data, at + 2))
}

proof fn lemma_thunks(
    data: Seq<u8>,
    secs: Seq<SectionModel>,
    wide: bool,
    off: int,
    iat: u32,
    n: int,
    i: int,
) -> (places: Seq<int>)
    requires
        thunk_count(data, wide, off, n),
        0 <= i <= n,
    ensures
        picks(places, i, n, |p: int| imports_something(secs, wide, thunk_value(data, wide, off, p))),
        thunks_from(data, secs, wide, off, iat, i).len() == places.len(),
        forall|j: int|
            0 <= j < places.len() ==> is_imported_function(
                data,
                secs,
                wide,
                off,
                iat,
                places[j],
                #[trigger] thunks_from(data, secs, wide, off, iat, i)[j],
            ),
    decreases n - i,
{
    let holds = |p: int| imports_something(secs, wide, thunk_value(data, wide, off, p));
    let all = thunks_from(data, secs, wide, off, iat, i);
    if i >= n {
        lemma_picks_none(i, n, holds);
        Seq::empty()
    } else {
        let rest = thunks_from(data, secs, wide, off, iat, i + 1);
        let places = lemma_thunks(data, secs, wide, off, iat, n, i + 1);
        lemma_picks_first(places, i, n, holds);
        assert(thunk_value(data, wide, off, i) != 0);
        let head = function_of_thunk(
            data,
            secs,
            wide,
            thunk_value(data, wide, off, i),
            slot_of(wide, iat, i),
        );
        assert(all == head + rest);
        if holds(i) {
            let chosen = seq![i] + places;
            assert forall|j: int| 0 <= j < chosen.len() implies is_imported_function(
                data,
                secs,
                wide,
                off,
                iat,
                chosen[j],
                #[trigger] all[j],
            ) by {
                if j > 0 {
                    assert(all[j] == rest[j - 1]);
                    assert(chosen[j] == places[j - 1]);
                }
            }
            chosen
        } else {
            assert(all =~= rest);
            places
        }
    }
}

/// The functions of a library are those of its thunks before the zero one that
/// stand for a function: all of them, in the order of the table, each with its
/// name and its slot.
pub proof fn law_functions_are_those_of_the_thunks(
    data: Seq<u8>,
    secs: Seq<SectionModel>,
    wide: bool,
    names: u32,
    iat: u32,
    n: int,
) -> (places: Seq<int>)
    requires
        mapped(secs, names as int) is Some,
        thunk_count(data, wide, mapped(secs, names as int)->0 as int, n),
    ensures
        picks(
            places,
            0,
            n,
            |p: int|
                imports_something(
                    secs,
                    wide,
                    thunk_value(data, wide, mapped(secs, names as int)->0 as int, p),
                ),
        ),
        functions_at(data, secs, wide, names, iat).len() == places.len(),
        forall|j: int|
            0 <= j < places.len() ==> is_imported_function(
                data,
                secs,
                wide,
                mapped(secs, names as int)->0 as int,
                iat,
                places[j],
                #[trigger] functions_at(data, secs, wide, names, iat)[j],
            ),
{
    lemma_thunks(data, secs, wide, mapped(secs, names as int)->0 as int, iat, n, 0)
}

// ---------------------------------------------------------------------------
// Exports
// ---------------------------------------------------------------------------

/// A 32-bit number of the export directory at an offset.
pub open spec fn of_exports(data: Seq<u8>, dir: int, field: int) -> int {
    read_or_zero(data, dir + field, 4)
}

/// Is this the number of entries of the table of addresses that the file has: as
/// many as the directory says, 65536 at most?
pub open spec fn export_count(data: Seq<u8>, dir: int, functions: int, n: int) -> bool {
    let said = of_exports(data, dir, 20);
    &&& 0 <= n <= said
    &&& n <= 65536
    &&& forall|i: int| 0 <= i < n ==> #[trigger] read(data, functions + 4 * i, 4) is Some
    &&& n == said || n == 65536 || read(data, functions + 4 * n, 4) is None
}

/// Is this the export of the entry at place `i`? Its number counts from the base
/// of the directory. It is named by the table of names, else after its number. An
/// address inside the directory is that of the name of another library's function.
pub open spec fn is_export(
    data: Seq<u8>,
    secs: Seq<SectionModel>,
    rva: int,
    size: int,
    dir: int,
    functions: int,
    names: Map<u64, Seq<char>>,
    i: int,
    e: ExportModel,
) -> bool {
    let number = of_exports(data, dir, 16) + i;
    let index = if i > 0xffff {
        0xffff
    } else {
        i
    };
    &&& read(data, functions + 4 * i, 4) == Some(e.rva as int)
    &&& number <= 0xffff ==> e.ordinal == number
    &&& number > 0xffff ==> e.ordinal == 0xffff
    &&& names.contains_key(index as u64) ==> e.name == names[index as u64]
    &&& !names.contains_key(index as u64) ==> e.name == "#"@ + dec(e.ordinal as int)
    &&& !(rva <= e.rva < rva + size) ==> e.forwarder is None
    &&& rva <= e.rva < rva + size ==> match mapped(secs, e.rva as int) {
        Some(at) => if string_at(data, at as int).len() == 0 {
            e.forwarder is None
        } else {
            e.forwarder == Some(string_at(data, at as int))
        },
        None => e.forwarder is None,
    }
}

proof fn lemma_exports(
    data: Seq<u8>,
    secs: Seq<SectionModel>,
    rva: int,
    size: int,
    dir: int,
    functions: int,
    names: Map<u64, Seq<char>>,
    n: int,
    i: int,
) -> (places: Seq<int>)
    requires
        export_count(data, dir, functions, n),
        0 <= i <= n,
    ensures
        picks(places, i, n, |p: int| read(data, functions + 4 * p, 4) != Some(0int)),
        ({
            let most = lesser(of_exports(data, dir, 20), 65536);
            let all = exports_from(
                data,
                secs,
                rva,
                size,
                of_exports(data, dir, 16),
                names,
                functions,
                most,
                i,
            );
            &&& all.len() == places.len()
            &&& forall|j: int|
                0 <= j < places.len() ==> is_export(
                    data,
                    secs,
                    rva,
                    size,
                    dir,
                    functions,
                    names,
                    places[j],
                    #[trigger] all[j],
                )
        }),
    decreases n - i,
{
    let holds = |p: int| read(data, functions + 4 * p, 4) != Some(0int);
    let most = lesser(of_exports(data, dir, 20), 65536);
    let base = of_exports(data, dir, 16);
    let all = exports_from(data, secs, rva, size, base, names, functions, most, i);
    lemma_four_bytes(data, functions + 4 * i);
    lemma_four_bytes(data, dir + 16);
    assert(functions + i * 4 == functions + 4 * i);
    if i >= n {
        lemma_picks_none(i, n, holds);
        Seq::empty()
    } else {
        let rest = exports_from(data, secs, rva, size, base, names, functions, most, i + 1);
        let places = lemma_exports(data, secs, rva, size, dir, functions, names, n, i + 1);
        lemma_picks_first(places, i, n, holds);
        assert(read(data, functions + 4 * i, 4) is Some);
        if holds(i) {
            let chosen = seq![i] + places;
            assert(all == seq![all[0]] + rest);
            assert forall|j: int| 0 <= j < chosen.len() implies is_export(
                data,
                secs,
                rva,
                size,
                dir,
                functions,
                names,
                chosen[j],
                #[trigger] all[j],
            ) by {
                if j > 0 {
                    assert(all[j] == rest[j - 1]);
                    assert(chosen[j] == places[j - 1]);
                }
            }
            chosen
        } else {
            places
        }
    }
}

/// The exports are those entries of the table of addresses that are not zero: all
/// of them, in order, each with its number, its name and its forwarder.
pub proof fn law_exports_are_the_entries_in_use(
    data: Seq<u8>,
    secs: Seq<SectionModel>,
    rva: int,
    size: int,
    dir: int,
    functions: int,
    n: int,
) -> (places: Seq<int>)
    requires
        rva != 0,
        mapped(secs, rva) is Some,
        dir == mapped(secs, rva)->0,
        mapped(secs, of_exports(data, dir, 28)) is Some,
        functions == mapped(secs, of_exports(data, dir, 28))->0,
        export_count(data, dir, functions, n),
    ensures
        picks(places, 0, n, |p: int| read(data, functions + 4 * p, 4) != Some(0int)),
        ({
            let all = exports_at(data, secs, rva, size);
            let names = names_at(
                data,
                secs,
                of_exports(data, dir, 32),
                of_exports(data, dir, 36),
                of_exports(data, dir, 24),
            );
            &&& all.len() == places.len()
            &&& forall|j: int|
                0 <= j < places.len() ==> is_export(
                    data,
                    secs,
                    rva,
                    size,
                    dir,
                    functions,
                    names,
                    places[j],
                    #[trigger] all[j],
                )
        }),
{
    let names = names_at(
        data,
        secs,
        of_exports(data, dir, 32),
        of_exports(data, dir, 36),
        of_exports(data, dir, 24),
    );
    lemma_exports(data, secs, rva, size, dir, functions, names, n, 0)
}

/// Does the table of names give the entry with this index a name at place `i`?
pub open spec fn names_entry(
    data: Seq<u8>,
    secs: Seq<SectionModel>,
    names: int,
    indices: int,
    i: int,
    index: u64,
    name: Seq<char>,
) -> bool {
    &&& read(data, indices + 2 * i, 2) == Some(index as int)
    &&& read(data, names + 4 * i, 4) matches Some(rva) && (mapped(secs, rva) matches Some(at)
        && string_at(data, at as int) == name)
    &&& name.len() > 0
}

/// Is this the number of entries of the table of names that the file has, of the
/// `said` ones?
pub open spec fn name_count(data: Seq<u8>, names: int, indices: int, said: int, n: int) -> bool {
    &&& 0 <= n <= said
    &&& n <= 65536
    &&& forall|i: int|
        0 <= i < n ==> #[trigger] read(data, names + 4 * i, 4) is Some && read(
            data,
            indices + 2 * i,
            2,
        ) is Some
    &&& n == said || n == 65536 || read(data, names + 4 * n, 4) is None || read(
        data,
        indices + 2 * n,
        2,
    ) is None
}

proof fn lemma_names(
    data: Seq<u8>,
    secs: Seq<SectionModel>,
    names: int,
    indices: int,
    said: int,
    n: int,
    i: int,
    m: Map<u64, Seq<char>>,
    index: u64,
)
    requires
        name_count(data, names, indices, said, n),
        0 <= i <= n,
    ensures
        ({
            let most = lesser(said, 65536);
            let all = names_from(data, secs, names, indices, most, i, m);
            if all.contains_key(index) {
                ||| m.contains_key(index) && all[index] == m[index] && forall|j: int, s: Seq<char>|
                    i <= j < n ==> !#[trigger] names_entry(data, secs, names, indices, j, index, s)
                ||| exists|j: int| #[trigger]
                    names_entry(data, secs, names, indices, j, index, all[index]) && i <= j < n
                        && forall|k: int, s: Seq<char>|
                        j < k < n ==> !#[trigger] names_entry(
                            data,
                            secs,
                            names,
                            indices,
                            k,
                            index,
                            s,
                        )
            } else {
                &&& !m.contains_key(index)
                &&& forall|j: int, s: Seq<char>|
                    i <= j < n ==> !#[trigger] names_entry(data, secs, names, indices, j, index, s)
            }
        }),
    decreases n - i,
{
    reveal_with_fuel(le, 3);
    let most = lesser(said, 65536);
    assert(names + i * 4 == names + 4 * i);
    assert(indices + i * 2 == indices + 2 * i);
    let all = names_from(data, secs, names, indices, most, i, m);
    if i < n {
        assert(read(data, names + 4 * i, 4) is Some);
        let rva = read(data, names + 4 * i, 4)->0;
        let at = read(data, indices + 2 * i, 2)->0;
        let next = match string_of(data, secs, rva) {
            Some(s) => m.insert(at as u64, s),
            None => m,
        };
        lemma_names(data, secs, names, indices, said, n, i + 1, next, index);
        assert(all == names_from(data, secs, names, indices, most, i + 1, next));
        assert forall|s: Seq<char>| #[trigger]
            names_entry(data, secs, names, indices, i, index, s) implies next.contains_key(index)
            && next[index] == s by {}
        if all.contains_key(index) && next.contains_key(index) && all[index] == next[index]
            && string_of(data, secs, rva) is Some && at as u64 == index {
            assert(names_entry(data, secs, names, indices, i, index, next[index]));
        }
    }
}

/// The table of names names an entry by its index: by the last of the names that
/// are given to it and are not empty.
pub proof fn law_exports_are_named_by_index(
    data: Seq<u8>,
    secs: Seq<SectionModel>,
    names_rva: int,
    indices_rva: int,
    said: int,
    names: int,
    indices: int,
    n: int,
    index: u64,
)
    requires
        mapped(secs, names_rva) is Some,
        names == mapped(secs, names_rva)->0,
        mapped(secs, indices_rva) is Some,
        indices == mapped(secs, indices_rva)->0,
        name_count(data, names, indices, said, n),
    ensures
        ({
            let all = names_at(data, secs, names_rva, indices_rva, said);
            if all.contains_key(index) {
                exists|j: int| #[trigger]
                    names_entry(data, secs, names, indices, j, index, all[index]) && 0 <= j < n
                        && forall|k: int, s: Seq<char>|
                        j < k < n ==> !#[trigger] names_entry(
                            data,
                            secs,
                            names,
                            indices,
                            k,
                            index,
                            s,
                        )
            } else {
                forall|j: int, s: Seq<char>|
                    0 <= j < n ==> !#[trigger] names_entry(data, secs, names, indices, j, index, s)
            }
        }),
{
    lemma_names(data, secs, names, indices, said, n, 0, Map::empty(), index);
}

// ---------------------------------------------------------------------------
// TLS callbacks
// ---------------------------------------------------------------------------

/// Is this the number of pointers before the zero one, 4096 at most?
pub open spec fn callback_count(data: Seq<u8>, wide: bool, off: int, n: int) -> bool {
    &&& 0 <= n <= 4096
    &&& forall|i: int| 0 <= i < n ==> #[trigger] thunk_value(data, wide, off, i) != 0
    &&& n == 4096 || thunk_value(data, wide, off, n) == 0
}

proof fn lemma_callbacks(data: Seq<u8>, wide: bool, base: int, off: int, n: int, i: int) -> (places:
    Seq<int>)
    requires
        callback_count(data, wide, off, n),
        0 <= i <= n,
        0 <= base,
    ensures
        picks(places, i, n, |p: int| thunk_value(data, wide, off, p) >= base),
        callbacks_from(data, wide, base, off, i).len() == places.len(),
        forall|j: int|
            0 <= j < places.len() ==> #[trigger] callbacks_from(data, wide, base, off, i)[j]
                == thunk_value(data, wide, off, places[j]) - base,
    decreases n - i,
{
    reveal_with_fuel(le, 9);
    let holds = |p: int| thunk_value(data, wide, off, p) >= base;
    let all = callbacks_from(data, wide, base, off, i);
    if i >= n {
        lemma_picks_none(i, n, holds);
        Seq::empty()
    } else {
        let rest = callbacks_from(data, wide, base, off, i + 1);
        let places = lemma_callbacks(data, wide, base, off, n, i + 1);
        lemma_picks_first(places, i, n, holds);
        assert(thunk_value(data, wide, off, i) != 0);
        if holds(i) {
            let chosen = seq![i] + places;
            assert(all == seq![all[0]] + rest);
            assert forall|j: int| 0 <= j < chosen.len() implies #[trigger] all[j] == thunk_value(
                data,
                wide,
                off,
                chosen[j],
            ) - base by {
                if j > 0 {
                    assert(all[j] == rest[j - 1]);
                    assert(chosen[j] == places[j - 1]);
                }
            }
            chosen
        } else {
            places
        }
    }
}

/// The TLS callbacks are the pointers of their table before the zero one, each
/// less the image base: all that lie at or above it, in order. The address of the
/// table stands in the fourth pointer of the TLS directory.
pub proof fn law_callbacks_are_those_of_the_table(
    data: Seq<u8>,
    secs: Seq<SectionModel>,
    wide: bool,
    rva: int,
    base: int,
    dir: int,
    table: int,
    off: int,
    n: int,
) -> (places: Seq<int>)
    requires
        rva != 0,
        0 <= base,
        mapped(secs, rva) is Some,
        dir == mapped(secs, rva)->0,
        table == thunk_value(data, wide, dir, 3),
        table != 0,
        base <= table <= base + u32::MAX,
        mapped(secs, table - base) is Some,
        off == mapped(secs, table - base)->0,
        callback_count(data, wide, off, n),
    ensures
        picks(places, 0, n, |p: int| thunk_value(data, wide, off, p) >= base),
        callbacks_at(data, secs, wide, rva, base).len() == places.len(),
        forall|j: int|
            0 <= j < places.len() ==> #[trigger] callbacks_at(data, secs, wide, rva, base)[j]
                == thunk_value(data, wide, off, places[j]) - base,
{
    lemma_callbacks(data, wide, base, off, n, 0)
}

} // verus!
