//! What holds of every Linux or Unix executable.
use crate::binary::{BinaryModel, Format, SectionModel};
use crate::elf::{
    base_of, elf_of, file_of, header_at, header_error, header_of_type, headers_from, headers_of,
    imports_of, is_loaded, is_wide_file, lowest_among, needed, needed_from, undefined,
    undefined_from, Shdr, ELF_MAGIC,
};
use crate::error::ParseError;
use crate::imports::string_at;
use crate::picks::{lemma_picks_first, lemma_picks_none, picks};
use crate::reader::{le, read_or_zero};
use crate::strings::scan_of;
use vstd::prelude::*;

verus! {

// ---------------------------------------------------------------------------
// Tables
// ---------------------------------------------------------------------------

/// Is this the size of an entry: the one that the header gives, else the usual
/// one?
pub open spec fn is_entry_size(h: Shdr, usual: int, each: int) -> bool {
    &&& h.entsize > 0 ==> each == h.entsize
    &&& h.entsize == 0 ==> each == usual
}

/// Is this the number of entries: as many as fit into the table, `most` at most?
pub open spec fn is_entry_count(h: Shdr, each: int, most: int, n: int) -> bool {
    &&& 0 <= n <= most
    &&& n == most || n == h.size as int / each
    &&& n <= h.size as int / each
}

/// The first header of a type.
pub open spec fn is_first_of_type(headers: Seq<Shdr>, t: u32, i: int) -> bool {
    &&& 0 <= i < headers.len()
    &&& headers[i].sh_type == t
    &&& forall|j: int| 0 <= j < i ==> (#[trigger] headers[j]).sh_type != t
}

proof fn lemma_of_type(headers: Seq<Shdr>, t: u32, i: int)
    requires
        0 <= i <= headers.len(),
        forall|j: int| 0 <= j < i ==> (#[trigger] headers[j]).sh_type != t,
    ensures
        match header_of_type(headers, t, i) {
            Some(h) => exists|k: int| #[trigger] is_first_of_type(headers, t, k) && headers[k] == h,
            None => forall|j: int| 0 <= j < headers.len() ==> (#[trigger] headers[j]).sh_type != t,
        },
    decreases headers.len() - i,
{
    if i < headers.len() {
        if headers[i].sh_type == t {
            assert(is_first_of_type(headers, t, i));
        } else {
            lemma_of_type(headers, t, i + 1);
        }
    }
}

/// A table is found by the first header of its type.
pub proof fn law_first_header_of_a_type_counts(headers: Seq<Shdr>, t: u32)
    ensures
        match header_of_type(headers, t, 0) {
            Some(h) => exists|k: int| #[trigger] is_first_of_type(headers, t, k) && headers[k] == h,
            None => forall|j: int| 0 <= j < headers.len() ==> (#[trigger] headers[j]).sh_type != t,
        },
        forall|i: int| #[trigger]
            is_first_of_type(headers, t, i) ==> header_of_type(headers, t, 0) == Some(headers[i]),
{
    lemma_of_type(headers, t, 0);
    assert forall|i: int| #[trigger] is_first_of_type(headers, t, i) implies header_of_type(
        headers,
        t,
        0,
    ) == Some(headers[i]) by {
        let k = choose|k: int| #[trigger]
            is_first_of_type(headers, t, k) && headers[k] == header_of_type(headers, t, 0)->0;
        if k < i {
            assert(headers[k].sh_type != t);
        }
        if i < k {
            assert(headers[i].sh_type != t);
        }
    }
}

// ---------------------------------------------------------------------------
// Imported functions
// ---------------------------------------------------------------------------

/// Does the symbol at an offset import a function: one that belongs to no section
/// of the file and has a name?
pub open spec fn imports_function(data: Seq<u8>, wide: bool, strings: Shdr, at: int) -> bool {
    let name = read_or_zero(data, at, 4);
    let section = if wide {
        read_or_zero(data, at + 6, 2)
    } else {
        read_or_zero(data, at + 14, 2)
    };
    section == 0 && name != 0 && string_at(data, strings.offset + name).len() > 0
}

#[verifier::rlimit(50)]
proof fn lemma_undefined(
    data: Seq<u8>,
    wide: bool,
    symbols: Shdr,
    strings: Shdr,
    each: int,
    n: int,
    i: int,
) -> (places: Seq<int>)
    requires
        is_entry_size(
            symbols,
            if wide {
                24
            } else {
                16
            },
            each,
        ),
        is_entry_count(symbols, each, 500_000, n),
        0 <= i <= n,
    ensures
        picks(places, i, n, |p: int| imports_function(data, wide, strings, symbols.offset + p * each)),
        undefined_from(data, wide, symbols, strings, i).len() == places.len(),
        forall|j: int|
            0 <= j < places.len() ==> (#[trigger] undefined_from(
                data,
                wide,
                symbols,
                strings,
                i,
            )[j]).name == string_at(
                data,
                strings.offset + read_or_zero(data, symbols.offset + places[j] * each, 4),
            ),
    decreases n - i,
{
    let holds = |p: int| imports_function(data, wide, strings, symbols.offset + p * each);
    let all = undefined_from(data, wide, symbols, strings, i);
    if i >= n {
        lemma_picks_none(i, n, holds);
        Seq::empty()
    } else {
        let rest = undefined_from(data, wide, symbols, strings, i + 1);
        let places = lemma_undefined(data, wide, symbols, strings, each, n, i + 1);
        lemma_picks_first(places, i, n, holds);
        if holds(i) {
            let chosen = seq![i] + places;
            assert(all == seq![all[0]] + rest);
            assert forall|j: int| 0 <= j < chosen.len() implies (#[trigger] all[j]).name == string_at(
                data,
                strings.offset + read_or_zero(data, symbols.offset + chosen[j] * each, 4),
            ) by {
                if j > 0 {
                    assert(all[j] == rest[j - 1]);
                    assert(chosen[j] == places[j - 1]);
                }
            }
            chosen
        } else {
            places
        }
    }
}

/// The imported functions are the dynamic symbols that have a name and belong to
/// no section of the file: all of them, in the order of the table, each by its
/// name.
pub proof fn law_undefined_symbols_are_imported(
    data: Seq<u8>,
    wide: bool,
    headers: Seq<Shdr>,
    s: int,
    each: int,
    n: int,
) -> (places: Seq<int>)
    requires
        is_first_of_type(headers, 11, s),
        headers[s].link < headers.len(),
        is_entry_size(
            headers[s],
            if wide {
                24
            } else {
                16
            },
            each,
        ),
        is_entry_count(headers[s], each, 500_000, n),
    ensures
        picks(
            places,
            0,
            n,
            |p: int|
                imports_function(
                    data,
                    wide,
                    headers[headers[s].link as int],
                    headers[s].offset + p * each,
                ),
        ),
        undefined(data, wide, headers).len() == places.len(),
        forall|j: int|
            0 <= j < places.len() ==> (#[trigger] undefined(data, wide, headers)[j]).name
                == string_at(
                data,
                headers[headers[s].link as int].offset + read_or_zero(
                    data,
                    headers[s].offset + places[j] * each,
                    4,
                ),
            ),
{
    law_first_header_of_a_type_counts(headers, 11);
    lemma_undefined(data, wide, headers[s], headers[headers[s].link as int], each, n, 0)
}

/// A name is that of an imported function exactly where some dynamic symbol
/// imports a function of that name.
pub proof fn law_names_are_imported_by_symbols(
    data: Seq<u8>,
    wide: bool,
    headers: Seq<Shdr>,
    s: int,
    each: int,
    n: int,
    name: Seq<char>,
)
    requires
        is_first_of_type(headers, 11, s),
        headers[s].link < headers.len(),
        is_entry_size(
            headers[s],
            if wide {
                24
            } else {
                16
            },
            each,
        ),
        is_entry_count(headers[s], each, 500_000, n),
    ensures
        (exists|j: int|
            0 <= j < undefined(data, wide, headers).len() && (#[trigger] undefined(
                data,
                wide,
                headers,
            )[j]).name == name) <==> (exists|p: int|
            0 <= p < n && #[trigger] imports_function(
                data,
                wide,
                headers[headers[s].link as int],
                headers[s].offset + p * each,
            ) && name == string_at(
                data,
                headers[headers[s].link as int].offset + read_or_zero(
                    data,
                    headers[s].offset + p * each,
                    4,
                ),
            )),
{
    let strings = headers[headers[s].link as int];
    let all = undefined(data, wide, headers);
    let holds = |p: int| imports_function(data, wide, strings, headers[s].offset + p * each);
    let places = law_undefined_symbols_are_imported(data, wide, headers, s, each, n);
    assert(picks(places, 0, n, holds));
    if exists|j: int| 0 <= j < all.len() && (#[trigger] all[j]).name == name {
        let j = choose|j: int| 0 <= j < all.len() && (#[trigger] all[j]).name == name;
        let p = places[j];
        assert(holds(p));
        assert(imports_function(data, wide, strings, headers[s].offset + p * each));
    }
    if exists|p: int|
        0 <= p < n && #[trigger] imports_function(
            data,
            wide,
            strings,
            headers[s].offset + p * each,
        ) && name == string_at(
            data,
            strings.offset + read_or_zero(data, headers[s].offset + p * each, 4),
        ) {
        let p = choose|p: int|
            0 <= p < n && #[trigger] imports_function(
                data,
                wide,
                strings,
                headers[s].offset + p * each,
            ) && name == string_at(
                data,
                strings.offset + read_or_zero(data, headers[s].offset + p * each, 4),
            );
        assert(holds(p));
        assert(places.contains(p));
        let j = choose|j: int| 0 <= j < places.len() && places[j] == p;
        assert(all[j].name == name);
    }
}

// ---------------------------------------------------------------------------
// Needed libraries
// ---------------------------------------------------------------------------

/// The tag of the entry at an offset of the dynamic table.
pub open spec fn tag_at(data: Seq<u8>, wide: bool, at: int) -> int {
    if wide {
        read_or_zero(data, at, 8)
    } else {
        read_or_zero(data, at, 4)
    }
}

/// The value of the entry at an offset of the dynamic table, which stands behind
/// its tag.
pub open spec fn value_at(data: Seq<u8>, wide: bool, at: int) -> int {
    if wide {
        read_or_zero(data, at + 8, 8)
    } else {
        read_or_zero(data, at + 4, 4)
    }
}

/// Is this the number of entries of the dynamic table before the one that ends
/// it, of the `most` that it has room for?
pub open spec fn is_dynamic_count(
    data: Seq<u8>,
    wide: bool,
    dynamic: Shdr,
    each: int,
    most: int,
    n: int,
) -> bool {
    &&& 0 <= n <= most
    &&& forall|i: int|
        0 <= i < n ==> #[trigger] tag_at(data, wide, dynamic.offset + i * each) != 0
    &&& n == most || tag_at(data, wide, dynamic.offset + n * each) == 0
}

/// Does the entry ask for a library, by a name that is not empty?
pub open spec fn asks_for_library(data: Seq<u8>, wide: bool, strings: Shdr, at: int) -> bool {
    tag_at(data, wide, at) == 1 && string_at(
        data,
        strings.offset + value_at(data, wide, at),
    ).len() > 0
}

#[verifier::rlimit(50)]
proof fn lemma_needed(
    data: Seq<u8>,
    wide: bool,
    dynamic: Shdr,
    strings: Shdr,
    each: int,
    most: int,
    n: int,
    i: int,
) -> (places: Seq<int>)
    requires
        is_entry_size(
            dynamic,
            if wide {
                16
            } else {
                8
            },
            each,
        ),
        is_entry_count(dynamic, each, 65536, most),
        is_dynamic_count(data, wide, dynamic, each, most, n),
        0 <= i <= n,
    ensures
        picks(places, i, n, |p: int| asks_for_library(data, wide, strings, dynamic.offset + p * each)),
        needed_from(data, wide, dynamic, strings, i).len() == places.len(),
        forall|j: int|
            0 <= j < places.len() ==> {
                let lib = #[trigger] needed_from(data, wide, dynamic, strings, i)[j];
                lib.functions.len() == 0 && lib.dll == string_at(
                    data,
                    strings.offset + value_at(data, wide, dynamic.offset + places[j] * each),
                )
            },
    decreases n - i,
{
    let holds = |p: int| asks_for_library(data, wide, strings, dynamic.offset + p * each);
    let all = needed_from(data, wide, dynamic, strings, i);
    if i >= n {
        lemma_picks_none(i, n, holds);
        Seq::empty()
    } else {
        assert(tag_at(data, wide, dynamic.offset + i * each) != 0);
        let rest = needed_from(data, wide, dynamic, strings, i + 1);
        let places = lemma_needed(data, wide, dynamic, strings, each, most, n, i + 1);
        lemma_picks_first(places, i, n, holds);
        if holds(i) {
            let chosen = seq![i] + places;
            assert(all == seq![all[0]] + rest);
            assert forall|j: int| 0 <= j < chosen.len() implies {
                let lib = #[trigger] all[j];
                lib.functions.len() == 0 && lib.dll == string_at(
                    data,
                    strings.offset + value_at(data, wide, dynamic.offset + chosen[j] * each),
                )
            } by {
                if j > 0 {
                    assert(all[j] == rest[j - 1]);
                    assert(chosen[j] == places[j - 1]);
                }
            }
            chosen
        } else {
            places
        }
    }
}

/// The needed libraries are those that the dynamic table asks for before its end:
/// all of them, in order, each by its name.
pub proof fn law_needed_libraries_are_listed(
    data: Seq<u8>,
    wide: bool,
    headers: Seq<Shdr>,
    s: int,
    each: int,
    most: int,
    n: int,
) -> (places: Seq<int>)
    requires
        is_first_of_type(headers, 6, s),
        headers[s].link < headers.len(),
        is_entry_size(
            headers[s],
            if wide {
                16
            } else {
                8
            },
            each,
        ),
        is_entry_count(headers[s], each, 65536, most),
        is_dynamic_count(data, wide, headers[s], each, most, n),
    ensures
        picks(
            places,
            0,
            n,
            |p: int|
                asks_for_library(
                    data,
                    wide,
                    headers[headers[s].link as int],
                    headers[s].offset + p * each,
                ),
        ),
        needed(data, wide, headers).len() == places.len(),
        forall|j: int|
            0 <= j < places.len() ==> (#[trigger] needed(data, wide, headers)[j]).dll == string_at(
                data,
                headers[headers[s].link as int].offset + value_at(
                    data,
                    wide,
                    headers[s].offset + places[j] * each,
                ),
            ),
{
    law_first_header_of_a_type_counts(headers, 6);
    lemma_needed(data, wide, headers[s], headers[headers[s].link as int], each, most, n, 0)
}

/// The imports are the needed libraries, and behind them one group with the
/// imported functions, where there are any.
pub proof fn law_imports_are_libraries_and_symbols(data: Seq<u8>, wide: bool, headers: Seq<Shdr>)
    ensures
        ({
            let all = imports_of(data, wide, headers);
            let libs = needed(data, wide, headers);
            let functions = undefined(data, wide, headers);
            &&& all.len() == libs.len() + (if functions.len() > 0 {
                1int
            } else {
                0
            })
            &&& forall|i: int| 0 <= i < libs.len() ==> all[i] == #[trigger] libs[i]
            &&& functions.len() > 0 ==> all.last().functions == functions && all.last().dll
                == "(imported symbols)"@
        }),
{
}

/// Without a dynamic table no library is needed, and without a table of dynamic
/// symbols no function is imported; nor where the table of their names is missing.
pub proof fn law_no_table_no_imports(data: Seq<u8>, wide: bool, headers: Seq<Shdr>, s: int)
    ensures
        (forall|j: int| 0 <= j < headers.len() ==> (#[trigger] headers[j]).sh_type != 6) ==> needed(
            data,
            wide,
            headers,
        ).len() == 0,
        (forall|j: int| 0 <= j < headers.len() ==> (#[trigger] headers[j]).sh_type != 11)
            ==> undefined(data, wide, headers).len() == 0,
        is_first_of_type(headers, 6, s) && headers[s].link >= headers.len() ==> needed(
            data,
            wide,
            headers,
        ).len() == 0,
        is_first_of_type(headers, 11, s) && headers[s].link >= headers.len() ==> undefined(
            data,
            wide,
            headers,
        ).len() == 0,
{
    law_first_header_of_a_type_counts(headers, 6);
    law_first_header_of_a_type_counts(headers, 11);
}

// ---------------------------------------------------------------------------
// Sections
// ---------------------------------------------------------------------------

/// Is this the number of section headers that the file has all of, of the `said`
/// ones?
pub open spec fn is_header_count(
    data: Seq<u8>,
    wide: bool,
    table: int,
    each: int,
    said: int,
    n: int,
) -> bool {
    let room = if wide {
        64int
    } else {
        40
    };
    &&& 0 <= n <= said
    &&& forall|i: int| 0 <= i < n ==> table + #[trigger] (i * each) + room <= data.len()
    &&& n == said || table + n * each + room > data.len()
}

/// Is this the section header at an offset, by the layout of 64 bits or of 32?
pub open spec fn is_header(data: Seq<u8>, wide: bool, at: int, h: Shdr) -> bool {
    &&& h.name_off == read_or_zero(data, at, 4)
    &&& h.sh_type == read_or_zero(data, at + 4, 4)
    &&& wide ==> {
        &&& h.flags == read_or_zero(data, at + 8, 8)
        &&& h.addr == read_or_zero(data, at + 16, 8)
        &&& h.offset == read_or_zero(data, at + 24, 8)
        &&& h.size == read_or_zero(data, at + 32, 8)
        &&& h.link == read_or_zero(data, at + 40, 4)
        &&& h.entsize == read_or_zero(data, at + 56, 8)
    }
    &&& !wide ==> {
        &&& h.flags == read_or_zero(data, at + 8, 4)
        &&& h.addr == read_or_zero(data, at + 12, 4)
        &&& h.offset == read_or_zero(data, at + 16, 4)
        &&& h.size == read_or_zero(data, at + 20, 4)
        &&& h.link == read_or_zero(data, at + 24, 4)
        &&& h.entsize == read_or_zero(data, at + 36, 4)
    }
}

proof fn lemma_word(data: Seq<u8>, at: int)
    ensures
        0 <= le(data, at, 2) <= 0xffff,
        0 <= le(data, at, 4) <= 0xffff_ffff,
        0 <= le(data, at, 8) <= 0xffff_ffff_ffff_ffff,
{
    reveal_with_fuel(le, 9);
}

proof fn lemma_header(data: Seq<u8>, wide: bool, at: int)
    requires
        0 <= at,
        wide ==> at + 64 <= data.len(),
        !wide ==> at + 40 <= data.len(),
    ensures
        header_at(data, at, wide) matches Some(h) && is_header(data, wide, at, h),
{
    lemma_word(data, at);
    lemma_word(data, at + 4);
    lemma_word(data, at + 8);
    lemma_word(data, at + 12);
    lemma_word(data, at + 16);
    lemma_word(data, at + 20);
    lemma_word(data, at + 24);
    lemma_word(data, at + 32);
    lemma_word(data, at + 36);
    lemma_word(data, at + 40);
    lemma_word(data, at + 56);
}

proof fn lemma_headers(
    data: Seq<u8>,
    wide: bool,
    table: int,
    each: int,
    said: int,
    n: int,
    i: int,
)
    requires
        0 <= table,
        0 <= each,
        is_header_count(data, wide, table, each, said, n),
        0 <= i <= n,
    ensures
        headers_from(data, wide, table, each, said, i).len() == n - i,
        forall|j: int|
            0 <= j < n - i ==> is_header(
                data,
                wide,
                table + (i + j) * each,
                #[trigger] headers_from(data, wide, table, each, said, i)[j],
            ),
    decreases n - i,
{
    let all = headers_from(data, wide, table, each, said, i);
    if i < n {
        assert(table + (i * each) <= data.len());
        assert(0 <= i * each) by (nonlinear_arith)
            requires
                0 <= i,
                0 <= each,
        ;
        lemma_header(data, wide, table + i * each);
        lemma_headers(data, wide, table, each, said, n, i + 1);
        let rest = headers_from(data, wide, table, each, said, i + 1);
        assert(all == seq![all[0]] + rest);
        assert forall|j: int| 0 <= j < n - i implies is_header(
            data,
            wide,
            table + (i + j) * each,
            #[trigger] all[j],
        ) by {
            if j > 0 {
                assert(all[j] == rest[j - 1]);
                assert(i + 1 + (j - 1) == i + j);
            } else {
                assert(i + j == i);
            }
        }
    }
}

/// A file has one section for each section header that it has all of, in the
/// order of the table, with the fields of the header. Where there is a table of
/// names, the section's name stands there.
#[verifier::rlimit(50)]
pub proof fn law_one_section_for_each_header(data: Seq<u8>, table: int, each: int, said: int, n: int)
    requires
        header_error(data) is None,
        is_wide_file(data) ==> table == read_or_zero(data, 40, 8) && each == read_or_zero(
            data,
            58,
            2,
        ) && said == read_or_zero(data, 60, 2),
        !is_wide_file(data) ==> table == read_or_zero(data, 32, 4) && each == read_or_zero(
            data,
            46,
            2,
        ) && said == read_or_zero(data, 48, 2),
        is_header_count(data, is_wide_file(data), table, each, said, n),
    ensures
        headers_of(data).len() == n,
        forall|i: int|
            0 <= i < n ==> is_header(
                data,
                is_wide_file(data),
                table + i * each,
                #[trigger] headers_of(data)[i],
            ),
        file_of(data).sections.len() == n,
        forall|i: int|
            0 <= i < n ==> {
                let s = #[trigger] file_of(data).sections[i];
                let h = headers_of(data)[i];
                &&& s.virtual_addr == h.addr
                &&& s.virtual_size == h.size
                &&& s.file_offset == h.offset
                &&& s.file_size == (if h.sh_type == 8 {
                    0
                } else {
                    h.size
                })
                &&& s.writable == ((h.flags as int) % 2 == 1)
                &&& s.readable == ((h.flags as int / 2) % 2 == 1)
                &&& s.executable == ((h.flags as int / 4) % 2 == 1)
            },
{
    let wide = is_wide_file(data);
    lemma_word(data, 40);
    lemma_word(data, 58);
    lemma_word(data, 60);
    lemma_word(data, 32);
    lemma_word(data, 46);
    lemma_word(data, 48);
    lemma_headers(data, wide, table, each, said, n, 0);
    let all = headers_from(data, wide, table, each, said, 0);
    assert(headers_of(data) == all);
    assert forall|i: int| 0 <= i < n implies is_header(
        data,
        wide,
        table + i * each,
        #[trigger] headers_of(data)[i],
    ) by {
        assert(0 + i == i);
        assert(is_header(data, wide, table + (0 + i) * each, all[i]));
    }
}

/// The name of a section stands in the section of names, at the place that its
/// header gives.
pub proof fn law_sections_have_their_names(data: Seq<u8>, index: int, i: int)
    requires
        header_error(data) is None,
        is_wide_file(data) ==> index == read_or_zero(data, 62, 2),
        !is_wide_file(data) ==> index == read_or_zero(data, 50, 2),
        index < headers_of(data).len(),
        headers_of(data)[index].offset != 0,
        0 <= i < headers_of(data).len(),
    ensures
        file_of(data).sections.len() == headers_of(data).len(),
        file_of(data).sections[i].name == string_at(
            data,
            headers_of(data)[index].offset + headers_of(data)[i].name_off,
        ),
{
    lemma_word(data, 62);
    lemma_word(data, 50);
}

/// Does the file have all of what an ELF file needs: the magic, a class, an order
/// of bytes that is not big-endian, and the header of that class?
pub open spec fn is_whole_file(data: Seq<u8>) -> bool {
    &&& data.len() >= 20
    &&& data[0] == 0x7f && data[1] == 0x45 && data[2] == 0x4c && data[3] == 0x46
    &&& data[4] == 1 || data[4] == 2
    &&& data[5] != 2
    &&& data[4] == 1 ==> data.len() >= 52
    &&& data[4] == 2 ==> data.len() >= 64
}

/// A file is read as an ELF file exactly where it has all of what one needs.
pub proof fn law_whole_files_are_read(data: Seq<u8>)
    ensures
        elf_of(data) is Ok <==> is_whole_file(data),
        elf_of(data) is Ok ==> elf_of(data) == Ok::<BinaryModel, ParseError>(file_of(data)),
{
    if data.len() >= 4 {
        let first = data.take(4);
        assert(first[0] == data[0] && first[1] == data[1] && first[2] == data[2] && first[3]
            == data[3]);
        if data[0] == 0x7f && data[1] == 0x45 && data[2] == 0x4c && data[3] == 0x46 {
            assert(first =~= ELF_MAGIC@);
        }
    }
}

/// The entry point is read from the header, and the class tells whether the file
/// is of 64 bits or of 32.
pub proof fn law_header_fields(data: Seq<u8>)
    requires
        header_error(data) is None,
    ensures
        is_wide_file(data) <==> data[4] == 2,
        is_wide_file(data) ==> file_of(data).bits == 64 && file_of(data).entry_point
            == read_or_zero(data, 24, 8),
        !is_wide_file(data) ==> file_of(data).bits == 32 && file_of(data).entry_point
            == read_or_zero(data, 24, 4),
        file_of(data).imports == imports_of(data, is_wide_file(data), headers_of(data)),
        file_of(data).image_base == base_of(file_of(data).sections),
        file_of(data).strings == scan_of(data, 5),
        file_of(data).format == Format::Elf,
        file_of(data).exports.len() == 0,
        file_of(data).overlay is None,
        file_of(data).pe_meta is None,
{
    lemma_word(data, 24);
}

/// The architecture and the kind go by their numbers.
pub proof fn law_machines_and_kinds_are_named(data: Seq<u8>)
    requires
        header_error(data) is None,
    ensures
        ({
            let machine = read_or_zero(data, 18, 2);
            let kind = read_or_zero(data, 16, 2);
            let b = file_of(data);
            &&& machine == 3 ==> b.arch == "x86 (I386)"@
            &&& machine == 62 ==> b.arch == "x86-64 (AMD64)"@
            &&& machine == 40 ==> b.arch == "ARM"@
            &&& machine == 183 ==> b.arch == "ARM64 (AArch64)"@
            &&& machine == 243 ==> b.arch == "RISC-V"@
            &&& machine == 21 ==> b.arch == "PowerPC64"@
            &&& !(machine == 3 || machine == 62 || machine == 40 || machine == 183 || machine == 243
                || machine == 21) ==> b.arch == "unknown"@
            &&& kind == 1 ==> b.kind == "relocatable object"@
            &&& kind == 2 ==> b.kind == "executable"@
            &&& kind == 3 ==> b.kind == "shared object / PIE"@
            &&& kind == 4 ==> b.kind == "core dump"@
            &&& !(1 <= kind <= 4) ==> b.kind == "unknown"@
        }),
{
    lemma_word(data, 16);
    lemma_word(data, 18);
}

/// The attributes tell what the file is for, whether it is linked dynamically, and
/// whether it has no table of symbols.
#[verifier::rlimit(50)]
pub proof fn law_attributes_tell_the_linkage(data: Seq<u8>)
    requires
        header_error(data) is None,
    ensures
        ({
            let notes = file_of(data).attributes;
            let kind = read_or_zero(data, 16, 2);
            let dynamic = exists|i: int|
                0 <= i < headers_of(data).len() && (#[trigger] headers_of(data)[i]).sh_type == 6;
            let named = exists|i: int|
                0 <= i < headers_of(data).len() && (#[trigger] headers_of(data)[i]).sh_type == 2;
            let first = if kind == 1 {
                seq!["relocatable object"@]
            } else if kind == 3 {
                seq!["PIE / shared object"@]
            } else {
                Seq::<Seq<char>>::empty()
            };
            &&& dynamic && named ==> notes == first + seq!["dynamically linked"@]
            &&& dynamic && !named ==> notes == first + seq![
                "dynamically linked"@,
                "stripped (no .symtab)"@,
            ]
            &&& !dynamic && named ==> notes == first + seq!["statically linked"@]
            &&& !dynamic && !named ==> notes == first + seq![
                "statically linked"@,
                "stripped (no .symtab)"@,
            ]
        }),
{
    lemma_word(data, 16);
    law_first_header_of_a_type_counts(headers_of(data), 6);
    law_first_header_of_a_type_counts(headers_of(data), 2);
    let notes = file_of(data).attributes;
    let kind = le(data, 16, 2) as u16;
    let first = if kind == 1 {
        seq!["relocatable object"@]
    } else if kind == 3 {
        seq!["PIE / shared object"@]
    } else {
        Seq::<Seq<char>>::empty()
    };
    assert(first.push("dynamically linked"@) =~= first + seq!["dynamically linked"@]);
    assert(first.push("statically linked"@) =~= first + seq!["statically linked"@]);
    assert(first.push("dynamically linked"@).push("stripped (no .symtab)"@) =~= first + seq![
        "dynamically linked"@,
        "stripped (no .symtab)"@,
    ]);
    assert(first.push("statically linked"@).push("stripped (no .symtab)"@) =~= first + seq![
        "statically linked"@,
        "stripped (no .symtab)"@,
    ]);
}

proof fn lemma_lowest(secs: Seq<SectionModel>, n: int)
    requires
        0 <= n <= secs.len(),
    ensures
        match lowest_among(secs, n) {
            Some(a) => (exists|i: int|
                0 <= i < n && is_loaded(#[trigger] secs[i]) && secs[i].virtual_addr == a) && forall|
                i: int,
            |
                0 <= i < n && is_loaded(#[trigger] secs[i]) ==> a <= secs[i].virtual_addr,
            None => forall|i: int| 0 <= i < n ==> !is_loaded(#[trigger] secs[i]),
        },
    decreases n,
{
    if n > 0 {
        lemma_lowest(secs, n - 1);
        if is_loaded(secs[n - 1]) {
            let was = lowest_among(secs, n - 1);
            let now = lowest_among(secs, n);
            if was is Some && now == was {
                let i = choose|i: int|
                    0 <= i < n - 1 && is_loaded(#[trigger] secs[i]) && Some(secs[i].virtual_addr)
                        == was;
                assert(is_loaded(secs[i]));
            } else {
                assert(is_loaded(secs[n - 1]));
            }
        } else if lowest_among(secs, n - 1) is Some {
            let a = lowest_among(secs, n - 1)->0;
            let i = choose|i: int|
                0 <= i < n - 1 && is_loaded(#[trigger] secs[i]) && secs[i].virtual_addr == a;
            assert(is_loaded(secs[i]));
        }
    }
}

/// The image base is the lowest address at which a section lies in memory, and
/// zero where none does.
pub proof fn law_image_base_is_the_lowest_address(secs: Seq<SectionModel>)
    ensures
        forall|i: int|
            0 <= i < secs.len() && (#[trigger] secs[i]).readable && secs[i].virtual_addr != 0
                ==> base_of(secs) <= secs[i].virtual_addr,
        base_of(secs) != 0 ==> exists|i: int|
            0 <= i < secs.len() && (#[trigger] secs[i]).readable && secs[i].virtual_addr
                == base_of(secs),
        (exists|i: int|
            0 <= i < secs.len() && (#[trigger] secs[i]).readable && secs[i].virtual_addr != 0)
            ==> base_of(secs) != 0,
{
    lemma_lowest(secs, secs.len() as int);
    assert forall|i: int|
        0 <= i < secs.len() && (#[trigger] secs[i]).readable && secs[i].virtual_addr != 0 implies base_of(
        secs,
    ) <= secs[i].virtual_addr by {
        assert(is_loaded(secs[i]));
    }
}

} // verus!
