//! The PE export directory and the TLS callbacks: where execution enters an
//! image other than at its entry point.
//!
//! Best-effort and bounds-safe: a malformed pointer stops that part of the walk
//! instead of failing the parse.
use crate::binary::{lesser, option_view, Export, ExportModel, Section, SectionModel};
use crate::imports::{mapped, pointer_size, read_cstr, rva_to_offset, string_at};
use crate::reader::{read, read_or_zero, ByteReader};
use crate::symbols::map_views;
use crate::text::{dec, decimal, lemma_models_push, models};
use std::collections::BTreeMap;
use vstd::prelude::*;

verus! {

broadcast use vstd::std_specs::btree::group_btree_axioms;

pub const MAX_EXPORTS: u64 = 65_536;

pub const MAX_TLS_CALLBACKS: u64 = 4_096;

// Field offsets in the export directory.
pub const ORDINAL_BASE: u64 = 16;

pub const NUMBER_OF_FUNCTIONS: u64 = 20;

pub const NUMBER_OF_NAMES: u64 = 24;

pub const ADDRESS_OF_FUNCTIONS: u64 = 28;

pub const ADDRESS_OF_NAMES: u64 = 32;

pub const ADDRESS_OF_NAME_ORDINALS: u64 = 36;

// ---------------------------------------------------------------------------
// Names
// ---------------------------------------------------------------------------

/// A string that may be missing and counts as missing where it is empty.
pub open spec fn unless_empty(s: Seq<char>) -> Option<Seq<char>> {
    if s.len() == 0 {
        None
    } else {
        Some(s)
    }
}

/// The string at an RVA, where there is one.
pub open spec fn string_of(data: Seq<u8>, secs: Seq<SectionModel>, rva: int) -> Option<Seq<char>> {
    match mapped(secs, rva) {
        Some(o) => unless_empty(string_at(data, o as int)),
        None => None,
    }
}

/// The names that `m` holds by function index, with those from place `i` of the
/// parallel name and index arrays on. A later name replaces an earlier one for
/// the same function; the first place past the end of the file ends the list.
pub open spec fn names_from(
    data: Seq<u8>,
    secs: Seq<SectionModel>,
    names: int,
    indices: int,
    n: int,
    i: int,
    m: Map<u64, Seq<char>>,
) -> Map<u64, Seq<char>>
    decreases n - i,
{
    if i >= n {
        m
    } else {
        match (read(data, names + i * 4, 4), read(data, indices + i * 2, 2)) {
            (Some(rva), Some(index)) => names_from(
                data,
                secs,
                names,
                indices,
                n,
                i + 1,
                match string_of(data, secs, rva) {
                    Some(s) => m.insert(index as u64, s),
                    None => m,
                },
            ),
            _ => m,
        }
    }
}

/// The names of exports by function index.
pub open spec fn names_at(
    data: Seq<u8>,
    secs: Seq<SectionModel>,
    names_rva: int,
    indices_rva: int,
    n: int,
) -> Map<u64, Seq<char>> {
    match (mapped(secs, names_rva), mapped(secs, indices_rva)) {
        (Some(names), Some(indices)) => names_from(
            data,
            secs,
            names as int,
            indices as int,
            lesser(n, MAX_EXPORTS as int),
            0,
            Map::empty(),
        ),
        _ => Map::empty(),
    }
}

fn string_of_rva(data: &[u8], sections: &[Section], rva: u32) -> (r: Option<String>)
    ensures
        option_view(r) == string_of(data@, models(sections@), rva as int),
{
    match rva_to_offset(sections, rva) {
        Some(o) => {
            let s = read_cstr(data, o);
            if s.as_str().is_empty() {
                None
            } else {
                Some(s)
            }
        },
        None => None,
    }
}

fn read_names(data: &[u8], sections: &[Section], names_rva: u32, indices_rva: u32, n: u32) -> (r:
    BTreeMap<u64, String>)
    ensures
        map_views(r@) == names_at(
            data@,
            models(sections@),
            names_rva as int,
            indices_rva as int,
            n as int,
        ),
{
    let ghost secs = models(sections@);
    let mut out: BTreeMap<u64, String> = BTreeMap::new();
    proof {
        assert(map_views(out@) =~= Map::<u64, Seq<char>>::empty());
    }
    let names = match rva_to_offset(sections, names_rva) {
        Some(o) => o as u64,
        None => {
            return out;
        },
    };
    let indices = match rva_to_offset(sections, indices_rva) {
        Some(o) => o as u64,
        None => {
            return out;
        },
    };
    let reader = ByteReader::new(data);
    let count: u64 = if (n as u64) < MAX_EXPORTS {
        n as u64
    } else {
        MAX_EXPORTS
    };
    let ghost all = names_from(
        data@,
        secs,
        names as int,
        indices as int,
        count as int,
        0,
        Map::empty(),
    );
    let mut i: u64 = 0;
    while i < count
        invariant
            reader@ == data@,
            secs == models(sections@),
            i <= count <= MAX_EXPORTS,
            all == names_at(data@, secs, names_rva as int, indices_rva as int, n as int),
            all == names_from(
                data@,
                secs,
                names as int,
                indices as int,
                count as int,
                i as int,
                map_views(out@),
            ),
        decreases count - i,
    {
        let rva = match reader.u32_near(names, i * 4) {
            Some(v) => v,
            None => {
                return out;
            },
        };
        let index = match reader.u16_near(indices, i * 2) {
            Some(v) => v,
            None => {
                return out;
            },
        };
        let ghost before = out@;
        if let Some(s) = string_of_rva(data, sections, rva) {
            out.insert(index as u64, s);
            proof {
                assert(map_views(out@) =~= map_views(before).insert(index as u64, s@));
            }
        }
        i += 1;
    }
    out
}

// ---------------------------------------------------------------------------
// Exports
// ---------------------------------------------------------------------------

/// The number of the function at place `i`, as far as 16 bits count.
pub open spec fn ordinal_of(base: int, i: int) -> u16 {
    lesser(base + i, u16::MAX as int) as u16
}

/// What an export forwards to. One whose address lies in the directory itself
/// is no code: the address is that of a string naming a function elsewhere.
pub open spec fn forwarder_of(
    data: Seq<u8>,
    secs: Seq<SectionModel>,
    dir: int,
    size: int,
    rva: int,
) -> Option<Seq<char>> {
    if dir <= rva < dir + size {
        string_of(data, secs, rva)
    } else {
        None
    }
}

/// The export at place `i`: by its name where it has one, else by its number.
pub open spec fn export_of(
    data: Seq<u8>,
    secs: Seq<SectionModel>,
    dir: int,
    size: int,
    base: int,
    names: Map<u64, Seq<char>>,
    rva: int,
    i: int,
) -> ExportModel {
    let ordinal = ordinal_of(base, i);
    let index = lesser(i, u16::MAX as int) as u64;
    ExportModel {
        name: if names.contains_key(index) {
            names[index]
        } else {
            "#"@ + dec(ordinal as int)
        },
        rva: rva as u64,
        ordinal,
        forwarder: forwarder_of(data, secs, dir, size, rva),
    }
}

/// The exports from place `i` of the function array on. A zero entry is an
/// unused number; the first place past the end of the file ends the list.
pub open spec fn exports_from(
    data: Seq<u8>,
    secs: Seq<SectionModel>,
    dir: int,
    size: int,
    base: int,
    names: Map<u64, Seq<char>>,
    functions: int,
    n: int,
    i: int,
) -> Seq<ExportModel>
    decreases n - i,
{
    if i >= n {
        Seq::empty()
    } else {
        match read(data, functions + i * 4, 4) {
            None => Seq::empty(),
            Some(rva) => {
                let rest = exports_from(data, secs, dir, size, base, names, functions, n, i + 1);
                if rva == 0 {
                    rest
                } else {
                    seq![export_of(data, secs, dir, size, base, names, rva, i)] + rest
                }
            },
        }
    }
}

/// A field of the export directory at an offset.
pub open spec fn directory_field(data: Seq<u8>, dir: int, field: int) -> int {
    read_or_zero(data, dir + field, 4)
}

/// The exports of an export directory.
pub open spec fn exports_at(data: Seq<u8>, secs: Seq<SectionModel>, rva: int, size: int) -> Seq<
    ExportModel,
> {
    match mapped(secs, rva) {
        None => Seq::empty(),
        Some(dir) => if rva == 0 {
            Seq::empty()
        } else {
            let d = dir as int;
            match mapped(secs, directory_field(data, d, ADDRESS_OF_FUNCTIONS as int)) {
                None => Seq::empty(),
                Some(functions) => exports_from(
                    data,
                    secs,
                    rva,
                    size,
                    directory_field(data, d, ORDINAL_BASE as int),
                    names_at(
                        data,
                        secs,
                        directory_field(data, d, ADDRESS_OF_NAMES as int),
                        directory_field(data, d, ADDRESS_OF_NAME_ORDINALS as int),
                        directory_field(data, d, NUMBER_OF_NAMES as int),
                    ),
                    functions as int,
                    lesser(
                        directory_field(data, d, NUMBER_OF_FUNCTIONS as int),
                        MAX_EXPORTS as int,
                    ),
                    0,
                ),
            }
        },
    }
}

fn read_export(
    data: &[u8],
    sections: &[Section],
    dir: u32,
    size: u32,
    base: u32,
    names: &BTreeMap<u64, String>,
    rva: u32,
    i: u64,
) -> (r: Export)
    requires
        i <= MAX_EXPORTS,
    ensures
        r.deep_view() == export_of(
            data@,
            models(sections@),
            dir as int,
            size as int,
            base as int,
            map_views(names@),
            rva as int,
            i as int,
        ),
{
    let number = base as u64 + i;
    let ordinal: u16 = if number > 0xffff {
        0xffff
    } else {
        number as u16
    };
    let forwarder = if rva >= dir && (rva as u64) < dir as u64 + size as u64 {
        string_of_rva(data, sections, rva)
    } else {
        None
    };
    let index: u64 = if i > 0xffff {
        0xffff
    } else {
        i
    };
    let name = match names.get(&index) {
        Some(s) => s.clone(),
        None => {
            let mut s = "#".to_string();
            s.append(decimal(ordinal as u64).as_str());
            s
        },
    };
    Export { name, rva: rva as u64, ordinal, forwarder }
}

/// Parses the export directory.
pub fn parse_exports(
    data: &[u8],
    sections: &[Section],
    export_dir_rva: u32,
    export_dir_size: u32,
) -> (r: Vec<Export>)
    ensures
        models(r@) == exports_at(
            data@,
            models(sections@),
            export_dir_rva as int,
            export_dir_size as int,
        ),
{
    let ghost secs = models(sections@);
    let mut exports: Vec<Export> = Vec::new();
    proof {
        assert(models(exports@) =~= Seq::<ExportModel>::empty());
    }
    if export_dir_rva == 0 {
        return exports;
    }
    let dir = match rva_to_offset(sections, export_dir_rva) {
        Some(o) => o as u64,
        None => {
            return exports;
        },
    };
    let reader = ByteReader::new(data);
    let base = reader.u32_or_zero(dir, ORDINAL_BASE);
    let n_functions = reader.u32_or_zero(dir, NUMBER_OF_FUNCTIONS);
    let n_names = reader.u32_or_zero(dir, NUMBER_OF_NAMES);
    let functions_rva = reader.u32_or_zero(dir, ADDRESS_OF_FUNCTIONS);
    let names_rva = reader.u32_or_zero(dir, ADDRESS_OF_NAMES);
    let indices_rva = reader.u32_or_zero(dir, ADDRESS_OF_NAME_ORDINALS);
    let functions = match rva_to_offset(sections, functions_rva) {
        Some(o) => o as u64,
        None => {
            return exports;
        },
    };
    let names = read_names(data, sections, names_rva, indices_rva, n_names);
    let count: u64 = if (n_functions as u64) < MAX_EXPORTS {
        n_functions as u64
    } else {
        MAX_EXPORTS
    };
    let ghost all = exports_at(data@, secs, export_dir_rva as int, export_dir_size as int);
    proof {
        assert(models(exports@) + all =~= all);
    }
    let mut i: u64 = 0;
    while i < count
        invariant
            reader@ == data@,
            secs == models(sections@),
            i <= count <= MAX_EXPORTS,
            all == exports_at(data@, secs, export_dir_rva as int, export_dir_size as int),
            all == models(exports@) + exports_from(
                data@,
                secs,
                export_dir_rva as int,
                export_dir_size as int,
                base as int,
                map_views(names@),
                functions as int,
                count as int,
                i as int,
            ),
        decreases count - i,
    {
        proof {
            assert(models(exports@) + Seq::<ExportModel>::empty() =~= models(exports@));
        }
        let rva = match reader.u32_near(functions, i * 4) {
            Some(v) => v,
            None => {
                return exports;
            },
        };
        if rva != 0 {
            let e = read_export(
                data,
                sections,
                export_dir_rva,
                export_dir_size,
                base,
                &names,
                rva,
                i,
            );
            proof {
                lemma_models_push(exports@, e);
                let rest = exports_from(
                    data@,
                    secs,
                    export_dir_rva as int,
                    export_dir_size as int,
                    base as int,
                    map_views(names@),
                    functions as int,
                    count as int,
                    i + 1,
                );
                assert(models(exports@) + (seq![e.deep_view()] + rest) =~= models(exports@).push(
                    e.deep_view(),
                ) + rest);
            }
            exports.push(e);
        }
        i += 1;
    }
    proof {
        assert(models(exports@) + Seq::<ExportModel>::empty() =~= models(exports@));
    }
    exports
}

// ---------------------------------------------------------------------------
// TLS callbacks
// ---------------------------------------------------------------------------

/// The pointer at place `i` of the array at an offset.
pub open spec fn pointer_at(data: Seq<u8>, wide: bool, off: int, i: int) -> int {
    read_or_zero(data, off + i * pointer_size(wide), pointer_size(wide))
}

/// The callbacks from place `i` of the array on, as RVAs, up to the zero
/// pointer. A pointer below the image base is passed over.
pub open spec fn callbacks_from(data: Seq<u8>, wide: bool, base: int, off: int, i: int) -> Seq<u64>
    decreases MAX_TLS_CALLBACKS - i,
{
    let va = pointer_at(data, wide, off, i);
    if i >= MAX_TLS_CALLBACKS || va == 0 {
        Seq::empty()
    } else if va >= base {
        seq![(va - base) as u64] + callbacks_from(data, wide, base, off, i + 1)
    } else {
        callbacks_from(data, wide, base, off, i + 1)
    }
}

/// Where the TLS directory holds the address of the callback array.
pub open spec fn callback_field(wide: bool) -> int {
    if wide {
        24
    } else {
        12
    }
}

/// The callbacks of a TLS directory.
pub open spec fn callbacks_at(
    data: Seq<u8>,
    secs: Seq<SectionModel>,
    wide: bool,
    rva: int,
    base: int,
) -> Seq<u64> {
    match mapped(secs, rva) {
        None => Seq::empty(),
        Some(dir) => {
            let va = read_or_zero(data, dir + callback_field(wide), pointer_size(wide));
            if rva == 0 || va == 0 || !(base <= va <= base + u32::MAX) {
                Seq::empty()
            } else {
                match mapped(secs, va - base) {
                    Some(off) => callbacks_from(data, wide, base, off as int, 0),
                    None => Seq::empty(),
                }
            }
        },
    }
}

fn read_pointer(reader: &ByteReader, wide: bool, base: u64, delta: u64) -> (r: u64)
    ensures
        r == read_or_zero(reader@, base + delta, pointer_size(wide)),
{
    if wide {
        reader.u64_or_zero(base, delta)
    } else {
        reader.u32_or_zero(base, delta) as u64
    }
}

/// The callbacks of the TLS directory: code that runs before the entry point,
/// on every thread start. The file holds virtual addresses; the image base
/// comes off to make them RVAs.
pub fn parse_tls_callbacks(
    data: &[u8],
    sections: &[Section],
    is_pe32_plus: bool,
    tls_dir_rva: u32,
    image_base: u64,
) -> (r: Vec<u64>)
    ensures
        r@ == callbacks_at(
            data@,
            models(sections@),
            is_pe32_plus,
            tls_dir_rva as int,
            image_base as int,
        ),
{
    let ghost secs = models(sections@);
    let mut callbacks: Vec<u64> = Vec::new();
    if tls_dir_rva == 0 {
        return callbacks;
    }
    let dir = match rva_to_offset(sections, tls_dir_rva) {
        Some(o) => o as u64,
        None => {
            return callbacks;
        },
    };
    let reader = ByteReader::new(data);
    let size: u64 = if is_pe32_plus {
        8
    } else {
        4
    };
    let field: u64 = if is_pe32_plus {
        24
    } else {
        12
    };
    let array_va = read_pointer(&reader, is_pe32_plus, dir, field);
    if array_va == 0 || array_va < image_base || array_va - image_base > u32::MAX as u64 {
        return callbacks;
    }
    let off = match rva_to_offset(sections, (array_va - image_base) as u32) {
        Some(o) => o as u64,
        None => {
            return callbacks;
        },
    };
    let ghost all = callbacks_at(
        data@,
        secs,
        is_pe32_plus,
        tls_dir_rva as int,
        image_base as int,
    );
    proof {
        assert(callbacks@ + all =~= all);
    }
    let mut i: u64 = 0;
    while i < MAX_TLS_CALLBACKS
        invariant
            reader@ == data@,
            size == pointer_size(is_pe32_plus),
            i <= MAX_TLS_CALLBACKS,
            all == callbacks_at(
                data@,
                models(sections@),
                is_pe32_plus,
                tls_dir_rva as int,
                image_base as int,
            ),
            all == callbacks@ + callbacks_from(
                data@,
                is_pe32_plus,
                image_base as int,
                off as int,
                i as int,
            ),
        decreases MAX_TLS_CALLBACKS - i,
    {
        proof {
            assert(i * size <= 8 * MAX_TLS_CALLBACKS) by (nonlinear_arith)
                requires
                    i <= MAX_TLS_CALLBACKS,
                    0 <= size <= 8,
            ;
            assert(i * size == i as int * pointer_size(is_pe32_plus));
            assert(callbacks@ + Seq::<u64>::empty() =~= callbacks@);
        }
        let va = read_pointer(&reader, is_pe32_plus, off, i * size);
        if va == 0 {
            return callbacks;
        }
        if va >= image_base {
            let rva = va - image_base;
            proof {
                let rest = callbacks_from(
                    data@,
                    is_pe32_plus,
                    image_base as int,
                    off as int,
                    i + 1,
                );
                assert(callbacks@ + (seq![rva] + rest) =~= callbacks@.push(rva) + rest);
            }
            callbacks.push(rva);
        }
        i += 1;
    }
    proof {
        assert(callbacks@ + Seq::<u64>::empty() =~= callbacks@);
    }
    callbacks
}

} // verus!
