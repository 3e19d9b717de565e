//! The PE import directory.
//!
//! Best-effort and bounds-safe: a malformed pointer stops that part of the walk
//! instead of failing the whole parse.
use crate::binary::{
    as_index, lesser, offset_index, section_holding, section_index, Import, ImportModel, ImportedFn,
    ImportedFnModel, Section, SectionModel,
};
use crate::reader::{at, read_or_zero, ByteReader};
use crate::text::{dec, decimal, lemma_models_push, models};
use vstd::prelude::*;

verus! {

// ---------------------------------------------------------------------------
// Text in the file
// ---------------------------------------------------------------------------

/// What `String::from_utf8_lossy` makes of bytes.
pub uninterp spec fn lossy(bytes: Seq<u8>) -> Seq<char>;

/// `String::from_utf8_lossy`: the text that the bytes encode, with a replacement
/// character for what is no UTF-8. Bytes that are UTF-8 throughout give exactly
/// the text they encode; where the replacement characters stand for others is
/// not stated.
#[verifier::external_body]
pub(crate) fn lossy_text(bytes: &[u8]) -> (r: String)
    ensures
        r@ == lossy(bytes@),
        vstd::utf8::valid_utf8(bytes@) ==> r@ == vstd::utf8::decode_utf8(bytes@),
{
    String::from_utf8_lossy(bytes).into_owned()
}

/// The longest string that is read.
pub const MAX_STRING: usize = 256;

/// Where a string ends: at the first zero byte before `limit`, else there.
pub open spec fn string_end(data: Seq<u8>, i: int, limit: int) -> int
    decreases limit - i,
{
    if i >= limit || data[i] == 0 {
        i
    } else {
        string_end(data, i + 1, limit)
    }
}

/// The bytes of the zero-terminated string at an offset. It is cut off after
/// 256 bytes and at the end of the data; past the end of the data it is empty.
pub open spec fn string_bytes(data: Seq<u8>, offset: int) -> Seq<u8> {
    if offset >= data.len() {
        Seq::empty()
    } else {
        data.subrange(
            offset,
            string_end(data, offset, lesser(offset + MAX_STRING, data.len() as int)),
        )
    }
}

/// The zero-terminated string at an offset.
pub open spec fn string_at(data: Seq<u8>, offset: int) -> Seq<char> {
    lossy(string_bytes(data, offset))
}

/// Reads a zero-terminated string, bounds-checked and capped so that a missing
/// terminator cannot run away.
pub fn read_cstr(data: &[u8], offset: usize) -> (r: String)
    ensures
        r@ == string_at(data@, offset as int),
{
    let len = data.len();
    if offset >= len {
        let none: &[u8] = &data[len..len];
        proof {
            assert(none@ =~= string_bytes(data@, offset as int));
        }
        return lossy_text(none);
    }
    let limit: usize = if len - offset > MAX_STRING {
        offset + MAX_STRING
    } else {
        len
    };
    let mut end: usize = offset;
    while end < limit && data[end] != 0
        invariant
            offset <= end <= limit <= data@.len(),
            string_end(data@, offset as int, limit as int) == string_end(
                data@,
                end as int,
                limit as int,
            ),
        decreases limit - end,
    {
        end += 1;
    }
    lossy_text(&data[offset..end])
}

/// Reads the zero-terminated string `delta` bytes behind a base.
pub fn read_cstr_near(data: &[u8], base: u64, delta: u64) -> (r: String)
    ensures
        r@ == string_at(data@, base + delta),
{
    let len = data.len();
    match base.checked_add(delta) {
        Some(offset) => {
            proof {
                if offset > usize::MAX {
                    assert(string_bytes(data@, offset as int) == string_bytes(
                        data@,
                        usize::MAX as int,
                    ));
                }
            }
            read_cstr(data, at(offset))
        },
        None => {
            proof {
                assert(string_bytes(data@, base + delta) == string_bytes(data@, usize::MAX as int));
            }
            read_cstr(data, usize::MAX)
        },
    }
}

// ---------------------------------------------------------------------------
// Addresses
// ---------------------------------------------------------------------------

/// Where the byte at an RVA lies in the file, by the first section that holds
/// it, whether or not that part of the section is on disk.
pub open spec fn mapped(secs: Seq<SectionModel>, rva: int) -> Option<usize> {
    match section_holding(secs, rva) {
        Some(s) => as_index(s.file_offset + (rva - s.virtual_addr)),
        None => None,
    }
}

/// Maps an RVA to a file offset. None where no section holds it, and where the
/// offset is beyond what an index can hold.
pub fn rva_to_offset(sections: &[Section], rva: u32) -> (r: Option<usize>)
    ensures
        r == mapped(models(sections@), rva as int),
{
    match section_index(sections, rva as u64) {
        Some(i) => {
            let s = &sections[i];
            proof {
                crate::binary::lemma_section_index(models(sections@), rva as int, 0);
                assert(models(sections@)[i as int] == s.deep_view());
            }
            offset_index(s.file_offset, rva as u64 - s.virtual_addr)
        },
        None => None,
    }
}

// ---------------------------------------------------------------------------
// Thunks
// ---------------------------------------------------------------------------

pub const MAX_THUNKS: usize = 8192;

pub const MAX_DESCRIPTORS: usize = 1024;

pub const DESCRIPTOR_SIZE: u64 = 20;

/// The size of a thunk: that of a pointer.
pub open spec fn pointer_size(wide: bool) -> int {
    if wide {
        8
    } else {
        4
    }
}

/// The thunk at place `i` of the array at an offset.
pub open spec fn thunk_at(data: Seq<u8>, wide: bool, off: int, i: int) -> int {
    read_or_zero(data, off + i * pointer_size(wide), pointer_size(wide))
}

/// The slot of the function at place `i`: its place in the import address table,
/// where there is one.
pub open spec fn slot_of(wide: bool, iat: u32, i: int) -> Option<u64> {
    if iat != 0 {
        Some((iat + i * pointer_size(wide)) as u64)
    } else {
        None
    }
}

/// Does the thunk import by number? Its top bit says so.
pub open spec fn by_ordinal(wide: bool, raw: int) -> bool {
    if wide {
        raw >= 0x8000_0000_0000_0000
    } else {
        raw >= 0x8000_0000
    }
}

/// The function that a thunk stands for: one by number, or one whose name
/// follows a two-byte hint. None where the thunk points nowhere.
pub open spec fn function_of_thunk(
    data: Seq<u8>,
    secs: Seq<SectionModel>,
    wide: bool,
    raw: int,
    slot: Option<u64>,
) -> Seq<ImportedFnModel> {
    if by_ordinal(wide, raw) {
        seq![
            ImportedFnModel {
                name: "#"@ + dec(raw % 0x1_0000),
                iat_rva: slot,
                ordinal: Some((raw % 0x1_0000) as u16),
            },
        ]
    } else {
        match mapped(secs, raw % 0x8000_0000) {
            Some(hint) => seq![
                ImportedFnModel { name: string_at(data, hint + 2), iat_rva: slot, ordinal: None },
            ],
            None => Seq::empty(),
        }
    }
}

/// The functions from place `i` of a thunk array on, up to the zero thunk. The
/// place advances for a thunk that points nowhere too: slots are positional.
pub open spec fn thunks_from(
    data: Seq<u8>,
    secs: Seq<SectionModel>,
    wide: bool,
    off: int,
    iat: u32,
    i: int,
) -> Seq<ImportedFnModel>
    decreases MAX_THUNKS - i,
{
    if i >= MAX_THUNKS || thunk_at(data, wide, off, i) == 0 {
        Seq::empty()
    } else {
        function_of_thunk(
            data,
            secs,
            wide,
            thunk_at(data, wide, off, i),
            slot_of(wide, iat, i),
        ) + thunks_from(data, secs, wide, off, iat, i + 1)
    }
}

/// The functions of a thunk array.
pub open spec fn functions_at(
    data: Seq<u8>,
    secs: Seq<SectionModel>,
    wide: bool,
    names: u32,
    iat: u32,
) -> Seq<ImportedFnModel> {
    match mapped(secs, names as int) {
        Some(off) => thunks_from(data, secs, wide, off as int, iat, 0),
        None => Seq::empty(),
    }
}

fn read_thunk(data: &[u8], sections: &[Section], wide: bool, raw: u64, slot: Option<u64>) -> (r: Option<
    ImportedFn,
>)
    ensures
        match r {
            Some(f) => function_of_thunk(data@, models(sections@), wide, raw as int, slot) == seq![
                f.deep_view(),
            ],
            None => function_of_thunk(data@, models(sections@), wide, raw as int, slot) == Seq::<
                ImportedFnModel,
            >::empty(),
        },
{
    let numbered = if wide {
        raw >= 0x8000_0000_0000_0000
    } else {
        raw >= 0x8000_0000
    };
    if numbered {
        let n = (raw % 0x1_0000) as u16;
        let mut name = "#".to_string();
        name.append(decimal(n as u64).as_str());
        let f = ImportedFn { name, iat_rva: slot, ordinal: Some(n) };
        return Some(f);
    }
    match rva_to_offset(sections, (raw % 0x8000_0000) as u32) {
        Some(hint) => {
            let name = read_cstr_near(data, hint as u64, 2);
            Some(ImportedFn { name, iat_rva: slot, ordinal: None })
        },
        None => None,
    }
}

/// The functions of one library, each with the slot that the loader fills in
/// for it. Names come from the array at `name_thunk_rva`, slots from `iat_rva`.
pub fn read_thunks(
    data: &[u8],
    sections: &[Section],
    is_pe32_plus: bool,
    name_thunk_rva: u32,
    iat_rva: u32,
) -> (r: Vec<ImportedFn>)
    ensures
        models(r@) == functions_at(
            data@,
            models(sections@),
            is_pe32_plus,
            name_thunk_rva,
            iat_rva,
        ),
{
    let ghost secs = models(sections@);
    let mut functions: Vec<ImportedFn> = Vec::new();
    proof {
        assert(models(functions@) =~= Seq::<ImportedFnModel>::empty());
    }
    let off = match rva_to_offset(sections, name_thunk_rva) {
        Some(o) => o as u64,
        None => {
            return functions;
        },
    };
    let reader = ByteReader::new(data);
    let size: u64 = if is_pe32_plus {
        8
    } else {
        4
    };
    let ghost all = thunks_from(data@, secs, is_pe32_plus, off as int, iat_rva, 0);
    proof {
        assert(models(functions@) + all =~= all);
    }
    let mut i: u64 = 0;
    while i < MAX_THUNKS as u64
        invariant
            reader@ == data@,
            secs == models(sections@),
            size == pointer_size(is_pe32_plus),
            i <= MAX_THUNKS,
            all == functions_at(data@, secs, is_pe32_plus, name_thunk_rva, iat_rva),
            all == models(functions@) + thunks_from(
                data@,
                secs,
                is_pe32_plus,
                off as int,
                iat_rva,
                i as int,
            ),
        decreases MAX_THUNKS - i,
    {
        proof {
            assert(i * size <= 8 * MAX_THUNKS) by (nonlinear_arith)
                requires
                    i <= MAX_THUNKS,
                    0 <= size <= 8,
            ;
            assert(i * size == i as int * pointer_size(is_pe32_plus));
        }
        let raw: u64 = if is_pe32_plus {
            reader.u64_or_zero(off, i * size)
        } else {
            reader.u32_or_zero(off, i * size) as u64
        };
        if raw == 0 {
            proof {
                assert(models(functions@) + Seq::<ImportedFnModel>::empty() =~= models(functions@));
            }
            return functions;
        }
        let slot: Option<u64> = if iat_rva != 0 {
            Some(iat_rva as u64 + i * size)
        } else {
            None
        };
        let ghost rest = thunks_from(
            data@,
            secs,
            is_pe32_plus,
            off as int,
            iat_rva,
            i + 1,
        );
        match read_thunk(data, sections, is_pe32_plus, raw, slot) {
            Some(f) => {
                proof {
                    lemma_models_push(functions@, f);
                    assert(models(functions@) + (seq![f.deep_view()] + rest) =~= models(
                        functions@,
                    ).push(f.deep_view()) + rest);
                }
                functions.push(f);
            },
            None => {
                proof {
                    assert(Seq::<ImportedFnModel>::empty() + rest =~= rest);
                }
            },
        }
        i += 1;
    }
    proof {
        assert(models(functions@) + Seq::<ImportedFnModel>::empty() =~= models(functions@));
    }
    functions
}

// ---------------------------------------------------------------------------
// Descriptors
// ---------------------------------------------------------------------------

/// A field of the descriptor at place `i` of the table.
pub open spec fn descriptor_field(data: Seq<u8>, table: int, i: int, field: int) -> u32 {
    read_or_zero(data, table + (DESCRIPTOR_SIZE * i + field), 4) as u32
}

/// The libraries from place `i` of the table on. The table ends at a descriptor
/// that is all zero, and at one whose name is in no section. Names are read from
/// the name table where there is one, slots always from the address table.
pub open spec fn imports_from(
    data: Seq<u8>,
    secs: Seq<SectionModel>,
    wide: bool,
    table: int,
    i: int,
) -> Seq<ImportModel>
    decreases MAX_DESCRIPTORS - i,
{
    let names = descriptor_field(data, table, i, 0);
    let name_rva = descriptor_field(data, table, i, 12);
    let iat = descriptor_field(data, table, i, 16);
    if i >= MAX_DESCRIPTORS || names == 0 && name_rva == 0 && iat == 0 {
        Seq::empty()
    } else {
        match mapped(secs, name_rva as int) {
            None => Seq::empty(),
            Some(o) => {
                let functions = functions_at(
                    data,
                    secs,
                    wide,
                    if names != 0 {
                        names
                    } else {
                        iat
                    },
                    iat,
                );
                seq![ImportModel { dll: string_at(data, o as int), functions }] + imports_from(
                    data,
                    secs,
                    wide,
                    table,
                    i + 1,
                )
            },
        }
    }
}

/// The libraries of an import directory.
pub open spec fn imports_at(data: Seq<u8>, secs: Seq<SectionModel>, wide: bool, rva: u32) -> Seq<
    ImportModel,
> {
    match mapped(secs, rva as int) {
        Some(table) => if rva == 0 {
            Seq::empty()
        } else {
            imports_from(data, secs, wide, table as int, 0)
        },
        None => Seq::empty(),
    }
}

/// Parses the whole import table.
pub fn parse_imports(
    data: &[u8],
    sections: &[Section],
    is_pe32_plus: bool,
    import_dir_rva: u32,
) -> (r: Vec<Import>)
    ensures
        models(r@) == imports_at(data@, models(sections@), is_pe32_plus, import_dir_rva),
{
    let ghost secs = models(sections@);
    let mut imports: Vec<Import> = Vec::new();
    proof {
        assert(models(imports@) =~= Seq::<ImportModel>::empty());
    }
    if import_dir_rva == 0 {
        return imports;
    }
    let table = match rva_to_offset(sections, import_dir_rva) {
        Some(o) => o as u64,
        None => {
            return imports;
        },
    };
    let reader = ByteReader::new(data);
    let ghost all = imports_from(data@, secs, is_pe32_plus, table as int, 0);
    proof {
        assert(models(imports@) + all =~= all);
    }
    let mut i: u64 = 0;
    while i < MAX_DESCRIPTORS as u64
        invariant
            reader@ == data@,
            secs == models(sections@),
            i <= MAX_DESCRIPTORS,
            all == imports_at(data@, secs, is_pe32_plus, import_dir_rva),
            all == models(imports@) + imports_from(
                data@,
                secs,
                is_pe32_plus,
                table as int,
                i as int,
            ),
        decreases MAX_DESCRIPTORS - i,
    {
        proof {
            assert(models(imports@) + Seq::<ImportModel>::empty() =~= models(imports@));
        }
        let d = DESCRIPTOR_SIZE * i;
        let names = reader.u32_or_zero(table, d);
        let name_rva = reader.u32_or_zero(table, d + 12);
        let iat = reader.u32_or_zero(table, d + 16);
        if names == 0 && name_rva == 0 && iat == 0 {
            return imports;
        }
        let dll = match rva_to_offset(sections, name_rva) {
            Some(o) => read_cstr(data, o),
            None => {
                return imports;
            },
        };
        let functions = read_thunks(
            data,
            sections,
            is_pe32_plus,
            if names != 0 {
                names
            } else {
                iat
            },
            iat,
        );
        let imp = Import { dll, functions };
        proof {
            lemma_models_push(imports@, imp);
            let rest = imports_from(data@, secs, is_pe32_plus, table as int, i + 1);
            assert(models(imports@) + (seq![imp.deep_view()] + rest) =~= models(imports@).push(
                imp.deep_view(),
            ) + rest);
        }
        imports.push(imp);
        i += 1;
    }
    proof {
        assert(models(imports@) + Seq::<ImportModel>::empty() =~= models(imports@));
    }
    imports
}

// ---------------------------------------------------------------------------
// Laws
// ---------------------------------------------------------------------------

proof fn lemma_slots(
    data: Seq<u8>,
    secs: Seq<SectionModel>,
    wide: bool,
    off: int,
    iat: u32,
    i: int,
)
    requires
        iat != 0,
        0 <= i <= MAX_THUNKS,
    ensures
        forall|k: int|
            0 <= k < thunks_from(data, secs, wide, off, iat, i).len() ==> {
                let f = #[trigger] thunks_from(data, secs, wide, off, iat, i)[k];
                f.iat_rva is Some && f.iat_rva->0 >= iat + i * pointer_size(wide)
            },
        forall|j: int, k: int|
            0 <= j < k < thunks_from(data, secs, wide, off, iat, i).len() ==> (
            #[trigger] thunks_from(data, secs, wide, off, iat, i)[j]).iat_rva->0 < (
            #[trigger] thunks_from(data, secs, wide, off, iat, i)[k]).iat_rva->0,
    decreases MAX_THUNKS - i,
{
    let all = thunks_from(data, secs, wide, off, iat, i);
    if i < MAX_THUNKS && thunk_at(data, wide, off, i) != 0 {
        lemma_slots(data, secs, wide, off, iat, i + 1);
        let rest = thunks_from(data, secs, wide, off, iat, i + 1);
        let head = function_of_thunk(
            data,
            secs,
            wide,
            thunk_at(data, wide, off, i),
            slot_of(wide, iat, i),
        );
        assert(all == head + rest);
        assert((i + 1) * pointer_size(wide) == i * pointer_size(wide) + pointer_size(wide))
            by (nonlinear_arith);
        assert(0 <= i * pointer_size(wide) <= 8 * MAX_THUNKS) by (nonlinear_arith)
            requires
                0 <= i <= MAX_THUNKS,
                0 <= pointer_size(wide) <= 8,
        ;
        assert forall|k: int| 0 <= k < all.len() implies {
            let f = #[trigger] all[k];
            f.iat_rva is Some && f.iat_rva->0 >= iat + i * pointer_size(wide)
        } by {
            if k >= head.len() {
                assert(all[k] == rest[k - head.len()]);
            }
        }
        assert forall|j: int, k: int| 0 <= j < k < all.len() implies (#[trigger] all[j]).iat_rva->0
            < (#[trigger] all[k]).iat_rva->0 by {
            assert(all[k] == rest[k - head.len()]);
            if j >= head.len() {
                assert(all[j] == rest[j - head.len()]);
            }
        }
    }
}

/// The functions of a library have slots in ascending order, so that no two of
/// them share one.
pub proof fn law_slots_ascend(
    data: Seq<u8>,
    secs: Seq<SectionModel>,
    wide: bool,
    names: u32,
    iat: u32,
    j: int,
    k: int,
)
    requires
        iat != 0,
        0 <= j < k < functions_at(data, secs, wide, names, iat).len(),
    ensures
        functions_at(data, secs, wide, names, iat)[j].iat_rva is Some,
        functions_at(data, secs, wide, names, iat)[k].iat_rva is Some,
        functions_at(data, secs, wide, names, iat)[j].iat_rva->0 < functions_at(
            data,
            secs,
            wide,
            names,
            iat,
        )[k].iat_rva->0,
{
    let off = mapped(secs, names as int)->0;
    lemma_slots(data, secs, wide, off as int, iat, 0);
}

} // verus!
