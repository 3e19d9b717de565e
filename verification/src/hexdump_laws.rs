//! What every hex dump shows, and which part of a file it is of.
use crate::binary::{file_offset_of, SectionModel};
use crate::hexdump::{
    dump_row, dump_rows, dump_text, exact_section, headers_end, hex_column, named_section,
    row_bytes, similar_section, slot_text, text_column, window_range, HexWindowModel,
};
use crate::rule_laws::{law_lower_case_forgets_case, same_but_for_case};
use crate::search::lowered;
use crate::text::{digit_char, digits, fill, hex, pad_start};
use vstd::prelude::*;

verus! {

// ---------------------------------------------------------------------------
// Rows
// ---------------------------------------------------------------------------

/// The bytes of a row: sixteen, or what is left.
pub open spec fn bytes_of_row(data: Seq<u8>, row: int) -> Seq<u8> {
    if 16 * row + 16 <= data.len() {
        data.subrange(16 * row, 16 * row + 16)
    } else {
        data.skip(16 * row)
    }
}

proof fn lemma_rows(data: Seq<u8>, base: int, n: int)
    requires
        0 <= n <= (data.len() + 15) as int / 16,
    ensures
        dump_rows(data, base, n) == Seq::new(
            n as nat,
            |row: int| dump_row(bytes_of_row(data, row), base + 16 * row),
        ).flatten(),
    decreases n,
{
    let line = |row: int| dump_row(bytes_of_row(data, row), base + 16 * row);
    let all = Seq::new(n as nat, line);
    if n > 0 {
        lemma_rows(data, base, n - 1);
        let before = Seq::new((n - 1) as nat, line);
        assert(all =~= before.push(line(n - 1)));
        before.lemma_flatten_push(line(n - 1));
        assert(row_bytes(data, n - 1) =~= bytes_of_row(data, n - 1));
    } else {
        assert(all.flatten() =~= Seq::<char>::empty());
    }
}

/// A dump has a row for every sixteen bytes and one for what is left, in order,
/// each with the address of its first byte; the rows hold every byte once.
pub proof fn law_dumps_show_every_byte(data: Seq<u8>, base: int, rows: int)
    requires
        16 * rows >= data.len(),
        16 * rows < data.len() + 16,
    ensures
        dump_text(data, base) == Seq::new(
            rows as nat,
            |row: int| dump_row(bytes_of_row(data, row), base + 16 * row),
        ).flatten(),
        forall|i: int|
            0 <= i < data.len() ==> #[trigger] data[i] == bytes_of_row(data, i / 16)[i % 16] && i % 16
                < bytes_of_row(data, i / 16).len(),
{
    assert(rows == (data.len() + 15) as int / 16);
    lemma_rows(data, base, rows);
}

/// Where the digits of a byte stand in its row: three columns for each byte, and
/// one more from the ninth on.
pub open spec fn column_of(i: int) -> int {
    if i < 8 {
        10 + 3 * i
    } else {
        11 + 3 * i
    }
}

proof fn lemma_byte_digits(b: u8)
    ensures
        pad_start(hex(b as int), 2, '0') == seq![digit_char(b as int / 16), digit_char(b as int % 16)],
{
    reveal_with_fuel(digits, 3);
    if b < 16 {
        assert(hex(b as int) =~= seq![digit_char(b as int)]);
        assert(fill('0', 1) =~= seq!['0']);
        assert(digit_char(0) == '0');
    } else {
        assert(hex(b as int) =~= seq![digit_char(b as int / 16), digit_char(b as int % 16)]);
        assert(fill('0', 0) =~= Seq::<char>::empty());
    }
    assert(pad_start(hex(b as int), 2, '0') =~= seq![
        digit_char(b as int / 16),
        digit_char(b as int % 16),
    ]);
}

#[verifier::rlimit(50)]
proof fn lemma_columns(chunk: Seq<u8>, n: int)
    requires
        0 <= n <= 16,
    ensures
        hex_column(chunk, n).len() == (if n <= 8 {
            3 * n
        } else {
            3 * n + 1
        }),
        forall|i: int|
            #![trigger chunk[i]]
            0 <= i < n && i < chunk.len() ==> hex_column(chunk, n)[column_of(i) - 10] == digit_char(
                chunk[i] as int / 16,
            ) && hex_column(chunk, n)[column_of(i) - 9] == digit_char(chunk[i] as int % 16),
    decreases n,
{
    reveal_strlit(" ");
    reveal_strlit("");
    reveal_strlit("   ");
    if n > 0 {
        lemma_columns(chunk, n - 1);
        let before = hex_column(chunk, n - 1);
        let slot = slot_text(chunk, n - 1);
        if n - 1 < chunk.len() {
            lemma_byte_digits(chunk[n - 1]);
        }
        assert(slot.len() == (if n == 9 {
            4int
        } else {
            3
        }));
        assert(hex_column(chunk, n) == before + slot);
        assert forall|i: int|
            #![trigger chunk[i]]
            0 <= i < n && i < chunk.len() implies hex_column(chunk, n)[column_of(i) - 10]
            == digit_char(chunk[i] as int / 16) && hex_column(chunk, n)[column_of(i) - 9]
            == digit_char(chunk[i] as int % 16) by {
            if i < n - 1 {
                assert(hex_column(chunk, n)[column_of(i) - 10] == before[column_of(i) - 10]);
                assert(hex_column(chunk, n)[column_of(i) - 9] == before[column_of(i) - 9]);
            } else {
                let k = column_of(i) - 10 - before.len();
                assert(hex_column(chunk, n)[column_of(i) - 10] == slot[k]);
                assert(hex_column(chunk, n)[column_of(i) - 9] == slot[k + 1]);
            }
        }
    }
}

/// A row begins with the low 32 bits of its address in eight digits. Then come the
/// two digits of each byte, at its column, and between bars each byte as a
/// character, or a dot where it is none.
#[verifier::rlimit(50)]
pub proof fn law_rows_show_their_bytes(chunk: Seq<u8>, addr: int)
    requires
        0 < chunk.len() <= 16,
        0 <= addr,
    ensures
        ({
            let r = dump_row(chunk, addr);
            &&& r.len() == 63 + chunk.len()
            &&& r.subrange(0, 8) == pad_start(hex(addr % 0x1_0000_0000), 8, '0')
            &&& forall|i: int|
                #![trigger chunk[i]]
                0 <= i < chunk.len() ==> {
                    &&& r[column_of(i)] == digit_char(chunk[i] as int / 16)
                    &&& r[column_of(i) + 1] == digit_char(chunk[i] as int % 16)
                    &&& 0x20 <= chunk[i] <= 0x7e ==> r[61 + i] == chunk[i] as char
                    &&& !(0x20 <= chunk[i] <= 0x7e) ==> r[61 + i] == '.'
                }
            &&& r[60] == '|' && r[61int + chunk.len()] == '|' && r[62int + chunk.len()] == '\n'
        }),
{
    reveal_strlit("  ");
    reveal_strlit(" |");
    reveal_strlit("|\n");
    let r = dump_row(chunk, addr);
    let a = pad_start(hex(addr % 0x1_0000_0000), 8, '0');
    let h = hex_column(chunk, 16);
    let t = text_column(chunk);
    lemma_columns(chunk, 16);
    lemma_eight(addr % 0x1_0000_0000);
    assert(r == a + "  "@ + h + " |"@ + t + "|\n"@);
    assert(r.subrange(0, 8) =~= a);
    assert forall|i: int|
        #![trigger chunk[i]]
        0 <= i < chunk.len() implies ({
        &&& r[column_of(i)] == digit_char(chunk[i] as int / 16)
        &&& r[column_of(i) + 1] == digit_char(chunk[i] as int % 16)
        &&& 0x20 <= chunk[i] <= 0x7e ==> r[61 + i] == chunk[i] as char
        &&& !(0x20 <= chunk[i] <= 0x7e) ==> r[61 + i] == '.'
    }) by {
        assert(r[column_of(i)] == h[column_of(i) - 10]);
        assert(r[column_of(i) + 1] == h[column_of(i) - 9]);
        assert(r[61 + i] == t[i]);
    }
}

proof fn lemma_hex_len(n: int, k: int, bound: int)
    requires
        0 <= n < bound,
        1 <= k <= 8,
        bound == 0x10 && k == 1 || bound == 0x100 && k == 2 || bound == 0x1000 && k == 3 || bound
            == 0x1_0000 && k == 4 || bound == 0x10_0000 && k == 5 || bound == 0x100_0000 && k == 6
            || bound == 0x1000_0000 && k == 7 || bound == 0x1_0000_0000 && k == 8,
    ensures
        hex(n).len() <= k,
    decreases k,
{
    if n >= 16 {
        lemma_hex_len(n / 16, k - 1, bound / 16);
    }
}

proof fn lemma_eight(n: int)
    requires
        0 <= n < 0x1_0000_0000,
    ensures
        pad_start(hex(n), 8, '0').len() == 8,
{
    lemma_hex_len(n, 8, 0x1_0000_0000);
}

// ---------------------------------------------------------------------------
// Windows
// ---------------------------------------------------------------------------

/// Is this the first section of exactly that name?
pub open spec fn first_named(secs: Seq<SectionModel>, name: Seq<char>, i: int) -> bool {
    &&& 0 <= i < secs.len()
    &&& secs[i].name == name
    &&& forall|j: int| 0 <= j < i ==> (#[trigger] secs[j]).name != name
}

/// Is this the first section of that name in any case?
pub open spec fn first_similar(secs: Seq<SectionModel>, name: Seq<char>, i: int) -> bool {
    &&& 0 <= i < secs.len()
    &&& same_but_for_case(secs[i].name, name)
    &&& forall|j: int| 0 <= j < i ==> !same_but_for_case((#[trigger] secs[j]).name, name)
}

proof fn lemma_exact(secs: Seq<SectionModel>, name: Seq<char>, i: int)
    requires
        0 <= i <= secs.len(),
        forall|j: int| 0 <= j < i ==> (#[trigger] secs[j]).name != name,
    ensures
        match exact_section(secs, name, i) {
            Some(k) => first_named(secs, name, k),
            None => forall|j: int| 0 <= j < secs.len() ==> (#[trigger] secs[j]).name != name,
        },
    decreases secs.len() - i,
{
    if i < secs.len() && secs[i].name != name {
        lemma_exact(secs, name, i + 1);
    }
}

proof fn lemma_similar(secs: Seq<SectionModel>, name: Seq<char>, i: int)
    requires
        0 <= i <= secs.len(),
        forall|j: int| 0 <= j < i ==> !same_but_for_case((#[trigger] secs[j]).name, name),
    ensures
        match similar_section(secs, name, i) {
            Some(k) => first_similar(secs, name, k),
            None => forall|j: int|
                0 <= j < secs.len() ==> !same_but_for_case((#[trigger] secs[j]).name, name),
        },
    decreases secs.len() - i,
{
    if i < secs.len() {
        law_lower_case_forgets_case(secs[i].name, name);
        if lowered(secs[i].name) != lowered(name) {
            lemma_similar(secs, name, i + 1);
        }
    }
}

/// A section is found by its exact name, the first that bears it; where none does,
/// by its name in any case.
pub proof fn law_sections_are_found_by_name(secs: Seq<SectionModel>, name: Seq<char>, i: int)
    ensures
        first_named(secs, name, i) ==> named_section(secs, name) == Some(i),
        (forall|j: int| 0 <= j < secs.len() ==> (#[trigger] secs[j]).name != name)
            && first_similar(secs, name, i) ==> named_section(secs, name) == Some(i),
        (forall|j: int|
            0 <= j < secs.len() ==> !same_but_for_case((#[trigger] secs[j]).name, name)) ==> (
        named_section(secs, name) is None),
{
    lemma_exact(secs, name, 0);
    lemma_similar(secs, name, 0);
    if first_named(secs, name, i) {
        let k = exact_section(secs, name, 0)->0;
        if k < i {
            assert(secs[k].name != name);
        }
        if i < k {
            assert(secs[i].name != name);
        }
    }
    if (forall|j: int| 0 <= j < secs.len() ==> (#[trigger] secs[j]).name != name)
        && first_similar(secs, name, i) {
        let k = similar_section(secs, name, 0)->0;
        if k < i {
            assert(!same_but_for_case(secs[k].name, name));
        }
        if i < k {
            assert(!same_but_for_case(secs[i].name, name));
        }
    }
    if forall|j: int| 0 <= j < secs.len() ==> !same_but_for_case((#[trigger] secs[j]).name, name) {
        if exact_section(secs, name, 0) is Some {
            let k = exact_section(secs, name, 0)->0;
            law_lower_case_forgets_case(secs[k].name, name);
        }
    }
}

proof fn lemma_headers_end(secs: Seq<SectionModel>, len: int, n: int)
    requires
        0 <= n <= secs.len(),
        0 <= len,
    ensures
        headers_end(secs, len, n) <= len,
        forall|i: int|
            0 <= i < n && (#[trigger] secs[i]).file_offset > 0 ==> headers_end(secs, len, n)
                <= secs[i].file_offset,
        headers_end(secs, len, n) == len || exists|i: int|
            0 <= i < n && (#[trigger] secs[i]).file_offset > 0 && headers_end(secs, len, n)
                == secs[i].file_offset,
    decreases n,
{
    if n > 0 {
        lemma_headers_end(secs, len, n - 1);
        let was = headers_end(secs, len, n - 1);
        let now = headers_end(secs, len, n);
        if now == was && was != len {
            let i = choose|i: int|
                0 <= i < n - 1 && (#[trigger] secs[i]).file_offset > 0 && was
                    == secs[i].file_offset;
            assert(secs[i].file_offset > 0);
        } else if now != was {
            assert(secs[n - 1].file_offset > 0);
        }
    }
}

/// The headers go up to the first section with a place in the file, else to its
/// end.
pub proof fn law_headers_end_at_the_first_section(secs: Seq<SectionModel>, len: int)
    requires
        0 <= len,
    ensures
        ({
            let end = headers_end(secs, len, secs.len() as int);
            &&& end <= len
            &&& forall|i: int|
                0 <= i < secs.len() && (#[trigger] secs[i]).file_offset > 0 ==> end
                    <= secs[i].file_offset
            &&& end == len || exists|i: int|
                0 <= i < secs.len() && (#[trigger] secs[i]).file_offset > 0 && end
                    == secs[i].file_offset
        }),
{
    lemma_headers_end(secs, len, secs.len() as int);
}

/// Is this how much of the file is shown: what was asked for, else the natural
/// length, as far as the file goes?
pub open spec fn is_shown_length(len: int, start: int, want: int, n: int) -> bool {
    &&& n <= want
    &&& start + n <= len
    &&& n == want || start + n == len
}

/// A window at an address starts at its bytes in the file, one on a section at its
/// first byte, and one on the headers at the first byte of all. Each shows what
/// was asked for, as far as the file goes; without a wish the first two show a
/// default length, and the last all of the headers.
pub proof fn law_windows_show_what_is_asked(
    secs: Seq<SectionModel>,
    len: int,
    window: HexWindowModel,
    asked: Option<usize>,
    default_len: int,
    start: int,
    natural: int,
)
    requires
        0 <= start < len,
        0 <= default_len,
        match window {
            HexWindowModel::At(va) => file_offset_of(secs, va as int) == Some(start as usize)
                && start <= usize::MAX && natural == default_len,
            HexWindowModel::Section(name) => natural == default_len && named_section(secs, name)
                is Some && secs[named_section(secs, name)->0].file_size > 0
                && secs[named_section(secs, name)->0].file_offset == start,
            HexWindowModel::Headers => start == 0 && natural == headers_end(
                secs,
                len,
                secs.len() as int,
            ),
        },
    ensures
        window_range(secs, len, window, asked, default_len) matches Ok((from, n)) && from == start
            && is_shown_length(
            len,
            start,
            match asked {
                Some(k) => k as int,
                None => natural,
            },
            n,
        ),
{
    lemma_headers_end(secs, len, secs.len() as int);
}

/// A window is refused where its address or its section has no bytes in the file,
/// and where it starts past the end.
pub proof fn law_windows_without_bytes_are_refused(
    secs: Seq<SectionModel>,
    len: int,
    window: HexWindowModel,
    asked: Option<usize>,
    default_len: int,
)
    requires
        match window {
            HexWindowModel::At(va) => match file_offset_of(secs, va as int) {
                Some(start) => start >= len,
                None => true,
            },
            HexWindowModel::Section(name) => match named_section(secs, name) {
                Some(i) => secs[i].file_size == 0 || secs[i].file_offset >= len,
                None => true,
            },
            HexWindowModel::Headers => len <= 0,
        },
    ensures
        window_range(secs, len, window, asked, default_len) is Err,
{
}

} // verus!
