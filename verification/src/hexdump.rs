//! Raw bytes: which window of a file, and how it is printed.
use crate::binary::{file_offset_of, lesser, Binary, Section, SectionModel};
use crate::disasm::{section_label, section_title};
use crate::search::{lowered, same_ignoring_case};
use crate::text::{
    dec, decimal, from_chars, hex, hex0x, hex_prefixed, join, joined, lemma_views_push, models,
    pad_start, padded_start, render, same, views,
};
use vstd::prelude::*;

verus! {

/// Where to start reading.
#[derive(Debug, Clone, PartialEq, Eq)]
pub enum HexWindow {
    /// A virtual address: PE RVA, ELF vaddr.
    At(u64),
    /// The start of a named section.
    Section(String),
    /// File offset 0 up to the first section's raw data.
    Headers,
}

pub ghost enum HexWindowModel {
    At(u64),
    Section(Seq<char>),
    Headers,
}

impl DeepView for HexWindow {
    type V = HexWindowModel;

    open spec fn deep_view(&self) -> HexWindowModel {
        match self {
            HexWindow::At(a) => HexWindowModel::At(*a),
            HexWindow::Section(n) => HexWindowModel::Section(n@),
            HexWindow::Headers => HexWindowModel::Headers,
        }
    }
}

// ---------------------------------------------------------------------------
// Windows
// ---------------------------------------------------------------------------

/// Where the header region of a file of `len` bytes ends: at the least positive
/// file offset among the first `n` sections, or at the end of the file.
pub open spec fn headers_end(secs: Seq<SectionModel>, len: int, n: int) -> int
    decreases n,
{
    if n <= 0 {
        len
    } else if secs[n - 1].file_offset > 0 {
        lesser(headers_end(secs, len, n - 1), secs[n - 1].file_offset as int)
    } else {
        headers_end(secs, len, n - 1)
    }
}

/// The header region ends where the first section's bytes begin.
pub fn header_region_end(file: &[u8], bin: &Binary) -> (r: usize)
    ensures
        r == headers_end(models(bin.sections@), file@.len() as int, bin.sections@.len() as int),
        r <= file@.len(),
{
    let mut end = file.len();
    for i in 0..bin.sections.len()
        invariant
            end == headers_end(models(bin.sections@), file@.len() as int, i as int),
            end <= file@.len(),
    {
        proof {
            assert(models(bin.sections@)[i as int] == bin.sections@[i as int].deep_view());
        }
        let offset = bin.sections[i].file_offset;
        if offset > 0 && offset < end as u64 {
            end = offset as usize;
        }
    }
    end
}

/// The first section from index `i` on that has this very name.
pub open spec fn exact_section(secs: Seq<SectionModel>, name: Seq<char>, i: int) -> Option<int>
    decreases secs.len() - i,
{
    if i >= secs.len() {
        None
    } else if secs[i].name == name {
        Some(i)
    } else {
        exact_section(secs, name, i + 1)
    }
}

/// The first section from index `i` on that has this name in some case.
pub open spec fn similar_section(secs: Seq<SectionModel>, name: Seq<char>, i: int) -> Option<int>
    decreases secs.len() - i,
{
    if i >= secs.len() {
        None
    } else if lowered(secs[i].name) == lowered(name) {
        Some(i)
    } else {
        similar_section(secs, name, i + 1)
    }
}

/// The section that a name stands for: exactly, else in whatever case.
pub open spec fn named_section(secs: Seq<SectionModel>, name: Seq<char>) -> Option<int> {
    match exact_section(secs, name, 0) {
        Some(i) => Some(i),
        None => similar_section(secs, name, 0),
    }
}

/// The names of all sections, as they are shown.
pub open spec fn titles_of(secs: Seq<SectionModel>) -> Seq<Seq<char>> {
    Seq::new(secs.len(), |i: int| section_title(secs[i].name))
}

/// What is said where no section has the name.
pub open spec fn no_such_section(secs: Seq<SectionModel>, name: Seq<char>) -> Seq<char> {
    "no section named '"@ + name + "'. this file has: "@ + join(titles_of(secs), ", "@)
}

fn section_names(sections: &Vec<Section>) -> (r: Vec<String>)
    ensures
        views(r@) == titles_of(models(sections@)),
{
    let ghost all = titles_of(models(sections@));
    let mut out: Vec<String> = Vec::new();
    for i in 0..sections.len()
        invariant
            all == titles_of(models(sections@)),
            views(out@) == all.take(i as int),
    {
        let s = section_label(&sections[i].name).to_string();
        proof {
            assert(models(sections@)[i as int] == sections@[i as int].deep_view());
            lemma_views_push(out@, s);
            assert(all.take(i + 1) =~= all.take(i as int).push(s@));
        }
        out.push(s);
    }
    proof {
        assert(all.take(all.len() as int) =~= all);
    }
    out
}

/// The section that a name stands for; where there is none, what there is.
fn find_section<'a>(bin: &'a Binary, name: &str) -> (r: Result<&'a Section, String>)
    ensures
        match r {
            Ok(s) => named_section(models(bin.sections@), name@) matches Some(i) && 0 <= i
                < bin.sections@.len() && s.deep_view() == models(bin.sections@)[i],
            Err(e) => named_section(models(bin.sections@), name@) is None && e@
                == no_such_section(models(bin.sections@), name@),
        },
{
    let ghost secs = models(bin.sections@);
    for i in 0..bin.sections.len()
        invariant
            secs == models(bin.sections@),
            exact_section(secs, name@, 0) == exact_section(secs, name@, i as int),
    {
        proof {
            assert(secs[i as int] == bin.sections@[i as int].deep_view());
        }
        if same(bin.sections[i].name.as_str(), name) {
            return Ok(&bin.sections[i]);
        }
    }
    for i in 0..bin.sections.len()
        invariant
            secs == models(bin.sections@),
            exact_section(secs, name@, 0) is None,
            similar_section(secs, name@, 0) == similar_section(secs, name@, i as int),
    {
        proof {
            assert(secs[i as int] == bin.sections@[i as int].deep_view());
        }
        if same_ignoring_case(bin.sections[i].name.as_str(), name) {
            return Ok(&bin.sections[i]);
        }
    }
    let mut e = "no section named '".to_string();
    e.append(name);
    e.append("'. this file has: ");
    e.append(joined(&section_names(&bin.sections), ", ").as_str());
    Err(e)
}

/// Where a window starts in a file of `len` bytes, and how long it is if no
/// length is asked for; or why there is no such window.
pub open spec fn window_start(
    secs: Seq<SectionModel>,
    len: int,
    window: HexWindowModel,
    default_len: int,
) -> Result<(int, int), Seq<char>> {
    match window {
        HexWindowModel::At(va) => match file_offset_of(secs, va as int) {
            Some(off) => Ok((off as int, default_len)),
            None => Err(
                "no section maps address "@ + hex0x(va as int)
                    + " to bytes on disk\n(addresses are virtual: PE RVA, ELF vaddr -- the same ones scan and functions print)"@,
            ),
        },
        HexWindowModel::Section(name) => match named_section(secs, name) {
            Some(i) => if secs[i].file_size == 0 {
                Err(
                    "section '"@ + secs[i].name + "' has no bytes on disk (virtual size "@ + hex0x(
                        secs[i].virtual_size as int,
                    ) + ", file size 0)"@,
                )
            } else {
                Ok((secs[i].file_offset as int, default_len))
            },
            None => Err(no_such_section(secs, name)),
        },
        HexWindowModel::Headers => Ok((0, headers_end(secs, len, secs.len() as int))),
    }
}

/// The byte range of a window: its file offset, and its length, cut off at the
/// end of the file.
pub open spec fn window_range(
    secs: Seq<SectionModel>,
    len: int,
    window: HexWindowModel,
    asked: Option<usize>,
    default_len: int,
) -> Result<(int, int), Seq<char>> {
    match window_start(secs, len, window, default_len) {
        Err(e) => Err(e),
        Ok((start, natural)) => if start >= len {
            Err(
                "that window starts at file offset "@ + hex0x(start) + ", past the end of a "@
                    + dec(len) + "-byte file"@,
            )
        } else {
            let want = match asked {
                Some(n) => n as int,
                None => natural,
            };
            Ok((start, lesser(want, len - start)))
        },
    }
}

fn find_start(file: &[u8], bin: &Binary, window: &HexWindow, default_len: usize) -> (r: Result<
    (u64, usize),
    String,
>)
    ensures
        match r {
            Ok((start, natural)) => window_start(
                models(bin.sections@),
                file@.len() as int,
                window.deep_view(),
                default_len as int,
            ) == Ok::<(int, int), Seq<char>>((start as int, natural as int)),
            Err(e) => window_start(
                models(bin.sections@),
                file@.len() as int,
                window.deep_view(),
                default_len as int,
            ) == Err::<(int, int), Seq<char>>(e@),
        },
{
    match window {
        HexWindow::At(va) => match bin.va_to_file_offset(*va) {
            Some(off) => Ok((off as u64, default_len)),
            None => {
                let mut e = "no section maps address ".to_string();
                e.append(hex_prefixed(*va).as_str());
                e.append(
                    " to bytes on disk\n(addresses are virtual: PE RVA, ELF vaddr -- the same ones scan and functions print)",
                );
                Err(e)
            },
        },
        HexWindow::Section(name) => match find_section(bin, name.as_str()) {
            Ok(sec) => if sec.file_size == 0 {
                let mut e = "section '".to_string();
                e.append(sec.name.as_str());
                e.append("' has no bytes on disk (virtual size ");
                e.append(hex_prefixed(sec.virtual_size).as_str());
                e.append(", file size 0)");
                Err(e)
            } else {
                Ok((sec.file_offset, default_len))
            },
            Err(e) => Err(e),
        },
        HexWindow::Headers => Ok((0, header_region_end(file, bin))),
    }
}

/// Resolves a window to a file offset and a length, cut off at the end of the
/// file.
pub fn resolve_window(
    file: &[u8],
    bin: &Binary,
    window: &HexWindow,
    len: Option<usize>,
    default_len: usize,
) -> (r: Result<(usize, usize), String>)
    ensures
        match r {
            Ok((start, n)) => start + n <= file@.len() && window_range(
                models(bin.sections@),
                file@.len() as int,
                window.deep_view(),
                len,
                default_len as int,
            ) == Ok::<(int, int), Seq<char>>((start as int, n as int)),
            Err(e) => window_range(
                models(bin.sections@),
                file@.len() as int,
                window.deep_view(),
                len,
                default_len as int,
            ) == Err::<(int, int), Seq<char>>(e@),
        },
{
    let (start, natural) = match find_start(file, bin, window, default_len) {
        Ok(x) => x,
        Err(e) => {
            return Err(e);
        },
    };
    if start >= file.len() as u64 {
        let mut e = "that window starts at file offset ".to_string();
        e.append(hex_prefixed(start).as_str());
        e.append(", past the end of a ");
        e.append(decimal(file.len() as u64).as_str());
        e.append("-byte file");
        return Err(e);
    }
    let want: usize = match len {
        Some(n) => n,
        None => natural,
    };
    let from = start as usize;
    let room = file.len() - from;
    Ok(
        (
            from,
            if want <= room {
                want
            } else {
                room
            },
        ),
    )
}

// ---------------------------------------------------------------------------
// Dumps
// ---------------------------------------------------------------------------

/// A byte that stands for itself in the text column.
pub open spec fn is_printable(b: u8) -> bool {
    0x20 <= b <= 0x7e
}

/// One of the 16 places of the hex column: a byte, or blanks on a short row. A
/// gap follows the 8th place.
pub open spec fn slot_text(chunk: Seq<u8>, i: int) -> Seq<char> {
    (if i == 8 {
        " "@
    } else {
        ""@
    }) + (if i < chunk.len() {
        pad_start(hex(chunk[i] as int), 2, '0') + " "@
    } else {
        "   "@
    })
}

/// The first `n` places of the hex column.
pub open spec fn hex_column(chunk: Seq<u8>, n: int) -> Seq<char>
    decreases n,
{
    if n <= 0 {
        Seq::empty()
    } else {
        hex_column(chunk, n - 1) + slot_text(chunk, n - 1)
    }
}

/// The text column: printable bytes as they are, a dot for any other.
pub open spec fn text_column(chunk: Seq<u8>) -> Seq<char> {
    Seq::new(
        chunk.len(),
        |i: int|
            if is_printable(chunk[i]) {
                chunk[i] as char
            } else {
                '.'
            },
    )
}

/// One row of a dump: the low 32 bits of its offset, the bytes, the text.
pub open spec fn dump_row(chunk: Seq<u8>, addr: int) -> Seq<char> {
    pad_start(hex(addr % 0x1_0000_0000), 8, '0') + "  "@ + hex_column(chunk, 16) + " |"@
        + text_column(chunk) + "|\n"@
}

/// The bytes of a row.
pub open spec fn row_bytes(data: Seq<u8>, row: int) -> Seq<u8> {
    data.subrange(16 * row, lesser(16 * row + 16, data.len() as int))
}

/// The first `n` rows of a dump.
pub open spec fn dump_rows(data: Seq<u8>, base: int, n: int) -> Seq<char>
    decreases n,
{
    if n <= 0 {
        Seq::empty()
    } else {
        dump_rows(data, base, n - 1) + dump_row(row_bytes(data, n - 1), base + 16 * (n - 1))
    }
}

/// The dump of a buffer whose first byte has the offset `base`.
pub open spec fn dump_text(data: Seq<u8>, base: int) -> Seq<char> {
    dump_rows(data, base, (data.len() + 15) as int / 16)
}

/// Characters as single bytes.
pub open spec fn as_bytes(s: Seq<char>) -> Seq<u8> {
    Seq::new(s.len(), |i: int| s[i] as u8)
}

fn write_slot(chunk: &[u8], i: usize) -> (r: String)
    ensures
        r@ == slot_text(chunk@, i as int),
{
    let mut s: String = if i == 8 {
        " ".to_string()
    } else {
        "".to_string()
    };
    let place: String = if i < chunk.len() {
        let mut p = padded_start(render(chunk[i] as u64, 16).as_str(), 2, '0');
        p.append(" ");
        p
    } else {
        "   ".to_string()
    };
    s.append(place.as_str());
    s
}

fn write_row(chunk: &[u8], addr: u64) -> (r: String)
    requires
        addr < 0x1_0000_0000,
    ensures
        forall|a: int| #![trigger dump_row(chunk@, a)]
            a % 0x1_0000_0000 == addr ==> r@ == dump_row(chunk@, a),
{
    let mut s = padded_start(render(addr, 16).as_str(), 8, '0');
    s.append("  ");
    let mut column = String::new();
    for i in 0..16usize
        invariant
            column@ == hex_column(chunk@, i as int),
    {
        column.append(write_slot(chunk, i).as_str());
    }
    s.append(column.as_str());
    s.append(" |");
    let mut text: Vec<char> = Vec::new();
    for i in 0..chunk.len()
        invariant
            text@ == text_column(chunk@).take(i as int),
    {
        let b = chunk[i];
        let c = if 0x20 <= b && b <= 0x7e {
            b as char
        } else {
            '.'
        };
        proof {
            assert(text_column(chunk@).take(i + 1) =~= text_column(chunk@).take(i as int).push(c));
        }
        text.push(c);
    }
    proof {
        assert(text_column(chunk@).take(chunk@.len() as int) =~= text_column(chunk@));
    }
    s.append(from_chars(text.as_slice()).as_str());
    s.append("|\n");
    s
}

/// How far a dump has come when `row` rows are done.
spec fn at_row(len: int, base: int, row: int, off: int, addr: int) -> bool {
    &&& 0 <= row <= (len + 15) / 16
    &&& off == lesser(16 * row, len)
    &&& 0 <= addr < 0x1_0000_0000
    &&& addr == (base + 16 * row) % 0x1_0000_0000
}

/// The row that starts at `off`, and where the next one starts.
fn take_row(
    data: &[u8],
    off: usize,
    addr: u64,
    base: Ghost<int>,
    row: Ghost<int>,
) -> (r: (String, usize, u64))
    requires
        off < data@.len(),
        at_row(data@.len() as int, base@, row@, off as int, addr as int),
    ensures
        r.0@ == dump_row(row_bytes(data@, row@), base@ + 16 * row@),
        off < r.1 <= data@.len(),
        at_row(data@.len() as int, base@, row@ + 1, r.1 as int, r.2 as int),
{
    let len = data.len();
    let end: usize = if len - off > 16 {
        off + 16
    } else {
        len
    };
    let line = write_row(&data[off..end], addr);
    proof {
        assert(data@.subrange(off as int, end as int) =~= row_bytes(data@, row@));
        assert(line@ == dump_row(row_bytes(data@, row@), base@ + 16 * row@));
    }
    (line, end, (addr + 16) % 0x1_0000_0000)
}

/// The dump as a string.
pub fn dump(data: &[u8], base: usize) -> (r: String)
    ensures
        r@ == dump_text(data@, base as int),
{
    let len = data.len();
    let mut out = String::new();
    let mut off: usize = 0;
    let mut addr: u64 = base as u64 % 0x1_0000_0000;
    let ghost mut row: int = 0;
    while off < len
        invariant
            len == data@.len(),
            off <= len,
            at_row(len as int, base as int, row, off as int, addr as int),
            out@ == dump_rows(data@, base as int, row),
        decreases len - off,
    {
        let (line, end, next) = take_row(data, off, addr, Ghost(base as int), Ghost(row));
        out.append(line.as_str());
        off = end;
        addr = next;
        proof {
            row = row + 1;
        }
    }
    out
}

fn push_bytes(out: &mut Vec<u8>, text: &str)
    ensures
        final(out)@ == old(out)@ + as_bytes(text@),
{
    let cs = crate::text::chars_of(text);
    let ghost start = out@;
    let ghost all = as_bytes(cs@);
    for i in 0..cs.len()
        invariant
            all == as_bytes(cs@),
            out@ == start + all.take(i as int),
    {
        proof {
            assert(start + all.take(i + 1) =~= (start + all.take(i as int)).push(all[i as int]));
        }
        out.push(cs[i] as u8);
    }
    proof {
        assert(all.take(all.len() as int) =~= all);
    }
}

proof fn lemma_bytes_join(start: Seq<u8>, a: Seq<char>, b: Seq<char>)
    ensures
        start + as_bytes(a + b) == (start + as_bytes(a)) + as_bytes(b),
{
    assert(start + as_bytes(a + b) =~= (start + as_bytes(a)) + as_bytes(b));
}

/// Appends the dump to a byte buffer, row by row.
pub fn dump_to(out: &mut Vec<u8>, data: &[u8], base: usize)
    ensures
        final(out)@ == old(out)@ + as_bytes(dump_text(data@, base as int)),
{
    let len = data.len();
    let mut off: usize = 0;
    let mut addr: u64 = base as u64 % 0x1_0000_0000;
    let ghost mut row: int = 0;
    let ghost start = out@;
    proof {
        assert(start + as_bytes(dump_rows(data@, base as int, 0)) =~= start);
    }
    while off < len
        invariant
            len == data@.len(),
            off <= len,
            at_row(len as int, base as int, row, off as int, addr as int),
            out@ == start + as_bytes(dump_rows(data@, base as int, row)),
        decreases len - off,
    {
        let (line, end, next) = take_row(data, off, addr, Ghost(base as int), Ghost(row));
        proof {
            lemma_bytes_join(start, dump_rows(data@, base as int, row), line@);
            row = row + 1;
        }
        push_bytes(out, line.as_str());
        off = end;
        addr = next;
    }
}

// ---------------------------------------------------------------------------
// Laws
// ---------------------------------------------------------------------------

/// Text of ASCII characters alone.
pub open spec fn is_plain(s: Seq<char>) -> bool {
    vstd::utf8::is_ascii_chars(s)
}

proof fn lemma_plain_join(a: Seq<char>, b: Seq<char>)
    requires
        is_plain(a),
        is_plain(b),
    ensures
        is_plain(a + b),
{
    vstd::utf8::is_ascii_chars_concat(a + b, a, b);
}

proof fn lemma_plain_hex(n: int, width: int)
    requires
        0 <= n,
    ensures
        is_plain(pad_start(hex(n), width, '0')),
{
    lemma_plain_digits(n);
    lemma_plain_join(crate::text::fill('0', width - hex(n).len()), hex(n));
}

proof fn lemma_plain_digits(n: int)
    requires
        0 <= n,
    ensures
        is_plain(hex(n)),
    decreases n,
{
    if n >= 16 {
        lemma_plain_digits(n / 16);
        lemma_plain_join(hex(n / 16), seq![crate::text::digit_char(n % 16)]);
        assert(hex(n) =~= hex(n / 16) + seq![crate::text::digit_char(n % 16)]);
    }
}

proof fn lemma_plain_column(chunk: Seq<u8>, n: int)
    ensures
        is_plain(hex_column(chunk, n)),
    decreases n,
{
    if n > 0 {
        reveal_strlit(" ");
        reveal_strlit("");
        reveal_strlit("   ");
        lemma_plain_column(chunk, n - 1);
        let place = if n - 1 < chunk.len() {
            lemma_plain_hex(chunk[n - 1] as int, 2);
            lemma_plain_join(pad_start(hex(chunk[n - 1] as int), 2, '0'), " "@);
            pad_start(hex(chunk[n - 1] as int), 2, '0') + " "@
        } else {
            "   "@
        };
        let gap = if n - 1 == 8 {
            " "@
        } else {
            ""@
        };
        lemma_plain_join(gap, place);
        lemma_plain_join(hex_column(chunk, n - 1), gap + place);
        assert(slot_text(chunk, n - 1) == gap + place);
    }
}

proof fn lemma_plain_row(chunk: Seq<u8>, addr: int)
    ensures
        is_plain(dump_row(chunk, addr)),
{
    reveal_strlit("  ");
    reveal_strlit(" |");
    reveal_strlit("|\n");
    let a = pad_start(hex(addr % 0x1_0000_0000), 8, '0');
    lemma_plain_hex(addr % 0x1_0000_0000, 8);
    lemma_plain_column(chunk, 16);
    lemma_plain_join(a, "  "@);
    lemma_plain_join(a + "  "@, hex_column(chunk, 16));
    lemma_plain_join(a + "  "@ + hex_column(chunk, 16), " |"@);
    lemma_plain_join(a + "  "@ + hex_column(chunk, 16) + " |"@, text_column(chunk));
    lemma_plain_join(
        a + "  "@ + hex_column(chunk, 16) + " |"@ + text_column(chunk),
        "|\n"@,
    );
}

proof fn lemma_plain_rows(data: Seq<u8>, base: int, n: int)
    ensures
        is_plain(dump_rows(data, base, n)),
    decreases n,
{
    if n > 0 {
        lemma_plain_rows(data, base, n - 1);
        lemma_plain_row(row_bytes(data, n - 1), base + 16 * (n - 1));
        lemma_plain_join(
            dump_rows(data, base, n - 1),
            dump_row(row_bytes(data, n - 1), base + 16 * (n - 1)),
        );
    }
}

proof fn lemma_plain_bytes(s: Seq<char>)
    requires
        is_plain(s),
    ensures
        vstd::utf8::encode_utf8(s) == as_bytes(s),
{
    vstd::utf8::is_ascii_chars_encode_utf8(s);
    assert(vstd::utf8::encode_utf8(s) =~= as_bytes(s));
}

/// The bytes that a dump is written as are the encoding of its text: both ways
/// of taking a dump give the same.
pub proof fn law_dump_bytes_encode_its_text(data: Seq<u8>, base: int)
    ensures
        as_bytes(dump_text(data, base)) == vstd::utf8::encode_utf8(dump_text(data, base)),
{
    lemma_plain_rows(data, base, (data.len() + 15) as int / 16);
    lemma_plain_bytes(dump_text(data, base));
}

} // verus!
