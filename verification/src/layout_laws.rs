//! How explanations are broken into lines, and how listings go from section to
//! section.
use crate::binary::SectionModel;
use crate::binary_laws::{first_holding, law_first_section_holds, law_on_disk_bytes, on_disk};
use crate::cfg::Flow;
use crate::disasm::{
    listed, listing_upto, next_batch, section_header, section_sweep, section_title,
    sections_listing, sweep_from, window_listing, with_section, Listing, Outcome, Progress, Sweep,
};
use crate::engine::{bytes_taken, failure_text, FailureModel};
use crate::listing::note_of;
use crate::output_laws::lemma_join;
use crate::rule_laws::{law_lower_case_forgets_case, same_but_for_case};
use crate::search::contains;
use crate::symbols::{label_text, reached, LabelModel, SymbolsModel, TargetModel};
use crate::text::{dec, fill, hex0x, join};
use crate::wrapping::{byte_len, words, wrapped, wrapped_upto};
use vstd::prelude::*;

verus! {

// ---------------------------------------------------------------------------
// Lines
// ---------------------------------------------------------------------------

/// How wide a line of words is, with a space between each two of them.
pub open spec fn width_of_line(ws: Seq<Seq<char>>) -> int
    decreases ws.len(),
{
    if ws.len() == 0 {
        0
    } else if ws.len() == 1 {
        byte_len(ws[0])
    } else {
        width_of_line(ws.drop_last()) + 1 + byte_len(ws.last())
    }
}

/// The words of a line: those from its start up to the start of the next line, or
/// up to the last word of all.
pub open spec fn line_at(ws: Seq<Seq<char>>, starts: Seq<int>, k: int) -> Seq<Seq<char>> {
    if k + 1 < starts.len() {
        ws.subrange(starts[k], starts[k + 1])
    } else {
        ws.skip(starts[k])
    }
}

/// Do lines start at these words, the first at the first one?
pub open spec fn are_line_starts(ws: Seq<Seq<char>>, starts: Seq<int>) -> bool {
    &&& starts.len() > 0
    &&& starts[0] == 0
    &&& forall|k: int| 0 <= k < starts.len() ==> 0 <= #[trigger] starts[k] < ws.len()
    &&& forall|j: int, k: int|
        0 <= j < k < starts.len() ==> #[trigger] starts[j] < #[trigger] starts[k]
}

/// The lines as texts.
pub open spec fn line_texts(ws: Seq<Seq<char>>, starts: Seq<int>) -> Seq<Seq<char>> {
    Seq::new(starts.len(), |k: int| join(line_at(ws, starts, k), " "@))
}

/// Does each line fit the width, or hold a single word, and would the next word
/// not have fitted?
pub open spec fn fills_lines(ws: Seq<Seq<char>>, starts: Seq<int>, width: int) -> bool {
    &&& forall|k: int|
        #![trigger line_at(ws, starts, k)]
        0 <= k < starts.len() ==> line_at(ws, starts, k).len() == 1 || width_of_line(
            line_at(ws, starts, k),
        ) <= width
    &&& forall|k: int|
        #![trigger line_at(ws, starts, k)]
        0 <= k < starts.len() - 1 ==> width_of_line(line_at(ws, starts, k)) + 1 + byte_len(
            ws[starts[k + 1]],
        ) > width
}

proof fn lemma_width_grows(ws: Seq<Seq<char>>, n: int)
    requires
        0 <= n <= ws.len(),
    ensures
        0 <= width_of_line(ws.take(n)) <= width_of_line(ws),
    decreases ws.len(),
{
    if n < ws.len() {
        lemma_width_grows(ws.drop_last(), n);
        assert(ws.drop_last().take(n) =~= ws.take(n));
    } else {
        assert(ws.take(n) =~= ws);
        if ws.len() > 1 {
            lemma_width_grows(ws.drop_last(), ws.len() - 1);
        }
    }
}

proof fn lemma_tail_narrower(ws: Seq<Seq<char>>, a: int)
    requires
        0 <= a <= ws.len(),
    ensures
        width_of_line(ws.skip(a)) <= width_of_line(ws),
    decreases ws.len(),
{
    let t = ws.skip(a);
    if ws.len() > 0 && t.len() > 0 {
        lemma_tail_narrower(ws.drop_last(), a);
        assert(ws.drop_last().skip(a) =~= t.drop_last());
        lemma_width_grows(ws, ws.len() as int);
        lemma_width_grows(ws.drop_last(), ws.len() - 1);
        assert(ws.drop_last().take(ws.len() - 1) =~= ws.drop_last());
        if t.len() == 1 && ws.len() > 1 {
            assert(t[0] == ws.last());
        }
    } else {
        lemma_width_grows(ws, ws.len() as int);
    }
}

proof fn lemma_join_last(front: Seq<Seq<char>>, x: Seq<char>, y: Seq<char>, sep: Seq<char>)
    ensures
        join(front.push(x + y), sep) == join(front.push(x), sep) + y,
{
    let a = front.push(x + y);
    let b = front.push(x);
    assert(a.drop_last() =~= front);
    assert(b.drop_last() =~= front);
    if front.len() > 0 {
        assert(join(a, sep) =~= join(b, sep) + y);
    }
}

/// The lines so far: where they start, what they read, and how wide the last is.
#[verifier::opaque]
spec fn laid_out(
    ws: Seq<Seq<char>>,
    starts: Seq<int>,
    width: int,
    sep: Seq<char>,
    out: Seq<char>,
    line: int,
) -> bool {
    &&& are_line_starts(ws, starts)
    &&& fills_lines(ws, starts, width)
    &&& out == join(line_texts(ws, starts), sep)
    &&& line == width_of_line(line_at(ws, starts, starts.len() - 1))
}

proof fn lemma_same_lines(was: Seq<Seq<char>>, w: Seq<char>, starts: Seq<int>, k: int)
    requires
        are_line_starts(was, starts),
        0 <= k < starts.len() - 1,
    ensures
        line_at(was.push(w), starts, k) == line_at(was, starts, k),
        was.push(w)[starts[k + 1]] == was[starts[k + 1]],
{
    assert(starts[k] < starts[k + 1]);
    assert(starts[k + 1] < was.len());
    assert(was.push(w).subrange(starts[k], starts[k + 1]) =~= was.subrange(
        starts[k],
        starts[k + 1],
    ));
}

#[verifier::rlimit(50)]
proof fn lemma_new_line(
    was: Seq<Seq<char>>,
    w: Seq<char>,
    before: Seq<int>,
    width: int,
    sep: Seq<char>,
    out: Seq<char>,
    line: int,
)
    requires
        laid_out(was, before, width, sep, out, line),
        line + 1 + byte_len(w) > width,
    ensures
        laid_out(
            was.push(w),
            before.push(was.len() as int),
            width,
            sep,
            out + sep + w,
            byte_len(w),
        ),
{
    reveal(laid_out);
    let now = was.push(w);
    let m = before.len() - 1;
    let starts = before.push(was.len() as int);
    assert forall|k: int| 0 <= k <= m implies #[trigger] line_at(now, starts, k) == line_at(
        was,
        before,
        k,
    ) by {
        assert(starts[k] == before[k]);
        if k < m {
            lemma_same_lines(was, w, before, k);
            assert(starts[k + 1] == before[k + 1]);
        } else {
            assert(now.subrange(before[m], was.len() as int) =~= was.skip(before[m]));
        }
    }
    assert(line_at(now, starts, m + 1) =~= seq![w]);
    assert forall|k: int| 0 <= k < starts.len() implies 0 <= #[trigger] starts[k] < now.len() by {
        if k <= m {
            assert(starts[k] == before[k]);
        }
    }
    assert forall|j: int, k: int| 0 <= j < k < starts.len() implies #[trigger] starts[j]
        < #[trigger] starts[k] by {
        assert(starts[j] == before[j]);
        if k <= m {
            assert(starts[k] == before[k]);
        }
    }
    let old = line_texts(was, before);
    let texts = line_texts(now, starts);
    assert forall|k: int| 0 <= k <= m implies texts[k] == old[k] by {
        assert(line_at(now, starts, k) == line_at(was, before, k));
    }
    assert(texts =~= old.push(w));
    assert(texts.drop_last() =~= old);
    assert forall|k: int| #![trigger line_at(now, starts, k)] 0 <= k < starts.len() implies line_at(
        now,
        starts,
        k,
    ).len() == 1 || width_of_line(line_at(now, starts, k)) <= width by {
        if k <= m {
            assert(line_at(now, starts, k) == line_at(was, before, k));
            assert(starts[k] == before[k]);
        }
    }
    assert forall|k: int| #![trigger line_at(now, starts, k)] 0 <= k < starts.len() - 1 implies width_of_line(
        line_at(now, starts, k),
    ) + 1 + byte_len(now[starts[k + 1]]) > width by {
        assert(line_at(now, starts, k) == line_at(was, before, k));
        assert(starts[k] == before[k]);
        if k < m {
            lemma_same_lines(was, w, before, k);
            assert(starts[k + 1] == before[k + 1]);
        }
    }
}

#[verifier::rlimit(50)]
proof fn lemma_same_line(
    was: Seq<Seq<char>>,
    w: Seq<char>,
    before: Seq<int>,
    width: int,
    sep: Seq<char>,
    out: Seq<char>,
    line: int,
)
    requires
        laid_out(was, before, width, sep, out, line),
        line + 1 + byte_len(w) <= width,
    ensures
        laid_out(was.push(w), before, width, sep, out + (" "@ + w), line + 1 + byte_len(w)),
{
    reveal(laid_out);
    let now = was.push(w);
    let m = before.len() - 1;
    let last = line_at(was, before, m);
    let tail = now.skip(before[m]);
    assert(last.len() > 0);
    assert(tail =~= last.push(w));
    assert(tail.drop_last() =~= last);
    assert(line_at(now, before, m) == tail);
    assert(width_of_line(tail) == line + 1 + byte_len(w));
    let old = line_texts(was, before);
    let texts = line_texts(now, before);
    let front = old.drop_last();
    assert(join(tail, " "@) =~= join(last, " "@) + (" "@ + w));
    assert forall|k: int| 0 <= k < m implies texts[k] == front[k] by {
        lemma_same_lines(was, w, before, k);
    }
    assert(texts =~= front.push(join(last, " "@) + (" "@ + w)));
    assert(old =~= front.push(join(last, " "@)));
    lemma_join_last(front, join(last, " "@), " "@ + w, sep);
    assert forall|k: int| #![trigger line_at(now, before, k)] 0 <= k < before.len() implies line_at(
        now,
        before,
        k,
    ).len() == 1 || width_of_line(line_at(now, before, k)) <= width by {
        if k < m {
            lemma_same_lines(was, w, before, k);
        }
    }
    assert forall|k: int| #![trigger line_at(now, before, k)] 0 <= k < before.len() - 1 implies width_of_line(
        line_at(now, before, k),
    ) + 1 + byte_len(now[before[k + 1]]) > width by {
        lemma_same_lines(was, w, before, k);
    }
}

proof fn lemma_laid(
    ws: Seq<Seq<char>>,
    starts: Seq<int>,
    width: int,
    sep: Seq<char>,
    out: Seq<char>,
    line: int,
)
    requires
        laid_out(ws, starts, width, sep, out, line),
    ensures
        starts.len() > 0,
        0 <= starts[starts.len() - 1] < ws.len(),
        line == width_of_line(ws.skip(starts[starts.len() - 1])),
{
    reveal(laid_out);
}

proof fn lemma_last_line(
    was: Seq<Seq<char>>,
    w: Seq<char>,
    before: Seq<int>,
    width: int,
    sep: Seq<char>,
    out: Seq<char>,
    line: int,
)
    requires
        laid_out(was, before, width, sep, out, line),
        forall|i: int| 0 <= i < was.len() ==> byte_len(#[trigger] was[i]) > 0,
    ensures
        0 < line,
        line + 1 + byte_len(w) <= width_of_line(was.push(w)),
{
    lemma_laid(was, before, width, sep, out, line);
    let now = was.push(w);
    let at = before[before.len() - 1];
    let last = was.skip(at);
    assert(last.len() > 0);
    assert(last[0] == was[at]);
    lemma_first_word(last);
    let tail = now.skip(at);
    assert(tail =~= last.push(w));
    assert(tail.drop_last() =~= last);
    lemma_tail_narrower(now, at);
}

proof fn lemma_first_line(w: Seq<char>, width: int, sep: Seq<char>)
    ensures
        laid_out(seq![w], seq![0int], width, sep, w, byte_len(w)),
{
    reveal(laid_out);
    let ws = seq![w];
    let starts = seq![0int];
    assert(line_at(ws, starts, 0) =~= seq![w]);
    assert(line_texts(ws, starts) =~= seq![w]);
}

proof fn lemma_lines(ws: Seq<Seq<char>>, width: int, indent: int, n: int) -> (starts: Seq<int>)
    requires
        0 < n <= ws.len(),
        forall|i: int| 0 <= i < ws.len() ==> byte_len(#[trigger] ws[i]) > 0,
        width_of_line(ws) <= usize::MAX,
    ensures
        laid_out(
            ws.take(n),
            starts,
            width,
            "\n"@ + fill(' ', indent),
            wrapped_upto(ws, width, indent, n).0,
            wrapped_upto(ws, width, indent, n).1,
        ),
    decreases n,
{
    let sep = "\n"@ + fill(' ', indent);
    let now = ws.take(n);
    let w = ws[n - 1];
    lemma_width_grows(ws, n);
    if n == 1 {
        assert(now =~= seq![w]);
        assert(width_of_line(now) == byte_len(w));
        lemma_first_line(w, width, sep);
        assert(wrapped_upto(ws, width, indent, 0) == (Seq::<char>::empty(), 0int));
        assert(Seq::<char>::empty() + w =~= w);
        seq![0int]
    } else {
        let was = ws.take(n - 1);
        let before = lemma_lines(ws, width, indent, n - 1);
        let (out, line) = wrapped_upto(ws, width, indent, n - 1);
        assert(now =~= was.push(w));
        lemma_last_line(was, w, before, width, sep, out, line);
        if line + 1 + byte_len(w) > width {
            lemma_new_line(was, w, before, width, sep, out, line);
            lemma_three(out, "\n"@, fill(' ', indent), w);
            before.push(n - 1)
        } else {
            lemma_same_line(was, w, before, width, sep, out, line);
            lemma_two(out, " "@, w);
            before
        }
    }
}

proof fn lemma_two(a: Seq<char>, b: Seq<char>, c: Seq<char>)
    ensures
        a + b + c == a + (b + c),
{
    assert(a + b + c =~= a + (b + c));
}

proof fn lemma_three(a: Seq<char>, b: Seq<char>, c: Seq<char>, d: Seq<char>)
    ensures
        a + b + c + d == a + (b + c) + d,
{
    assert(a + b + c + d =~= a + (b + c) + d);
}

proof fn lemma_first_word(ws: Seq<Seq<char>>)
    requires
        ws.len() > 0,
        byte_len(ws[0]) > 0,
    ensures
        width_of_line(ws) > 0,
    decreases ws.len(),
{
    if ws.len() > 1 {
        lemma_first_word(ws.drop_last());
        assert(byte_len(ws.last()) >= 0);
    }
}

/// A wrapped text has all words of the text, in order, in lines with an indent
/// before each but the first. A line is as full as can be: it fits the width
/// unless it is a single word, and the next word would not have fitted.
pub proof fn law_lines_are_as_full_as_can_be(s: Seq<char>, width: int, indent: int) -> (starts: Seq<
    int,
>)
    requires
        words(s).len() > 0,
        forall|i: int| 0 <= i < words(s).len() ==> byte_len(#[trigger] words(s)[i]) > 0,
        width_of_line(words(s)) <= usize::MAX,
    ensures
        are_line_starts(words(s), starts),
        fills_lines(words(s), starts, width),
        wrapped(s, width, indent) == join(
            line_texts(words(s), starts),
            "\n"@ + fill(' ', indent),
        ),
{
    let ws = words(s);
    reveal(laid_out);
    assert(ws.take(ws.len() as int) =~= ws);
    lemma_lines(ws, width, indent, ws.len() as int)
}

// ---------------------------------------------------------------------------
// Listings of sections
// ---------------------------------------------------------------------------

/// Is the section listed: executable, and of the name that was asked for, in any
/// case?
pub open spec fn is_asked_for(s: SectionModel, name: Option<Seq<char>>) -> bool {
    s.executable && match name {
        Some(n) => same_but_for_case(s.name, n),
        None => true,
    }
}

proof fn lemma_asked(s: SectionModel, name: Option<Seq<char>>)
    ensures
        listed(s, name) <==> is_asked_for(s, name),
{
    if name is Some {
        law_lower_case_forgets_case(s.name, name->0);
    }
}

/// The sweep over a section that goes on after so many instructions.
pub open spec fn sweep_over(l: Listing, s: SectionModel, done: int) -> Sweep {
    Sweep {
        symbols: l.symbols,
        wide: l.wide,
        code: on_disk(l.file, s),
        base: s.virtual_addr,
        limit: l.limit - done,
    }
}

/// The text of a section in a listing: a title, and a sweep over its code; none
/// where it is not asked for or has no bytes in the file.
pub open spec fn text_of_section(l: Listing, s: SectionModel, done: int) -> Seq<char> {
    let title = if s.name.len() == 0 {
        "(unnamed)"@
    } else {
        s.name
    };
    if is_asked_for(s, l.name) && on_disk(l.file, s).len() > 0 {
        "\n== section "@ + title + "  (addr "@ + hex0x(s.virtual_addr as int) + ", "@ + dec(
            on_disk(l.file, s).len() as int,
        ) + " bytes) ==\n"@ + sweep_from(sweep_over(l, s, done), 0, 0).text
    } else {
        Seq::empty()
    }
}

/// How many instructions a section adds to a listing.
pub open spec fn count_of_section(l: Listing, s: SectionModel, done: int) -> int {
    if is_asked_for(s, l.name) && on_disk(l.file, s).len() > 0 {
        sweep_from(sweep_over(l, s, done), 0, 0).count
    } else {
        0
    }
}

proof fn lemma_counts_rise(s: Sweep, off: int, count: int)
    ensures
        sweep_from(s, off, count).count >= count,
    decreases s.code.len() - off,
{
    reveal(sweep_from);
    if off < s.code.len() && count < s.limit {
        match next_batch(s, off, count) {
            Err(_) => {},
            Ok(insns) => {
                let taken = bytes_taken(insns, insns.len() as int);
                if insns.len() == 0 {
                    lemma_counts_rise(s, off + 1, count);
                } else if taken > 0 && off + taken <= s.code.len() {
                    lemma_counts_rise(s, off + taken, (count + insns.len()) as int);
                }
            },
        }
    }
}

#[verifier::rlimit(50)]
proof fn lemma_section_step(l: Listing, p: Progress, s: SectionModel)
    requires
        !with_section(l, p, s).stopped,
        with_section(l, p, s).failed is None,
        with_section(l, p, s).total < l.limit,
    ensures
        !p.stopped,
        p.failed is None,
        p.total <= with_section(l, p, s).total,
        with_section(l, p, s).text == p.text + text_of_section(l, s, p.total),
        with_section(l, p, s).total == p.total + count_of_section(l, s, p.total),
        with_section(l, p, s).matched <==> p.matched || is_asked_for(s, l.name),
{
    lemma_asked(s, l.name);
    law_on_disk_bytes(l.file, s);
    let code = on_disk(l.file, s);
    assert(code.skip(0) =~= code);
    assert(crate::disasm::wrapped(s.virtual_addr + 0) == s.virtual_addr);
    let sweep = section_sweep(l, s, 0, l.limit - p.total);
    assert(sweep == sweep_over(l, s, p.total));
    lemma_counts_rise(sweep, 0, 0);
    let rest = sweep_from(sweep, 0, 0);
    if listed(s, l.name) && code.len() > 0 {
        assert(p.text + section_header(s, code.len() as int) + rest.text =~= p.text + (
        section_header(s, code.len() as int) + rest.text));
    } else {
        assert(p.text + Seq::<char>::empty() =~= p.text);
    }
}

/// Do the numbers say how many instructions are listed before each section?
pub open spec fn counts_up(l: Listing, secs: Seq<SectionModel>, done: Seq<int>) -> bool {
    &&& done.len() == secs.len() + 1
    &&& done[0] == 0
    &&& forall|i: int|
        0 <= i < secs.len() ==> done[i + 1] == done[i] + count_of_section(
            l,
            #[trigger] secs[i],
            done[i],
        )
}

#[verifier::rlimit(50)]
proof fn lemma_listing_upto(l: Listing, secs: Seq<SectionModel>, n: int) -> (done: Seq<int>)
    requires
        0 <= n <= secs.len(),
        !listing_upto(l, secs, n).stopped,
        listing_upto(l, secs, n).failed is None,
        listing_upto(l, secs, n).total < l.limit,
    ensures
        counts_up(l, secs.take(n), done),
        listing_upto(l, secs, n).total == done[n],
        listing_upto(l, secs, n).text == Seq::new(
            n as nat,
            |i: int| text_of_section(l, secs[i], done[i]),
        ).flatten(),
        listing_upto(l, secs, n).matched <==> exists|i: int|
            0 <= i < n && is_asked_for(#[trigger] secs[i], l.name),
    decreases n,
{
    if n <= 0 {
        let done = seq![0int];
        assert(Seq::new(0, |i: int| text_of_section(l, secs[i], done[i])).flatten() =~= Seq::<
            char,
        >::empty());
        done
    } else {
        let p = listing_upto(l, secs, n - 1);
        let s = secs[n - 1];
        lemma_section_step(l, p, s);
        let was = lemma_listing_upto(l, secs, n - 1);
        let done = was.push(was[n - 1] + count_of_section(l, s, was[n - 1]));
        let before = Seq::new((n - 1) as nat, |i: int| text_of_section(l, secs[i], was[i]));
        let texts = Seq::new(n as nat, |i: int| text_of_section(l, secs[i], done[i]));
        assert(texts =~= before.push(text_of_section(l, s, was[n - 1])));
        before.lemma_flatten_push(text_of_section(l, s, was[n - 1]));
        let now = secs.take(n);
        assert forall|i: int| 0 <= i < now.len() implies done[i + 1] == done[i] + count_of_section(
            l,
            #[trigger] now[i],
            done[i],
        ) by {
            if i < n - 1 {
                assert(secs.take(n - 1)[i] == now[i]);
            }
        }
        done
    }
}

/// A listing that stays under its limit, where the decoder does not fail, shows
/// every section that is asked for, one after the other, and counts all of their
/// instructions.
pub proof fn law_listings_show_every_section(l: Listing, secs: Seq<SectionModel>) -> (done: Seq<int>)
    requires
        ({
            let p = listing_upto(l, secs, secs.len() as int);
            !p.stopped && p.failed is None && p.total < l.limit
        }),
    ensures
        counts_up(l, secs, done),
        (exists|i: int| 0 <= i < secs.len() && is_asked_for(#[trigger] secs[i], l.name))
            ==> sections_listing(l, secs) == Outcome::Listed(
            Seq::new(secs.len(), |i: int| text_of_section(l, secs[i], done[i])).flatten(),
            done[secs.len() as int],
        ),
        !(exists|i: int| 0 <= i < secs.len() && is_asked_for(#[trigger] secs[i], l.name))
            ==> sections_listing(l, secs) is Refused,
{
    let n = secs.len() as int;
    let done = lemma_listing_upto(l, secs, n);
    assert(secs.take(n) =~= secs);
    done
}

/// A listing from an address on shows the first section that holds it, from there
/// on; it is refused where no section does, or where the address has no bytes in
/// the file.
#[verifier::rlimit(50)]
pub proof fn law_listings_start_at_their_address(
    l: Listing,
    secs: Seq<SectionModel>,
    start: u64,
    i: int,
)
    ensures
        (forall|k: int| !#[trigger] first_holding(secs, start as int, k)) ==> window_listing(
            l,
            secs,
            start,
        ) is Refused,
        first_holding(secs, start as int, i) ==> {
            let s = secs[i];
            let delta = start - s.virtual_addr;
            let sweep = Sweep {
                symbols: l.symbols,
                wide: l.wide,
                code: on_disk(l.file, s).skip(delta),
                base: start,
                limit: l.limit,
            };
            &&& delta >= on_disk(l.file, s).len() ==> window_listing(l, secs, start) is Refused
            &&& delta < on_disk(l.file, s).len() ==> match sweep_from(sweep, 0, 0).failed {
                None => window_listing(l, secs, start) matches Outcome::Listed(text, n) && n
                    == sweep_from(sweep, 0, 0).count && contains(
                    text,
                    sweep_from(sweep, 0, 0).text,
                ),
                Some(f) => window_listing(l, secs, start) matches Outcome::Failed(_, g) && f == g,
            }
        },
{
    law_first_section_holds(secs, start as int);
    if first_holding(secs, start as int, i) {
        let s = secs[i];
        let delta = start - s.virtual_addr;
        law_on_disk_bytes(l.file, s);
        assert(crate::disasm::wrapped(s.virtual_addr + delta) == start);
        let sweep = section_sweep(l, s, delta, l.limit);
        let text = sweep_from(sweep, 0, 0).text;
        let head = "== "@ + section_title(s.name) + " from "@ + hex0x(start as int)
            + " ==\n\n"@;
        lemma_join(head, text);
    }
}

// ---------------------------------------------------------------------------
// Notes
// ---------------------------------------------------------------------------

/// A call or a jump is noted by the imported function that it reaches, or by the
/// label of the code that it reaches; nothing else has a note.
pub proof fn law_notes_tell_where_control_goes(
    m: SymbolsModel,
    flow: Flow,
    ops: Seq<char>,
    next: u64,
)
    ensures
        note_of(None, flow, ops, next) is None,
        !(flow is Call) && !(flow is Jump) ==> note_of(Some(m), flow, ops, next) is None,
        flow is Call || flow is Jump ==> match reached(m, ops, next) {
            TargetModel::Import(api) => note_of(Some(m), flow, ops, next) == Some(api),
            TargetModel::Code(a) => if m.labels.contains_key(a) {
                note_of(Some(m), flow, ops, next) == Some(label_text(m.labels[a]))
            } else {
                note_of(Some(m), flow, ops, next) is None
            },
            TargetModel::Unknown => note_of(Some(m), flow, ops, next) is None,
        },
{
}

/// How labels are written.
pub proof fn law_labels_are_written_in_brackets(name: Seq<char>)
    ensures
        label_text(LabelModel::Entry) == "[entry]"@,
        label_text(LabelModel::TlsCallback) == "[TLS callback]"@,
        label_text(LabelModel::Export(name)) == "[export: "@ + name + "]"@,
{
}

/// How failures of the decoder are told.
pub proof fn law_failures_give_their_reason(reason: Seq<char>)
    ensures
        failure_text(FailureModel::Init(reason)) == "capstone init failed: "@ + reason,
        failure_text(FailureModel::Decode(reason)) == "capstone: "@ + reason,
{
}

} // verus!
