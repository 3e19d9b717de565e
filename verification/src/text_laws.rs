//! What holds of every number that is written, every list that is joined, every
//! text that is trimmed, ordered or broken into words, and every date.
use crate::binary::BinaryModel;
use crate::calendar::{day_number, is_leap, month_start};
use crate::elf::{elf_of, ELF_MAGIC};
use crate::entropy::occurrences;
use crate::error::ParseError;
use crate::order::{before, before_from};
use crate::pe::pe_of;
use crate::picks::{lemma_picks_first, lemma_picks_none, picks};
use crate::search::{digit_value, is_space, trim_end, trim_start, trimmed};
use crate::text::{dec, digit_char, digits, hex, hex0x, hex0x_padded, join, pad_end, pad_start};
use crate::wrapping::{word_len, words};
use vstd::prelude::*;

verus! {

// ---------------------------------------------------------------------------
// Numbers
// ---------------------------------------------------------------------------

/// Digits up to nine are figures, those above are small letters.
pub proof fn law_digits_are_figures_and_letters(d: int)
    ensures
        0 <= d <= 9 ==> digit_char(d) as int == '0' as int + d && digit_value(digit_char(d)) == d,
        10 <= d <= 15 ==> digit_char(d) as int == 'a' as int + d - 10 && digit_value(
            digit_char(d),
        ) == d,
{
}

/// A number is written with its last digit at the end, and without leading zeros.
pub proof fn law_numbers_are_written_by_digits(n: int, radix: int)
    requires
        n >= 0,
        2 <= radix <= 16,
    ensures
        digits(n, radix).len() > 0,
        digits(n, radix).last() == digit_char(n % radix),
        n < radix ==> digits(n, radix).len() == 1,
        n >= radix ==> digits(n, radix).drop_last() == digits(n / radix, radix),
        n > 0 ==> digits(n, radix)[0] != '0',
    decreases n,
{
    if n >= radix {
        assert(0 < n / radix < n) by (nonlinear_arith)
            requires
                n >= radix,
                radix >= 2,
        ;
        law_numbers_are_written_by_digits(n / radix, radix);
        assert(digits(n, radix).drop_last() =~= digits(n / radix, radix));
    } else {
        assert(n % radix == n) by (nonlinear_arith)
            requires
                0 <= n < radix,
        ;
    }
}

/// Decimal and hexadecimal numbers are written by tens and sixteens; an address
/// has `0x` before it.
pub proof fn law_addresses_are_marked(n: int, width: int)
    requires
        n >= 0,
    ensures
        dec(n) == digits(n, 10),
        hex(n) == digits(n, 16),
        hex0x(n) == seq!['0', 'x'] + digits(n, 16),
        hex0x_padded(n, width) == seq!['0', 'x'] + pad_start(digits(n, 16), width, '0'),
{
    reveal_strlit("0x");
    assert("0x"@ =~= seq!['0', 'x']);
}

/// Padding fills a text up to a width, before it or behind it, and takes nothing
/// away.
pub proof fn law_padding_fills_up(s: Seq<char>, width: int, c: char)
    ensures
        s.len() >= width ==> pad_start(s, width, c) == s && pad_end(s, width) == s,
        s.len() < width ==> {
            &&& pad_start(s, width, c).len() == width
            &&& pad_start(s, width, c).skip(width - s.len()) == s
            &&& forall|i: int|
                0 <= i < width - s.len() ==> #[trigger] pad_start(s, width, c)[i] == c
            &&& pad_end(s, width).len() == width
            &&& pad_end(s, width).take(s.len() as int) == s
            &&& forall|i: int| s.len() <= i < width ==> #[trigger] pad_end(s, width)[i] == ' '
        },
{
    if s.len() >= width {
        assert(pad_start(s, width, c) =~= s);
        assert(pad_end(s, width) =~= s);
    } else {
        assert(pad_start(s, width, c).skip(width - s.len()) =~= s);
        assert(pad_end(s, width).take(s.len() as int) =~= s);
    }
}

/// A list is joined with a separator between each two of its parts.
pub proof fn law_lists_are_joined_part_by_part(parts: Seq<Seq<char>>, sep: Seq<char>)
    ensures
        parts.len() == 0 ==> join(parts, sep) == Seq::<char>::empty(),
        parts.len() == 1 ==> join(parts, sep) == parts[0],
        parts.len() >= 2 ==> join(parts, sep) == parts[0] + sep + join(parts.skip(1), sep),
    decreases parts.len(),
{
    if parts.len() >= 2 {
        let front = parts.drop_last();
        law_lists_are_joined_part_by_part(front, sep);
        if parts.len() == 2 {
            assert(parts.skip(1).len() == 1);
            assert(join(front, sep) == parts[0]);
        } else {
            assert(front.skip(1) =~= parts.skip(1).drop_last());
            assert(parts.skip(1).last() == parts.last());
            assert(join(parts, sep) =~= parts[0] + sep + join(parts.skip(1), sep));
        }
    }
}

// ---------------------------------------------------------------------------
// Texts
// ---------------------------------------------------------------------------

proof fn lemma_trim_start(s: Seq<char>) -> (a: int)
    ensures
        0 <= a <= s.len(),
        trim_start(s) == s.skip(a),
        forall|i: int| 0 <= i < a ==> is_space(#[trigger] s[i]),
        a == s.len() || !is_space(s[a]),
    decreases s.len(),
{
    if s.len() > 0 && is_space(s[0]) {
        let b = lemma_trim_start(s.skip(1));
        assert forall|i: int| 0 <= i < b + 1 implies is_space(#[trigger] s[i]) by {
            if i > 0 {
                assert(s.skip(1)[i - 1] == s[i]);
            }
        }
        assert(s.skip(1).skip(b) =~= s.skip(b + 1));
        b + 1
    } else {
        assert(s.skip(0) =~= s);
        0
    }
}

proof fn lemma_trim_end(s: Seq<char>) -> (b: int)
    ensures
        0 <= b <= s.len(),
        trim_end(s) == s.take(b),
        forall|i: int| b <= i < s.len() ==> is_space(#[trigger] s[i]),
        b == 0 || !is_space(s[b - 1]),
    decreases s.len(),
{
    if s.len() > 0 && is_space(s.last()) {
        let b = lemma_trim_end(s.drop_last());
        assert(s.drop_last().take(b) =~= s.take(b));
        assert forall|i: int| b <= i < s.len() implies is_space(#[trigger] s[i]) by {
            if i < s.len() - 1 {
                assert(s.drop_last()[i] == s[i]);
            }
        }
        b
    } else {
        assert(s.take(s.len() as int) =~= s);
        s.len() as int
    }
}

/// Trimming takes white space away at both ends, all of it, and nothing else.
pub proof fn law_trimming_takes_the_ends_away(s: Seq<char>) -> (r: (int, int))
    ensures
        0 <= r.0 <= r.1 <= s.len(),
        trimmed(s) == s.subrange(r.0, r.1),
        forall|i: int| 0 <= i < r.0 ==> is_space(#[trigger] s[i]),
        forall|i: int| r.1 <= i < s.len() ==> is_space(#[trigger] s[i]),
        r.0 < r.1 ==> !is_space(s[r.0]) && !is_space(s[r.1 - 1]),
{
    let a = lemma_trim_start(s);
    let t = s.skip(a);
    let b = lemma_trim_end(t);
    assert(t.take(b) =~= s.subrange(a, a + b));
    assert forall|i: int| a + b <= i < s.len() implies is_space(#[trigger] s[i]) by {
        assert(t[i - a] == s[i]);
    }
    if b > 0 {
        assert(t[b - 1] == s[a + b - 1]);
    }
    (a, a + b)
}

/// Do the texts first differ at this place, and does the first come before the
/// second there: by its character, or because it ends?
pub open spec fn differs_before(a: Seq<char>, b: Seq<char>, k: int) -> bool {
    &&& 0 <= k <= a.len()
    &&& k < b.len()
    &&& forall|i: int| 0 <= i < k ==> #[trigger] a[i] == b[i]
    &&& k == a.len() || a[k] < b[k]
}

proof fn lemma_before(a: Seq<char>, b: Seq<char>, k: int)
    requires
        0 <= k <= a.len(),
        k <= b.len(),
        forall|i: int| 0 <= i < k ==> #[trigger] a[i] == b[i],
    ensures
        before_from(a, b, k) <==> exists|j: int| #[trigger] differs_before(a, b, j),
    decreases b.len() - k,
{
    if k < b.len() && k < a.len() && a[k] == b[k] {
        lemma_before(a, b, k + 1);
    } else {
        if before_from(a, b, k) {
            assert(differs_before(a, b, k));
        }
        if exists|j: int| #[trigger] differs_before(a, b, j) {
            let j = choose|j: int| #[trigger] differs_before(a, b, j);
            if j < k {
                assert(a[j] == b[j]);
            }
            if k < j {
                assert(a[k] == b[k]);
            }
        }
    }
}

/// Texts are ordered by the first character in which they differ; one that the
/// other continues comes first.
pub proof fn law_texts_are_ordered_by_characters(a: Seq<char>, b: Seq<char>)
    ensures
        before(a, b) <==> exists|j: int| #[trigger] differs_before(a, b, j),
{
    lemma_before(a, b, 0);
}

/// Does a word start here?
pub open spec fn word_starts(s: Seq<char>, a: int) -> bool {
    &&& 0 <= a < s.len()
    &&& !is_space(s[a])
    &&& a == 0 || is_space(s[a - 1])
}

/// Is this the word that starts at a place, as long as can be?
pub open spec fn is_word_at(s: Seq<char>, a: int, w: Seq<char>) -> bool {
    &&& a + w.len() <= s.len()
    &&& w == s.subrange(a, a + w.len())
    &&& forall|i: int| 0 <= i < w.len() ==> !is_space(#[trigger] w[i])
    &&& a + w.len() == s.len() || is_space(s[a + w.len()])
}

proof fn lemma_word(s: Seq<char>)
    ensures
        0 <= word_len(s) <= s.len(),
        forall|i: int| 0 <= i < word_len(s) ==> !is_space(#[trigger] s[i]),
        word_len(s) == s.len() || is_space(s[word_len(s)]),
    decreases s.len(),
{
    if s.len() > 0 && !is_space(s[0]) {
        let t = s.skip(1);
        lemma_word(t);
        assert forall|i: int| 0 <= i < word_len(s) implies !is_space(#[trigger] s[i]) by {
            if i > 0 {
                assert(t[i - 1] == s[i]);
            }
        }
        if word_len(s) < s.len() {
            assert(t[word_len(t)] == s[word_len(s)]);
        }
    }
}

#[verifier::rlimit(50)]
proof fn lemma_words(s: Seq<char>, i: int) -> (places: Seq<int>)
    requires
        0 <= i <= s.len(),
        i == 0 || i == s.len() || is_space(s[i - 1]) || is_space(s[i]),
    ensures
        picks(places, i, s.len() as int, |a: int| word_starts(s, a)),
        words(s.skip(i)).len() == places.len(),
        forall|j: int|
            0 <= j < places.len() ==> is_word_at(s, places[j], #[trigger] words(s.skip(i))[j]),
    decreases s.len() - i,
{
    let n = s.len() as int;
    let holds = |a: int| word_starts(s, a);
    let t = s.skip(i);
    if i >= n {
        lemma_picks_none(i, n, holds);
        Seq::empty()
    } else if is_space(s[i]) {
        assert(t.skip(1) =~= s.skip(i + 1));
        let rest = lemma_words(s, i + 1);
        lemma_picks_first(rest, i, n, holds);
        rest
    } else {
        let k = word_len(t);
        lemma_word(t);
        assert(t[0] == s[i]);
        assert(k > 0);
        assert(t.skip(k) =~= s.skip(i + k));
        if i + k < n {
            assert(t[k] == s[i + k]);
        }
        let rest = lemma_words(s, i + k);
        assert(picks(rest, i + k, n, holds));
        assert forall|a: int| i + 1 <= a < i + k implies !#[trigger] holds(a) by {
            assert(t[a - 1 - i] == s[a - 1]);
        }
        assert(picks(rest, i + 1, n, holds));
        lemma_picks_first(rest, i, n, holds);
        assert(holds(i));
        let all = seq![i] + rest;
        let ws = words(t);
        let w = t.take(k);
        assert(ws == seq![w] + words(t.skip(k)));
        assert(w =~= s.subrange(i, i + k));
        assert forall|j: int| 0 <= j < all.len() implies is_word_at(s, all[j], #[trigger] ws[j]) by {
            if j > 0 {
                assert(ws[j] == words(s.skip(i + k))[j - 1]);
                assert(all[j] == rest[j - 1]);
            } else {
                assert forall|x: int| 0 <= x < w.len() implies !is_space(#[trigger] w[x]) by {
                    assert(t[x] == w[x]);
                }
            }
        }
        all
    }
}

/// The words of a text are its runs of characters other than white space, as long
/// as can be: all of them, in order.
pub proof fn law_words_are_the_runs_between_spaces(s: Seq<char>) -> (places: Seq<int>)
    ensures
        picks(places, 0, s.len() as int, |a: int| word_starts(s, a)),
        words(s).len() == places.len(),
        forall|j: int| 0 <= j < places.len() ==> is_word_at(s, places[j], #[trigger] words(s)[j]),
{
    assert(s.skip(0) =~= s);
    lemma_words(s, 0)
}

// ---------------------------------------------------------------------------
// Bytes, dates and formats
// ---------------------------------------------------------------------------

/// A byte value occurs as often as bytes have it.
pub proof fn law_occurrences_are_of_bytes(data: Seq<u8>, value: int)
    ensures
        occurrences(data, value) == data.filter(|b: u8| b == value).len(),
    decreases data.len(),
{
    reveal(Seq::filter);
    if data.len() > 0 {
        law_occurrences_are_of_bytes(data.drop_last(), value);
    }
}

/// Where the months of a common year start, and of a leap year a day later from
/// March on; the first day of 1970 is day zero.
pub proof fn law_months_start_where_they_do(y: int)
    ensures
        is_leap(y) <==> (y % 4 == 0 && y % 100 != 0 || y % 400 == 0),
        month_start(y, 1) == 0,
        month_start(y, 2) == 31,
        ({
            let leap = if is_leap(y) {
                1int
            } else {
                0
            };
            &&& month_start(y, 3) == 59 + leap
            &&& month_start(y, 4) == 90 + leap
            &&& month_start(y, 5) == 120 + leap
            &&& month_start(y, 6) == 151 + leap
            &&& month_start(y, 7) == 181 + leap
            &&& month_start(y, 8) == 212 + leap
            &&& month_start(y, 9) == 243 + leap
            &&& month_start(y, 10) == 273 + leap
            &&& month_start(y, 11) == 304 + leap
            &&& month_start(y, 12) == 334 + leap
        }),
        day_number(1970, 1, 1) == 0,
{
    reveal_with_fuel(month_start, 13);
}

/// A file is read by the format that its first bytes announce, and any other is
/// of an unknown one.
pub proof fn law_first_bytes_tell_the_format(data: Seq<u8>)
    ensures
        data.len() >= 2 && data[0] == 0x4d && data[1] == 0x5a ==> crate::parsed(data) == pe_of(data),
        data.len() >= 4 && data[0] == 0x7f && data[1] == 0x45 && data[2] == 0x4c && data[3] == 0x46
            ==> crate::parsed(data) == elf_of(data),
        !(data.len() >= 2 && data[0] == 0x4d && data[1] == 0x5a) && !(data.len() >= 4 && data[0]
            == 0x7f && data[1] == 0x45 && data[2] == 0x4c && data[3] == 0x46) ==> crate::parsed(data)
            == Err::<BinaryModel, ParseError>(
            ParseError::UnknownFormat,
        ),
{
    if data.len() >= 4 {
        let first = data.take(4);
        assert(first[0] == data[0] && first[1] == data[1] && first[2] == data[2] && first[3]
            == data[3]);
        if data[0] == 0x7f && data[1] == 0x45 && data[2] == 0x4c && data[3] == 0x46 {
            assert(first =~= ELF_MAGIC@);
        }
    }
}

} // verus!
