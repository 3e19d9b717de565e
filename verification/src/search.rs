//! Looking into text: prefixes, substrings, trimming, letter case, numerals.
use crate::text::{chars_of, digit_char, digits, from_chars, sub_string};
use vstd::prelude::*;

verus! {

// ---------------------------------------------------------------------------
// Character classes
// ---------------------------------------------------------------------------

/// The characters with the Unicode `White_Space` property.
pub open spec fn is_space(c: char) -> bool {
    let u = c as int;
    ||| 9 <= u <= 13
    ||| u == 0x20
    ||| u == 0x85
    ||| u == 0xa0
    ||| u == 0x1680
    ||| 0x2000 <= u <= 0x200a
    ||| u == 0x2028
    ||| u == 0x2029
    ||| u == 0x202f
    ||| u == 0x205f
    ||| u == 0x3000
}

pub fn space(c: char) -> (r: bool)
    ensures
        r == is_space(c),
{
    let u = c as u32;
    (9 <= u && u <= 13) || u == 0x20 || u == 0x85 || u == 0xa0 || u == 0x1680 || (0x2000 <= u && u
        <= 0x200a) || u == 0x2028 || u == 0x2029 || u == 0x202f || u == 0x205f || u == 0x3000
}

/// A decimal digit.
pub open spec fn is_decimal(c: char) -> bool {
    '0' <= c <= '9'
}

/// A hexadecimal digit, in either case.
pub open spec fn is_hex(c: char) -> bool {
    ||| '0' <= c <= '9'
    ||| 'a' <= c <= 'f'
    ||| 'A' <= c <= 'F'
}

/// An ASCII letter, in either case.
pub open spec fn is_letter(c: char) -> bool {
    ||| 'a' <= c <= 'z'
    ||| 'A' <= c <= 'Z'
}

/// ASCII lower case: `A` to `Z` become `a` to `z`, all else stays.
pub open spec fn lower(c: char) -> char {
    if 'A' <= c <= 'Z' {
        (c as int + 32) as char
    } else {
        c
    }
}

/// ASCII lower case of a text.
pub open spec fn lowered(s: Seq<char>) -> Seq<char> {
    Seq::new(s.len(), |i: int| lower(s[i]))
}

fn lower_char(c: char) -> (r: char)
    ensures
        r == lower(c),
{
    if 'A' <= c && c <= 'Z' {
        ((c as u8) + 32u8) as char
    } else {
        c
    }
}

/// ASCII lower case of a string.
pub fn to_lower(s: &str) -> (r: String)
    ensures
        r@ == lowered(s@),
{
    let cs = chars_of(s);
    let mut out: Vec<char> = Vec::new();
    for i in 0..cs.len()
        invariant
            cs@ == s@,
            out@ == lowered(s@).take(i as int),
    {
        proof {
            assert(lowered(s@).take(i as int).push(lower(s@[i as int])) =~= lowered(s@).take(
                i + 1,
            ));
        }
        out.push(lower_char(cs[i]));
    }
    proof {
        assert(lowered(s@).take(s@.len() as int) =~= lowered(s@));
    }
    from_chars(out.as_slice())
}

/// Equal but for the case of ASCII letters?
pub fn same_ignoring_case(a: &str, b: &str) -> (r: bool)
    ensures
        r == (lowered(a@) == lowered(b@)),
{
    let x = chars_of(a);
    let y = chars_of(b);
    if x.len() != y.len() {
        proof {
            assert(lowered(a@).len() != lowered(b@).len());
        }
        return false;
    }
    for i in 0..x.len()
        invariant
            x@ == a@,
            y@ == b@,
            x@.len() == y@.len(),
            forall|j: int| 0 <= j < i ==> lower(a@[j]) == lower(b@[j]),
    {
        if lower_char(x[i]) != lower_char(y[i]) {
            proof {
                assert(lowered(a@)[i as int] != lowered(b@)[i as int]);
            }
            return false;
        }
    }
    proof {
        assert(lowered(a@) =~= lowered(b@));
    }
    true
}

// ---------------------------------------------------------------------------
// Prefixes and substrings
// ---------------------------------------------------------------------------

/// Does `pat` stand at position `i` of `s`?
pub open spec fn stands_at(s: Seq<char>, pat: Seq<char>, i: int) -> bool {
    0 <= i && i + pat.len() <= s.len() && s.subrange(i, i + pat.len()) == pat
}

/// Does `pat` stand anywhere in `s`?
pub open spec fn contains(s: Seq<char>, pat: Seq<char>) -> bool {
    exists|i: int| stands_at(s, pat, i)
}

/// Does `s` begin with `pat`?
pub open spec fn begins(s: Seq<char>, pat: Seq<char>) -> bool {
    stands_at(s, pat, 0)
}

/// The leftmost place where `pat` stands in `s`.
pub open spec fn is_first_at(s: Seq<char>, pat: Seq<char>, i: int) -> bool {
    stands_at(s, pat, i) && forall|j: int| 0 <= j < i ==> !stands_at(s, pat, j)
}

/// Does `pat` stand at position `at`?
pub fn matches_at(s: &Vec<char>, pat: &Vec<char>, at: usize) -> (r: bool)
    requires
        at <= s@.len(),
    ensures
        r == stands_at(s@, pat@, at as int),
{
    let total = s.len();
    if pat.len() > total - at {
        return false;
    }
    for i in 0..pat.len()
        invariant
            total == s@.len(),
            at + pat@.len() <= total,
            forall|j: int| 0 <= j < i ==> s@[at + j] == pat@[j],
    {
        if s[at + i] != pat[i] {
            proof {
                assert(s@.subrange(at as int, at + pat@.len())[i as int] != pat@[i as int]);
            }
            return false;
        }
    }
    proof {
        assert(s@.subrange(at as int, at + pat@.len()) =~= pat@);
    }
    true
}

/// The leftmost place where `pat` stands in `s`, if any.
pub fn find(s: &Vec<char>, pat: &str) -> (r: Option<usize>)
    ensures
        match r {
            Some(i) => is_first_at(s@, pat@, i as int),
            None => !contains(s@, pat@),
        },
{
    let p = chars_of(pat);
    if p.len() > s.len() {
        return None;
    }
    let last = s.len() - p.len();
    for i in 0..last
        invariant
            p@ == pat@,
            last + p@.len() == s@.len(),
            forall|j: int| 0 <= j < i ==> !stands_at(s@, pat@, j),
    {
        if matches_at(s, &p, i) {
            return Some(i);
        }
    }
    if matches_at(s, &p, last) {
        return Some(last);
    }
    None
}

/// Does `pat` stand anywhere in `s`?
pub fn has(s: &str, pat: &str) -> (r: bool)
    ensures
        r == contains(s@, pat@),
{
    let cs = chars_of(s);
    match find(&cs, pat) {
        Some(i) => true,
        None => false,
    }
}

/// Does `s` begin with `pat`?
pub fn has_prefix(s: &str, pat: &str) -> (r: bool)
    ensures
        r == begins(s@, pat@),
{
    let cs = chars_of(s);
    let p = chars_of(pat);
    matches_at(&cs, &p, 0)
}

/// What follows `pat` where `s` begins with it.
pub open spec fn after(s: Seq<char>, pat: Seq<char>) -> Seq<char> {
    s.subrange(pat.len() as int, s.len() as int)
}

/// What follows `pat`, where `s` begins with it.
pub fn strip(s: &str, pat: &str) -> (r: Option<String>)
    ensures
        match r {
            Some(t) => begins(s@, pat@) && t@ == after(s@, pat@),
            None => !begins(s@, pat@),
        },
{
    let cs = chars_of(s);
    let p = chars_of(pat);
    if matches_at(&cs, &p, 0) {
        Some(sub_string(&cs, p.len(), cs.len()))
    } else {
        None
    }
}

// ---------------------------------------------------------------------------
// Trimming
// ---------------------------------------------------------------------------

/// The text without the white space at its start.
pub open spec fn trim_start(s: Seq<char>) -> Seq<char>
    decreases s.len(),
{
    if s.len() > 0 && is_space(s[0]) {
        trim_start(s.skip(1))
    } else {
        s
    }
}

/// The text without the white space at its end.
pub open spec fn trim_end(s: Seq<char>) -> Seq<char>
    decreases s.len(),
{
    if s.len() > 0 && is_space(s.last()) {
        trim_end(s.drop_last())
    } else {
        s
    }
}

/// The text without the white space around it.
pub open spec fn trimmed(s: Seq<char>) -> Seq<char> {
    trim_end(trim_start(s))
}

/// The string without the white space around it.
pub fn trim(s: &str) -> (r: String)
    ensures
        r@ == trimmed(s@),
{
    let cs = chars_of(s);
    let mut a: usize = 0;
    proof {
        assert(cs@.skip(0) =~= cs@);
    }
    while a < cs.len() && space(cs[a])
        invariant
            a <= cs@.len(),
            trim_start(cs@) == trim_start(cs@.skip(a as int)),
        decreases cs@.len() - a,
    {
        proof {
            assert(cs@.skip(a as int).skip(1) =~= cs@.skip(a + 1));
        }
        a += 1;
    }
    let ghost rest = cs@.skip(a as int);
    let mut b: usize = cs.len();
    proof {
        assert(cs@.subrange(a as int, b as int) =~= rest);
    }
    while b > a && space(cs[b - 1])
        invariant
            a <= b <= cs@.len(),
            rest == cs@.skip(a as int),
            trim_end(rest) == trim_end(cs@.subrange(a as int, b as int)),
        decreases b,
    {
        proof {
            assert(cs@.subrange(a as int, b as int).drop_last() =~= cs@.subrange(
                a as int,
                b - 1,
            ));
        }
        b -= 1;
    }
    sub_string(&cs, a, b)
}

// ---------------------------------------------------------------------------
// Numerals
// ---------------------------------------------------------------------------

/// The value of a digit; a character that is none has a value past every radix.
pub open spec fn digit_value(c: char) -> int {
    if '0' <= c <= '9' {
        c as int - 48
    } else if 'a' <= c <= 'f' {
        c as int - 87
    } else if 'A' <= c <= 'F' {
        c as int - 55
    } else {
        16
    }
}

/// The value of a string of digits.
pub open spec fn numeral(s: Seq<char>, radix: int) -> int
    decreases s.len(),
{
    if s.len() == 0 {
        0
    } else {
        numeral(s.drop_last(), radix) * radix + digit_value(s.last())
    }
}

/// Without the plus sign that a number may carry.
pub open spec fn unsigned(s: Seq<char>) -> Seq<char> {
    if s.len() > 0 && s[0] == '+' {
        s.skip(1)
    } else {
        s
    }
}

/// The number that a text spells in a radix, where it spells one that is no
/// greater than `max`: an optional plus sign, then digits and nothing else.
pub open spec fn number(s: Seq<char>, radix: int, max: int) -> Option<int> {
    let t = unsigned(s);
    if t.len() > 0 && (forall|i: int| 0 <= i < t.len() ==> digit_value(#[trigger] t[i]) < radix)
        && numeral(t, radix) <= max {
        Some(numeral(t, radix))
    } else {
        None
    }
}

fn value_of(c: char) -> (r: u64)
    ensures
        r == digit_value(c),
{
    let u = c as u32;
    if '0' <= c && c <= '9' {
        (u - 48) as u64
    } else if 'a' <= c && c <= 'f' {
        (u - 87) as u64
    } else if 'A' <= c && c <= 'F' {
        (u - 55) as u64
    } else {
        16
    }
}

proof fn lemma_numeral_prefix(s: Seq<char>, n: int, radix: int)
    requires
        2 <= radix <= 16,
        0 <= n <= s.len(),
    ensures
        0 <= numeral(s.take(n), radix) <= numeral(s, radix),
    decreases s.len(),
{
    if n == s.len() {
        assert(s.take(n) =~= s);
        if n > 0 {
            lemma_numeral_prefix(s.drop_last(), n - 1, radix);
            assert(s.drop_last().take(n - 1) =~= s.drop_last());
            assert(numeral(s.drop_last(), radix) * radix >= 0) by (nonlinear_arith)
                requires
                    numeral(s.drop_last(), radix) >= 0,
                    radix >= 2,
            ;
        }
    } else {
        lemma_numeral_prefix(s.drop_last(), n, radix);
        assert(s.drop_last().take(n) =~= s.take(n));
        assert(numeral(s.drop_last(), radix) * radix >= numeral(s.drop_last(), radix))
            by (nonlinear_arith)
            requires
                numeral(s.drop_last(), radix) >= 0,
                radix >= 2,
        ;
    }
}

/// Reads a number in a radix from 2 to 16.
pub fn parse_number(s: &str, radix: u64, max: u64) -> (r: Option<u64>)
    requires
        2 <= radix <= 16,
    ensures
        match r {
            Some(n) => number(s@, radix as int, max as int) == Some(n as int),
            None => number(s@, radix as int, max as int) is None,
        },
{
    let cs = chars_of(s);
    let from: usize = if cs.len() > 0 && cs[0] == '+' {
        1
    } else {
        0
    };
    let ghost t = unsigned(s@);
    proof {
        assert(t =~= cs@.skip(from as int));
    }
    if cs.len() == from {
        return None;
    }
    let mut n: u64 = 0;
    for i in from..cs.len()
        invariant
            cs@ == s@,
            from <= cs@.len(),
            t == unsigned(s@),
            t == cs@.skip(from as int),
            from <= i,
            2 <= radix <= 16,
            n <= max,
            n == numeral(t.take(i - from), radix as int),
            forall|j: int| 0 <= j < i - from ==> digit_value(#[trigger] t[j]) < radix,
    {
        let ghost k = i - from;
        proof {
            assert(t.take(k + 1).drop_last() =~= t.take(k));
            assert(t.take(k + 1).last() == cs@[i as int]);
            lemma_numeral_prefix(t, k + 1, radix as int);
        }
        let d = value_of(cs[i]);
        if d >= radix {
            proof {
                assert(digit_value(t[k]) >= radix);
            }
            return None;
        }
        let m = match n.checked_mul(radix) {
            Some(v) => v,
            None => {
                return None;
            },
        };
        n = match m.checked_add(d) {
            Some(v) => v,
            None => {
                return None;
            },
        };
        if n > max {
            return None;
        }
    }
    proof {
        assert(t.take(t.len() as int) =~= t);
    }
    Some(n)
}

/// A number, hexadecimal behind `0x` or `0X` and decimal otherwise.
pub open spec fn either_number(s: Seq<char>, max: int) -> Option<int> {
    if begins(s, "0x"@) {
        number(after(s, "0x"@), 16, max)
    } else if begins(s, "0X"@) {
        number(after(s, "0X"@), 16, max)
    } else {
        number(s, 10, max)
    }
}

/// Reads a number that is hexadecimal behind `0x` or `0X`, decimal otherwise.
pub fn parse_either(s: &str, max: u64) -> (r: Option<u64>)
    ensures
        match r {
            Some(n) => either_number(s@, max as int) == Some(n as int),
            None => either_number(s@, max as int) is None,
        },
{
    if let Some(h) = strip(s, "0x") {
        return parse_number(h.as_str(), 16, max);
    }
    if let Some(h) = strip(s, "0X") {
        return parse_number(h.as_str(), 16, max);
    }
    parse_number(s, 10, max)
}

// ---------------------------------------------------------------------------
// Laws
// ---------------------------------------------------------------------------

proof fn lemma_digits(n: int, radix: int)
    requires
        0 <= n,
        2 <= radix <= 16,
    ensures
        digits(n, radix).len() > 0,
        digits(n, radix)[0] != '+',
        numeral(digits(n, radix), radix) == n,
        forall|i: int|
            0 <= i < digits(n, radix).len() ==> digit_value(#[trigger] digits(n, radix)[i]) < radix,
    decreases n,
{
    let t = digits(n, radix);
    if n < radix {
        assert(t =~= seq![digit_char(n)]);
        assert(t.drop_last() =~= Seq::<char>::empty());
        reveal_with_fuel(numeral, 2);
        assert(0 * radix == 0) by (nonlinear_arith);
    } else {
        assert(0 <= n / radix < n && 0 <= n % radix < radix) by (nonlinear_arith)
            requires
                n >= radix,
                radix >= 2,
        ;
        lemma_digits(n / radix, radix);
        let front = digits(n / radix, radix);
        assert(t =~= front.push(digit_char(n % radix)));
        assert(t.drop_last() =~= front);
        assert((n / radix) * radix + n % radix == n) by (nonlinear_arith)
            requires
                radix >= 2,
        ;
        assert forall|i: int| 0 <= i < t.len() implies digit_value(#[trigger] t[i]) < radix by {
            if i < front.len() {
                assert(t[i] == front[i]);
            }
        }
    }
}

/// A number is read back from the numeral that is written for it.
pub proof fn law_numerals_read_back(n: int, radix: int, max: int)
    requires
        0 <= n <= max,
        2 <= radix <= 16,
    ensures
        number(digits(n, radix), radix, max) == Some(n),
{
    lemma_digits(n, radix);
}

} // verus!
