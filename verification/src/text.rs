//! Text primitives: rendering numbers, padding, joining.
//!
//! A string is modelled by its sequence of characters. Each function here
//! states its result as a sequence of characters, so that every report built
//! out of these pieces has a contract that fixes its output letter for letter.
use vstd::prelude::*;

verus! {

/// `String::push` appends one character to the end of the string.
pub assume_specification[ String::push ](s: &mut String, c: char)
    ensures
        final(s)@ == old(s)@.push(c),
;

/// The character views of a sequence of strings.
pub open spec fn views(s: Seq<String>) -> Seq<Seq<char>> {
    Seq::new(s.len(), |i: int| s[i]@)
}

/// The abstract values of a sequence of records.
pub open spec fn models<T: DeepView>(s: Seq<T>) -> Seq<T::V> {
    Seq::new(s.len(), |i: int| s[i].deep_view())
}

pub proof fn lemma_models_push<T: DeepView>(s: Seq<T>, x: T)
    ensures
        models(s.push(x)) == models(s).push(x.deep_view()),
{
    assert(models(s.push(x)) =~= models(s).push(x.deep_view()));
}

pub proof fn lemma_views_push(s: Seq<String>, x: String)
    ensures
        views(s.push(x)) == views(s).push(x@),
{
    assert(views(s.push(x)) =~= views(s).push(x@));
}

/// The characters of a string, as a vector that can be indexed.
pub fn chars_of(s: &str) -> (r: Vec<char>)
    ensures
        r@ == s@,
{
    let mut out: Vec<char> = Vec::new();
    for c in it: s.chars()
        invariant
            out@ == it.seq().take(it.index()),
            it.seq() == s@,
    {
        out.push(c);
    }
    out
}

/// A string made of the given characters.
pub fn from_chars(cs: &[char]) -> (r: String)
    ensures
        r@ == cs@,
{
    let mut out = String::new();
    for i in 0..cs.len()
        invariant
            out@ == cs@.take(i as int),
    {
        proof {
            assert(cs@.take(i as int).push(cs@[i as int]) =~= cs@.take(i + 1));
        }
        out.push(cs[i]);
    }
    proof {
        assert(cs@.take(cs@.len() as int) =~= cs@);
    }
    out
}

/// The characters from `from` up to and excluding `to`, as a string.
pub fn sub_string(cs: &Vec<char>, from: usize, to: usize) -> (r: String)
    requires
        from <= to <= cs@.len(),
    ensures
        r@ == cs@.subrange(from as int, to as int),
{
    from_chars(&cs.as_slice()[from..to])
}

/// Do the two strings hold the same characters?
pub fn same(a: &str, b: &str) -> (r: bool)
    ensures
        r == (a@ == b@),
{
    let x = a.as_bytes();
    let y = b.as_bytes();
    if x.len() != y.len() {
        return false;
    }
    for i in 0..x.len()
        invariant
            x@ == vstd::utf8::encode_utf8(a@),
            y@ == vstd::utf8::encode_utf8(b@),
            x@.len() == y@.len(),
            forall|j: int| 0 <= j < i ==> x@[j] == y@[j],
    {
        if x[i] != y[i] {
            return false;
        }
    }
    proof {
        assert(x@ =~= y@);
        vstd::utf8::encode_utf8_decode_utf8(a@);
        vstd::utf8::encode_utf8_decode_utf8(b@);
    }
    true
}

// ---------------------------------------------------------------------------
// Numbers
// ---------------------------------------------------------------------------

/// The character of one digit, in lower case.
pub open spec fn digit_char(d: int) -> char {
    (if d < 10 {
        48 + d
    } else {
        87 + d
    }) as char
}

/// The positional numeral of `n` in the given radix, most significant digit
/// first and without leading zeros.
pub open spec fn digits(n: int, radix: int) -> Seq<char>
    decreases n,
    when n >= 0 && radix >= 2
{
    if n < radix {
        seq![digit_char(n)]
    } else {
        proof {
            assert(0 <= n / radix < n) by (nonlinear_arith)
                requires
                    n >= radix,
                    radix >= 2,
            ;
        }
        digits(n / radix, radix).push(digit_char(n % radix))
    }
}

/// Decimal, as `{}` renders an unsigned integer.
pub open spec fn dec(n: int) -> Seq<char> {
    digits(n, 10)
}

/// Lower-case hexadecimal without a prefix, as `{:x}`.
pub open spec fn hex(n: int) -> Seq<char> {
    digits(n, 16)
}

/// Hexadecimal with its prefix, as `{:#x}`.
pub open spec fn hex0x(n: int) -> Seq<char> {
    "0x"@ + hex(n)
}

/// Hexadecimal with its prefix, zero-padded to at least `width` digits.
pub open spec fn hex0x_padded(n: int, width: int) -> Seq<char> {
    "0x"@ + pad_start(hex(n), width, '0')
}

fn digit_to_char(d: u64) -> (r: char)
    requires
        d < 16,
    ensures
        r == digit_char(d as int),
{
    if d < 10 {
        (48u8 + d as u8) as char
    } else {
        (87u8 + d as u8) as char
    }
}

/// Renders `n` in a radix from 2 to 16.
pub fn render(n: u64, radix: u64) -> (r: String)
    requires
        2 <= radix <= 16,
    ensures
        r@ == digits(n as int, radix as int),
    decreases n,
{
    if n < radix {
        let mut s = String::new();
        s.push(digit_to_char(n));
        proof {
            assert(s@ =~= seq![digit_char(n as int)]);
        }
        s
    } else {
        proof {
            assert(n / radix < n) by (nonlinear_arith)
                requires
                    n >= radix,
                    radix >= 2,
            ;
            assert(n % radix < radix) by (nonlinear_arith)
                requires
                    radix >= 2,
            ;
        }
        let mut s = render(n / radix, radix);
        s.push(digit_to_char(n % radix));
        s
    }
}

/// Decimal text of an integer.
pub fn decimal(n: u64) -> (r: String)
    ensures
        r@ == dec(n as int),
{
    render(n, 10)
}

/// Hexadecimal text of an integer, with its `0x` prefix.
pub fn hex_prefixed(n: u64) -> (r: String)
    ensures
        r@ == hex0x(n as int),
{
    let mut s = "0x".to_string();
    s.append(render(n, 16).as_str());
    s
}

/// Hexadecimal text of an integer with its `0x` prefix, zero-padded to at
/// least `width` digits.
pub fn hex_padded(n: u64, width: usize) -> (r: String)
    ensures
        r@ == hex0x_padded(n as int, width as int),
{
    let mut s = "0x".to_string();
    s.append(padded_start(render(n, 16).as_str(), width, '0').as_str());
    s
}

/// `true` or `false`, as `{}` renders a boolean.
pub open spec fn truth(b: bool) -> Seq<char> {
    if b {
        "true"@
    } else {
        "false"@
    }
}

pub fn truth_text(b: bool) -> (r: &'static str)
    ensures
        r@ == truth(b),
{
    if b {
        "true"
    } else {
        "false"
    }
}

// ---------------------------------------------------------------------------
// Padding and joining
// ---------------------------------------------------------------------------

/// `n` copies of a character; none where `n` is not positive.
pub open spec fn fill(c: char, n: int) -> Seq<char> {
    Seq::new(
        if n > 0 {
            n as nat
        } else {
            0
        },
        |i: int| c,
    )
}

/// The text right-aligned in a column of `width` characters.
pub open spec fn pad_start(s: Seq<char>, width: int, c: char) -> Seq<char> {
    fill(c, width - s.len()) + s
}

/// The text left-aligned in a column of `width` characters.
pub open spec fn pad_end(s: Seq<char>, width: int) -> Seq<char> {
    s + fill(' ', width - s.len())
}

/// `n` copies of a character.
pub fn repeated(c: char, n: usize) -> (r: String)
    ensures
        r@ == fill(c, n as int),
{
    let mut out = String::new();
    for i in 0..n
        invariant
            out@ == fill(c, i as int),
    {
        proof {
            assert(fill(c, i as int).push(c) =~= fill(c, i + 1));
        }
        out.push(c);
    }
    out
}

fn char_count(s: &str) -> (r: usize)
    ensures
        r == s@.len(),
{
    s.unicode_len()
}

/// The text right-aligned in a column, filled up with `c`.
pub fn padded_start(s: &str, width: usize, c: char) -> (r: String)
    ensures
        r@ == pad_start(s@, width as int, c),
{
    let n = char_count(s);
    let mut out = repeated(
        c,
        if width > n {
            width - n
        } else {
            0
        },
    );
    proof {
        assert(out@ =~= fill(c, width - s@.len()));
    }
    out.append(s);
    out
}

/// The text left-aligned in a column, filled up with spaces.
pub fn padded_end(s: &str, width: usize) -> (r: String)
    ensures
        r@ == pad_end(s@, width as int),
{
    let n = char_count(s);
    let pad = repeated(
        ' ',
        if width > n {
            width - n
        } else {
            0
        },
    );
    proof {
        assert(pad@ =~= fill(' ', width - s@.len()));
    }
    let mut out = s.to_string();
    out.append(pad.as_str());
    out
}

/// The parts, one after the other, with the separator between neighbours.
pub open spec fn join(parts: Seq<Seq<char>>, sep: Seq<char>) -> Seq<char>
    decreases parts.len(),
{
    if parts.len() == 0 {
        Seq::empty()
    } else if parts.len() == 1 {
        parts[0]
    } else {
        join(parts.drop_last(), sep) + sep + parts.last()
    }
}

pub fn joined(parts: &Vec<String>, sep: &str) -> (r: String)
    ensures
        r@ == join(views(parts@), sep@),
{
    if parts.len() == 0 {
        return String::new();
    }
    let mut out = parts[0].clone();
    proof {
        assert(views(parts@).take(1) =~= seq![parts@[0]@]);
    }
    for i in 1..parts.len()
        invariant
            parts@.len() > 0,
            1 <= i,
            out@ == join(views(parts@).take(i as int), sep@),
    {
        proof {
            let all = views(parts@);
            assert(all.take(i + 1).drop_last() =~= all.take(i as int));
            assert(all.take(i + 1).last() == parts@[i as int]@);
        }
        out.append(sep);
        out.append(parts[i].as_str());
    }
    proof {
        assert(views(parts@).take(parts@.len() as int) =~= views(parts@));
    }
    out
}

} // verus!
