//! The grammar of JSON, as far as it is written here: no negative numbers, no
//! exponents.
use crate::entropy::{scaled, three_places, Entropy};
use crate::json::{all_quoted, comma, escaped, quoted, string_array};
use crate::json_laws::{law_escaping_is_read_back, read_back};
use crate::text::{dec, digit_char, digits, fill, join, pad_start, truth};
use vstd::prelude::*;

verus! {

pub open spec fn is_blank(c: char) -> bool {
    c == ' ' || c == '\n' || c == '\r' || c == '\t'
}

/// Blanks, or nothing.
pub open spec fn is_space(s: Seq<char>) -> bool {
    forall|i: int| 0 <= i < s.len() ==> is_blank(#[trigger] s[i])
}

/// A string in its quotes.
pub open spec fn is_string(s: Seq<char>) -> bool {
    s.len() >= 2 && s[0] == '"' && s.last() == '"' && read_back(s.subrange(1, s.len() - 1)) is Some
}

pub open spec fn all_digits(s: Seq<char>) -> bool {
    s.len() > 0 && forall|i: int| 0 <= i < s.len() ==> '0' <= #[trigger] s[i] <= '9'
}

/// A whole number, which has no leading zeros.
pub open spec fn is_whole(s: Seq<char>) -> bool {
    all_digits(s) && (s[0] == '0' ==> s.len() == 1)
}

/// A number, with or without a fraction.
pub open spec fn is_number(s: Seq<char>) -> bool {
    is_whole(s) || exists|k: int|
        0 <= k < s.len() && #[trigger] s[k] == '.' && is_whole(s.take(k)) && all_digits(s.skip(k + 1))
}

/// The colon behind a name.
pub open spec fn is_colon(s: Seq<char>) -> bool {
    exists|k: int|
        0 <= k < s.len() && #[trigger] s[k] == ':' && is_space(s.take(k)) && is_space(s.skip(k + 1))
}

/// Is the text made of the three parts?
pub open spec fn made_of(s: Seq<char>, a: Seq<char>, b: Seq<char>, c: Seq<char>) -> bool {
    s == a + b + c
}

/// A JSON value, in which arrays and objects are nested no deeper than `d`.
pub open spec fn is_value(s: Seq<char>, d: int) -> bool
    decreases d, 0int,
{
    ||| is_string(s)
    ||| is_number(s)
    ||| s == "true"@
    ||| s == "false"@
    ||| s == "null"@
    ||| d > 0 && s.len() >= 2 && s[0] == '[' && s.last() == ']' && (is_space(
        s.subrange(1, s.len() - 1),
    ) || is_items(s.subrange(1, s.len() - 1), d - 1, false))
    ||| d > 0 && s.len() >= 2 && s[0] == '{' && s.last() == '}' && (is_space(
        s.subrange(1, s.len() - 1),
    ) || is_items(s.subrange(1, s.len() - 1), d - 1, true))
}

/// A member of an object: a name and a value.
pub open spec fn is_member(s: Seq<char>, d: int) -> bool
    decreases d, 1int,
{
    exists|k: Seq<char>, c: Seq<char>, v: Seq<char>|
        #![trigger made_of(s, k, c, v)]
        made_of(s, k, c, v) && is_string(k) && is_colon(c) && is_value(v, d)
}

/// An item of an array, or a member of an object, with the blanks around it.
pub open spec fn is_item(s: Seq<char>, d: int, member: bool) -> bool
    decreases d, 2int,
{
    exists|a: Seq<char>, v: Seq<char>, b: Seq<char>|
        #![trigger made_of(s, a, v, b)]
        made_of(s, a, v, b) && is_space(a) && is_space(b) && if member {
            is_member(v, d)
        } else {
            is_value(v, d)
        }
}

/// Items with commas between them, one at least.
pub open spec fn is_items(s: Seq<char>, d: int, member: bool) -> bool
    decreases d, 3int,
{
    exists|parts: Seq<Seq<char>>|
        parts.len() > 0 && s == #[trigger] join(parts, ","@) && forall|i: int|
            0 <= i < parts.len() ==> is_item(#[trigger] parts[i], d, member)
}

/// A JSON text: one value, with the blanks around it.
pub open spec fn is_json(s: Seq<char>, d: int) -> bool {
    is_item(s, d, false)
}

// ---------------------------------------------------------------------------
// Values
// ---------------------------------------------------------------------------

pub proof fn lemma_quoted(s: Seq<char>, d: int)
    ensures
        is_string(quoted(s)),
        is_value(quoted(s), d),
{
    reveal_strlit("\"");
    law_escaping_is_read_back(s);
    let t = quoted(s);
    assert(t.subrange(1, t.len() - 1) =~= escaped(s));
}

proof fn lemma_digits(n: int)
    requires
        n >= 0,
    ensures
        is_whole(dec(n)),
    decreases n,
{
    if n >= 10 {
        lemma_digits(n / 10);
        let front = digits(n / 10, 10);
        let t = digits(n, 10);
        assert(t == front.push(digit_char(n % 10)));
        assert('0' <= digit_char(n % 10) <= '9');
        assert(t[0] == front[0]);
        lemma_leading(n / 10);
    } else {
        assert(dec(n) =~= seq![digit_char(n)]);
    }
}

proof fn lemma_leading(n: int)
    requires
        n > 0,
    ensures
        digits(n, 10).len() > 0,
        digits(n, 10)[0] != '0',
    decreases n,
{
    if n >= 10 {
        lemma_leading(n / 10);
        assert(digits(n, 10) == digits(n / 10, 10).push(digit_char(n % 10)));
    } else {
        assert(digits(n, 10) =~= seq![digit_char(n)]);
    }
}

pub proof fn lemma_dec(n: int, d: int)
    requires
        n >= 0,
    ensures
        is_value(dec(n), d),
{
    lemma_digits(n);
}

pub proof fn lemma_truth(b: bool, d: int)
    ensures
        is_value(truth(b), d),
{
}

pub proof fn lemma_three_places(e: Entropy, d: int)
    ensures
        is_value(three_places(e), d),
{
    let q = scaled(e.bits(), 1000);
    crate::entropy::lemma_scaled_positive(e.bits(), 1000);
    let w = dec(q / 1000);
    let f = dec(q % 1000);
    let p = pad_start(f, 3, '0');
    lemma_digits(q / 1000);
    lemma_digits(q % 1000);
    reveal_strlit(".");
    let s = three_places(e);
    assert(s == w + "."@ + p);
    assert(s[w.len() as int] == '.');
    assert(s.take(w.len() as int) =~= w);
    assert(s.skip(w.len() as int + 1) =~= p);
    assert forall|i: int| 0 <= i < p.len() implies '0' <= #[trigger] p[i] <= '9' by {
        let z = fill('0', 3 - f.len());
        if i >= z.len() {
            assert(p[i] == f[i - z.len()]);
        }
    }
    assert(p.len() >= f.len());
    assert(is_number(s));
}

// ---------------------------------------------------------------------------
// Lists
// ---------------------------------------------------------------------------

/// A value with blanks before it is an item.
pub proof fn lemma_item(a: Seq<char>, v: Seq<char>, d: int)
    requires
        is_space(a),
        is_value(v, d),
    ensures
        is_item(a + v, d, false),
{
    assert(a + v =~= a + v + Seq::<char>::empty());
    assert(made_of(a + v, a, v, Seq::<char>::empty()));
}

pub proof fn lemma_first(s: Seq<char>, d: int, member: bool)
    requires
        is_item(s, d, member),
    ensures
        is_items(s, d, member),
{
    let parts = seq![s];
    assert(join(parts, ","@) == s);
}

pub proof fn lemma_more(s: Seq<char>, item: Seq<char>, d: int, member: bool)
    requires
        is_items(s, d, member),
        is_item(item, d, member),
    ensures
        is_items(s + ","@ + item, d, member),
{
    let parts = choose|parts: Seq<Seq<char>>|
        parts.len() > 0 && s == #[trigger] join(parts, ","@) && forall|i: int|
            0 <= i < parts.len() ==> is_item(#[trigger] parts[i], d, member);
    let all = parts.push(item);
    assert(all.drop_last() =~= parts);
    assert(join(all, ","@) == s + ","@ + item);
    assert forall|i: int| 0 <= i < all.len() implies is_item(#[trigger] all[i], d, member) by {
        if i < parts.len() {
            assert(all[i] == parts[i]);
        }
    }
}

/// Blanks behind the last item belong to it.
pub proof fn lemma_trailing(s: Seq<char>, space: Seq<char>, d: int, member: bool)
    requires
        is_items(s, d, member),
        is_space(space),
    ensures
        is_items(s + space, d, member),
{
    let parts = choose|parts: Seq<Seq<char>>|
        parts.len() > 0 && s == #[trigger] join(parts, ","@) && forall|i: int|
            0 <= i < parts.len() ==> is_item(#[trigger] parts[i], d, member);
    let last = parts.last();
    assert(is_item(parts[parts.len() - 1], d, member));
    let (a, v, b) = choose|a: Seq<char>, v: Seq<char>, b: Seq<char>|
        #![trigger made_of(last, a, v, b)]
        made_of(last, a, v, b) && is_space(a) && is_space(b) && if member {
            is_member(v, d)
        } else {
            is_value(v, d)
        };
    let longer = last + space;
    assert(longer =~= a + v + (b + space));
    assert(is_space(b + space));
    assert(made_of(longer, a, v, b + space));
    assert(is_item(longer, d, member));
    let front = parts.drop_last();
    let all = front.push(longer);
    assert(all.drop_last() =~= front);
    if parts.len() == 1 {
        assert(join(all, ","@) == longer);
    } else {
        assert(join(all, ","@) =~= join(front, ","@) + ","@ + longer);
        assert(join(front, ","@) + ","@ + longer =~= s + space);
    }
    assert forall|i: int| 0 <= i < all.len() implies is_item(#[trigger] all[i], d, member) by {
        if i < front.len() {
            assert(all[i] == parts[i]);
        }
    }
}

/// Strings with commas between them.
pub proof fn lemma_quoted_list(names: Seq<Seq<char>>, d: int)
    requires
        names.len() > 0,
    ensures
        is_items(join(all_quoted(names), ", "@), d, false),
    decreases names.len(),
{
    let all = all_quoted(names);
    let n = names.len() as int;
    reveal_strlit(", ");
    reveal_strlit(",");
    reveal_strlit(" ");
    lemma_quoted(names[n - 1], d);
    if n == 1 {
        assert(Seq::<char>::empty() + all[0] =~= all[0]);
        lemma_item(Seq::empty(), all[0], d);
        lemma_first(all[0], d, false);
    } else {
        let front = names.drop_last();
        lemma_quoted_list(front, d);
        assert(all.drop_last() =~= all_quoted(front));
        let s = join(all_quoted(front), ", "@);
        lemma_item(" "@, all[n - 1], d);
        lemma_more(s, " "@ + all[n - 1], d, false);
        assert(s + ", "@ + all[n - 1] =~= s + ","@ + (" "@ + all[n - 1]));
    }
}

pub proof fn lemma_string_array(names: Seq<Seq<char>>, d: int)
    requires
        d > 0,
    ensures
        is_value(string_array(names), d),
        is_value("["@ + join(all_quoted(names), ", "@) + "]"@, d),
{
    reveal_strlit("[");
    reveal_strlit("]");
    let inner = join(all_quoted(names), ", "@);
    let s = string_array(names);
    assert(s.subrange(1, s.len() - 1) =~= inner);
    if names.len() > 0 {
        lemma_quoted_list(names, d - 1);
    } else {
        assert(all_quoted(names).len() == 0);
        assert(is_space(inner));
    }
}

/// Objects of an array, one to a line, the first `n` of them.
pub open spec fn lines(v: Seq<Seq<char>>, n: int) -> Seq<char>
    decreases n,
{
    if n <= 0 {
        Seq::empty()
    } else {
        lines(v, n - 1) + v[n - 1] + comma(n - 1, v.len() as int) + "\n"@
    }
}

spec fn listed(v: Seq<Seq<char>>, n: int) -> Seq<char>
    decreases n,
{
    if n <= 1 {
        "\n"@ + v[0]
    } else {
        listed(v, n - 1) + ","@ + ("\n"@ + v[n - 1])
    }
}

/// Is each of the lines a value behind blanks?
pub open spec fn are_indented(v: Seq<Seq<char>>, d: int) -> bool {
    forall|i: int| 0 <= i < v.len() ==> is_item(#[trigger] v[i], d, false)
}

proof fn lemma_indented_more(s: Seq<char>, d: int)
    requires
        is_item(s, d, false),
    ensures
        is_item("\n"@ + s, d, false),
{
    reveal_strlit("\n");
    let (a, v, b) = choose|a: Seq<char>, v: Seq<char>, b: Seq<char>|
        #![trigger made_of(s, a, v, b)]
        made_of(s, a, v, b) && is_space(a) && is_space(b) && is_value(v, d);
    let t = "\n"@ + s;
    assert(t =~= ("\n"@ + a) + v + b);
    assert(is_space("\n"@ + a));
    assert(made_of(t, "\n"@ + a, v, b));
}

proof fn lemma_listed(v: Seq<Seq<char>>, n: int, d: int)
    requires
        1 <= n <= v.len(),
        are_indented(v, d),
    ensures
        is_items(listed(v, n), d, false),
        "\n"@ + lines(v, n) == listed(v, n) + comma(n - 1, v.len() as int) + "\n"@,
    decreases n,
{
    reveal_strlit(",");
    reveal_strlit("");
    reveal_strlit("\n");
    lemma_indented_more(v[n - 1], d);
    let c = comma(n - 1, v.len() as int);
    if n == 1 {
        lemma_first("\n"@ + v[0], d, false);
        assert(lines(v, 0) =~= Seq::<char>::empty());
        assert("\n"@ + lines(v, 1) =~= ("\n"@ + v[0]) + c + "\n"@);
    } else {
        lemma_listed(v, n - 1, d);
        lemma_more(listed(v, n - 1), "\n"@ + v[n - 1], d, false);
        let before = lines(v, n - 1);
        assert("\n"@ + (before + v[n - 1] + c + "\n"@) =~= ("\n"@ + before) + v[n - 1] + c + "\n"@);
        assert((listed(v, n - 1) + ","@ + "\n"@) + v[n - 1] + c + "\n"@ =~= (listed(v, n - 1) + ","@
            + ("\n"@ + v[n - 1])) + c + "\n"@);
    }
}

/// An array that is written with one object to a line.
pub proof fn lemma_lines_array(v: Seq<Seq<char>>, d: int)
    requires
        d > 0,
        are_indented(v, d - 1),
    ensures
        is_value("[\n"@ + lines(v, v.len() as int) + "  ]"@, d),
{
    reveal_strlit("[\n");
    reveal_strlit("  ]");
    reveal_strlit("\n");
    reveal_strlit("");
    let n = v.len() as int;
    let s = "[\n"@ + lines(v, n) + "  ]"@;
    let inner = s.subrange(1, s.len() - 1);
    let tail = seq![' ', ' '];
    assert(inner =~= ("\n"@ + lines(v, n)) + tail);
    if n == 0 {
        assert(is_space(inner));
    } else {
        lemma_listed(v, n, d - 1);
        let items = listed(v, n);
        assert(comma(n - 1, n) =~= Seq::<char>::empty());
        assert(inner =~= items + ("\n"@ + tail));
        assert(is_space("\n"@ + tail));
        lemma_trailing(items, "\n"@ + tail, d - 1, false);
    }
}

// ---------------------------------------------------------------------------
// Objects
// ---------------------------------------------------------------------------

/// Does the text, from its second character on, name a member? The name is
/// quoted at `at`, and ends three characters before the end.
#[verifier::opaque]
pub open spec fn names_member(lit: Seq<char>, at: int) -> bool {
    &&& 1 <= at < lit.len() - 3
    &&& forall|i: int| 1 <= i < at ==> is_blank(#[trigger] lit[i])
    &&& lit[at] == '"'
    &&& forall|i: int|
        at < i < lit.len() - 3 ==> (#[trigger] lit[i]) >= ' ' && lit[i] != '"' && lit[i] != '\\'
    &&& lit[lit.len() - 3] == '"'
    &&& lit[lit.len() - 2] == ':'
    &&& lit[lit.len() - 1] == ' '
}

proof fn lemma_plain(t: Seq<char>)
    requires
        forall|i: int|
            0 <= i < t.len() ==> (#[trigger] t[i]) >= ' ' && t[i] != '"' && t[i] != '\\',
    ensures
        read_back(t) is Some,
    decreases t.len(),
{
    if t.len() > 0 {
        assert(t[0] >= ' ');
        lemma_plain(t.skip(1));
    }
}

/// A text without anything to escape is a string as it stands.
pub proof fn lemma_plain_string(t: Seq<char>, d: int)
    requires
        forall|i: int|
            0 <= i < t.len() ==> (#[trigger] t[i]) >= ' ' && t[i] != '"' && t[i] != '\\',
    ensures
        is_value("\""@ + t + "\""@, d),
{
    reveal_strlit("\"");
    lemma_plain(t);
    let s = "\""@ + t + "\""@;
    assert(s.subrange(1, s.len() - 1) =~= t);
}

proof fn lemma_member(lit: Seq<char>, at: int, x: Seq<char>, d: int)
    requires
        names_member(lit, at),
        is_value(x, d),
    ensures
        is_item(lit.skip(1) + x, d, true),
{
    reveal(names_member);
    let n = lit.len() as int;
    let a = lit.subrange(1, at);
    let k = lit.subrange(at, n - 2);
    let c = lit.subrange(n - 2, n);
    let body = lit.subrange(at + 1, n - 3);
    assert(k.subrange(1, k.len() - 1) =~= body);
    assert(k[0] == '"' && k.last() == '"');
    lemma_plain(body);
    assert(c[0] == ':');
    assert(c.take(0) =~= Seq::<char>::empty());
    assert(c.skip(1) =~= seq![' ']);
    assert(is_colon(c));
    let m = k + c + x;
    assert(made_of(m, k, c, x));
    assert(is_member(m, d));
    let s = lit.skip(1) + x;
    assert(s =~= a + m + Seq::<char>::empty());
    assert(made_of(s, a, m, Seq::<char>::empty()));
}

/// An object that is not closed yet: a brace, and members with commas between
/// them.
#[verifier::opaque]
pub open spec fn is_open(t: Seq<char>, d: int) -> bool {
    t.len() > 0 && t[0] == '{' && is_items(t.skip(1), d, true)
}

/// The first member, which `lit` names behind the brace.
pub proof fn lemma_open(lit: Seq<char>, at: int, x: Seq<char>, d: int)
    requires
        names_member(lit, at),
        lit[0] == '{',
        is_value(x, d),
    ensures
        is_open(lit + x, d),
{
    reveal(names_member);
    reveal(is_open);
    lemma_member(lit, at, x, d);
    lemma_first(lit.skip(1) + x, d, true);
    assert((lit + x).skip(1) =~= lit.skip(1) + x);
}

/// One more member, which `lit` names behind a comma.
pub proof fn lemma_open_more(t: Seq<char>, lit: Seq<char>, at: int, x: Seq<char>, d: int)
    requires
        is_open(t, d),
        names_member(lit, at),
        lit[0] == ',',
        is_value(x, d),
    ensures
        is_open(t + lit + x, d),
{
    reveal(names_member);
    reveal(is_open);
    reveal_strlit(",");
    lemma_member(lit, at, x, d);
    lemma_more(t.skip(1), lit.skip(1) + x, d, true);
    assert((t + lit + x).skip(1) =~= t.skip(1) + ","@ + (lit.skip(1) + x));
}

/// The end of an object.
pub proof fn lemma_close(t: Seq<char>, tail: Seq<char>, d: int)
    requires
        d >= 0,
        is_open(t, d),
        tail.len() > 0,
        tail.last() == '}',
        is_space(tail.drop_last()),
    ensures
        is_value(t + tail, d + 1),
{
    reveal(is_open);
    let s = t + tail;
    lemma_trailing(t.skip(1), tail.drop_last(), d, true);
    assert(s.subrange(1, s.len() - 1) =~= t.skip(1) + tail.drop_last());
    assert(s[0] == '{');
    assert(s.last() == '}');
}

/// One more member of an object that stands behind a margin.
pub proof fn lemma_indented_member(
    margin: Seq<char>,
    t: Seq<char>,
    lit: Seq<char>,
    at: int,
    x: Seq<char>,
    d: int,
)
    requires
        is_open(t, d),
        names_member(lit, at),
        lit[0] == ',',
        is_value(x, d),
    ensures
        is_open(t + lit + x, d),
        margin + t + lit + x == margin + (t + lit + x),
{
    lemma_open_more(t, lit, at, x, d);
    assert(margin + t + lit + x =~= margin + (t + lit + x));
}

/// The end of an object that stands behind a margin.
pub proof fn lemma_indented_close(margin: Seq<char>, t: Seq<char>, d: int)
    requires
        d >= 0,
        is_space(margin),
        is_open(t, d),
    ensures
        is_item(margin + t + "}"@, d + 1, false),
{
    reveal_strlit("}");
    assert("}"@.drop_last() =~= Seq::<char>::empty());
    lemma_close(t, "}"@, d);
    lemma_item(margin, t + "}"@, d + 1);
    assert(margin + t + "}"@ =~= margin + (t + "}"@));
}

} // verus!
