//! What holds of every JSON string that is written.
use crate::json::{escaped, json_char, quoted};
use crate::search::{is_hex, numeral};
use crate::text::{digit_char, digits, hex, pad_start};
use vstd::prelude::*;

verus! {

/// The letters that stand behind a backslash for one character, and the
/// character: JSON's short escapes, as far as they are written.
pub open spec fn short_escape(c: char) -> Option<char> {
    if c == '"' {
        Some('"')
    } else if c == '\\' {
        Some('\\')
    } else if c == 'n' {
        Some('\n')
    } else if c == 'r' {
        Some('\r')
    } else if c == 't' {
        Some('\t')
    } else {
        None
    }
}

/// What a JSON reader takes the inside of a string literal for; none where it is
/// no such text.
pub open spec fn read_back(t: Seq<char>) -> Option<Seq<char>>
    decreases t.len(),
{
    if t.len() == 0 {
        Some(Seq::empty())
    } else if t[0] == '\\' {
        if t.len() >= 2 && short_escape(t[1]) is Some {
            match read_back(t.skip(2)) {
                Some(rest) => Some(seq![short_escape(t[1])->0] + rest),
                None => None,
            }
        } else if t.len() >= 6 && t[1] == 'u' && is_hex(t[2]) && is_hex(t[3]) && is_hex(t[4])
            && is_hex(t[5]) {
            match read_back(t.skip(6)) {
                Some(rest) => Some(seq![numeral(t.subrange(2, 6), 16) as char] + rest),
                None => None,
            }
        } else {
            None
        }
    } else if t[0] == '"' || (t[0] as int) < 0x20 {
        None
    } else {
        match read_back(t.skip(1)) {
            Some(rest) => Some(seq![t[0]] + rest),
            None => None,
        }
    }
}

proof fn lemma_escaped_front(s: Seq<char>)
    requires
        s.len() > 0,
    ensures
        escaped(s) == json_char(s[0]) + escaped(s.skip(1)),
    decreases s.len(),
{
    if s.len() == 1 {
        assert(s.drop_last() =~= Seq::<char>::empty());
        assert(s.skip(1) =~= Seq::<char>::empty());
        assert(escaped(s.drop_last()) + json_char(s.last()) =~= json_char(s[0]));
        assert(json_char(s[0]) + escaped(s.skip(1)) =~= json_char(s[0]));
    } else {
        lemma_escaped_front(s.drop_last());
        assert(s.drop_last().skip(1) =~= s.skip(1).drop_last());
        assert((json_char(s[0]) + escaped(s.skip(1).drop_last())) + json_char(s.last())
            =~= json_char(s[0]) + (escaped(s.skip(1).drop_last()) + json_char(s.last())));
    }
}

proof fn lemma_hex_of_control(n: int)
    requires
        0 <= n < 0x20,
    ensures
        pad_start(hex(n), 4, '0').len() == 4,
        pad_start(hex(n), 4, '0')[0] == '0',
        pad_start(hex(n), 4, '0')[1] == '0',
        is_hex(pad_start(hex(n), 4, '0')[2]),
        is_hex(pad_start(hex(n), 4, '0')[3]),
        numeral(pad_start(hex(n), 4, '0'), 16) == n,
{
    reveal_with_fuel(digits, 3);
    reveal_with_fuel(numeral, 5);
    let t = pad_start(hex(n), 4, '0');
    if n < 16 {
        assert(hex(n) =~= seq![digit_char(n)]);
        assert(t =~= seq!['0', '0', '0', digit_char(n)]);
    } else {
        assert(n / 16 == 1);
        assert(hex(n) =~= seq!['1', digit_char(n % 16)]);
        assert(t =~= seq!['0', '0', '1', digit_char(n % 16)]);
    }
    assert(t.drop_last() =~= seq![t[0], t[1], t[2]]);
    assert(t.drop_last().drop_last() =~= seq![t[0], t[1]]);
    assert(t.drop_last().drop_last().drop_last() =~= seq![t[0]]);
    assert(t.drop_last().drop_last().drop_last().drop_last() =~= Seq::<char>::empty());
}

proof fn lemma_read_back_char(c: char, rest: Seq<char>)
    requires
        read_back(rest) is Some,
    ensures
        read_back(json_char(c) + rest) == Some(seq![c] + read_back(rest)->0),
{
    let t = json_char(c) + rest;
    reveal_strlit("\\\"");
    reveal_strlit("\\\\");
    reveal_strlit("\\n");
    reveal_strlit("\\r");
    reveal_strlit("\\t");
    reveal_strlit("\\u");
    if c == '"' || c == '\\' || c == '\n' || c == '\r' || c == '\t' {
        assert(t.skip(2) =~= rest);
    } else if (c as int) < 0x20 {
        lemma_hex_of_control(c as int);
        let h = pad_start(hex(c as int), 4, '0');
        assert(t.skip(6) =~= rest);
        assert(t.subrange(2, 6) =~= h);
        assert(t[2] == h[0] && t[3] == h[1] && t[4] == h[2] && t[5] == h[3]);
        assert(t[0] == '\\' && t[1] == 'u');
    } else {
        assert(t.skip(1) =~= rest);
    }
}

/// A JSON reader gets back what was written: the text inside the quotes is valid
/// and stands for the text that was escaped.
pub proof fn law_escaping_is_read_back(s: Seq<char>)
    ensures
        read_back(escaped(s)) == Some(s),
    decreases s.len(),
{
    if s.len() == 0 {
        assert(s =~= Seq::<char>::empty());
    } else {
        lemma_escaped_front(s);
        law_escaping_is_read_back(s.skip(1));
        lemma_read_back_char(s[0], escaped(s.skip(1)));
        assert(seq![s[0]] + s.skip(1) =~= s);
    }
}

/// Different texts are written differently.
pub proof fn law_quoting_keeps_texts_apart(a: Seq<char>, b: Seq<char>)
    requires
        quoted(a) == quoted(b),
    ensures
        a == b,
{
    reveal_strlit("\"");
    let x = quoted(a);
    let y = quoted(b);
    assert(x.subrange(1, x.len() - 1) =~= escaped(a));
    assert(y.subrange(1, y.len() - 1) =~= escaped(b));
    law_escaping_is_read_back(a);
    law_escaping_is_read_back(b);
}

} // verus!
