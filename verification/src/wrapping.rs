//! Breaking a text into lines.
use crate::binary::lesser;
use crate::search::{is_space, space};
use crate::text::{chars_of, fill, repeated, sub_string, views};
use vstd::prelude::*;
use vstd::utf8::encode_utf8;

verus! {

/// How many characters precede the first white space.
pub open spec fn word_len(s: Seq<char>) -> int
    decreases s.len(),
{
    if s.len() == 0 || is_space(s[0]) {
        0
    } else {
        1 + word_len(s.skip(1))
    }
}

pub proof fn lemma_word_len(s: Seq<char>)
    ensures
        0 <= word_len(s) <= s.len(),
        s.len() > 0 && !is_space(s[0]) ==> word_len(s) > 0,
    decreases s.len(),
{
    if s.len() > 0 && !is_space(s[0]) {
        lemma_word_len(s.skip(1));
    }
}

/// The words of a text: its longest runs without white space.
pub open spec fn words(s: Seq<char>) -> Seq<Seq<char>>
    decreases s.len(),
{
    if s.len() == 0 {
        Seq::empty()
    } else if is_space(s[0]) {
        words(s.skip(1))
    } else {
        proof {
            lemma_word_len(s);
        }
        seq![s.take(word_len(s))] + words(s.skip(word_len(s)))
    }
}

/// The words of a text.
pub fn split_words(text: &str) -> (r: Vec<String>)
    ensures
        views(r@) == words(text@),
{
    let cs = chars_of(text);
    let ghost all = words(text@);
    let mut out: Vec<String> = Vec::new();
    let mut i: usize = 0;
    proof {
        assert(cs@.skip(0) =~= cs@);
        assert(all =~= views(out@) + words(cs@.skip(0)));
    }
    while i < cs.len()
        invariant
            cs@ == text@,
            i <= cs@.len(),
            all == views(out@) + words(cs@.skip(i as int)),
        decreases cs@.len() - i,
    {
        let ghost rest = cs@.skip(i as int);
        if space(cs[i]) {
            proof {
                assert(rest.skip(1) =~= cs@.skip(i + 1));
            }
            i += 1;
        } else {
            let start = i;
            proof {
                assert(cs@.subrange(start as int, start as int) =~= Seq::<char>::empty());
            }
            while i < cs.len() && !space(cs[i])
                invariant
                    start <= i <= cs@.len(),
                    rest == cs@.skip(start as int),
                    word_len(rest) == (i - start) + word_len(cs@.skip(i as int)),
                decreases cs@.len() - i,
            {
                proof {
                    assert(cs@.skip(i as int).skip(1) =~= cs@.skip(i + 1));
                }
                i += 1;
            }
            let word = sub_string(&cs, start, i);
            proof {
                assert(word_len(rest) == i - start);
                assert(rest.take(i - start) =~= cs@.subrange(start as int, i as int));
                assert(rest.skip(i - start) =~= cs@.skip(i as int));
                crate::text::lemma_views_push(out@, word);
                assert(views(out@) + (seq![word@] + words(cs@.skip(i as int))) =~= views(
                    out@,
                ).push(word@) + words(cs@.skip(i as int)));
            }
            out.push(word);
        }
    }
    proof {
        assert(views(out@) + words(cs@.skip(i as int)) =~= views(out@));
    }
    out
}

/// A column number, as far as a machine word counts.
pub open spec fn column(n: int) -> int {
    lesser(n, usize::MAX as int)
}

/// The bytes of a word.
pub open spec fn byte_len(w: Seq<char>) -> int {
    (encode_utf8(w).len() as usize) as int
}

/// The text after its first `n` words, and how long its last line is. A word
/// that does not fit on the line starts a new one.
pub open spec fn wrapped_upto(ws: Seq<Seq<char>>, width: int, indent: int, n: int) -> (Seq<char>, int)
    decreases n,
{
    if n <= 0 {
        (Seq::empty(), 0)
    } else {
        let (out, line) = wrapped_upto(ws, width, indent, n - 1);
        let w = ws[n - 1];
        if line > 0 && column(column(line + 1) + byte_len(w)) > width {
            (out + "\n"@ + fill(' ', indent) + w, byte_len(w))
        } else if line > 0 {
            (out + " "@ + w, column(column(line + 1) + byte_len(w)))
        } else {
            (out + w, column(line + byte_len(w)))
        }
    }
}

/// The text broken into lines of at most `width` bytes, between words, each line
/// but the first indented.
pub open spec fn wrapped(s: Seq<char>, width: int, indent: int) -> Seq<char> {
    wrapped_upto(words(s), width, indent, words(s).len() as int).0
}

/// Wraps on word boundaries, indenting continuation lines so that the block
/// reads as one field.
pub fn wrap(text: &str, width: usize, indent: usize) -> (r: String)
    ensures
        r@ == wrapped(text@, width as int, indent as int),
{
    let pad = repeated(' ', indent);
    let ws = split_words(text);
    let ghost all = words(text@);
    let mut out = String::new();
    let mut line: usize = 0;
    for i in 0..ws.len()
        invariant
            views(ws@) == all,
            pad@ == fill(' ', indent as int),
            wrapped_upto(all, width as int, indent as int, i as int) == (out@, line as int),
    {
        let word = ws[i].as_str();
        proof {
            assert(all[i as int] == word@);
        }
        let len = word.len();
        let sum = line.saturating_add(1).saturating_add(len);
        if line > 0 && sum > width {
            out.append("\n");
            out.append(pad.as_str());
            line = len;
        } else if line > 0 {
            out.append(" ");
            line = sum;
        } else {
            line = line.saturating_add(len);
        }
        out.append(word);
    }
    out
}

// ---------------------------------------------------------------------------
// Laws
// ---------------------------------------------------------------------------

/// Text without white space.
pub open spec fn solid(w: Seq<char>) -> bool {
    forall|i: int| 0 <= i < w.len() ==> !is_space(#[trigger] w[i])
}

proof fn lemma_solid_word(w: Seq<char>)
    requires
        solid(w),
    ensures
        word_len(w) == w.len(),
    decreases w.len(),
{
    if w.len() > 0 {
        assert(!is_space(w[0]));
        assert(solid(w.skip(1)));
        lemma_solid_word(w.skip(1));
    }
}

proof fn lemma_word_is_solid(s: Seq<char>)
    ensures
        0 <= word_len(s) <= s.len(),
        solid(s.take(word_len(s))),
    decreases s.len(),
{
    lemma_word_len(s);
    if s.len() > 0 && !is_space(s[0]) {
        lemma_word_is_solid(s.skip(1));
        let n = word_len(s);
        assert forall|i: int| 0 <= i < n implies !is_space(#[trigger] s.take(n)[i]) by {
            if i > 0 {
                assert(s.skip(1).take(n - 1)[i - 1] == s[i]);
            }
        }
    }
}

/// The words of a text are not empty and hold no white space.
pub proof fn law_words_are_solid(s: Seq<char>, i: int)
    requires
        0 <= i < words(s).len(),
    ensures
        words(s)[i].len() > 0,
        solid(words(s)[i]),
    decreases s.len(),
{
    if is_space(s[0]) {
        law_words_are_solid(s.skip(1), i);
    } else {
        lemma_word_len(s);
        lemma_word_is_solid(s);
        let n = word_len(s);
        if i > 0 {
            assert(words(s)[i] == words(s.skip(n))[i - 1]);
            law_words_are_solid(s.skip(n), i - 1);
        }
    }
}

/// A word that stops at the end of one text stops where another begins with
/// white space.
proof fn lemma_word_len_joined(a: Seq<char>, b: Seq<char>)
    requires
        b.len() == 0 || is_space(b[0]),
    ensures
        word_len(a + b) == word_len(a),
    decreases a.len(),
{
    if a.len() > 0 && !is_space(a[0]) {
        assert((a + b).skip(1) =~= a.skip(1) + b);
        lemma_word_len_joined(a.skip(1), b);
    } else if a.len() == 0 {
        assert(a + b =~= b);
    }
}

proof fn lemma_words_joined(a: Seq<char>, b: Seq<char>)
    requires
        b.len() == 0 || is_space(b[0]),
    ensures
        words(a + b) == words(a) + words(b),
    decreases a.len(),
{
    if a.len() == 0 {
        assert(a + b =~= b);
        assert(words(a) + words(b) =~= words(b));
    } else if is_space(a[0]) {
        assert((a + b).skip(1) =~= a.skip(1) + b);
        lemma_words_joined(a.skip(1), b);
    } else {
        lemma_word_len(a);
        lemma_word_len_joined(a, b);
        let n = word_len(a);
        assert((a + b).take(n) =~= a.take(n));
        assert((a + b).skip(n) =~= a.skip(n) + b);
        lemma_words_joined(a.skip(n), b);
        assert(seq![a.take(n)] + (words(a.skip(n)) + words(b)) =~= (seq![a.take(n)] + words(
            a.skip(n),
        )) + words(b));
    }
}

/// White space before a word changes nothing.
proof fn lemma_words_spaced(sp: Seq<char>, w: Seq<char>)
    requires
        forall|i: int| 0 <= i < sp.len() ==> is_space(#[trigger] sp[i]),
        w.len() > 0,
        solid(w),
    ensures
        words(sp + w) == seq![w],
    decreases sp.len(),
{
    if sp.len() == 0 {
        assert(sp + w =~= w);
        lemma_solid_word(w);
        assert(w.take(w.len() as int) =~= w);
        assert(w.skip(w.len() as int) =~= Seq::<char>::empty());
        assert(!is_space(w[0]));
        assert(words(Seq::<char>::empty()) =~= Seq::<Seq<char>>::empty());
        assert(seq![w] + Seq::<Seq<char>>::empty() =~= seq![w]);
    } else {
        assert((sp + w).skip(1) =~= sp.skip(1) + w);
        assert(is_space(sp[0]) && (sp + w)[0] == sp[0]);
        assert forall|i: int| 0 <= i < sp.skip(1).len() implies is_space(
            #[trigger] sp.skip(1)[i],
        ) by {
            assert(is_space(sp[i + 1]));
        }
        lemma_words_spaced(sp.skip(1), w);
    }
}

proof fn lemma_wrapped_words(ws: Seq<Seq<char>>, width: int, indent: int, n: int)
    requires
        0 <= n <= ws.len(),
        forall|i: int|
            0 <= i < ws.len() ==> (#[trigger] ws[i]).len() > 0 && solid(ws[i]) && is_countable(
                ws[i],
            ),
    ensures
        words(wrapped_upto(ws, width, indent, n).0) == ws.take(n),
        wrapped_upto(ws, width, indent, n).1 <= 0 ==> wrapped_upto(ws, width, indent, n).0.len()
            == 0,
    decreases n,
{
    if n <= 0 {
        assert(ws.take(0) =~= Seq::<Seq<char>>::empty());
    } else {
        lemma_wrapped_words(ws, width, indent, n - 1);
        let (out, line) = wrapped_upto(ws, width, indent, n - 1);
        let w = ws[n - 1];
        lemma_byte_len_positive(w);
        reveal_strlit("\n");
        reveal_strlit(" ");
        assert(ws.take(n) =~= ws.take(n - 1) + seq![w]);
        if line > 0 && column(column(line + 1) + byte_len(w)) > width {
            let sp = "\n"@ + fill(' ', indent);
            assert(out + "\n"@ + fill(' ', indent) + w =~= out + (sp + w));
            lemma_words_spaced(sp, w);
            lemma_words_joined(out, sp + w);
        } else if line > 0 {
            let sp = " "@;
            assert(out + " "@ + w =~= out + (sp + w));
            lemma_words_spaced(sp, w);
            lemma_words_joined(out, sp + w);
        } else {
            assert(out + w =~= Seq::<char>::empty() + w);
            lemma_words_spaced(Seq::empty(), w);
        }
    }
}

/// Can a machine word count the bytes of the text? It can for every string.
pub open spec fn is_countable(s: Seq<char>) -> bool {
    encode_utf8(s).len() <= usize::MAX
}

proof fn lemma_encoded_len(a: Seq<char>, b: Seq<char>)
    ensures
        encode_utf8(a + b).len() == encode_utf8(a).len() + encode_utf8(b).len(),
    decreases a.len(),
{
    if a.len() == 0 {
        assert(a + b =~= b);
    } else {
        assert((a + b).drop_first() =~= a.drop_first() + b);
        lemma_encoded_len(a.drop_first(), b);
    }
}

/// Every character takes at least one byte.
proof fn lemma_byte_len_positive(w: Seq<char>)
    requires
        w.len() > 0,
        is_countable(w),
    ensures
        byte_len(w) > 0,
{
    assert(encode_utf8(w) =~= vstd::utf8::encode_scalar(w[0] as u32) + encode_utf8(w.drop_first()));
}

proof fn lemma_words_are_countable(s: Seq<char>, i: int)
    requires
        is_countable(s),
        0 <= i < words(s).len(),
    ensures
        is_countable(words(s)[i]),
    decreases s.len(),
{
    let n = if is_space(s[0]) {
        1
    } else {
        word_len(s)
    };
    lemma_word_len(s);
    assert(s =~= s.take(n) + s.skip(n));
    lemma_encoded_len(s.take(n), s.skip(n));
    if is_space(s[0]) {
        lemma_words_are_countable(s.skip(1), i);
    } else if i > 0 {
        assert(words(s)[i] == words(s.skip(n))[i - 1]);
        lemma_words_are_countable(s.skip(n), i - 1);
    }
}

/// Wrapping keeps every word, in order, and adds none.
pub proof fn law_wrapping_keeps_the_words(s: Seq<char>, width: int, indent: int)
    requires
        is_countable(s),
    ensures
        words(wrapped(s, width, indent)) == words(s),
{
    let ws = words(s);
    assert forall|i: int| 0 <= i < ws.len() implies (#[trigger] ws[i]).len() > 0 && solid(ws[i])
        && is_countable(ws[i]) by {
        law_words_are_solid(s, i);
        lemma_words_are_countable(s, i);
    }
    lemma_wrapped_words(ws, width, indent, ws.len() as int);
    assert(ws.take(ws.len() as int) =~= ws);
}

} // verus!
