//! What counts as a string, and what a string indicates.
use crate::document_laws::lemma_flatten_add;
use crate::picks::{lemma_picks_first, lemma_picks_last, lemma_picks_none, picks};
use crate::search::{contains, digit_value, is_first_at, numeral, stands_at, unsigned};
use crate::strings::{
    added, ascii_from, ascii_strings, classified, collected, cuts, is_address, is_octet, names_path,
    names_registry, pieces, pieces_from, printable, run_end, run_text, scan_of, url_end, url_in,
    url_with, wide_char, wide_end, wide_from, wide_strings, wide_text, with_addresses, with_place,
    with_url, Cut, IocKind, IocModel,
};
use vstd::prelude::*;

verus! {

// ---------------------------------------------------------------------------
// Strings
// ---------------------------------------------------------------------------

/// Is there a character at a place: a byte from the space to the tilde?
pub open spec fn char_at(data: Seq<u8>, i: int) -> bool {
    0 <= i < data.len() && 0x20 <= data[i] <= 0x7e
}

/// Is this a run of characters that cannot be made longer?
pub open spec fn is_run(data: Seq<u8>, a: int, b: int) -> bool {
    &&& a < b
    &&& !char_at(data, a - 1)
    &&& !char_at(data, b)
    &&& forall|k: int| a <= k < b ==> #[trigger] char_at(data, k)
}

/// Does a run of at least so many characters start here?
pub open spec fn run_starts(data: Seq<u8>, min: int, a: int) -> bool {
    !char_at(data, a - 1) && exists|b: int| #[trigger] is_run(data, a, b) && b - a >= min
}

/// Is this the text of the run that starts at a place?
pub open spec fn spells_run(data: Seq<u8>, a: int, s: Seq<char>) -> bool {
    &&& is_run(data, a, a + s.len())
    &&& forall|k: int| 0 <= k < s.len() ==> #[trigger] s[k] == data[a + k] as char
}

proof fn lemma_run(data: Seq<u8>, a: int)
    requires
        char_at(data, a),
        !char_at(data, a - 1),
    ensures
        is_run(data, a, run_end(data, a)),
        forall|b: int| #[trigger] is_run(data, a, b) ==> b == run_end(data, a),
{
    lemma_run_to(data, a);
    let e = run_end(data, a);
    assert forall|b: int| #[trigger] is_run(data, a, b) implies b == e by {
        if b < e {
            assert(char_at(data, b));
        }
        if e < b {
            assert(char_at(data, e));
        }
    }
}

proof fn lemma_run_to(data: Seq<u8>, i: int)
    requires
        0 <= i,
        i <= data.len(),
    ensures
        i <= run_end(data, i) <= data.len(),
        char_at(data, i) ==> i < run_end(data, i),
        !char_at(data, run_end(data, i)),
        forall|k: int| i <= k < run_end(data, i) ==> #[trigger] char_at(data, k),
    decreases data.len() - i,
{
    if i < data.len() && printable(data[i]) {
        lemma_run_to(data, i + 1);
    }
}

#[verifier::rlimit(50)]
proof fn lemma_ascii(data: Seq<u8>, min: int, i: int) -> (places: Seq<int>)
    requires
        0 <= i,
        i <= data.len(),
        !char_at(data, i - 1) || !char_at(data, i),
    ensures
        picks(places, i, data.len() as int, |a: int| run_starts(data, min, a)),
        ascii_from(data, min, i).len() == places.len(),
        forall|j: int|
            0 <= j < places.len() ==> spells_run(
                data,
                places[j],
                #[trigger] ascii_from(data, min, i)[j],
            ),
    decreases data.len() - i,
{
    let n = data.len() as int;
    let holds = |a: int| run_starts(data, min, a);
    if i >= n {
        lemma_picks_none(i, n, holds);
        Seq::empty()
    } else if char_at(data, i) {
        let e = run_end(data, i);
        lemma_run(data, i);
        lemma_run_to(data, i);
        let rest = lemma_ascii(data, min, e);
        assert(picks(rest, e, n, holds));
        assert forall|a: int| i < a < e implies !#[trigger] holds(a) by {
            assert(char_at(data, a - 1));
        }
        lemma_skip(rest, i + 1, e, n, holds);
        lemma_picks_first(rest, i, n, holds);
        if e - i >= min {
            assert(is_run(data, i, e));
            assert(holds(i));
            let all = seq![i] + rest;
            let texts = ascii_from(data, min, i);
            assert(texts == seq![run_text(data, i, e)] + ascii_from(data, min, e));
            assert forall|j: int| 0 <= j < all.len() implies spells_run(
                data,
                all[j],
                #[trigger] texts[j],
            ) by {
                if j > 0 {
                    assert(texts[j] == ascii_from(data, min, e)[j - 1]);
                    assert(all[j] == rest[j - 1]);
                }
            }
            all
        } else {
            assert(!holds(i));
            rest
        }
    } else {
        let rest = lemma_ascii(data, min, i + 1);
        assert(!holds(i)) by {
            if holds(i) {
                let b = choose|b: int| #[trigger] is_run(data, i, b) && b - i >= min;
                assert(char_at(data, i));
            }
        }
        lemma_picks_first(rest, i, n, holds);
        rest
    }
}

proof fn lemma_skip(places: Seq<int>, from: int, mid: int, to: int, holds: spec_fn(int) -> bool)
    requires
        from <= mid,
        picks(places, mid, to, holds),
        forall|a: int| from <= a < mid ==> !#[trigger] holds(a),
    ensures
        picks(places, from, to, holds),
{
}

/// The strings of a file are its runs of characters that are long enough: one for
/// each run, in order, with all of its characters.
pub proof fn law_strings_are_the_runs(data: Seq<u8>, min: int) -> (places: Seq<int>)
    ensures
        picks(places, 0, data.len() as int, |a: int| run_starts(data, min, a)),
        ascii_strings(data, min).len() == places.len(),
        forall|j: int|
            0 <= j < places.len() ==> spells_run(
                data,
                places[j],
                #[trigger] ascii_strings(data, min)[j],
            ),
{
    lemma_ascii(data, min, 0)
}

/// Is there a wide character at a place: a character and a zero byte behind it?
pub open spec fn wide_at(data: Seq<u8>, i: int) -> bool {
    0 <= i && i + 1 < data.len() && 0x20 <= data[i] <= 0x7e && data[i + 1] == 0
}

/// Is this a run of wide characters that cannot be made longer?
pub open spec fn is_wide_run(data: Seq<u8>, a: int, n: int) -> bool {
    &&& n > 0
    &&& !wide_at(data, a - 2)
    &&& !wide_at(data, a + 2 * n)
    &&& forall|k: int| 0 <= k < n ==> wide_at(data, a + #[trigger] (2 * k))
}

/// Does a run of at least so many wide characters start here?
pub open spec fn wide_run_starts(data: Seq<u8>, min: int, a: int) -> bool {
    !wide_at(data, a - 2) && exists|n: int| #[trigger] is_wide_run(data, a, n) && n >= min
}

/// Is this the text of the run of wide characters that starts at a place?
pub open spec fn spells_wide_run(data: Seq<u8>, a: int, s: Seq<char>) -> bool {
    &&& is_wide_run(data, a, s.len() as int)
    &&& forall|k: int| 0 <= k < s.len() ==> #[trigger] s[k] == data[a + 2 * k] as char
}

proof fn lemma_wide_to(data: Seq<u8>, i: int)
    requires
        0 <= i,
    ensures
        i <= wide_end(data, i),
        (wide_end(data, i) - i) % 2 == 0,
        wide_at(data, i) ==> i < wide_end(data, i) <= data.len(),
        !wide_at(data, i) ==> wide_end(data, i) == i,
        !wide_at(data, wide_end(data, i)),
        forall|k: int|
            0 <= k < (wide_end(data, i) - i) / 2 ==> wide_at(data, i + #[trigger] (2 * k)),
    decreases data.len() - i,
{
    if wide_char(data, i) {
        lemma_wide_to(data, i + 2);
        let n = (wide_end(data, i) - i) / 2;
        assert forall|k: int| 0 <= k < n implies wide_at(data, i + #[trigger] (2 * k)) by {
            if k > 0 {
                let p = 2 * (k - 1);
                assert(wide_at(data, i + 2 + p));
                assert(i + 2 + p == i + 2 * k);
            }
        }
    }
}

proof fn lemma_wide_run(data: Seq<u8>, a: int)
    requires
        wide_at(data, a),
        !wide_at(data, a - 2),
    ensures
        is_wide_run(data, a, (wide_end(data, a) - a) / 2),
        forall|n: int| #[trigger] is_wide_run(data, a, n) ==> n == (wide_end(data, a) - a) / 2,
{
    lemma_wide_to(data, a);
    let m = (wide_end(data, a) - a) / 2;
    assert(a + 2 * m == wide_end(data, a));
    assert forall|n: int| #[trigger] is_wide_run(data, a, n) implies n == m by {
        if n < m {
            assert(wide_at(data, a + 2 * n));
        }
        if m < n {
            assert(wide_at(data, a + 2 * m));
        }
    }
}

#[verifier::rlimit(50)]
proof fn lemma_wide(data: Seq<u8>, min: int, i: int) -> (places: Seq<int>)
    requires
        0 <= i,
        !wide_at(data, i - 2) || !wide_at(data, i),
        i + 1 >= data.len() || !wide_at(data, i - 1) || !wide_at(data, i + 1),
    ensures
        picks(places, i, data.len() as int, |a: int| wide_run_starts(data, min, a)),
        wide_from(data, min, i).len() == places.len(),
        forall|j: int|
            0 <= j < places.len() ==> spells_wide_run(
                data,
                places[j],
                #[trigger] wide_from(data, min, i)[j],
            ),
    decreases data.len() - i,
{
    let n = data.len() as int;
    let holds = |a: int| wide_run_starts(data, min, a);
    if i + 1 >= n {
        assert forall|a: int| i <= a < n implies !#[trigger] holds(a) by {
            if holds(a) {
                let m = choose|m: int| #[trigger] is_wide_run(data, a, m) && m >= min;
                let zero = 2 * 0int;
                assert(wide_at(data, a + zero));
            }
        }
        Seq::empty()
    } else if wide_at(data, i) {
        let e = wide_end(data, i);
        let m = (e - i) / 2;
        lemma_wide_run(data, i);
        lemma_wide_to(data, i);
        assert(i + 2 * m == e);
        let k1 = m - 1;
        assert(wide_at(data, i + 2 * k1));
        assert(!wide_at(data, e - 1));
        assert(e <= n);
        let rest = lemma_wide(data, min, e);
        assert(picks(rest, e, n, holds));
        assert forall|a: int| i < a < e implies !#[trigger] holds(a) by {
            if (a - i) % 2 == 0 {
                let k = (a - i) / 2 - 1;
                assert(a - 2 == i + 2 * k);
                assert(wide_at(data, i + 2 * k));
            } else {
                let k = (a - i) / 2;
                assert(a - 1 == i + 2 * k);
                assert(wide_at(data, i + 2 * k));
                if holds(a) {
                    let q = choose|q: int| #[trigger] is_wide_run(data, a, q) && q >= min;
                    let zero = 2 * 0int;
                    assert(wide_at(data, a + zero));
                }
            }
        }
        lemma_skip(rest, i + 1, e, n, holds);
        lemma_picks_first(rest, i, n, holds);
        if m >= min {
            assert(is_wide_run(data, i, m));
            assert(holds(i));
            let all = seq![i] + rest;
            let texts = wide_from(data, min, i);
            assert(texts == seq![wide_text(data, i, e)] + wide_from(data, min, e));
            assert forall|j: int| 0 <= j < all.len() implies spells_wide_run(
                data,
                all[j],
                #[trigger] texts[j],
            ) by {
                if j > 0 {
                    assert(texts[j] == wide_from(data, min, e)[j - 1]);
                    assert(all[j] == rest[j - 1]);
                }
            }
            all
        } else {
            assert(!holds(i));
            rest
        }
    } else {
        let rest = lemma_wide(data, min, i + 1);
        assert(!holds(i)) by {
            if holds(i) {
                let m = choose|m: int| #[trigger] is_wide_run(data, i, m) && m >= min;
                let zero = 2 * 0int;
                assert(wide_at(data, i + zero));
            }
        }
        lemma_picks_first(rest, i, n, holds);
        rest
    }
}

/// The wide strings of a file are its runs of wide characters that are long
/// enough: one for each run, in order, with all of its characters.
pub proof fn law_wide_strings_are_the_wide_runs(data: Seq<u8>, min: int) -> (places: Seq<int>)
    ensures
        picks(places, 0, data.len() as int, |a: int| wide_run_starts(data, min, a)),
        wide_strings(data, min).len() == places.len(),
        forall|j: int|
            0 <= j < places.len() ==> spells_wide_run(
                data,
                places[j],
                #[trigger] wide_strings(data, min)[j],
            ),
{
    lemma_wide(data, min, 0)
}

// ---------------------------------------------------------------------------
// URLs
// ---------------------------------------------------------------------------

/// Does the scheme stand first at a place of the text?
pub open spec fn starts_first_at(s: Seq<char>, scheme: Seq<char>, k: int) -> bool {
    &&& 0 <= k
    &&& k + scheme.len() <= s.len()
    &&& s.subrange(k, k + scheme.len()) == scheme
    &&& forall|j: int|
        0 <= j < k ==> #[trigger] s.subrange(j, j + scheme.len()) != scheme
}

/// Does the scheme stand nowhere in the text?
pub open spec fn stands_nowhere(s: Seq<char>, scheme: Seq<char>) -> bool {
    forall|j: int|
        0 <= j && j + scheme.len() <= s.len() ==> #[trigger] s.subrange(j, j + scheme.len())
            != scheme
}

/// Does a URL end before this character: white space, a quote, an angle bracket
/// or a closing parenthesis?
pub open spec fn stops_url(c: char) -> bool {
    ||| c == ' ' || c == '\t' || c == '\n' || c == '\r' || c as int == 0xb || c as int == 0xc
    ||| c == '"' || c == '\'' || c == '<' || c == '>' || c == ')'
    ||| c as int == 0x85 || c as int == 0xa0 || c as int == 0x1680 || 0x2000 <= c as int <= 0x200a
    ||| c as int == 0x2028 || c as int == 0x2029 || c as int == 0x202f || c as int == 0x205f
    ||| c as int == 0x3000
}

/// Is this where a URL ends that starts at a place?
pub open spec fn url_ends_at(s: Seq<char>, k: int, e: int) -> bool {
    &&& k <= e <= s.len()
    &&& forall|i: int| k <= i < e ==> !stops_url(#[trigger] s[i])
    &&& e == s.len() || stops_url(s[e])
}

proof fn lemma_url_end(s: Seq<char>, k: int, e: int)
    requires
        0 <= k,
        url_ends_at(s, k, e),
    ensures
        url_end(s, k) == e,
    decreases e - k,
{
    if k < e {
        assert(!stops_url(s[k]));
        lemma_url_end(s, k + 1, e);
    }
}

proof fn lemma_first(s: Seq<char>, scheme: Seq<char>, k: int)
    requires
        starts_first_at(s, scheme, k),
    ensures
        contains(s, scheme),
        is_first_at(s, scheme, k),
        forall|j: int| #[trigger] is_first_at(s, scheme, j) ==> j == k,
{
    assert(stands_at(s, scheme, k));
    assert forall|j: int| #[trigger] is_first_at(s, scheme, j) implies j == k by {
        if j < k {
            assert(s.subrange(j, j + scheme.len()) != scheme);
        }
        if k < j {
            assert(!stands_at(s, scheme, k));
        }
    }
}

proof fn lemma_nowhere(s: Seq<char>, scheme: Seq<char>)
    requires
        stands_nowhere(s, scheme),
    ensures
        !contains(s, scheme),
{
}

proof fn lemma_url_with(s: Seq<char>, scheme: Seq<char>, k: int, e: int)
    requires
        starts_first_at(s, scheme, k),
        url_ends_at(s, k, e),
    ensures
        url_with(s, scheme) == Some(s.subrange(k, e)),
{
    lemma_first(s, scheme, k);
    lemma_url_end(s, k, e);
}

/// A text that holds `https://` has for its URL what stands from there on, up to
/// the first character that ends one. Else `http://` counts, else `ftp://`, and
/// where none of them stands there is no URL.
pub proof fn law_urls_go_from_their_scheme_on(s: Seq<char>, k: int, e: int)
    requires
        url_ends_at(s, k, e),
    ensures
        starts_first_at(s, "https://"@, k) ==> url_in(s) == Some(s.subrange(k, e)),
        stands_nowhere(s, "https://"@) && starts_first_at(s, "http://"@, k) ==> url_in(s) == Some(
            s.subrange(k, e),
        ),
        stands_nowhere(s, "https://"@) && stands_nowhere(s, "http://"@) && starts_first_at(
            s,
            "ftp://"@,
            k,
        ) ==> url_in(s) == Some(s.subrange(k, e)),
        stands_nowhere(s, "https://"@) && stands_nowhere(s, "http://"@) && stands_nowhere(
            s,
            "ftp://"@,
        ) ==> url_in(s) is None,
{
    if starts_first_at(s, "https://"@, k) {
        lemma_url_with(s, "https://"@, k, e);
        lemma_first(s, "https://"@, k);
    }
    if stands_nowhere(s, "https://"@) {
        lemma_nowhere(s, "https://"@);
        if starts_first_at(s, "http://"@, k) {
            lemma_url_with(s, "http://"@, k, e);
            lemma_first(s, "http://"@, k);
        }
        if stands_nowhere(s, "http://"@) {
            lemma_nowhere(s, "http://"@);
            if starts_first_at(s, "ftp://"@, k) {
                lemma_url_with(s, "ftp://"@, k, e);
            }
            if stands_nowhere(s, "ftp://"@) {
                lemma_nowhere(s, "ftp://"@);
            }
        }
    }
}

// ---------------------------------------------------------------------------
// Registry keys and paths
// ---------------------------------------------------------------------------

/// A text names a registry key exactly where one of the five marks of one stands
/// in it.
pub proof fn law_registry_keys_have_a_mark(s: Seq<char>)
    ensures
        !stands_nowhere(s, "HKEY_"@) ==> names_registry(s),
        !stands_nowhere(s, "HKLM"@) ==> names_registry(s),
        !stands_nowhere(s, "HKCU"@) ==> names_registry(s),
        !stands_nowhere(s, "HKCR"@) ==> names_registry(s),
        !stands_nowhere(s, "CurrentVersion\\Run"@) ==> names_registry(s),
        stands_nowhere(s, "HKEY_"@) && stands_nowhere(s, "HKLM"@) && stands_nowhere(s, "HKCU"@)
            && stands_nowhere(s, "HKCR"@) && stands_nowhere(s, "CurrentVersion\\Run"@)
            ==> !names_registry(s),
{
    lemma_somewhere(s, "HKEY_"@);
    lemma_somewhere(s, "HKLM"@);
    lemma_somewhere(s, "HKCU"@);
    lemma_somewhere(s, "HKCR"@);
    lemma_somewhere(s, "CurrentVersion\\Run"@);
}

/// A text stands somewhere or nowhere.
pub proof fn lemma_somewhere(s: Seq<char>, pat: Seq<char>)
    ensures
        contains(s, pat) <==> !stands_nowhere(s, pat),
{
    if !stands_nowhere(s, pat) {
        let j = choose|j: int|
            0 <= j && j + pat.len() <= s.len() && #[trigger] s.subrange(j, j + pat.len()) == pat;
        assert(stands_at(s, pat, j));
    }
}

/// A text names a path exactly where it begins with a drive letter, a colon and a
/// backslash, or with two backslashes.
pub proof fn law_paths_begin_with_a_drive_or_a_share(s: Seq<char>)
    ensures
        names_path(s) <==> {
            ||| s.len() >= 3 && ('a' <= s[0] <= 'z' || 'A' <= s[0] <= 'Z') && s[1] == ':' && s[2]
                == '\\'
            ||| s.len() >= 2 && s[0] == '\\' && s[1] == '\\'
        },
{
    reveal_strlit("\\\\");
    if s.len() >= 2 {
        let t = s.subrange(0, 2);
        assert(t[0] == s[0] && t[1] == s[1]);
        if s[0] == '\\' && s[1] == '\\' {
            assert(t =~= "\\\\"@);
        }
    }
}

// ---------------------------------------------------------------------------
// Addresses
// ---------------------------------------------------------------------------

/// Is this a piece of the text between two cuts, from one place up to another?
pub open spec fn is_piece(s: Seq<char>, cut: Cut, a: int, b: int) -> bool {
    &&& 0 <= a <= b <= s.len()
    &&& a == 0 || cuts(cut, s[a - 1])
    &&& b == s.len() || cuts(cut, s[b])
    &&& forall|k: int| a <= k < b ==> !cuts(cut, #[trigger] s[k])
}

#[verifier::rlimit(50)]
proof fn lemma_pieces(s: Seq<char>, cut: Cut, from: int, i: int)
    requires
        0 <= from <= i <= s.len(),
        from == 0 || cuts(cut, s[from - 1]),
        forall|k: int| from <= k < i ==> !cuts(cut, #[trigger] s[k]),
    ensures
        forall|p: Seq<char>| #[trigger]
            pieces_from(s, cut, from, i).contains(p) <==> exists|a: int, b: int|
                from <= a && #[trigger] is_piece(s, cut, a, b) && p == s.subrange(a, b),
    decreases s.len() - i,
{
    let all = pieces_from(s, cut, from, i);
    if i >= s.len() {
        assert(is_piece(s, cut, from, i));
        assert forall|p: Seq<char>| #[trigger] all.contains(p) <==> exists|a: int, b: int|
            from <= a && #[trigger] is_piece(s, cut, a, b) && p == s.subrange(a, b) by {
            if all.contains(p) {
                assert(p == s.subrange(from, i));
            }
            if exists|a: int, b: int|
                from <= a && #[trigger] is_piece(s, cut, a, b) && p == s.subrange(a, b) {
                let (a, b) = choose|a: int, b: int|
                    from <= a && #[trigger] is_piece(s, cut, a, b) && p == s.subrange(a, b);
                if a > from {
                    assert(!cuts(cut, s[a - 1]));
                }
                if b < i {
                    assert(!cuts(cut, s[b]));
                }
                assert(all[0] == p);
            }
        }
    } else if cuts(cut, s[i]) {
        let rest = pieces_from(s, cut, i + 1, i + 1);
        lemma_pieces(s, cut, i + 1, i + 1);
        assert(all == seq![s.subrange(from, i)] + rest);
        assert(is_piece(s, cut, from, i));
        assert forall|p: Seq<char>| #[trigger] all.contains(p) <==> exists|a: int, b: int|
            from <= a && #[trigger] is_piece(s, cut, a, b) && p == s.subrange(a, b) by {
            if all.contains(p) {
                let m = choose|m: int| 0 <= m < all.len() && all[m] == p;
                if m > 0 {
                    assert(rest[m - 1] == p);
                    assert(rest.contains(p));
                }
            }
            if exists|a: int, b: int|
                from <= a && #[trigger] is_piece(s, cut, a, b) && p == s.subrange(a, b) {
                let (a, b) = choose|a: int, b: int|
                    from <= a && #[trigger] is_piece(s, cut, a, b) && p == s.subrange(a, b);
                if a > i {
                    assert(rest.contains(p));
                    let m = choose|m: int| 0 <= m < rest.len() && rest[m] == p;
                    assert(all[m + 1] == p);
                } else {
                    if a > from {
                        assert(!cuts(cut, s[a - 1]));
                    }
                    if b > i {
                        assert(!cuts(cut, s[i]));
                    }
                    if b < i {
                        assert(!cuts(cut, s[b]));
                    }
                    assert(all[0] == p);
                }
            }
        }
    } else {
        let same = pieces_from(s, cut, from, i + 1);
        assert(all == same);
        lemma_pieces(s, cut, from, i + 1);
        assert forall|p: Seq<char>| #[trigger] all.contains(p) <==> exists|a: int, b: int|
            from <= a && #[trigger] is_piece(s, cut, a, b) && p == s.subrange(a, b) by {
            assert(same.contains(p) == all.contains(p));
        }
    }
}

/// Addresses are looked for in the pieces of a text that hold digits and dots
/// only and cannot be made longer: in all of them.
pub proof fn law_addresses_are_looked_for_everywhere(s: Seq<char>, p: Seq<char>)
    ensures
        pieces(s, Cut::NonAddress).contains(p) <==> exists|a: int, b: int|
            #[trigger] is_number_run(s, a, b) && p == s.subrange(a, b),
{
    lemma_pieces(s, Cut::NonAddress, 0, 0);
    assert forall|a: int, b: int| #[trigger] is_number_run(s, a, b) <==> is_piece(
        s,
        Cut::NonAddress,
        a,
        b,
    ) by {}
    if exists|a: int, b: int|
        0 <= a && #[trigger] is_piece(s, Cut::NonAddress, a, b) && p == s.subrange(a, b) {
        let (a, b) = choose|a: int, b: int|
            0 <= a && #[trigger] is_piece(s, Cut::NonAddress, a, b) && p == s.subrange(a, b);
        assert(is_number_run(s, a, b));
    }
    if exists|a: int, b: int| #[trigger] is_number_run(s, a, b) && p == s.subrange(a, b) {
        let (a, b) = choose|a: int, b: int| #[trigger]
            is_number_run(s, a, b) && p == s.subrange(a, b);
        assert(is_piece(s, Cut::NonAddress, a, b));
    }
}

/// Is this a run of digits and dots that cannot be made longer?
pub open spec fn is_number_run(s: Seq<char>, a: int, b: int) -> bool {
    &&& 0 <= a <= b <= s.len()
    &&& a == 0 || !('0' <= s[a - 1] <= '9' || s[a - 1] == '.')
    &&& b == s.len() || !('0' <= s[b] <= '9' || s[b] == '.')
    &&& forall|k: int| a <= k < b ==> ('0' <= #[trigger] s[k] <= '9' || s[k] == '.')
}

/// Is this a number of one to three digits, 255 at most?
pub open spec fn is_byte_text(p: Seq<char>) -> bool {
    &&& 1 <= p.len() <= 3
    &&& forall|i: int| 0 <= i < p.len() ==> '0' <= #[trigger] p[i] <= '9'
    &&& p.len() == 3 ==> 100 * (p[0] as int - 48) + 10 * (p[1] as int - 48) + (p[2] as int - 48)
        <= 255
}

proof fn lemma_octet(p: Seq<char>)
    requires
        forall|i: int| 0 <= i < p.len() ==> '0' <= #[trigger] p[i] <= '9',
    ensures
        is_octet(p) <==> is_byte_text(p),
{
    if 1 <= p.len() <= 3 {
        assert(unsigned(p) == p);
        reveal_with_fuel(numeral, 4);
        assert forall|i: int| 0 <= i < p.len() implies digit_value(#[trigger] p[i]) < 10 by {}
        if p.len() == 3 {
            let q = p.drop_last();
            let r = q.drop_last();
            assert(p.last() == p[2] && q.last() == p[1] && r.last() == p[0]);
            assert(r.drop_last().len() == 0);
            assert(numeral(p, 10) == 100 * (p[0] as int - 48) + 10 * (p[1] as int - 48) + (
            p[2] as int - 48));
        } else if p.len() == 2 {
            let q = p.drop_last();
            assert(p.last() == p[1] && q.last() == p[0]);
            assert(q.drop_last().len() == 0);
            assert(numeral(p, 10) <= 99);
        } else {
            assert(p.drop_last().len() == 0);
            assert(numeral(p, 10) <= 9);
        }
    }
}

proof fn lemma_one_piece(s: Seq<char>, from: int, i: int)
    requires
        0 <= from <= i <= s.len(),
        forall|k: int| i <= k < s.len() ==> #[trigger] s[k] != '.',
    ensures
        pieces_from(s, Cut::Dots, from, i) == seq![s.subrange(from, s.len() as int)],
    decreases s.len() - i,
{
    if i < s.len() {
        assert(s[i] != '.');
        lemma_one_piece(s, from, i + 1);
    }
}

proof fn lemma_next_piece(s: Seq<char>, from: int, i: int, d: int)
    requires
        0 <= from <= i <= d < s.len(),
        s[d] == '.',
        forall|k: int| i <= k < d ==> #[trigger] s[k] != '.',
    ensures
        pieces_from(s, Cut::Dots, from, i) == seq![s.subrange(from, d)] + pieces_from(
            s,
            Cut::Dots,
            d + 1,
            d + 1,
        ),
    decreases d - i,
{
    if i < d {
        assert(s[i] != '.');
        lemma_next_piece(s, from, i + 1, d);
    }
}

/// Four numbers of one to three digits, 255 at most, with dots between them, are
/// an address.
#[verifier::rlimit(50)]
pub proof fn law_dotted_numbers_are_addresses(
    a: Seq<char>,
    b: Seq<char>,
    c: Seq<char>,
    d: Seq<char>,
)
    requires
        is_byte_text(a),
        is_byte_text(b),
        is_byte_text(c),
        is_byte_text(d),
    ensures
        is_address(a + seq!['.'] + b + seq!['.'] + c + seq!['.'] + d),
{
    let s = a + seq!['.'] + b + seq!['.'] + c + seq!['.'] + d;
    let x = a.len() as int;
    let y = x + 1 + b.len();
    let z = y + 1 + c.len();
    assert forall|k: int| 0 <= k < x implies #[trigger] s[k] != '.' by {
        assert(s[k] == a[k]);
    }
    assert forall|k: int| x + 1 <= k < y implies #[trigger] s[k] != '.' by {
        assert(s[k] == b[k - x - 1]);
    }
    assert forall|k: int| y + 1 <= k < z implies #[trigger] s[k] != '.' by {
        assert(s[k] == c[k - y - 1]);
    }
    assert forall|k: int| z + 1 <= k < s.len() implies #[trigger] s[k] != '.' by {
        assert(s[k] == d[k - z - 1]);
    }
    lemma_next_piece(s, 0, 0, x);
    lemma_next_piece(s, x + 1, x + 1, y);
    lemma_next_piece(s, y + 1, y + 1, z);
    lemma_one_piece(s, z + 1, z + 1);
    assert(s.subrange(0, x) =~= a);
    assert(s.subrange(x + 1, y) =~= b);
    assert(s.subrange(y + 1, z) =~= c);
    assert(s.subrange(z + 1, s.len() as int) =~= d);
    let p = pieces(s, Cut::Dots);
    assert(p =~= seq![a, b, c, d]);
    lemma_octet(a);
    lemma_octet(b);
    lemma_octet(c);
    lemma_octet(d);
}

proof fn lemma_joined(s: Seq<char>, from: int, i: int) -> (d: int)
    requires
        0 <= from <= i <= s.len(),
        forall|k: int| from <= k < i ==> #[trigger] s[k] != '.',
    ensures
        pieces_from(s, Cut::Dots, from, i).len() >= 1,
        pieces_from(s, Cut::Dots, from, i).len() == 1 ==> d == s.len(),
        pieces_from(s, Cut::Dots, from, i).len() > 1 ==> i <= d < s.len() && s[d] == '.'
            && pieces_from(s, Cut::Dots, from, i) == seq![s.subrange(from, d)] + pieces_from(
            s,
            Cut::Dots,
            d + 1,
            d + 1,
        ),
        from <= d <= s.len(),
        pieces_from(s, Cut::Dots, from, i)[0] == s.subrange(from, d),
    decreases s.len() - i,
{
    if i >= s.len() {
        s.len() as int
    } else if s[i] == '.' {
        let e = lemma_joined(s, i + 1, i + 1);
        i
    } else {
        lemma_joined(s, from, i + 1)
    }
}

/// An address of digits and dots is made of four numbers of one to three digits,
/// 255 at most, with dots between them.
#[verifier::rlimit(50)]
pub proof fn law_addresses_are_dotted_numbers(s: Seq<char>) -> (r: (
    Seq<char>,
    Seq<char>,
    Seq<char>,
    Seq<char>,
))
    requires
        is_address(s),
        forall|k: int| 0 <= k < s.len() ==> ('0' <= #[trigger] s[k] <= '9' || s[k] == '.'),
    ensures
        s == r.0 + seq!['.'] + r.1 + seq!['.'] + r.2 + seq!['.'] + r.3,
        is_byte_text(r.0),
        is_byte_text(r.1),
        is_byte_text(r.2),
        is_byte_text(r.3),
{
    lemma_pieces(s, Cut::Dots, 0, 0);
    let p = pieces(s, Cut::Dots);
    assert forall|m: int| 0 <= m < p.len() && is_octet(#[trigger] p[m]) implies is_byte_text(
        p[m],
    ) by {
        assert(p.contains(p[m]));
        let (a, b) = choose|a: int, b: int|
            0 <= a && #[trigger] is_piece(s, Cut::Dots, a, b) && p[m] == s.subrange(a, b);
        assert forall|i: int| 0 <= i < p[m].len() implies '0' <= #[trigger] p[m][i] <= '9' by {
            assert(p[m][i] == s[a + i]);
            assert(!cuts(Cut::Dots, s[a + i]));
        }
        lemma_octet(p[m]);
    }
    let x = lemma_joined(s, 0, 0);
    let p1 = pieces_from(s, Cut::Dots, x + 1, x + 1);
    assert(p1.len() == 3);
    let y = lemma_joined(s, x + 1, x + 1);
    let p2 = pieces_from(s, Cut::Dots, y + 1, y + 1);
    assert(p2.len() == 2);
    let z = lemma_joined(s, y + 1, y + 1);
    let p3 = pieces_from(s, Cut::Dots, z + 1, z + 1);
    assert(p3.len() == 1);
    let w = lemma_joined(s, z + 1, z + 1);
    assert(p[1] == p1[0] && p[2] == p1[1] && p1[1] == p2[0] && p[3] == p1[2] && p1[2] == p2[1]
        && p2[1] == p3[0]);
    assert(s =~= s.subrange(0, x) + seq!['.'] + s.subrange(x + 1, y) + seq!['.'] + s.subrange(
        y + 1,
        z,
    ) + seq!['.'] + s.subrange(z + 1, s.len() as int));
    (p[0], p[1], p[2], p[3])
}

// ---------------------------------------------------------------------------
// The list of indicators
// ---------------------------------------------------------------------------

/// What a string indicates: its URL, then the registry key or the path that it
/// is, then the addresses in it, in order.
pub open spec fn indicated_by(s: Seq<char>) -> Seq<IocModel> {
    (match url_in(s) {
        Some(u) => seq![IocModel { kind: IocKind::Url, value: u }],
        None => Seq::<IocModel>::empty(),
    }) + (if names_registry(s) {
        seq![IocModel { kind: IocKind::RegistryKey, value: s }]
    } else if names_path(s) {
        seq![IocModel { kind: IocKind::FilePath, value: s }]
    } else {
        Seq::<IocModel>::empty()
    }) + pieces(s, Cut::NonAddress).filter(|p: Seq<char>| is_address(p)).map_values(
        |p: Seq<char>| IocModel { kind: IocKind::Ipv4, value: p },
    )
}

spec fn folded(iocs: Seq<IocModel>, xs: Seq<IocModel>) -> Seq<IocModel>
    decreases xs.len(),
{
    if xs.len() == 0 {
        iocs
    } else {
        added(folded(iocs, xs.drop_last()), xs.last())
    }
}

proof fn lemma_folded_add(iocs: Seq<IocModel>, a: Seq<IocModel>, b: Seq<IocModel>)
    ensures
        folded(iocs, a + b) == folded(folded(iocs, a), b),
    decreases b.len(),
{
    if b.len() == 0 {
        assert(a + b =~= a);
    } else {
        lemma_folded_add(iocs, a, b.drop_last());
        assert((a + b).drop_last() =~= a + b.drop_last());
        assert((a + b).last() == b.last());
    }
}

proof fn lemma_folded_addresses(iocs: Seq<IocModel>, tokens: Seq<Seq<char>>, n: int)
    requires
        0 <= n <= tokens.len(),
    ensures
        with_addresses(iocs, tokens, n) == folded(
            iocs,
            tokens.take(n).filter(|p: Seq<char>| is_address(p)).map_values(
                |p: Seq<char>| IocModel { kind: IocKind::Ipv4, value: p },
            ),
        ),
    decreases n,
{
    reveal(Seq::filter);
    let found = |p: Seq<char>| is_address(p);
    let ioc = |p: Seq<char>| IocModel { kind: IocKind::Ipv4, value: p };
    if n > 0 {
        lemma_folded_addresses(iocs, tokens, n - 1);
        let before = tokens.take(n - 1).filter(found);
        assert(tokens.take(n).drop_last() =~= tokens.take(n - 1));
        assert(tokens.take(n).last() == tokens[n - 1]);
        if is_address(tokens[n - 1]) {
            let all = before.push(tokens[n - 1]).map_values(ioc);
            assert(all.drop_last() =~= before.map_values(ioc));
            assert(all.last() == ioc(tokens[n - 1]));
        }
    } else {
        assert(tokens.take(0).filter(found).map_values(ioc) =~= Seq::<IocModel>::empty());
    }
}

proof fn lemma_folded_one(iocs: Seq<IocModel>, x: IocModel)
    ensures
        folded(iocs, seq![x]) == added(iocs, x),
        folded(iocs, Seq::empty()) == iocs,
{
    assert(seq![x].drop_last() =~= Seq::<IocModel>::empty());
    assert(folded(iocs, Seq::<IocModel>::empty()) == iocs);
    assert(seq![x].last() == x);
}

#[verifier::rlimit(50)]
proof fn lemma_classified(iocs: Seq<IocModel>, s: Seq<char>)
    ensures
        classified(iocs, s) == folded(iocs, indicated_by(s)),
{
    let tokens = pieces(s, Cut::NonAddress);
    let u = match url_in(s) {
        Some(u) => seq![IocModel { kind: IocKind::Url, value: u }],
        None => Seq::<IocModel>::empty(),
    };
    let p = if names_registry(s) {
        seq![IocModel { kind: IocKind::RegistryKey, value: s }]
    } else if names_path(s) {
        seq![IocModel { kind: IocKind::FilePath, value: s }]
    } else {
        Seq::<IocModel>::empty()
    };
    let a = tokens.filter(|p: Seq<char>| is_address(p)).map_values(
        |p: Seq<char>| IocModel { kind: IocKind::Ipv4, value: p },
    );
    if url_in(s) is Some {
        lemma_folded_one(iocs, IocModel { kind: IocKind::Url, value: url_in(s)->0 });
    }
    let one = folded(iocs, u);
    assert(with_url(iocs, s) == one);
    lemma_folded_one(one, IocModel { kind: IocKind::RegistryKey, value: s });
    lemma_folded_one(one, IocModel { kind: IocKind::FilePath, value: s });
    let two = folded(one, p);
    assert(with_place(one, s) == two);
    lemma_folded_addresses(two, tokens, tokens.len() as int);
    assert(tokens.take(tokens.len() as int) =~= tokens);
    lemma_folded_add(iocs, u, p);
    lemma_folded_add(iocs, u + p, a);
}

proof fn lemma_collected(iocs: Seq<IocModel>, texts: Seq<Seq<char>>)
    ensures
        collected(iocs, texts) == folded(
            iocs,
            texts.map_values(|s: Seq<char>| indicated_by(s)).flatten(),
        ),
    decreases texts.len(),
{
    let found = |s: Seq<char>| indicated_by(s);
    let all = texts.map_values(found);
    if texts.len() > 0 {
        lemma_classified(iocs, texts[0]);
        lemma_collected(classified(iocs, texts[0]), texts.skip(1));
        assert(all.drop_first() =~= texts.skip(1).map_values(found));
        assert(all.first() == indicated_by(texts[0]));
        assert(all.flatten() == indicated_by(texts[0]) + texts.skip(1).map_values(found).flatten());
        lemma_folded_add(
            iocs,
            indicated_by(texts[0]),
            texts.skip(1).map_values(found).flatten(),
        );
    } else {
        assert(all.flatten() =~= Seq::<IocModel>::empty());
    }
}

/// Is this the first time that the indicator comes up?
pub open spec fn comes_up_first(all: Seq<IocModel>, p: int) -> bool {
    0 <= p < all.len() && forall|q: int| 0 <= q < p ==> #[trigger] all[q] != all[p]
}

/// Is this the list: the first 500 of what came up, each once?
pub open spec fn lists_first(all: Seq<IocModel>, places: Seq<int>, iocs: Seq<IocModel>) -> bool {
    &&& iocs.len() <= 500
    &&& iocs.len() == places.len() || iocs.len() == 500 && 500 < places.len()
    &&& forall|j: int| 0 <= j < iocs.len() ==> #[trigger] iocs[j] == all[places[j]]
}

proof fn lemma_first_up(all: Seq<IocModel>, x: IocModel, p: int) -> (q: int)
    requires
        0 <= p < all.len(),
        all[p] == x,
    ensures
        0 <= q <= p,
        all[q] == x,
        comes_up_first(all, q),
    decreases p,
{
    if exists|r: int| 0 <= r < p && #[trigger] all[r] == x {
        let r = choose|r: int| 0 <= r < p && #[trigger] all[r] == x;
        lemma_first_up(all, x, r)
    } else {
        assert(comes_up_first(all, p));
        p
    }
}

#[verifier::rlimit(50)]
proof fn lemma_firsts(all: Seq<IocModel>, n: int) -> (places: Seq<int>)
    requires
        0 <= n <= all.len(),
    ensures
        picks(places, 0, n, |p: int| comes_up_first(all, p)),
        lists_first(all, places, folded(Seq::empty(), all.take(n))),
    decreases n,
{
    let holds = |p: int| comes_up_first(all, p);
    if n <= 0 {
        lemma_picks_none(0, n, holds);
        assert(all.take(0) =~= Seq::<IocModel>::empty());
        Seq::empty()
    } else {
        let places = lemma_firsts(all, n - 1);
        let was = folded(Seq::empty(), all.take(n - 1));
        let x = all[n - 1];
        assert(all.take(n).drop_last() =~= all.take(n - 1));
        assert(all.take(n).last() == x);
        assert(picks(places, 0, n - 1, holds));
        lemma_picks_last(places, 0, n, holds);
        if holds(n - 1) {
            if was.contains(x) {
                let j = choose|j: int| 0 <= j < was.len() && was[j] == x;
                assert(all[places[j]] == x);
                assert(places[j] < n - 1);
            }
            places.push(n - 1)
        } else {
            let q0 = choose|q: int| 0 <= q < n - 1 && #[trigger] all[q] == all[n - 1];
            let q = lemma_first_up(all, x, q0);
            assert(holds(q));
            assert(places.contains(q));
            let j = choose|j: int| 0 <= j < places.len() && places[j] == q;
            if was.len() < 500 {
                assert(was[j] == x);
                assert(was.contains(x));
            }
            places
        }
    }
}

/// The indicators of a file are the first 500 that come up in its strings, first
/// the plain ones and then the wide ones, each listed where it comes up first.
pub proof fn law_indicators_are_listed_as_they_come_up(data: Seq<u8>, min: int) -> (places: Seq<int>)
    ensures
        ({
            let all = (ascii_strings(data, min) + wide_strings(data, min)).map_values(
                |s: Seq<char>| indicated_by(s),
            ).flatten();
            &&& picks(places, 0, all.len() as int, |p: int| comes_up_first(all, p))
            &&& lists_first(all, places, scan_of(data, min).iocs)
        }),
{
    let found = |s: Seq<char>| indicated_by(s);
    let a = ascii_strings(data, min);
    let w = wide_strings(data, min);
    let x = a.map_values(found).flatten();
    let y = w.map_values(found).flatten();
    let all = (a + w).map_values(found).flatten();
    assert((a + w).map_values(found) =~= a.map_values(found) + w.map_values(found));
    lemma_flatten_add(a.map_values(found), w.map_values(found));
    lemma_collected(Seq::empty(), a);
    lemma_collected(collected(Seq::empty(), a), w);
    lemma_folded_add(Seq::empty(), x, y);
    assert(all.take(all.len() as int) =~= all);
    lemma_firsts(all, all.len() as int)
}

/// The strings are counted as they are found.
pub proof fn law_strings_are_counted(data: Seq<u8>, min: int)
    requires
        ascii_strings(data, min).len() <= usize::MAX,
        wide_strings(data, min).len() <= usize::MAX,
    ensures
        scan_of(data, min).ascii_count == ascii_strings(data, min).len(),
        scan_of(data, min).wide_count == wide_strings(data, min).len(),
{
}

} // verus!
