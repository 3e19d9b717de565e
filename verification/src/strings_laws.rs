//! What holds of every scan for strings.
use crate::strings::{
    added, ascii_from, ascii_strings, classified, collected, is_address, lemma_run_end,
    lemma_wide_end, names_path, names_registry, pieces, printable, run_end, run_text, scan_of,
    url_in, wide_char, wide_end, wide_from, wide_strings, wide_text, with_addresses, with_place,
    with_url, Cut, IocKind, IocModel, MAX_IOCS,
};
use vstd::prelude::*;

verus! {

/// Is this an indicator that the text holds?
pub open spec fn indicates(s: Seq<char>, ioc: IocModel) -> bool {
    match ioc.kind {
        IocKind::Url => url_in(s) == Some(ioc.value),
        IocKind::RegistryKey => names_registry(s) && ioc.value == s,
        IocKind::FilePath => !names_registry(s) && names_path(s) && ioc.value == s,
        IocKind::Ipv4 => pieces(s, Cut::NonAddress).contains(ioc.value) && is_address(ioc.value),
    }
}

/// A list without repetitions that is within the limit.
pub open spec fn in_bounds(iocs: Seq<IocModel>) -> bool {
    iocs.no_duplicates() && iocs.len() <= MAX_IOCS
}

/// Has the list all that another has?
pub open spec fn covers(big: Seq<IocModel>, small: Seq<IocModel>) -> bool {
    big.len() >= small.len() && forall|x: IocModel| #[trigger]
        small.contains(x) ==> big.contains(x)
}

proof fn lemma_added(iocs: Seq<IocModel>, ioc: IocModel)
    requires
        in_bounds(iocs),
    ensures
        in_bounds(added(iocs, ioc)),
        covers(added(iocs, ioc), iocs),
        added(iocs, ioc).contains(ioc) || added(iocs, ioc).len() == MAX_IOCS,
        forall|x: IocModel| #[trigger]
            added(iocs, ioc).contains(x) ==> iocs.contains(x) || x == ioc,
{
    let r = added(iocs, ioc);
    if iocs.len() < MAX_IOCS && !iocs.contains(ioc) {
        assert forall|x: IocModel| #[trigger] iocs.contains(x) implies r.contains(x) by {
            let k = choose|k: int| 0 <= k < iocs.len() && iocs[k] == x;
            assert(r[k] == x);
        }
        assert(r[iocs.len() as int] == ioc);
        assert forall|x: IocModel| #[trigger] r.contains(x) implies iocs.contains(x) || x == ioc by {
            let k = choose|k: int| 0 <= k < r.len() && r[k] == x;
            if k < iocs.len() {
                assert(iocs[k] == x);
            }
        }
        assert(r.no_duplicates()) by {
            assert forall|i: int, j: int| 0 <= i < r.len() && 0 <= j < r.len() && i != j implies r[i]
                != r[j] by {
                if i == iocs.len() {
                    assert(iocs.contains(iocs[j]));
                } else if j == iocs.len() {
                    assert(iocs.contains(iocs[i]));
                }
            }
        }
    }
}

proof fn lemma_addresses(iocs: Seq<IocModel>, tokens: Seq<Seq<char>>, n: int)
    requires
        in_bounds(iocs),
        0 <= n <= tokens.len(),
    ensures
        in_bounds(with_addresses(iocs, tokens, n)),
        covers(with_addresses(iocs, tokens, n), iocs),
        forall|k: int|
            0 <= k < n && is_address(tokens[k]) ==> with_addresses(iocs, tokens, n).contains(
                IocModel { kind: IocKind::Ipv4, value: #[trigger] tokens[k] },
            ) || with_addresses(iocs, tokens, n).len() == MAX_IOCS,
        forall|x: IocModel| #[trigger]
            with_addresses(iocs, tokens, n).contains(x) ==> iocs.contains(x) || (x.kind
                == IocKind::Ipv4 && tokens.contains(x.value) && is_address(x.value)),
    decreases n,
{
    if n > 0 {
        lemma_addresses(iocs, tokens, n - 1);
        let before = with_addresses(iocs, tokens, n - 1);
        let m = IocModel { kind: IocKind::Ipv4, value: tokens[n - 1] };
        if is_address(tokens[n - 1]) {
            lemma_added(before, m);
            assert(tokens.contains(m.value));
        }
        let r = with_addresses(iocs, tokens, n);
        assert forall|k: int| 0 <= k < n && is_address(tokens[k]) implies r.contains(
            IocModel { kind: IocKind::Ipv4, value: #[trigger] tokens[k] },
        ) || r.len() == MAX_IOCS by {
            if k < n - 1 {
                assert(before.contains(IocModel { kind: IocKind::Ipv4, value: tokens[k] })
                    || before.len() == MAX_IOCS);
            }
        }
        assert forall|x: IocModel| #[trigger] r.contains(x) implies iocs.contains(x) || (x.kind
            == IocKind::Ipv4 && tokens.contains(x.value) && is_address(x.value)) by {
            if !before.contains(x) {
                assert(x == m);
            }
        }
    }
}

proof fn lemma_classified(iocs: Seq<IocModel>, s: Seq<char>)
    requires
        in_bounds(iocs),
    ensures
        in_bounds(classified(iocs, s)),
        covers(classified(iocs, s), iocs),
        forall|x: IocModel| #[trigger]
            indicates(s, x) ==> classified(iocs, s).contains(x) || classified(iocs, s).len()
                == MAX_IOCS,
        forall|x: IocModel| #[trigger]
            classified(iocs, s).contains(x) ==> iocs.contains(x) || indicates(s, x),
{
    let tokens = pieces(s, Cut::NonAddress);
    let a = with_url(iocs, s);
    let b = with_place(a, s);
    let r = classified(iocs, s);
    if let Some(u) = url_in(s) {
        lemma_added(iocs, IocModel { kind: IocKind::Url, value: u });
    }
    if names_registry(s) {
        lemma_added(a, IocModel { kind: IocKind::RegistryKey, value: s });
    } else if names_path(s) {
        lemma_added(a, IocModel { kind: IocKind::FilePath, value: s });
    }
    lemma_addresses(b, tokens, tokens.len() as int);
    assert forall|x: IocModel| #[trigger] indicates(s, x) implies r.contains(x) || r.len()
        == MAX_IOCS by {
        match x.kind {
            IocKind::Url => {
                assert(a.contains(x) || a.len() == MAX_IOCS);
                assert(b.contains(x) || b.len() == MAX_IOCS);
            },
            IocKind::RegistryKey => {
                assert(b.contains(x) || b.len() == MAX_IOCS);
            },
            IocKind::FilePath => {
                assert(b.contains(x) || b.len() == MAX_IOCS);
            },
            IocKind::Ipv4 => {
                let k = choose|k: int| 0 <= k < tokens.len() && tokens[k] == x.value;
                assert(is_address(tokens[k]));
                assert(x == (IocModel { kind: IocKind::Ipv4, value: tokens[k] }));
            },
        }
    }
    assert forall|x: IocModel| #[trigger] r.contains(x) implies iocs.contains(x) || indicates(
        s,
        x,
    ) by {
        if b.contains(x) {
            if a.contains(x) {
                assert(iocs.contains(x) || indicates(s, x));
            }
        }
    }
}

proof fn lemma_collected(iocs: Seq<IocModel>, texts: Seq<Seq<char>>)
    requires
        in_bounds(iocs),
    ensures
        in_bounds(collected(iocs, texts)),
        covers(collected(iocs, texts), iocs),
        forall|i: int, x: IocModel|
            0 <= i < texts.len() && #[trigger] indicates(texts[i], x) ==> collected(
                iocs,
                texts,
            ).contains(x) || collected(iocs, texts).len() == MAX_IOCS,
        forall|x: IocModel| #[trigger]
            collected(iocs, texts).contains(x) ==> iocs.contains(x) || exists|i: int|
                0 <= i < texts.len() && #[trigger] indicates(texts[i], x),
    decreases texts.len(),
{
    if texts.len() > 0 {
        let next = classified(iocs, texts[0]);
        let rest = texts.skip(1);
        lemma_classified(iocs, texts[0]);
        lemma_collected(next, rest);
        let r = collected(iocs, texts);
        assert forall|i: int, x: IocModel|
            0 <= i < texts.len() && #[trigger] indicates(texts[i], x) implies r.contains(x)
            || r.len() == MAX_IOCS by {
            if i == 0 {
                assert(next.contains(x) || next.len() == MAX_IOCS);
            } else {
                assert(indicates(rest[i - 1], x));
            }
        }
        assert forall|x: IocModel| #[trigger] r.contains(x) implies iocs.contains(x) || exists|
            i: int,
        |
            0 <= i < texts.len() && #[trigger] indicates(texts[i], x) by {
            if next.contains(x) {
                if !iocs.contains(x) {
                    assert(indicates(texts[0], x));
                }
            } else {
                let i = choose|i: int| 0 <= i < rest.len() && #[trigger] indicates(rest[i], x);
                assert(indicates(texts[i + 1], x));
            }
        }
    }
}

/// No scan lists an indicator twice, or more of them than the limit.
pub proof fn law_indicators_are_distinct(data: Seq<u8>, min: int)
    ensures
        scan_of(data, min).iocs.no_duplicates(),
        scan_of(data, min).iocs.len() <= 500,
{
    let a = collected(Seq::empty(), ascii_strings(data, min));
    lemma_collected(Seq::empty(), ascii_strings(data, min));
    lemma_collected(a, wide_strings(data, min));
}

/// Unless the list is full, a scan lists every indicator that any string of the
/// buffer holds.
pub proof fn law_no_indicator_is_missed(data: Seq<u8>, min: int, s: Seq<char>, ioc: IocModel)
    requires
        ascii_strings(data, min).contains(s) || wide_strings(data, min).contains(s),
        indicates(s, ioc),
    ensures
        scan_of(data, min).iocs.contains(ioc) || scan_of(data, min).iocs.len() == 500,
{
    let ascii = ascii_strings(data, min);
    let wide = wide_strings(data, min);
    let a = collected(Seq::empty(), ascii);
    lemma_collected(Seq::empty(), ascii);
    lemma_collected(a, wide);
    if ascii.contains(s) {
        let i = choose|i: int| 0 <= i < ascii.len() && ascii[i] == s;
        assert(indicates(ascii[i], ioc));
        assert(a.contains(ioc) || a.len() == MAX_IOCS);
    } else {
        let i = choose|i: int| 0 <= i < wide.len() && wide[i] == s;
        assert(indicates(wide[i], ioc));
    }
}

/// A scan lists nothing but indicators that some string of the buffer holds.
pub proof fn law_indicators_stand_in_strings(data: Seq<u8>, min: int, ioc: IocModel)
    requires
        scan_of(data, min).iocs.contains(ioc),
    ensures
        exists|s: Seq<char>|
            (ascii_strings(data, min).contains(s) || wide_strings(data, min).contains(s))
                && #[trigger] indicates(s, ioc),
{
    let ascii = ascii_strings(data, min);
    let wide = wide_strings(data, min);
    let a = collected(Seq::empty(), ascii);
    lemma_collected(Seq::empty(), ascii);
    lemma_collected(a, wide);
    if a.contains(ioc) {
        let i = choose|i: int| 0 <= i < ascii.len() && #[trigger] indicates(ascii[i], ioc);
        assert(ascii.contains(ascii[i]));
    } else {
        let i = choose|i: int| 0 <= i < wide.len() && #[trigger] indicates(wide[i], ioc);
        assert(wide.contains(wide[i]));
    }
}

/// A text of printable characters that has at least `min` of them.
pub open spec fn is_string(s: Seq<char>, min: int) -> bool {
    s.len() >= min && forall|k: int| 0 <= k < s.len() ==> 0x20 <= (#[trigger] s[k]) as int <= 0x7e
}

proof fn lemma_first_of(text: Seq<char>, rest: Seq<Seq<char>>, s: Seq<char>)
    requires
        (seq![text] + rest).contains(s),
    ensures
        s == text || rest.contains(s),
{
    let all = seq![text] + rest;
    let i = choose|i: int| 0 <= i < all.len() && all[i] == s;
    if i > 0 {
        assert(rest[i - 1] == s);
    }
}

proof fn lemma_ascii_strings(data: Seq<u8>, min: int, i: int, s: Seq<char>)
    requires
        0 <= i <= data.len(),
        ascii_from(data, min, i).contains(s),
    ensures
        is_string(s, min),
    decreases data.len() - i,
{
    if i < data.len() {
        if printable(data[i]) {
            lemma_run_end(data, i);
            let e = run_end(data, i);
            if e - i >= min {
                lemma_first_of(run_text(data, i, e), ascii_from(data, min, e), s);
                if s != run_text(data, i, e) {
                    lemma_ascii_strings(data, min, e, s);
                }
            } else {
                lemma_ascii_strings(data, min, e, s);
            }
        } else {
            lemma_ascii_strings(data, min, i + 1, s);
        }
    }
}

proof fn lemma_wide_strings(data: Seq<u8>, min: int, i: int, s: Seq<char>)
    requires
        0 <= i <= data.len(),
        wide_from(data, min, i).contains(s),
    ensures
        is_string(s, min),
    decreases data.len() - i,
{
    if i + 1 < data.len() {
        if wide_char(data, i) {
            lemma_wide_end(data, i);
            let e = wide_end(data, i);
            if (e - i) / 2 >= min {
                lemma_first_of(wide_text(data, i, e), wide_from(data, min, e), s);
                if s == wide_text(data, i, e) {
                    assert forall|k: int| 0 <= k < s.len() implies 0x20 <= (#[trigger] s[k]) as int
                        <= 0x7e by {
                        assert(printable(data[i + 2 * k]));
                    }
                } else {
                    lemma_wide_strings(data, min, e, s);
                }
            } else {
                lemma_wide_strings(data, min, e, s);
            }
        } else {
            lemma_wide_strings(data, min, i + 1, s);
        }
    }
}

/// Every string that is found is printable and has the least length asked for.
pub proof fn law_strings_are_printable(data: Seq<u8>, min: int, s: Seq<char>)
    requires
        ascii_strings(data, min).contains(s) || wide_strings(data, min).contains(s),
    ensures
        is_string(s, min),
{
    if ascii_strings(data, min).contains(s) {
        lemma_ascii_strings(data, min, 0, s);
    } else {
        lemma_wide_strings(data, min, 0, s);
    }
}

proof fn lemma_run_is_found(data: Seq<u8>, min: int, i: int, a: int, b: int)
    requires
        0 <= i <= a < b <= data.len(),
        b - a >= min,
        a == i || !printable(data[a - 1]),
        forall|k: int| a <= k < b ==> printable(#[trigger] data[k]),
        b == data.len() || !printable(data[b]),
    ensures
        ascii_from(data, min, i).contains(run_text(data, a, b)),
    decreases data.len() - i,
{
    let s = run_text(data, a, b);
    if printable(data[i]) {
        lemma_run_end(data, i);
        let e = run_end(data, i);
        if i == a {
            assert(e == b) by {
                if e < b {
                    assert(printable(data[e]));
                }
                if b < e {
                    assert(printable(data[b]));
                }
            }
            let rest = ascii_from(data, min, e);
            assert((seq![s] + rest)[0] == s);
        } else {
            assert(e <= a) by {
                if e > a {
                    assert(printable(data[a - 1]));
                }
            }
            lemma_run_is_found(data, min, e, a, b);
            let rest = ascii_from(data, min, e);
            let k = choose|k: int| 0 <= k < rest.len() && rest[k] == s;
            if e - i >= min {
                assert((seq![run_text(data, i, e)] + rest)[k + 1] == s);
            }
        }
    } else {
        lemma_run_is_found(data, min, i + 1, a, b);
    }
}

/// Every run of printable bytes that cannot be made longer, and has the least
/// length asked for, is found.
pub proof fn law_every_run_is_found(data: Seq<u8>, min: int, a: int, b: int)
    requires
        0 <= a < b <= data.len(),
        b - a >= min,
        a == 0 || !printable(data[a - 1]),
        forall|k: int| a <= k < b ==> printable(#[trigger] data[k]),
        b == data.len() || !printable(data[b]),
    ensures
        ascii_strings(data, min).contains(run_text(data, a, b)),
{
    lemma_run_is_found(data, min, 0, a, b);
}

} // verus!
