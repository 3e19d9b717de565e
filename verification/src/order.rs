//! The order of strings, and vectors that keep it.
//!
//! Strings compare by code point, character by character; a proper prefix comes
//! first. A vector in strictly increasing order stands for a set of strings.
use crate::text::{chars_of, views};
use vstd::prelude::*;

verus! {

/// Does `a` come before `b`, given that both agree below position `k`?
pub open spec fn before_from(a: Seq<char>, b: Seq<char>, k: int) -> bool
    decreases b.len() - k,
{
    if k >= b.len() {
        false
    } else if k >= a.len() {
        true
    } else if a[k] != b[k] {
        a[k] < b[k]
    } else {
        before_from(a, b, k + 1)
    }
}

/// The lexicographic order of texts.
pub open spec fn before(a: Seq<char>, b: Seq<char>) -> bool {
    before_from(a, b, 0)
}

/// Each text comes before all that follow it.
pub open spec fn increasing(s: Seq<Seq<char>>) -> bool {
    forall|i: int, j: int| 0 <= i < j < s.len() ==> before(#[trigger] s[i], #[trigger] s[j])
}

proof fn lemma_irreflexive_from(a: Seq<char>, k: int)
    requires
        0 <= k,
    ensures
        !before_from(a, a, k),
    decreases a.len() - k,
{
    if k < a.len() {
        lemma_irreflexive_from(a, k + 1);
    }
}

/// No text comes before itself.
pub proof fn lemma_irreflexive(a: Seq<char>)
    ensures
        !before(a, a),
{
    lemma_irreflexive_from(a, 0);
}

proof fn lemma_transitive_from(a: Seq<char>, b: Seq<char>, c: Seq<char>, k: int)
    requires
        0 <= k,
        before_from(a, b, k),
        before_from(b, c, k),
    ensures
        before_from(a, c, k),
    decreases c.len() - k,
{
    if k < a.len() && k < b.len() && k < c.len() && a[k] == b[k] && b[k] == c[k] {
        lemma_transitive_from(a, b, c, k + 1);
    }
}

/// The order is transitive.
pub proof fn lemma_transitive(a: Seq<char>, b: Seq<char>, c: Seq<char>)
    requires
        before(a, b),
        before(b, c),
    ensures
        before(a, c),
{
    lemma_transitive_from(a, b, c, 0);
}

proof fn lemma_total_from(a: Seq<char>, b: Seq<char>, k: int)
    requires
        0 <= k <= a.len(),
        k <= b.len(),
        forall|i: int| 0 <= i < k ==> a[i] == b[i],
        !before_from(a, b, k),
        !before_from(b, a, k),
    ensures
        a == b,
    decreases b.len() - k,
{
    if k < a.len() && k < b.len() {
        lemma_total_from(a, b, k + 1);
    } else {
        assert(a =~= b);
    }
}

/// Of two different texts one comes before the other.
pub proof fn lemma_total(a: Seq<char>, b: Seq<char>)
    requires
        !before(a, b),
        !before(b, a),
    ensures
        a == b,
{
    lemma_total_from(a, b, 0);
}

/// Does `a` come before `b`?
pub fn comes_before(a: &str, b: &str) -> (r: bool)
    ensures
        r == before(a@, b@),
{
    let x = chars_of(a);
    let y = chars_of(b);
    let mut k: usize = 0;
    loop
        invariant
            x@ == a@,
            y@ == b@,
            0 <= k <= y@.len(),
            before(a@, b@) == before_from(a@, b@, k as int),
        decreases y@.len() - k,
    {
        if k >= y.len() {
            return false;
        }
        if k >= x.len() {
            return true;
        }
        if x[k] != y[k] {
            return x[k] < y[k];
        }
        k += 1;
    }
}

/// The place of `s` in an increasing vector: all before it are less, none from
/// it on is.
pub fn place_of(v: &Vec<String>, s: &str) -> (r: usize)
    requires
        increasing(views(v@)),
    ensures
        r <= v@.len(),
        forall|i: int| 0 <= i < r ==> before(#[trigger] v@[i]@, s@),
        forall|i: int| r <= i < v@.len() ==> !before(#[trigger] v@[i]@, s@),
{
    let mut lo: usize = 0;
    let mut hi: usize = v.len();
    while lo < hi
        invariant
            increasing(views(v@)),
            lo <= hi <= v@.len(),
            forall|i: int| 0 <= i < lo ==> before(#[trigger] v@[i]@, s@),
            forall|i: int| hi <= i < v@.len() ==> !before(#[trigger] v@[i]@, s@),
        decreases hi - lo,
    {
        let mid = lo + (hi - lo) / 2;
        if comes_before(v[mid].as_str(), s) {
            proof {
                assert forall|i: int| 0 <= i < mid + 1 implies before(#[trigger] v@[i]@, s@) by {
                    if i < mid {
                        assert(before(views(v@)[i], views(v@)[mid as int]));
                        lemma_transitive(v@[i]@, v@[mid as int]@, s@);
                    }
                }
            }
            lo = mid + 1;
        } else {
            proof {
                assert forall|i: int| mid <= i < v@.len() implies !before(#[trigger] v@[i]@, s@) by {
                    if i > mid && before(v@[i]@, s@) {
                        assert(before(views(v@)[mid as int], views(v@)[i]));
                        lemma_transitive(v@[mid as int]@, v@[i]@, s@);
                    }
                }
            }
            hi = mid;
        }
    }
    lo
}

/// Where a text can be put into an increasing sequence: all before the place are
/// less, and it is less than the one at the place.
pub open spec fn fits_at(v: Seq<Seq<char>>, s: Seq<char>, at: int) -> bool {
    &&& 0 <= at <= v.len()
    &&& forall|i: int| 0 <= i < at ==> before(#[trigger] v[i], s)
    &&& at < v.len() ==> before(s, v[at])
}

/// A text that is put where it fits keeps the sequence increasing, and was not
/// in it.
pub proof fn lemma_inserted(was: Seq<Seq<char>>, s: Seq<char>, at: int)
    requires
        increasing(was),
        fits_at(was, s, at),
    ensures
        !was.contains(s),
        increasing(was.insert(at, s)),
        forall|x: Seq<char>| #[trigger]
            was.insert(at, s).contains(x) <==> was.contains(x) || x == s,
{
    let now = was.insert(at, s);
    assert forall|i: int| 0 <= i < was.len() implies was[i] != s by {
        lemma_irreflexive(s);
        if i < at {
            assert(before(was[i], s));
        } else if at < i {
            assert(before(was[at], was[i]));
            lemma_transitive(s, was[at], was[i]);
        }
    }
    assert forall|i: int, j: int| 0 <= i < j < now.len() implies before(
        #[trigger] now[i],
        #[trigger] now[j],
    ) by {
        let a = if i < at {
            i
        } else {
            i - 1
        };
        let b = if j < at {
            j
        } else {
            j - 1
        };
        if i != at && j != at {
            assert(before(was[a], was[b]));
        } else if j == at {
            assert(before(was[i], s));
        } else {
            assert(before(s, was[at]));
            if b > at {
                assert(before(was[at], was[b]));
                lemma_transitive(s, was[at], was[b]);
            }
        }
    }
    assert forall|x: Seq<char>| #[trigger] now.contains(x) <==> was.contains(x) || x == s by {
        if now.contains(x) {
            let i = choose|i: int| 0 <= i < now.len() && now[i] == x;
            if i < at {
                assert(was[i] == x);
            } else if i > at {
                assert(was[i - 1] == x);
            }
        }
        if was.contains(x) {
            let i = choose|i: int| 0 <= i < was.len() && was[i] == x;
            if i < at {
                assert(now[i] == x);
            } else {
                assert(now[i + 1] == x);
            }
        }
        assert(now[at] == s);
    }
}

/// Where a string is in an increasing vector, or where it can be put.
pub fn locate(v: &Vec<String>, s: &str) -> (r: (usize, bool))
    requires
        increasing(views(v@)),
    ensures
        r.1 == views(v@).contains(s@),
        r.1 ==> r.0 < v@.len() && v@[r.0 as int]@ == s@,
        !r.1 ==> fits_at(views(v@), s@, r.0 as int),
{
    let at = place_of(v, s);
    proof {
        assert forall|i: int| 0 <= i < at implies before(#[trigger] views(v@)[i], s@) by {
            assert(before(v@[i]@, s@));
        }
    }
    if at < v.len() && !comes_before(s, v[at].as_str()) {
        proof {
            lemma_total(v@[at as int]@, s@);
            assert(views(v@)[at as int] == s@);
        }
        (at, true)
    } else {
        proof {
            lemma_inserted(views(v@), s@, at as int);
        }
        (at, false)
    }
}

/// Is `s` among the strings of an increasing vector?
pub fn is_member(v: &Vec<String>, s: &str) -> (r: bool)
    requires
        increasing(views(v@)),
    ensures
        r == views(v@).contains(s@),
{
    locate(v, s).1
}

/// Puts `s` into an increasing vector, unless it is there already.
pub fn insert_unique(v: &mut Vec<String>, s: String)
    requires
        increasing(views(old(v)@)),
    ensures
        increasing(views(final(v)@)),
        views(final(v)@).to_set() == views(old(v)@).to_set().insert(s@),
        forall|x: Seq<char>| #[trigger]
            views(final(v)@).contains(x) <==> views(old(v)@).contains(x) || x == s@,
{
    let ghost was = views(v@);
    let (at, there) = locate(v, s.as_str());
    if there {
        proof {
            assert(was.to_set() =~= was.to_set().insert(s@));
        }
        return;
    }
    v.insert(at, s);
    proof {
        assert(views(v@) =~= was.insert(at as int, s@));
        lemma_inserted(was, s@, at as int);
        assert(views(v@).to_set() =~= was.to_set().insert(s@)) by {
            assert forall|x: Seq<char>| views(v@).to_set().contains(x) == was.to_set().insert(
                s@,
            ).contains(x) by {
                assert(views(v@).contains(x) <==> was.contains(x) || x == s@);
            }
        }
    }
}

/// Two increasing sequences with the same members are the same sequence.
pub proof fn lemma_increasing_unique(a: Seq<Seq<char>>, b: Seq<Seq<char>>)
    requires
        increasing(a),
        increasing(b),
        a.to_set() == b.to_set(),
    ensures
        a == b,
    decreases a.len() + b.len(),
{
    if a.len() == 0 {
        if b.len() > 0 {
            assert(b.to_set().contains(b[0]));
            assert(a.to_set().contains(b[0]));
        }
        assert(a =~= b);
    } else if b.len() == 0 {
        assert(a.to_set().contains(a[0]));
        assert(b.to_set().contains(a[0]));
    } else {
        let x = a.last();
        let y = b.last();
        assert(a.to_set().contains(x) && b.to_set().contains(x));
        assert(b.to_set().contains(y) && a.to_set().contains(y));
        let i = choose|i: int| 0 <= i < b.len() && b[i] == x;
        let j = choose|j: int| 0 <= j < a.len() && a[j] == y;
        if x != y {
            assert(before(b[i], b[b.len() - 1]));
            assert(before(a[j], a[a.len() - 1]));
            lemma_transitive(x, y, x);
            lemma_irreflexive(x);
        }
        let p = a.drop_last();
        let q = b.drop_last();
        assert(p.to_set() =~= q.to_set()) by {
            assert forall|z: Seq<char>| p.to_set().contains(z) == q.to_set().contains(z) by {
                if p.to_set().contains(z) {
                    let m = choose|m: int| 0 <= m < p.len() && p[m] == z;
                    assert(a[m] == z);
                    assert(before(a[m], a[a.len() - 1]));
                    lemma_irreflexive(z);
                    assert(a.to_set().contains(z));
                    assert(b.to_set().contains(z));
                    let n = choose|n: int| 0 <= n < b.len() && b[n] == z;
                    assert(q[n] == z);
                }
                if q.to_set().contains(z) {
                    let m = choose|m: int| 0 <= m < q.len() && q[m] == z;
                    assert(b[m] == z);
                    assert(before(b[m], b[b.len() - 1]));
                    lemma_irreflexive(z);
                    assert(b.to_set().contains(z));
                    assert(a.to_set().contains(z));
                    let n = choose|n: int| 0 <= n < a.len() && a[n] == z;
                    assert(p[n] == z);
                }
            }
        }
        assert(increasing(p));
        assert(increasing(q));
        lemma_increasing_unique(p, q);
        assert(a =~= p.push(x));
        assert(b =~= q.push(y));
    }
}

} // verus!
