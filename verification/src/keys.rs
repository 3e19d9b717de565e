//! The keys of an ordered map, as a sorted vector.
use std::collections::BTreeMap;
use vstd::prelude::*;

verus! {

broadcast use vstd::std_specs::btree::group_btree_axioms;

/// Each number is less than all that follow it.
pub open spec fn ascending(s: Seq<u64>) -> bool {
    forall|i: int, j: int| 0 <= i < j < s.len() ==> s[i] < s[j]
}

proof fn lemma_keys_ascend(ks: Seq<&u64>)
    requires
        vstd::std_specs::btree::increasing_seq(ks),
    ensures
        ascending(ks.unref()),
{
    broadcast use vstd::laws_cmp::group_laws_cmp;

    assert(vstd::laws_cmp::obeys_cmp::<&u64>());
    vstd::std_specs::btree::axiom_increasing_seq_meaning(ks);
    assert forall|i: int, j: int| 0 <= i < j < ks.unref().len() implies ks.unref()[i]
        < ks.unref()[j] by {
        assert(vstd::std_specs::cmp::OrdSpec::cmp_spec(&ks[i], &ks[j]) is Less);
    }
}

/// The keys of a map in ascending order.
pub fn sorted_keys<V>(m: &BTreeMap<u64, V>) -> (r: Vec<u64>)
    ensures
        ascending(r@),
        r@.to_set() == m@.dom(),
        forall|a: u64| r@.contains(a) <==> m@.contains_key(a),
{
    let mut out: Vec<u64> = Vec::new();
    for k in it: m.keys()
        invariant
            it.seq() == vstd::std_specs::iter::IteratorSpec::remaining(&vstd::std_specs::btree::spec_keys_iter(m)),
            out@ == it.seq().take(it.index()).unref(),
    {
        out.push(*k);
    }
    proof {
        let ks = vstd::std_specs::iter::IteratorSpec::remaining(&vstd::std_specs::btree::spec_keys_iter(m));
        assert(ks.take(ks.len() as int) == ks);
        assert(out@ == ks.unref());
        assert(ks.unref().to_set() == m@.dom());
        lemma_keys_ascend(ks);
        assert forall|a: u64| out@.contains(a) <==> m@.contains_key(a) by {
            assert(out@.to_set().contains(a) <==> out@.contains(a));
        }
    }
    out
}

/// No number is greater than one that follows it.
pub open spec fn sorted(s: Seq<u64>) -> bool {
    forall|i: int, j: int| 0 <= i <= j < s.len() ==> s[i] <= s[j]
}

/// How many numbers of a sorted vector are not greater than `a`.
pub fn rank(v: &[u64], a: u64) -> (r: usize)
    requires
        sorted(v@),
    ensures
        r <= v@.len(),
        forall|i: int| 0 <= i < r ==> v@[i] <= a,
        forall|i: int| r <= i < v@.len() ==> v@[i] > a,
{
    let mut lo: usize = 0;
    let mut hi: usize = v.len();
    while lo < hi
        invariant
            sorted(v@),
            lo <= hi <= v@.len(),
            forall|i: int| 0 <= i < lo ==> v@[i] <= a,
            forall|i: int| hi <= i < v@.len() ==> v@[i] > a,
        decreases hi - lo,
    {
        let mid = lo + (hi - lo) / 2;
        if v[mid] <= a {
            lo = mid + 1;
        } else {
            hi = mid;
        }
    }
    lo
}

/// Is the number among those of an ascending vector?
pub fn is_among(v: &[u64], a: u64) -> (r: bool)
    requires
        ascending(v@),
    ensures
        r == v@.contains(a),
{
    let n = rank(v, a);
    n > 0 && v[n - 1] == a
}

pub proof fn lemma_contains_push(s: Seq<u64>, a: u64, x: u64)
    ensures
        s.push(a).contains(x) <==> s.contains(x) || x == a,
{
    if s.contains(x) {
        let k = choose|k: int| 0 <= k < s.len() && s[k] == x;
        assert(s.push(a)[k] == x);
    }
    if s.push(a).contains(x) && x != a {
        let k = choose|k: int| 0 <= k < s.push(a).len() && s.push(a)[k] == x;
        assert(s[k] == x);
    }
    assert(s.push(a)[s.len() as int] == a);
}

/// Two ascending sequences with the same members are the same sequence.
pub proof fn lemma_ascending_unique(a: Seq<u64>, b: Seq<u64>)
    requires
        ascending(a),
        ascending(b),
        forall|x: u64| a.contains(x) <==> b.contains(x),
    ensures
        a == b,
    decreases a.len() + b.len(),
{
    if a.len() == 0 || b.len() == 0 {
        if a.len() > 0 {
            assert(a.contains(a[0]));
            assert(b.contains(a[0]));
        }
        if b.len() > 0 {
            assert(b.contains(b[0]));
            assert(a.contains(b[0]));
        }
        assert(a =~= b);
    } else {
        let x = a.last();
        let y = b.last();
        assert(a.contains(x) && b.contains(x));
        assert(b.contains(y) && a.contains(y));
        assert(x == y);
        let p = a.drop_last();
        let q = b.drop_last();
        assert forall|z: u64| p.contains(z) <==> q.contains(z) by {
            if p.contains(z) {
                let m = choose|m: int| 0 <= m < p.len() && p[m] == z;
                assert(a[m] == z);
                assert(a.contains(z) && b.contains(z));
                let n = choose|n: int| 0 <= n < b.len() && b[n] == z;
                assert(z < x);
                assert(q[n] == z);
            }
            if q.contains(z) {
                let m = choose|m: int| 0 <= m < q.len() && q[m] == z;
                assert(b[m] == z);
                assert(b.contains(z) && a.contains(z));
                let n = choose|n: int| 0 <= n < a.len() && a[n] == z;
                assert(z < x);
                assert(p[n] == z);
            }
        }
        lemma_ascending_unique(p, q);
        assert(a =~= p.push(x));
        assert(b =~= q.push(y));
    }
}

} // verus!
