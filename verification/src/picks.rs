//! Picking entries out of a table, in order.
use vstd::prelude::*;

verus! {

/// Are these the places from `from` up to `to` at which the condition holds: all
/// of them, in ascending order, and no others?
pub open spec fn picks(places: Seq<int>, from: int, to: int, holds: spec_fn(int) -> bool) -> bool {
    &&& forall|j: int|
        #![trigger places[j]]
        0 <= j < places.len() ==> from <= places[j] < to && holds(places[j])
    &&& forall|j: int, k: int|
        #![trigger places[j], places[k]]
        0 <= j < k < places.len() ==> places[j] < places[k]
    &&& forall|p: int| #![trigger holds(p)] from <= p < to && holds(p) ==> places.contains(p)
}

/// Nothing can be picked from an empty range.
pub proof fn lemma_picks_none(from: int, to: int, holds: spec_fn(int) -> bool)
    requires
        from >= to,
    ensures
        picks(Seq::empty(), from, to, holds),
{
}

/// A place before the others is picked where the condition holds of it.
pub proof fn lemma_picks_first(places: Seq<int>, from: int, to: int, holds: spec_fn(int) -> bool)
    requires
        from < to,
        picks(places, from + 1, to, holds),
    ensures
        holds(from) ==> picks(seq![from] + places, from, to, holds),
        !holds(from) ==> picks(places, from, to, holds),
{
    if holds(from) {
        let all = seq![from] + places;
        assert forall|j: int| 0 <= j < all.len() implies from <= #[trigger] all[j] < to && holds(
            all[j],
        ) by {
            if j > 0 {
                assert(all[j] == places[j - 1]);
            }
        }
        assert forall|j: int, k: int| 0 <= j < k < all.len() implies #[trigger] all[j]
            < #[trigger] all[k] by {
            assert(all[k] == places[k - 1]);
            if j > 0 {
                assert(all[j] == places[j - 1]);
            }
        }
        assert forall|p: int| #![trigger holds(p)] from <= p < to && holds(p) implies all.contains(
            p,
        ) by {
            if p == from {
                assert(all[0] == p);
            } else {
                assert(places.contains(p));
                let m = choose|m: int| 0 <= m < places.len() && places[m] == p;
                assert(all[m + 1] == p);
            }
        }
    } else {
        assert forall|p: int| #![trigger holds(p)] from <= p < to && holds(p) implies places.contains(
            p,
        ) by {
            assert(p != from);
        }
    }
}

/// A place behind the others is picked where the condition holds of it.
pub proof fn lemma_picks_last(places: Seq<int>, from: int, to: int, holds: spec_fn(int) -> bool)
    requires
        from < to,
        picks(places, from, to - 1, holds),
    ensures
        holds(to - 1) ==> picks(places.push(to - 1), from, to, holds),
        !holds(to - 1) ==> picks(places, from, to, holds),
{
    let all = places.push(to - 1);
    assert forall|p: int| #![trigger holds(p)] from <= p < to && holds(p) implies all.contains(
        p,
    ) by {
        if p == to - 1 {
            assert(all[places.len() as int] == p);
        } else {
            assert(places.contains(p));
            let m = choose|m: int| 0 <= m < places.len() && places[m] == p;
            assert(all[m] == p);
        }
    }
    assert forall|p: int| #![trigger holds(p)] from <= p < to && holds(p) && p != to
        - 1 implies places.contains(p) by {
    }
}

} // verus!
