//! Nearest-hit selection.
//!
//! The render loop intersects one ray with every primitive of the scene and
//! keeps the hit with the smallest ray parameter, by scanning the primitives
//! in order with an upper bound that shrinks to the closest hit accepted so
//! far. The floating-point intersection tests run outside this library; the
//! caller hands each candidate's ray parameter over as an order-preserving
//! unsigned key (for nonnegative finite IEEE 754 single-precision values the
//! raw bit pattern is such a key), and the selection itself is verified here.

use vstd::prelude::*;

verus! {

/// A candidate takes part in the selection when it produced a hit at all and
/// its key does not exceed the initial upper bound.
pub open spec fn admissible(keys: Seq<Option<u32>>, bound: u32, j: int) -> bool {
    &&& 0 <= j < keys.len()
    &&& keys[j] is Some
    &&& keys[j].unwrap() <= bound
}

/// Index `i` is the one the shrinking-bound scan settles on: an admissible
/// candidate whose key is minimal, and the last admissible index attaining
/// that minimum (a later candidate whose key equals the current bound is
/// still accepted and replaces the earlier one).
pub open spec fn is_nearest(keys: Seq<Option<u32>>, bound: u32, i: int) -> bool {
    &&& admissible(keys, bound, i)
    &&& forall|j: int| admissible(keys, bound, j) ==> keys[i].unwrap() <= #[trigger] keys[j].unwrap()
    &&& forall|j: int|
        i < j < keys.len() && admissible(keys, bound, j) ==> keys[i].unwrap() < #[trigger] keys[j].unwrap()
}

/// Scan the candidate keys in order, keeping the nearest hit found so far.
///
/// Returns the index of the candidate with the smallest key among those at or
/// below `bound`, or `None` when no candidate qualifies. On equal keys the
/// later candidate wins, exactly as a scan with a shrinking inclusive upper
/// bound behaves.
pub fn nearest_hit(keys: &Vec<Option<u32>>, bound: u32) -> (r: Option<usize>)
    ensures
        r is Some ==> is_nearest(keys@, bound, r.unwrap() as int),
        r is None ==> forall|j: int| !admissible(keys@, bound, j),
        (exists|j: int| admissible(keys@, bound, j)) ==> r is Some,
{
    let mut best: Option<usize> = None;
    let mut tmax: u32 = bound;
    let mut i: usize = 0;
    while i < keys.len()
        invariant
            i <= keys@.len(),
            tmax <= bound,
            best is None ==> tmax == bound,
            best is None ==> forall|j: int| 0 <= j < i ==> !admissible(keys@, bound, j),
            best is Some ==> ({
                let b = best.unwrap() as int;
                &&& 0 <= b < i
                &&& keys@[b] is Some
                &&& keys@[b].unwrap() == tmax
                &&& forall|j: int|
                    0 <= j < i && admissible(keys@, bound, j) ==> tmax <= #[trigger] keys@[j].unwrap()
                &&& forall|j: int|
                    b < j < i && admissible(keys@, bound, j) ==> tmax < #[trigger] keys@[j].unwrap()
            }),
        decreases keys@.len() - i,
    {
        match keys[i] {
            Some(k) => {
                if k <= tmax {
                    tmax = k;
                    best = Some(i);
                }
            },
            None => {},
        }
        i += 1;
    }
    best
}

/// At most one index satisfies the selection predicate.
pub proof fn lemma_nearest_unique(keys: Seq<Option<u32>>, bound: u32, i1: int, i2: int)
    requires
        is_nearest(keys, bound, i1),
        is_nearest(keys, bound, i2),
    ensures
        i1 == i2,
{
    if i1 < i2 {
        assert(keys[i1].unwrap() < keys[i2].unwrap());
        assert(keys[i2].unwrap() <= keys[i1].unwrap());
    } else if i2 < i1 {
        assert(keys[i2].unwrap() < keys[i1].unwrap());
        assert(keys[i1].unwrap() <= keys[i2].unwrap());
    }
}

/// Nearest-hit law for two overlapping candidates: whichever of the two has
/// the strictly smaller key is selected, in either insertion order.
pub proof fn lemma_nearer_candidate_wins(ka: u32, kb: u32, bound: u32)
    requires
        ka <= bound,
        kb <= bound,
        ka < kb,
    ensures
        is_nearest(seq![Some(ka), Some(kb)], bound, 0),
        is_nearest(seq![Some(kb), Some(ka)], bound, 1),
        forall|i: int| is_nearest(seq![Some(ka), Some(kb)], bound, i) ==> i == 0,
        forall|i: int| is_nearest(seq![Some(kb), Some(ka)], bound, i) ==> i == 1,
{
    let s1 = seq![Some(ka), Some(kb)];
    let s2 = seq![Some(kb), Some(ka)];
    assert(is_nearest(s1, bound, 0));
    assert(is_nearest(s2, bound, 1));
    assert forall|i: int| is_nearest(s1, bound, i) implies i == 0 by {
        lemma_nearest_unique(s1, bound, i, 0);
    }
    assert forall|i: int| is_nearest(s2, bound, i) implies i == 1 by {
        lemma_nearest_unique(s2, bound, i, 1);
    }
}

/// The selected key is determined by the candidates alone, not by their
/// order: scans over rearrangements of the same candidates settle on hits
/// with equal keys.
pub proof fn lemma_selection_order_independent(
    keys1: Seq<Option<u32>>,
    keys2: Seq<Option<u32>>,
    bound: u32,
    i1: int,
    i2: int,
)
    requires
        keys1.to_multiset() == keys2.to_multiset(),
        is_nearest(keys1, bound, i1),
        is_nearest(keys2, bound, i2),
    ensures
        keys1[i1].unwrap() == keys2[i2].unwrap(),
{
    broadcast use vstd::seq_lib::group_to_multiset_ensures;

    let k1 = keys1[i1].unwrap();
    let k2 = keys2[i2].unwrap();
    assert(keys1.contains(Some(k1)));
    assert(keys2.to_multiset().count(Some(k1)) > 0);
    assert(keys2.contains(Some(k1)));
    let j2 = choose|j: int| 0 <= j < keys2.len() && keys2[j] == Some(k1);
    assert(admissible(keys2, bound, j2));
    assert(k2 <= k1);
    assert(keys2.contains(Some(k2)));
    assert(keys1.to_multiset().count(Some(k2)) > 0);
    assert(keys1.contains(Some(k2)));
    let j1 = choose|j: int| 0 <= j < keys1.len() && keys1[j] == Some(k2);
    assert(admissible(keys1, bound, j1));
    assert(k1 <= k2);
}

} // verus!
