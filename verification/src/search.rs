//! Score ordering and top-k selection. Scores are carried as total
//! order keys so that selection and merging are exact: the embedding
//! program computes a floating-point score per candidate and maps it
//! through `f32_bits_order_key`, which preserves the IEEE 754 order of
//! every non-NaN value.

use vstd::prelude::*;
use crate::{PointIdType, PointOffsetType};

verus! {

/// Total order key standing for a score; greater keys are better.
pub type ScoreType = i64;

/// A scored segment-local offset.
#[derive(Clone, Copy, Debug, PartialEq, Eq, Structural)]
pub struct ScoredPointOffset {
    pub idx: PointOffsetType,
    pub score: ScoreType,
}

/// A scored external point id.
#[derive(Clone, Copy, Debug, PartialEq, Eq, Structural)]
pub struct ScoredPoint {
    pub id: PointIdType,
    pub score: ScoreType,
}

/// Order key of an IEEE 754 single-precision bit pattern: keys are
/// ordered exactly as the finite values they stand for, with the two
/// zeroes sharing one key. NaN patterns order above the infinity of
/// their sign; callers keep them out.
pub open spec fn spec_f32_order_key(bits: u32) -> int {
    if bits >= 0x8000_0000 {
        -((bits - 0x8000_0000) as int)
    } else {
        bits as int
    }
}

/// Compute the order key of a single-precision bit pattern.
pub fn f32_bits_order_key(bits: u32) -> (k: ScoreType)
    ensures
        k == spec_f32_order_key(bits),
{
    if bits >= 0x8000_0000 {
        -((bits - 0x8000_0000) as i64)
    } else {
        bits as i64
    }
}

/// `a` ranks no worse than `b`: a higher score, or an equal score and
/// an id that is not larger. Equal-score results are ordered by
/// ascending external id.
pub open spec fn spec_ranks_ge(a: ScoredPoint, b: ScoredPoint) -> bool {
    a.score > b.score || (a.score == b.score && a.id <= b.id)
}

/// A result list is ranked: each entry ranks no worse than the next.
pub open spec fn spec_ranked(s: Seq<ScoredPoint>) -> bool {
    forall|i: int, j: int| 0 <= i < j < s.len() ==> spec_ranks_ge(s[i], s[j])
}

/// Decide the ranking order between two scored points.
fn ranks_ge(a: &ScoredPoint, b: &ScoredPoint) -> (r: bool)
    ensures
        r == spec_ranks_ge(*a, *b),
{
    a.score > b.score || (a.score == b.score && a.id <= b.id)
}

/// The best `top` candidates, best first; ties are broken by ascending
/// id. Every returned entry is a candidate, no candidate is returned
/// more often than it occurs, and every candidate left out ranks no
/// better than every returned one.
pub fn top_k(candidates: Vec<ScoredPoint>, top: usize) -> (r: Vec<ScoredPoint>)
    ensures
        r@.len() == (if top <= candidates@.len() {
            top as int
        } else {
            candidates@.len() as int
        }),
        spec_ranked(r@),
        forall|x: ScoredPoint| #[trigger] r@.to_multiset().count(x)
            <= candidates@.to_multiset().count(x),
        forall|x: ScoredPoint|
            candidates@.to_multiset().count(x) > r@.to_multiset().count(x) ==> forall|i: int|
                0 <= i < r@.len() ==> spec_ranks_ge(#[trigger] r@[i], x),
{
    broadcast use vstd::seq_lib::group_to_multiset_ensures;

    let ghost orig = candidates@.to_multiset();
    let mut remaining = candidates;
    let mut r: Vec<ScoredPoint> = Vec::new();
    while r.len() < top && remaining.len() > 0
        invariant
            r@.len() <= top,
            r@.to_multiset().add(remaining@.to_multiset()) == orig,
            spec_ranked(r@),
            forall|i: int, x: ScoredPoint|
                0 <= i < r@.len() && #[trigger] remaining@.to_multiset().count(x) > 0
                    ==> spec_ranks_ge(#[trigger] r@[i], x),
            r@.len() + remaining@.len() == orig.len(),
        decreases top - r@.len(),
    {
        let n = remaining.len();
        let mut best: usize = 0;
        let mut i: usize = 1;
        while i < n
            invariant
                n == remaining@.len(),
                0 < n,
                0 <= best < i <= n,
                forall|j: int| 0 <= j < i ==> spec_ranks_ge(
                    remaining@[best as int],
                    #[trigger] remaining@[j],
                ),
            decreases n - i,
        {
            if ranks_ge(&remaining[i], &remaining[best]) {
                best = i;
            }
            i += 1;
        }
        let x = remaining[best];
        let ghost rem_pre = remaining@;
        remaining.remove(best);
        let ghost r_pre = r@;
        r.push(x);
        proof {
            broadcast use vstd::seq_lib::group_to_multiset_ensures;

            assert(remaining@ == rem_pre.remove(best as int));
            assert(remaining@.to_multiset() =~= rem_pre.to_multiset().remove(x));
            assert(r@.to_multiset() =~= r_pre.to_multiset().insert(x));
            assert(r@.to_multiset().add(remaining@.to_multiset()) =~= orig);
            assert forall|i2: int, j2: int| 0 <= i2 < j2 < r@.len() implies spec_ranks_ge(
                r@[i2],
                r@[j2],
            ) by {
                if j2 == r@.len() - 1 {
                    assert(rem_pre.to_multiset().count(x) > 0);
                    assert(spec_ranks_ge(r_pre[i2], x));
                }
            }
            assert forall|i2: int, x2: ScoredPoint|
                0 <= i2 < r@.len() && remaining@.to_multiset().count(x2) > 0 implies spec_ranks_ge(
                r@[i2],
                x2,
            ) by {
                assert(rem_pre.to_multiset().count(x2) > 0);
                let w = choose|w: int| 0 <= w < rem_pre.len() && rem_pre[w] == x2;
                assert(spec_ranks_ge(rem_pre[best as int], rem_pre[w]));
                if i2 < r@.len() - 1 {
                    assert(spec_ranks_ge(r_pre[i2], x2));
                }
            }
        }
    }
    proof {
        broadcast use vstd::seq_lib::group_to_multiset_ensures;

        assert forall|x: ScoredPoint| #[trigger] r@.to_multiset().count(x) <= orig.count(x) by {
            assert(orig.count(x) == r@.to_multiset().count(x) + remaining@.to_multiset().count(x));
        }
        assert forall|x: ScoredPoint|
            orig.count(x) > r@.to_multiset().count(x) implies forall|i: int|
            0 <= i < r@.len() ==> spec_ranks_ge(#[trigger] r@[i], x) by {
            assert(remaining@.to_multiset().count(x) > 0);
        }
    }
    r
}

} // verus!
