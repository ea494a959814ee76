//! What holds of the reduction of every curve: which points it keeps, how
//! its length answers to the tolerance, and when reducing again changes
//! nothing.

use crate::geometry::Point;
use crate::simplify::{
    collapses, lemma_farthest_unique, lemma_farthest_upto, lemma_simplified_endpoints,
    lemma_simplified_len, lemma_split_interior, max_deviation, perp_sq, reference_end,
    simplified, split_index,
};
use vstd::prelude::*;

verus! {

/// What holds of every point of a curve holds of every point of its
/// reduction: the reduction introduces no point.
pub proof fn lemma_points_kept(s: Seq<Point>, dist: nat, holds: spec_fn(Point) -> bool)
    requires
        forall|i: int| 0 <= i < s.len() ==> holds(#[trigger] s[i]),
    ensures
        forall|j: int|
            0 <= j < simplified(s, dist).len() ==> holds(#[trigger] simplified(s, dist)[j]),
    decreases s.len(),
{
    if s.len() >= 3 && !collapses(s, dist) {
        lemma_split_interior(s);
        let k = split_index(s);
        let left = s.subrange(0, k + 1);
        let right = s.subrange(k, s.len() as int);
        assert forall|i: int| 0 <= i < left.len() implies holds(#[trigger] left[i]) by {
            assert(left[i] == s[i]);
        }
        assert forall|i: int| 0 <= i < right.len() implies holds(#[trigger] right[i]) by {
            assert(right[i] == s[k + i]);
        }
        lemma_points_kept(left, dist, holds);
        lemma_points_kept(right, dist, holds);
        lemma_simplified_len(left, dist);
        lemma_simplified_len(right, dist);
        let kept_left = simplified(left, dist);
        let kept_right = simplified(right, dist);
        let kept = simplified(s, dist);
        assert forall|j: int| 0 <= j < kept.len() implies holds(#[trigger] kept[j]) by {
            if j < kept_left.len() {
                assert(kept[j] == kept_left[j]);
            } else {
                assert(kept[j] == kept_right[j - kept_left.len() + 1]);
            }
        }
    } else if s.len() >= 3 {
        assert(holds(s[0]));
        assert(holds(s[s.len() - 2]));
        assert(holds(s[s.len() - 1]));
    }
}

/// Every point of the reduction is a point of the curve.
pub proof fn lemma_reduction_within_curve(s: Seq<Point>, dist: nat)
    ensures
        forall|j: int|
            0 <= j < simplified(s, dist).len() ==> s.contains(#[trigger] simplified(s, dist)[j]),
{
    lemma_points_kept(s, dist, |p: Point| s.contains(p));
}

/// What holds of every point of a curve but the last holds of every point of
/// its reduction but the last.
pub proof fn lemma_points_before_last_kept(
    s: Seq<Point>,
    dist: nat,
    holds: spec_fn(Point) -> bool,
)
    requires
        forall|i: int| 0 <= i < s.len() - 1 ==> holds(#[trigger] s[i]),
    ensures
        forall|j: int|
            0 <= j < simplified(s, dist).len() - 1 ==> holds(#[trigger] simplified(s, dist)[j]),
    decreases s.len(),
{
    if s.len() >= 3 && !collapses(s, dist) {
        lemma_split_interior(s);
        let k = split_index(s);
        let left = s.subrange(0, k + 1);
        let right = s.subrange(k, s.len() as int);
        let kept_left = simplified(left, dist);
        let kept_right = simplified(right, dist);
        assert forall|i: int| 0 <= i < left.len() implies holds(#[trigger] left[i]) by {
            assert(left[i] == s[i]);
        }
        assert forall|i: int| 0 <= i < right.len() - 1 implies holds(#[trigger] right[i]) by {
            assert(right[i] == s[k + i]);
        }
        lemma_points_kept(left, dist, holds);
        lemma_points_before_last_kept(right, dist, holds);
        lemma_simplified_len(left, dist);
        lemma_simplified_len(right, dist);
        let kept = simplified(s, dist);
        assert forall|j: int| 0 <= j < kept.len() - 1 implies holds(#[trigger] kept[j]) by {
            if j < kept_left.len() {
                assert(kept[j] == kept_left[j]);
            } else {
                assert(kept[j] == kept_right[j - kept_left.len() + 1]);
            }
        }
    } else if s.len() >= 3 {
        assert(holds(s[0]));
    }
}

/// A wider tolerance never gives a longer reduction.
pub proof fn lemma_tolerance_monotone(s: Seq<Point>, tight: nat, loose: nat)
    requires
        tight <= loose,
    ensures
        simplified(s, loose).len() <= simplified(s, tight).len(),
    decreases s.len(),
{
    if s.len() >= 3 {
        assert(tight * tight <= loose * loose) by (nonlinear_arith)
            requires
                tight <= loose,
        ;
        lemma_simplified_len(s, tight);
        if !collapses(s, loose) {
            lemma_split_interior(s);
            let k = split_index(s);
            let left = s.subrange(0, k + 1);
            let right = s.subrange(k, s.len() as int);
            lemma_tolerance_monotone(left, tight, loose);
            lemma_tolerance_monotone(right, tight, loose);
            lemma_simplified_len(right, tight);
            lemma_simplified_len(right, loose);
        }
    }
}

/// Reducing a reduction again, within the same tolerance or a narrower one,
/// changes nothing, unless the first reduction is a curve of three or more
/// points that returns to its start: such a curve is measured against a
/// reference line that was not used to make it.
pub proof fn lemma_reduction_stable(s: Seq<Point>, dist: nat, again: nat)
    requires
        again <= dist,
        simplified(s, dist).len() < 3 || simplified(s, dist).first() != simplified(
            s,
            dist,
        ).last(),
    ensures
        simplified(simplified(s, dist), again) == simplified(s, dist),
    decreases s.len(),
{
    let kept = simplified(s, dist);
    lemma_simplified_len(s, dist);
    if s.len() >= 3 && !collapses(s, dist) {
        lemma_split_interior(s);
        let k = split_index(s);
        let left = s.subrange(0, k + 1);
        let right = s.subrange(k, s.len() as int);
        let kept_left = simplified(left, dist);
        let kept_right = simplified(right, dist);
        lemma_simplified_len(left, dist);
        lemma_simplified_len(right, dist);
        lemma_simplified_endpoints(s, dist);
        lemma_simplified_endpoints(left, dist);
        lemma_simplified_endpoints(right, dist);
        assert(kept == kept_left + kept_right.drop_first());
        assert(kept.len() >= 3);
        assert(s.first() != s.last());
        let begin = s[0];
        let end = s.last();
        assert(reference_end(s) == end);
        assert(reference_end(right) == end);
        assert(reference_end(left) == s[k]);
        assert(kept_left.first() == begin && kept_left.last() == s[k]);
        assert(kept_right.first() == s[k] && kept_right.last() == end);
        assert(reference_end(kept) == end);
        let most = max_deviation(s);
        let cut = kept_left.len() - 1;
        assert(kept[cut] == s[k]);
        lemma_farthest_upto(s, begin, end, s.len());
        lemma_points_kept(s, dist, |p: Point| perp_sq(begin, end, p) <= most);
        assert forall|i: int| 0 <= i < left.len() - 1 implies perp_sq(
            begin,
            end,
            #[trigger] left[i],
        ) < most by {
            assert(left[i] == s[i]);
        }
        lemma_points_before_last_kept(left, dist, |p: Point| perp_sq(begin, end, p) < most);
        assert forall|j: int| 0 <= j < cut implies perp_sq(begin, end, #[trigger] kept[j])
            < perp_sq(begin, end, kept[cut]) by {
            assert(kept[j] == kept_left[j]);
        }
        lemma_farthest_unique(kept, begin, end, kept.len(), cut);
        assert(split_index(kept) == cut);
        assert(max_deviation(kept) == most);
        assert(again * again <= dist * dist) by (nonlinear_arith)
            requires
                again <= dist,
        ;
        assert(!collapses(kept, again));
        assert(kept.subrange(0, cut + 1) =~= kept_left);
        assert(kept.subrange(cut, kept.len() as int) =~= kept_right);
        lemma_reduction_stable(left, dist, again);
        lemma_reduction_stable(right, dist, again);
    }
}

} // verus!
