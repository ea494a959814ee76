//! The enclosure relation among the borders of one raster.
//!
//! Each border names at most one parent, by its index in the collection. The
//! links form a forest: each names a position of the collection, and no
//! position is reached again by following links from it.

use vstd::prelude::*;

verus! {

/// The position reached from `i` by following `steps` parent links, if the
/// links lead that far.
pub open spec fn ancestor(parents: Seq<Option<usize>>, i: int, steps: nat) -> Option<int>
    decreases steps,
{
    if steps == 0 {
        Some(i)
    } else {
        match ancestor(parents, i, (steps - 1) as nat) {
            Some(j) => if 0 <= j < parents.len() {
                match parents[j] {
                    Some(p) => Some(p as int),
                    None => None,
                }
            } else {
                None
            },
            None => None,
        }
    }
}

/// Every link names a position of the collection.
pub open spec fn links_valid(parents: Seq<Option<usize>>) -> bool {
    forall|i: int|
        0 <= i < parents.len() ==> (#[trigger] parents[i] matches Some(p) ==> p < parents.len())
}

/// No position is its own parent, nor its own ancestor at any remove.
pub open spec fn links_acyclic(parents: Seq<Option<usize>>) -> bool {
    forall|i: int, steps: nat|
        0 <= i < parents.len() && steps >= 1 ==> #[trigger] ancestor(parents, i, steps) != Some(i)
}

/// The links form a forest.
pub open spec fn is_forest(parents: Seq<Option<usize>>) -> bool {
    links_valid(parents) && links_acyclic(parents)
}

/// Every link names an earlier position.
pub open spec fn parents_earlier(parents: Seq<Option<usize>>) -> bool {
    forall|i: int| 0 <= i < parents.len() ==> (#[trigger] parents[i] matches Some(p) ==> p < i)
}

/// Where every link names an earlier position, every ancestor of a position
/// comes before it.
pub proof fn lemma_ancestors_earlier(parents: Seq<Option<usize>>, i: int, steps: nat)
    requires
        parents_earlier(parents),
        0 <= i < parents.len(),
        steps >= 1,
    ensures
        ancestor(parents, i, steps) matches Some(j) ==> 0 <= j < i,
    decreases steps,
{
    let before = ancestor(parents, i, (steps - 1) as nat);
    if steps > 1 {
        lemma_ancestors_earlier(parents, i, (steps - 1) as nat);
    } else {
        assert(before == Some(i));
    }
    if let Some(j) = before {
        if 0 <= j < parents.len() {
            assert(parents[j] matches Some(p) ==> p < j);
        }
    }
}

/// Links that each name an earlier position form a forest.
pub proof fn lemma_earlier_parents_form_forest(parents: Seq<Option<usize>>)
    requires
        parents_earlier(parents),
    ensures
        is_forest(parents),
{
    assert forall|i: int, steps: nat| 0 <= i < parents.len() && steps >= 1 implies #[trigger] ancestor(
        parents,
        i,
        steps,
    ) != Some(i) by {
        lemma_ancestors_earlier(parents, i, steps);
    }
}

} // verus!
