//! Walks through a region towards the food, and what follows from counting
//! their steps.

use crate::ai::{adjacent, is_first_within};
use crate::grid::Pos;
use crate::rings::{first_touch, lemma_within_grows, touches, within};
use vstd::prelude::*;
use vstd::set_lib::lemma_len_subset;

verus! {

/// A cell within `k` steps of the food in a region is so in any region that
/// holds the first.
pub proof fn lemma_within_wider(small: Set<Pos>, large: Set<Pos>, food: Pos, c: Pos, k: nat)
    requires
        small.subset_of(large),
        within(small, food, c, k),
    ensures
        within(large, food, c, k),
    decreases k,
{
    if c != food {
        let d = choose|d: Pos| #[trigger] adjacent(d, c) && within(small, food, d, (k - 1) as nat);
        lemma_within_wider(small, large, food, d, (k - 1) as nat);
    }
}

/// A walk that ends on a cell of the region goes one step on to any cell
/// next to that cell.
pub proof fn lemma_within_onwards(region: Set<Pos>, end: Pos, next: Pos, c: Pos, k: nat)
    requires
        within(region, end, c, k),
        region.contains(end),
        adjacent(end, next),
    ensures
        within(region, next, c, k + 1),
    decreases k,
{
    if c == end {
        assert(adjacent(next, c) && within(region, next, next, k));
    } else if c != next {
        let d = choose|d: Pos| #[trigger] adjacent(d, c) && within(region, end, d, (k - 1) as nat);
        lemma_within_onwards(region, end, next, d, (k - 1) as nat);
    }
}

/// A cell within `k` steps of the food has a least number of steps within
/// which it lies.
pub proof fn lemma_least_within(region: Set<Pos>, food: Pos, c: Pos, k: nat) -> (m: nat)
    requires
        within(region, food, c, k),
    ensures
        m <= k,
        within(region, food, c, m),
        m > 0 ==> !within(region, food, c, (m - 1) as nat),
    decreases k,
{
    if k > 0 && within(region, food, c, (k - 1) as nat) {
        lemma_least_within(region, food, c, (k - 1) as nat)
    } else {
        k
    }
}

/// A cell that lies within `k` steps of the food and not within fewer has
/// `k` cells of the region on its way.
pub proof fn lemma_way(region: Set<Pos>, food: Pos, c: Pos, k: nat) -> (way: Set<Pos>)
    requires
        within(region, food, c, k),
        k > 0 ==> !within(region, food, c, (k - 1) as nat),
    ensures
        way.finite(),
        way.len() == k,
        way.subset_of(region),
        forall|e: Pos| way.contains(e) ==> within(region, food, e, k),
    decreases k,
{
    if k == 0 {
        Set::empty()
    } else {
        let d = choose|d: Pos| #[trigger]
            adjacent(d, c) && within(region, food, d, (k - 1) as nat);
        let before = lemma_way(region, food, d, (k - 1) as nat);
        assert forall|e: Pos| before.insert(c).contains(e) implies within(region, food, e, k) by {
            if e != c {
                lemma_within_grows(region, food, e, (k - 1) as nat, k);
            }
        }
        before.insert(c)
    }
}

/// Counting as many rings as the region has cells loses nothing: where a
/// cell next to the head lies within any number of steps of the food, one
/// lies within no more steps than the region has cells.
pub proof fn lemma_rings_end(region: Set<Pos>, food: Pos, head: Pos, k: nat) -> (j: nat)
    requires
        region.finite(),
        touches(region, food, head, k),
    ensures
        j <= region.len(),
        j <= k,
        touches(region, food, head, j),
{
    let n = choose|n: Pos| #[trigger] adjacent(head, n) && within(region, food, n, k);
    let m = lemma_least_within(region, food, n, k);
    let way = lemma_way(region, food, n, m);
    lemma_len_subset(way, region);
    m
}

/// Where a cell next to the head lies within `k` steps of the food, some
/// number of steps is the least within which one does.
pub proof fn lemma_first_touch_exists(region: Set<Pos>, food: Pos, head: Pos, k: nat) -> (j: nat)
    requires
        touches(region, food, head, k),
    ensures
        j <= k,
        first_touch(region, food, head, j),
    decreases k,
{
    if exists|i: nat| i < k && touches(region, food, head, i) {
        let i = choose|i: nat| i < k && touches(region, food, head, i);
        lemma_first_touch_exists(region, food, head, i)
    } else {
        k
    }
}

/// Where one of the candidates lies within `k` steps of the food, one of
/// them is the first to do so.
pub proof fn lemma_first_within_exists(
    region: Set<Pos>,
    food: Pos,
    ns: Seq<Pos>,
    k: nat,
    a: int,
) -> (i: int)
    requires
        0 <= a < ns.len(),
        within(region, food, ns[a], k),
    ensures
        is_first_within(region, food, ns, k, i),
    decreases a,
{
    if exists|j: int| 0 <= j < a && within(region, food, ns[j], k) {
        let j = choose|j: int| 0 <= j < a && within(region, food, ns[j], k);
        lemma_first_within_exists(region, food, ns, k, j)
    } else {
        a
    }
}

} // verus!
