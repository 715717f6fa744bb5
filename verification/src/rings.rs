//! The second phase of the autopilot: the inspected cells counted outwards
//! from the food, ring by ring, until a ring reaches the head.

use crate::ai::{
    adjacent, get_neighbours, lemma_concat_contains, lemma_neighbours_adjacent, neighbours,
};
use crate::cells::{CellMap, CellSet};
use crate::grid::Pos;
use vstd::prelude::*;

verus! {

/// The cell is the food, or lies in the region at most `k` steps from the
/// food, each step of the way but the food itself in the region.
pub open spec fn within(region: Set<Pos>, food: Pos, c: Pos, k: nat) -> bool
    decreases k,
{
    c == food || (k > 0 && region.contains(c) && exists|d: Pos| #[trigger]
        adjacent(d, c) && within(region, food, d, (k - 1) as nat))
}

/// A cell next to the head lies within `k` steps of the food.
pub open spec fn touches(region: Set<Pos>, food: Pos, head: Pos, k: nat) -> bool {
    exists|n: Pos| #[trigger] adjacent(head, n) && within(region, food, n, k)
}

/// `k` is the least number of steps within which a cell next to the head
/// lies.
pub open spec fn first_touch(region: Set<Pos>, food: Pos, head: Pos, k: nat) -> bool {
    &&& touches(region, food, head, k)
    &&& forall|j: nat| j < k ==> !touches(region, food, head, j)
}

/// The labels are those of the cells within `level` steps of the food, and
/// each is the least number of steps within which its cell lies.
pub open spec fn labelled(region: Set<Pos>, food: Pos, labels: Map<Pos, usize>, level: nat) -> bool {
    &&& forall|c: Pos|
        #![trigger labels.contains_key(c)]
        #![trigger within(region, food, c, level)]
        labels.contains_key(c) <==> within(region, food, c, level)
    &&& forall|c: Pos| #[trigger]
        labels.contains_key(c) ==> {
            &&& labels[c] <= level
            &&& within(region, food, c, labels[c] as nat)
            &&& labels[c] > 0 ==> !within(region, food, c, (labels[c] - 1) as nat)
        }
}

/// The cells of `near` are those one step from a cell with the label `level`.
pub open spec fn is_frontier(labels: Map<Pos, usize>, near: Seq<Pos>, level: nat) -> bool {
    forall|p: Pos| #[trigger]
        near.contains(p) <==> exists|d: Pos| #[trigger]
            adjacent(d, p) && labels.contains_key(d) && labels[d] == level
}

/// `after` is `before` and, with the label `level`, the cells of `near` that
/// lie in the region and had no label.
pub open spec fn is_next_ring(
    region: Set<Pos>,
    before: Map<Pos, usize>,
    after: Map<Pos, usize>,
    near: Seq<Pos>,
    level: nat,
) -> bool {
    &&& forall|c: Pos|
        #![trigger after.contains_key(c)]
        #![trigger before.contains_key(c)]
        #![trigger near.contains(c)]
        after.contains_key(c) <==> before.contains_key(c) || (near.contains(c) && region.contains(
            c,
        ))
    &&& forall|c: Pos| #[trigger] before.contains_key(c) ==> after[c] == before[c]
    &&& forall|c: Pos| #[trigger]
        after.contains_key(c) && !before.contains_key(c) ==> after[c] == level
}

/// A cell within `k` steps of the food is within any larger number of steps.
pub proof fn lemma_within_grows(region: Set<Pos>, food: Pos, c: Pos, k: nat, m: nat)
    requires
        within(region, food, c, k),
        k <= m,
    ensures
        within(region, food, c, m),
    decreases k,
{
    if c != food {
        let d = choose|d: Pos| #[trigger]
            adjacent(d, c) && within(region, food, d, (k - 1) as nat);
        lemma_within_grows(region, food, d, (k - 1) as nat, (m - 1) as nat);
    }
}

/// Only one number of steps is the least within which a cell next to the
/// head lies.
pub proof fn lemma_first_touch_unique(region: Set<Pos>, food: Pos, head: Pos, k: nat)
    requires
        first_touch(region, food, head, k),
    ensures
        (choose|j: nat| first_touch(region, food, head, j)) == k,
{
}

/// Labelling the cells of the frontier that lie in the region takes the
/// labels one step further from the food.
pub proof fn lemma_next_ring(
    region: Set<Pos>,
    food: Pos,
    before: Map<Pos, usize>,
    after: Map<Pos, usize>,
    near: Seq<Pos>,
    level: nat,
)
    requires
        labelled(region, food, before, level),
        is_frontier(before, near, level),
        is_next_ring(region, before, after, near, level + 1),
    ensures
        labelled(region, food, after, level + 1),
{
    assert forall|c: Pos| after.contains_key(c) implies within(region, food, c, level + 1) by {
        if before.contains_key(c) {
            lemma_within_grows(region, food, c, level, level + 1);
        } else {
            let d = choose|d: Pos| #[trigger]
                adjacent(d, c) && before.contains_key(d) && before[d] == level;
            assert(within(region, food, d, level));
        }
    }
    assert forall|c: Pos| within(region, food, c, level + 1) implies after.contains_key(c) by {
        if c != food {
            let d = choose|d: Pos| #[trigger] adjacent(d, c) && within(region, food, d, level);
            if before[d] == level {
                assert(near.contains(c));
            } else {
                lemma_within_grows(region, food, d, before[d] as nat, (level - 1) as nat);
                assert(within(region, food, c, level));
            }
        }
    }
}

/// A frontier that does not hold the head shows that no cell next to the
/// head lies within `level` steps of the food.
pub proof fn lemma_no_touch(
    region: Set<Pos>,
    food: Pos,
    head: Pos,
    labels: Map<Pos, usize>,
    near: Seq<Pos>,
    level: nat,
)
    requires
        labelled(region, food, labels, level),
        is_frontier(labels, near, level),
        forall|j: nat| j < level ==> !touches(region, food, head, j),
        !near.contains(head),
    ensures
        !touches(region, food, head, level),
{
    if touches(region, food, head, level) {
        let n = choose|n: Pos| #[trigger] adjacent(head, n) && within(region, food, n, level);
        if labels[n] == level {
            assert(adjacent(n, head));
        } else {
            assert(touches(region, food, head, labels[n] as nat));
        }
    }
}

/// Tells whether the cell is one of the given cells.
pub fn has(cells: &Vec<Pos>, p: &Pos) -> (r: bool)
    ensures
        r == cells@.contains(*p),
{
    let mut i: usize = 0;
    while i < cells.len()
        invariant
            i <= cells.len(),
            forall|j: int| 0 <= j < i ==> cells@[j] != *p,
        decreases cells.len() - i,
    {
        let c: &Pos = &cells[i];
        if c.0 == p.0 && c.1 == p.1 {
            return true;
        }
        i += 1;
    }
    false
}

/// Gives the cells of the frontier that lie in the region and have no label
/// yet the label `level`, and returns the next frontier: the neighbours of
/// those cells.
pub fn label_ring(region: &CellSet, labels: &mut CellMap, near: &Vec<Pos>, level: usize) -> (next:
    Vec<Pos>)
    requires
        region.wf(),
        forall|c: Pos| old(labels)@.contains_key(c) ==> old(labels)@[c] < level,
    ensures
        is_next_ring(region@, old(labels)@, final(labels)@, near@, level as nat),
        is_frontier(final(labels)@, next@, level as nat),
{
    let mut next: Vec<Pos> = Vec::new();
    let mut i: usize = 0;
    while i < near.len()
        invariant
            region.wf(),
            i <= near.len(),
            forall|c: Pos| old(labels)@.contains_key(c) ==> old(labels)@[c] < level,
            is_next_ring(region@, old(labels)@, labels@, near@.take(i as int), level as nat),
            is_frontier(labels@, next@, level as nat),
        decreases near.len() - i,
    {
        let c: Pos = near[i];
        let ghost done = near@.take(i as int);
        let ghost front = next@;
        proof {
            assert(near@.take(i + 1) =~= done + seq![c]);
            assert forall|q: Pos| (done + seq![c]).contains(q) <==> done.contains(q) || q == c by {
                lemma_concat_contains(done, seq![c], q);
                assert(seq![c][0] == c);
            }
        }
        if region.contains(c) && labels.get(c).is_none() {
            labels.insert(c, level);
            let mut around: Vec<Pos> = get_neighbours(&c);
            next.append(&mut around);
            proof {
                assert forall|p: Pos| #[trigger]
                    next@.contains(p) <==> exists|d: Pos| #[trigger]
                        adjacent(d, p) && labels@.contains_key(d) && labels@[d] == level by {
                    lemma_concat_contains(front, neighbours(c), p);
                    lemma_neighbours_adjacent(c, p);
                }
            }
        }
        i += 1;
    }
    assert(near@.take(i as int) =~= near@);
    next
}

/// Labels the cells of the region by their number of steps from the food,
/// one ring after the other, until a ring reaches a cell next to the head.
/// Returns the labels and the number of that ring, or nothing when as many
/// rings as the region has cells did not reach the head.
pub fn label(region: &CellSet, head: &Pos, food: &Pos) -> (r: Option<(CellMap, usize)>)
    requires
        region.wf(),
    ensures
        match r {
            Some((labels, level)) => {
                &&& level <= region@.len()
                &&& labelled(region@, *food, labels@, level as nat)
                &&& first_touch(region@, *food, *head, level as nat)
            },
            None => forall|k: nat| k <= region@.len() ==> !touches(region@, *food, *head, k),
        },
{
    let bound: usize = region.len();
    let mut labels = CellMap::new();
    labels.insert(*food, 0);
    let mut near: Vec<Pos> = get_neighbours(food);
    let mut level: usize = 0;
    proof {
        assert forall|p: Pos| #[trigger]
            near@.contains(p) <==> exists|d: Pos| #[trigger]
                adjacent(d, p) && labels@.contains_key(d) && labels@[d] == 0 by {
            lemma_neighbours_adjacent(*food, p);
        }
    }
    loop
        invariant
            region.wf(),
            bound == region@.len(),
            level <= bound,
            labelled(region@, *food, labels@, level as nat),
            is_frontier(labels@, near@, level as nat),
            forall|j: nat| j < level ==> !touches(region@, *food, *head, j),
        decreases bound - level,
    {
        if has(&near, head) {
            proof {
                let d = choose|d: Pos| #[trigger]
                    adjacent(d, *head) && labels@.contains_key(d) && labels@[d] == level;
                assert(adjacent(*head, d) && within(region@, *food, d, level as nat));
            }
            return Some((labels, level));
        }
        proof {
            lemma_no_touch(region@, *food, *head, labels@, near@, level as nat);
        }
        if level >= bound {
            return None;
        }
        let ghost before = labels@;
        let next: Vec<Pos> = label_ring(region, &mut labels, &near, level + 1);
        proof {
            lemma_next_ring(region@, *food, before, labels@, near@, level as nat);
        }
        near = next;
        level += 1;
    }
}

} // verus!
