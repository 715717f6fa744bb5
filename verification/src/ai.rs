//! The autopilot: one heading for the snake's next step towards the food.
//!
//! A plan is made in three parts. The search inspects free cells from the
//! head towards the food. The inspected cells are then counted outwards from
//! the food, ring by ring, until a ring reaches a neighbour of the head. The
//! heading is that of the step from the head to its first neighbour on that
//! ring.

use crate::cells::CellMap;
use crate::game::{step_from, Direction};
use crate::grid::{Pos, Size};
use crate::rings::{
    first_touch, label, labelled, lemma_first_touch_unique, touches, within,
};
use crate::search::{inspect, inspected};
use std::collections::VecDeque;
use vstd::prelude::*;

verus! {

/// Why the autopilot has no heading to give.
#[derive(Debug, Clone, Copy, PartialEq, Eq, Structural)]
pub enum PlanningFailure {
    /// The snake has no cells, and so no head.
    NoHead,
    /// No way through the inspected cells leads from the food to a cell next
    /// to the head.
    Unreachable,
    /// The cell to step to is not a step away from the head.
    NoStep,
}

/// Two cells that lie one step apart, along a row or along a column.
pub open spec fn adjacent(a: Pos, b: Pos) -> bool {
    ||| a.1 == b.1 && (a.0 + 1 == b.0 || b.0 + 1 == a.0)
    ||| a.0 == b.0 && (a.1 + 1 == b.1 || b.1 + 1 == a.1)
}

/// The cell of a step, if the step has one, as a list.
pub open spec fn cell_of(step: Option<Pos>) -> Seq<Pos> {
    match step {
        Some(c) => seq![c],
        None => seq![],
    }
}

/// The cells one step from a cell, in the order left, up, right, down. A
/// step that would leave the range of the coordinates has no cell.
pub open spec fn neighbours(p: Pos) -> Seq<Pos> {
    cell_of(step_from(p, Direction::Left)) + cell_of(step_from(p, Direction::Up)) + cell_of(
        step_from(p, Direction::Right),
    ) + cell_of(step_from(p, Direction::Down))
}

/// The square of the straight-line distance between two cells.
pub open spec fn distance(from: Pos, to: Pos) -> int {
    (to.0 - from.0) * (to.0 - from.0) + (to.1 - from.1) * (to.1 - from.1)
}

/// What a concatenation holds is what either part holds.
pub proof fn lemma_concat_contains(a: Seq<Pos>, b: Seq<Pos>, x: Pos)
    ensures
        (a + b).contains(x) <==> a.contains(x) || b.contains(x),
{
    if a.contains(x) {
        let i = choose|i: int| 0 <= i < a.len() && a[i] == x;
        assert((a + b)[i] == x);
    }
    if b.contains(x) {
        let j = choose|j: int| 0 <= j < b.len() && b[j] == x;
        assert((a + b)[a.len() + j] == x);
    }
}

/// The list of a step holds the cell of the step and no other.
pub proof fn lemma_cell_of(step: Option<Pos>, q: Pos)
    ensures
        cell_of(step).contains(q) <==> step == Some(q),
{
    if let Some(c) = step {
        assert(cell_of(step)[0] == c);
    }
}

/// The neighbours of a cell are the cells adjacent to it.
pub proof fn lemma_neighbours_adjacent(p: Pos, q: Pos)
    ensures
        neighbours(p).contains(q) <==> adjacent(p, q),
{
    let left = cell_of(step_from(p, Direction::Left));
    let up = cell_of(step_from(p, Direction::Up));
    let right = cell_of(step_from(p, Direction::Right));
    let down = cell_of(step_from(p, Direction::Down));
    lemma_concat_contains(left, up, q);
    lemma_concat_contains(left + up, right, q);
    lemma_concat_contains(left + up + right, down, q);
    lemma_cell_of(step_from(p, Direction::Left), q);
    lemma_cell_of(step_from(p, Direction::Up), q);
    lemma_cell_of(step_from(p, Direction::Right), q);
    lemma_cell_of(step_from(p, Direction::Down), q);
}

/// The cells one step from a cell.
pub fn get_neighbours(pos: &Pos) -> (v: Vec<Pos>)
    ensures
        v@ == neighbours(*pos),
{
    let mut vec: Vec<Pos> = Vec::with_capacity(4);
    if pos.0 != 0 {
        vec.push((pos.0 - 1, pos.1));
    }
    if pos.1 != 0 {
        vec.push((pos.0, pos.1 - 1));
    }
    if pos.0 != u16::MAX {
        vec.push((pos.0 + 1, pos.1));
    }
    if pos.1 != u16::MAX {
        vec.push((pos.0, pos.1 + 1));
    }
    vec
}

/// The square of the straight-line distance between two cells.
pub fn get_distance(from: &Pos, to: &Pos) -> (d: u64)
    ensures
        d == distance(*from, *to),
{
    let dx: u64 = if to.0 >= from.0 {
        (to.0 - from.0) as u64
    } else {
        (from.0 - to.0) as u64
    };
    let dy: u64 = if to.1 >= from.1 {
        (to.1 - from.1) as u64
    } else {
        (from.1 - to.1) as u64
    };
    assert(dx * dx <= 65535 * 65535 && dx * dx == (to.0 - from.0) * (to.0 - from.0))
        by (nonlinear_arith)
        requires
            dx <= 65535,
            dx == to.0 - from.0 || dx == from.0 - to.0,
    ;
    assert(dy * dy <= 65535 * 65535 && dy * dy == (to.1 - from.1) * (to.1 - from.1))
        by (nonlinear_arith)
        requires
            dy <= 65535,
            dy == to.1 - from.1 || dy == from.1 - to.1,
    ;
    dx * dx + dy * dy
}

/// The heading of one step from the head to the cell `next`: none where the
/// cell is the head itself.
pub open spec fn heading(head: Pos, next: Pos) -> Result<Direction, PlanningFailure> {
    if head.0 < next.0 {
        Ok(Direction::Right)
    } else if head.0 > next.0 {
        Ok(Direction::Left)
    } else if head.1 < next.1 {
        Ok(Direction::Down)
    } else if head.1 > next.1 {
        Ok(Direction::Up)
    } else {
        Err(PlanningFailure::NoStep)
    }
}

/// Turns the step from the head to the cell `next` into a heading.
pub fn direction_to(head: &Pos, next: &Pos) -> (r: Result<Direction, PlanningFailure>)
    ensures
        r == heading(*head, *next),
{
    if head.0 < next.0 {
        Ok(Direction::Right)
    } else if head.0 > next.0 {
        Ok(Direction::Left)
    } else if head.1 < next.1 {
        Ok(Direction::Down)
    } else if head.1 > next.1 {
        Ok(Direction::Up)
    } else {
        Err(PlanningFailure::NoStep)
    }
}

/// The number by which a cell is ranked: its label, and for a cell without
/// one a number beyond every label.
pub open spec fn rank_of(labels: Map<Pos, usize>, c: Pos) -> int {
    if labels.contains_key(c) {
        labels[c] as int
    } else {
        usize::MAX + 1
    }
}

/// The place among the candidates of the one to step to: none has a lower
/// rank, and those before it have a higher one.
pub open spec fn is_best(ns: Seq<Pos>, labels: Map<Pos, usize>, i: int) -> bool {
    &&& 0 <= i < ns.len()
    &&& forall|j: int| 0 <= j < ns.len() ==> rank_of(labels, ns[i]) <= rank_of(labels, ns[j])
    &&& forall|j: int| 0 <= j < i ==> rank_of(labels, ns[i]) < rank_of(labels, ns[j])
}

/// The neighbour of the head with the lowest rank, the first of them in the
/// order of the neighbours.
pub open spec fn best_step(head: Pos, labels: Map<Pos, usize>) -> Option<Pos> {
    let ns = neighbours(head);
    if ns.len() == 0 {
        None
    } else {
        Some(ns[choose|i: int| is_best(ns, labels, i)])
    }
}

/// Only one place among the candidates holds the one to step to.
pub proof fn lemma_best_unique(ns: Seq<Pos>, labels: Map<Pos, usize>, i: int, j: int)
    requires
        is_best(ns, labels, i),
        is_best(ns, labels, j),
    ensures
        i == j,
{
    if i < j {
        assert(rank_of(labels, ns[j]) < rank_of(labels, ns[i]));
    } else if j < i {
        assert(rank_of(labels, ns[i]) < rank_of(labels, ns[j]));
    }
}

/// Among candidates, which are not none, one is the one to step to.
pub proof fn lemma_best_exists(ns: Seq<Pos>, labels: Map<Pos, usize>)
    requires
        ns.len() > 0,
    ensures
        is_best(ns, labels, choose|i: int| is_best(ns, labels, i)),
    decreases ns.len(),
{
    if ns.len() == 1 {
        assert(is_best(ns, labels, 0));
    } else {
        let front = ns.drop_last();
        lemma_best_exists(front, labels);
        let i = choose|i: int| is_best(front, labels, i);
        let last = ns.len() - 1;
        assert forall|j: int| 0 <= j < last implies front[j] == ns[j] by {}
        if rank_of(labels, ns[last]) < rank_of(labels, front[i]) {
            assert(is_best(ns, labels, last));
        } else {
            assert(is_best(ns, labels, i));
        }
    }
}

/// Picks the neighbour of the head to step to.
pub fn choose_step(head: &Pos, labels: &CellMap) -> (r: Option<Pos>)
    ensures
        r == best_step(*head, labels@),
{
    let path: Vec<Pos> = get_neighbours(head);
    if path.len() == 0 {
        return None;
    }
    let mut best: usize = 0;
    let mut least: Option<usize> = labels.get(path[0]);
    let mut j: usize = 1;
    while j < path.len()
        invariant
            1 <= j <= path.len(),
            best < j,
            least == labels@.get(path@[best as int]),
            is_best(path@.take(j as int), labels@, best as int),
        decreases path.len() - j,
    {
        let l: Option<usize> = labels.get(path[j]);
        let lower: bool = match (l, least) {
            (Some(a), Some(b)) => a < b,
            (Some(_), None) => true,
            (None, _) => false,
        };
        if lower {
            best = j;
            least = l;
        }
        j += 1;
    }
    proof {
        assert(path@.take(j as int) =~= path@);
        let i = choose|i: int| is_best(path@, labels@, i);
        lemma_best_unique(path@, labels@, i, best as int);
    }
    Some(path[best])
}

/// The place among the candidates of the first that lies within `k` steps of
/// the food.
pub open spec fn is_first_within(
    region: Set<Pos>,
    food: Pos,
    ns: Seq<Pos>,
    k: nat,
    i: int,
) -> bool {
    &&& 0 <= i < ns.len()
    &&& within(region, food, ns[i], k)
    &&& forall|j: int| 0 <= j < i ==> !within(region, food, ns[j], k)
}

/// The first neighbour of the head, in the order left, up, right, down, that
/// lies within `k` steps of the food.
pub open spec fn step_towards(region: Set<Pos>, food: Pos, head: Pos, k: nat) -> Pos {
    let ns = neighbours(head);
    ns[choose|i: int| is_first_within(region, food, ns, k, i)]
}

/// With the labels of the first ring that reaches the head, the neighbour
/// with the lowest rank is the first neighbour on that ring.
pub proof fn lemma_decision(
    region: Set<Pos>,
    food: Pos,
    head: Pos,
    labels: Map<Pos, usize>,
    level: nat,
)
    requires
        labelled(region, food, labels, level),
        first_touch(region, food, head, level),
    ensures
        best_step(head, labels) == Some(step_towards(region, food, head, level)),
{
    let ns = neighbours(head);
    let n = choose|n: Pos| #[trigger] adjacent(head, n) && within(region, food, n, level);
    lemma_neighbours_adjacent(head, n);
    let a = choose|a: int| 0 <= a < ns.len() && ns[a] == n;
    lemma_best_exists(ns, labels);
    let i = choose|i: int| is_best(ns, labels, i);
    assert forall|j: int| 0 <= j < i implies !within(region, food, ns[j], level) by {
        if within(region, food, ns[j], level) {
            let l = labels[ns[i]] as nat;
            lemma_neighbours_adjacent(head, ns[i]);
            assert(touches(region, food, head, l));
        }
    }
    assert(is_first_within(region, food, ns, level, i));
}

/// The heading that the autopilot gives for a snake, head first, and the
/// food on a field of the given size.
///
/// The inspected cells are counted outwards from the food for as many rings
/// as there are inspected cells. The heading is that of the step from the
/// head to its first neighbour, in the order left, up, right, down, on the
/// first ring that reaches a neighbour of the head. Where no ring does, the
/// food is out of reach.
pub open spec fn plan(size: Size, snake: Seq<Pos>, food: Pos) -> Result<
    Direction,
    PlanningFailure,
> {
    if snake.len() == 0 {
        Err(PlanningFailure::NoHead)
    } else {
        let head = snake[0];
        let region = inspected(size, snake, food);
        if exists|k: nat| k <= region.len() && #[trigger] touches(region, food, head, k) {
            let k = choose|k: nat| first_touch(region, food, head, k);
            heading(head, step_towards(region, food, head, k))
        } else {
            Err(PlanningFailure::Unreachable)
        }
    }
}

/// Gives the heading for the snake's next step towards the food.
///
/// The heading depends on the field's size, the snake and the food alone:
/// the same three always give the same heading, or the same failure.
pub fn build_path(size: Size, snake: &VecDeque<Pos>, food: Pos) -> (r: Result<
    Direction,
    PlanningFailure,
>)
    ensures
        r == plan(size, snake@, food),
{
    if snake.len() == 0 {
        return Err(PlanningFailure::NoHead);
    }
    let head: Pos = snake[0];
    let region = inspect(size, snake, food);
    match label(&region, &head, &food) {
        None => Err(PlanningFailure::Unreachable),
        Some((labels, level)) => {
            proof {
                lemma_decision(region@, food, head, labels@, level as nat);
                lemma_first_touch_unique(region@, food, head, level as nat);
            }
            match choose_step(&head, &labels) {
                None => Err(PlanningFailure::NoStep),
                Some(next) => direction_to(&head, &next),
            }
        },
    }
}

} // verus!
