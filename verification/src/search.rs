//! The first phase of the autopilot: which cells the snake's head can get to
//! on its way towards the food.
//!
//! The search keeps a work list of candidates and always looks at the one
//! nearest to the food; of several equally near it looks at the one that
//! joined the list last.

use crate::ai::{distance, get_distance, get_neighbours, neighbours};
use crate::cells::CellSet;
use crate::grid::{area, holds, in_bounds, is_free, lemma_cells_fit, on_field, Pos, Size};
use std::collections::VecDeque;
use vstd::prelude::*;

verus! {

/// The place in the work list of the candidate to look at next: none is
/// nearer to the food, and those after it are farther from it.
pub open spec fn is_nearest(work: Seq<Pos>, food: Pos, i: int) -> bool {
    &&& 0 <= i < work.len()
    &&& forall|j: int| 0 <= j < work.len() ==> distance(work[i], food) <= distance(work[j], food)
    &&& forall|j: int| i < j < work.len() ==> distance(work[i], food) < distance(work[j], food)
}

/// The place in a work list, which is not empty, of the candidate to look at
/// next.
pub open spec fn nearest(work: Seq<Pos>, food: Pos) -> int {
    choose|i: int| is_nearest(work, food, i)
}

/// Only one place in a work list holds the candidate to look at next.
pub proof fn lemma_nearest_unique(work: Seq<Pos>, food: Pos, i: int)
    requires
        is_nearest(work, food, i),
    ensures
        nearest(work, food) == i,
{
    let j = nearest(work, food);
    if i < j {
        assert(distance(work[i], food) < distance(work[j], food));
    } else if j < i {
        assert(distance(work[j], food) < distance(work[i], food));
    }
}

/// A work list that is not empty holds a candidate to look at next.
pub proof fn lemma_nearest_exists(work: Seq<Pos>, food: Pos)
    requires
        work.len() > 0,
    ensures
        is_nearest(work, food, nearest(work, food)),
    decreases work.len(),
{
    if work.len() == 1 {
        assert(is_nearest(work, food, 0));
    } else {
        let front = work.drop_last();
        lemma_nearest_exists(front, food);
        let i = nearest(front, food);
        let last = work.len() - 1;
        assert forall|j: int| 0 <= j < last implies front[j] == work[j] by {}
        if distance(work[last], food) <= distance(front[i], food) {
            assert(is_nearest(work, food, last));
        } else {
            assert(is_nearest(work, food, i));
        }
    }
}

/// Finds in a work list the candidate to look at next.
pub fn find_nearest(work: &Vec<Pos>, food: &Pos) -> (i: usize)
    requires
        work.len() > 0,
    ensures
        i < work.len(),
        i == nearest(work@, *food),
{
    let mut best: usize = 0;
    let mut least: u64 = get_distance(&work[0], food);
    let mut j: usize = 1;
    while j < work.len()
        invariant
            1 <= j <= work.len(),
            best < j,
            least == distance(work@[best as int], *food),
            is_nearest(work@.take(j as int), *food, best as int),
        decreases work.len() - j,
    {
        let d: u64 = get_distance(&work[j], food);
        if d <= least {
            best = j;
            least = d;
        }
        j += 1;
    }
    proof {
        assert(work@.take(j as int) =~= work@);
        lemma_nearest_unique(work@, *food, best as int);
    }
    best
}

/// The cells that the search has inspected when it ends, from a work list of
/// candidates and the cells inspected so far. The search takes the nearest
/// candidate off the list. A free cell that is new to it is inspected, and
/// its neighbours join the list. The search ends with the food, or with
/// nothing left to look at.
pub open spec fn explore(
    size: Size,
    snake: Seq<Pos>,
    food: Pos,
    work: Seq<Pos>,
    seen: Set<Pos>,
) -> Set<Pos>
    decreases area(size) - seen.len(), work.len(),
    when seen.finite() && forall|p: Pos| seen.contains(p) ==> in_bounds(size, p)
    via explore_decreases
{
    if work.len() == 0 {
        seen
    } else {
        let i = nearest(work, food);
        let c = work[i];
        let fresh = is_free(size, snake, c) && !seen.contains(c);
        if c == food {
            if fresh {
                seen.insert(c)
            } else {
                seen
            }
        } else if fresh {
            explore(size, snake, food, work.remove(i) + neighbours(c), seen.insert(c))
        } else {
            explore(size, snake, food, work.remove(i), seen)
        }
    }
}

/// One more inspected cell still fits on the field.
pub proof fn lemma_room_left(size: Size, seen: Set<Pos>, c: Pos)
    requires
        seen.finite(),
        forall|p: Pos| seen.contains(p) ==> in_bounds(size, p),
        in_bounds(size, c),
        !seen.contains(c),
    ensures
        seen.insert(c).len() == seen.len() + 1,
        seen.len() < area(size),
{
    lemma_cells_fit(size, seen.insert(c));
}

#[via_fn]
proof fn explore_decreases(size: Size, snake: Seq<Pos>, food: Pos, work: Seq<Pos>, seen: Set<Pos>) {
    if work.len() != 0 {
        lemma_nearest_exists(work, food);
        let c = work[nearest(work, food)];
        if is_free(size, snake, c) && !seen.contains(c) {
            lemma_room_left(size, seen, c);
        }
    }
}

/// The cells that the search inspects from the neighbours of the snake's
/// head, for a snake that is not empty.
pub open spec fn inspected(size: Size, snake: Seq<Pos>, food: Pos) -> Set<Pos> {
    explore(size, snake, food, neighbours(snake[0]), Set::empty())
}

/// Inspects the field from the neighbours of the snake's head, nearest
/// candidate first, until the food is met or nothing is left to look at.
pub fn inspect(size: Size, snake: &VecDeque<Pos>, food: Pos) -> (seen: CellSet)
    requires
        snake@.len() > 0,
    ensures
        seen.wf(),
        seen@ == inspected(size, snake@, food),
{
    let mut work: Vec<Pos> = get_neighbours(&snake[0]);
    let mut seen = CellSet::new();
    let mut found = false;
    while !found && work.len() > 0
        invariant
            seen.wf(),
            seen@.finite(),
            forall|p: Pos| seen@.contains(p) ==> in_bounds(size, p),
            found ==> seen@ == inspected(size, snake@, food),
            !found ==> explore(size, snake@, food, work@, seen@) == inspected(size, snake@, food),
        decreases area(size) - seen@.len(), work.len(),
    {
        let i: usize = find_nearest(&work, &food);
        let candidate: Pos = work.remove(i);
        if candidate.0 == food.0 && candidate.1 == food.1 {
            found = true;
        }
        if on_field(&size, &candidate) && !holds(snake, &candidate) && !seen.contains(candidate) {
            proof {
                lemma_room_left(size, seen@, candidate);
            }
            seen.insert(candidate);
            let mut around: Vec<Pos> = get_neighbours(&candidate);
            work.append(&mut around);
        }
    }
    seen
}

} // verus!
