//! What the search inspects: free cells only, finitely many, and with them a
//! way to the food wherever a walk over free cells leads there.

use crate::ai::{adjacent, lemma_concat_contains, lemma_neighbours_adjacent, neighbours};
use crate::grid::{area, in_bounds, is_free, Pos, Size};
use crate::rings::{touches, within};
use crate::search::{explore, inspected, lemma_nearest_exists, lemma_room_left, nearest};
use crate::walks::{lemma_within_onwards, lemma_within_wider};
use vstd::prelude::*;

verus! {

/// The free cells of the field.
pub open spec fn free_cells(size: Size, snake: Seq<Pos>) -> Set<Pos> {
    Set::new(|p: Pos| is_free(size, snake, p))
}

/// Every cell that the search inspects is a free cell or was inspected
/// before.
pub proof fn lemma_explore_free(
    size: Size,
    snake: Seq<Pos>,
    food: Pos,
    work: Seq<Pos>,
    seen: Set<Pos>,
    p: Pos,
)
    requires
        seen.finite(),
        forall|q: Pos| seen.contains(q) ==> in_bounds(size, q),
        explore(size, snake, food, work, seen).contains(p),
    ensures
        seen.contains(p) || is_free(size, snake, p),
    decreases area(size) - seen.len(), work.len(),
{
    if work.len() != 0 {
        lemma_nearest_exists(work, food);
        let i = nearest(work, food);
        let c = work[i];
        let fresh = is_free(size, snake, c) && !seen.contains(c);
        if fresh {
            lemma_room_left(size, seen, c);
        }
        if c != food {
            if fresh {
                lemma_explore_free(
                    size,
                    snake,
                    food,
                    work.remove(i) + neighbours(c),
                    seen.insert(c),
                    p,
                );
            } else {
                lemma_explore_free(size, snake, food, work.remove(i), seen, p);
            }
        }
    }
}

/// The cells that the search inspects are finitely many where those
/// inspected before are.
pub proof fn lemma_explore_finite(
    size: Size,
    snake: Seq<Pos>,
    food: Pos,
    work: Seq<Pos>,
    seen: Set<Pos>,
)
    requires
        seen.finite(),
        forall|q: Pos| seen.contains(q) ==> in_bounds(size, q),
    ensures
        explore(size, snake, food, work, seen).finite(),
    decreases area(size) - seen.len(), work.len(),
{
    if work.len() != 0 {
        lemma_nearest_exists(work, food);
        let i = nearest(work, food);
        let c = work[i];
        let fresh = is_free(size, snake, c) && !seen.contains(c);
        if fresh {
            lemma_room_left(size, seen, c);
        }
        if c != food {
            if fresh {
                lemma_explore_finite(
                    size,
                    snake,
                    food,
                    work.remove(i) + neighbours(c),
                    seen.insert(c),
                );
            } else {
                lemma_explore_finite(size, snake, food, work.remove(i), seen);
            }
        }
    }
}

/// The inspected cells are finitely many, and each is a free cell of the
/// field.
pub proof fn lemma_inspected(size: Size, snake: Seq<Pos>, food: Pos)
    ensures
        inspected(size, snake, food).finite(),
        forall|p: Pos| inspected(size, snake, food).contains(p) ==> is_free(size, snake, p),
{
    lemma_explore_finite(size, snake, food, neighbours(snake[0]), Set::empty());
    assert forall|p: Pos| inspected(size, snake, food).contains(p) implies is_free(
        size,
        snake,
        p,
    ) by {
        lemma_explore_free(size, snake, food, neighbours(snake[0]), Set::empty(), p);
    }
}

/// The cell is next to the head or next to an inspected cell.
pub open spec fn in_view(seen: Set<Pos>, head: Pos, w: Pos) -> bool {
    adjacent(head, w) || exists|c: Pos| seen.contains(c) && #[trigger] adjacent(c, w)
}

/// The search is under way: the inspected cells are free cells other than
/// the food, each joined to a neighbour of the head through inspected cells;
/// the candidates are cells in view; and of the cells in view the food and
/// every free cell not yet inspected is a candidate.
pub open spec fn under_way(
    size: Size,
    snake: Seq<Pos>,
    food: Pos,
    head: Pos,
    work: Seq<Pos>,
    seen: Set<Pos>,
) -> bool {
    &&& seen.finite()
    &&& !seen.contains(food)
    &&& forall|s: Pos| seen.contains(s) ==> is_free(size, snake, s)
    &&& forall|s: Pos| seen.contains(s) ==> exists|k: nat| touches(seen, s, head, k)
    &&& forall|w: Pos| work.contains(w) ==> in_view(seen, head, w)
    &&& forall|w: Pos|
        in_view(seen, head, w) && (w == food || is_free(size, snake, w)) ==> work.contains(w)
            || seen.contains(w)
}

/// With no candidate left and the food not met, no walk over free cells
/// leads from a cell in view to the food.
proof fn lemma_nothing_left(
    size: Size,
    snake: Seq<Pos>,
    food: Pos,
    head: Pos,
    seen: Set<Pos>,
    n: Pos,
    k: nat,
)
    requires
        under_way(size, snake, food, head, Seq::empty(), seen),
        in_view(seen, head, n),
    ensures
        !within(free_cells(size, snake), food, n, k),
    decreases k,
{
    if within(free_cells(size, snake), food, n, k) {
        if n != food {
            let d = choose|d: Pos| #[trigger]
                adjacent(d, n) && within(free_cells(size, snake), food, d, (k - 1) as nat);
            assert(adjacent(n, d));
            lemma_nothing_left(size, snake, food, head, seen, d, (k - 1) as nat);
        }
    }
}

/// The search that meets the food leaves a way through the inspected cells
/// from a neighbour of the head to the food.
proof fn lemma_food_met(
    size: Size,
    snake: Seq<Pos>,
    food: Pos,
    head: Pos,
    work: Seq<Pos>,
    seen: Set<Pos>,
    result: Set<Pos>,
) -> (k: nat)
    requires
        under_way(size, snake, food, head, work, seen),
        work.contains(food),
        seen.subset_of(result),
    ensures
        touches(result, food, head, k),
{
    if adjacent(head, food) {
        0
    } else {
        let c = choose|c: Pos| seen.contains(c) && #[trigger] adjacent(c, food);
        let j = choose|j: nat| touches(seen, c, head, j);
        let n = choose|n: Pos| #[trigger] adjacent(head, n) && within(seen, c, n, j);
        lemma_within_wider(seen, result, c, n, j);
        lemma_within_onwards(result, c, food, n, j);
        j + 1
    }
}

/// What a list holds after one of its places is taken out.
proof fn lemma_remove_contains(work: Seq<Pos>, i: int, w: Pos)
    requires
        0 <= i < work.len(),
    ensures
        work.remove(i).contains(w) ==> work.contains(w),
        work.contains(w) && w != work[i] ==> work.remove(i).contains(w),
{
    let rest = work.remove(i);
    if work.contains(w) && w != work[i] {
        let j = choose|j: int| 0 <= j < work.len() && work[j] == w;
        if j < i {
            assert(rest[j] == w);
        } else {
            assert(rest[j - 1] == w);
        }
    }
}

/// The search stays under way when it inspects a candidate that is free, new
/// to it and not the food, and takes the candidate's neighbours on.
proof fn lemma_inspecting(
    size: Size,
    snake: Seq<Pos>,
    food: Pos,
    head: Pos,
    work: Seq<Pos>,
    seen: Set<Pos>,
    i: int,
)
    requires
        under_way(size, snake, food, head, work, seen),
        0 <= i < work.len(),
        work[i] != food,
        is_free(size, snake, work[i]),
        !seen.contains(work[i]),
    ensures
        under_way(
            size,
            snake,
            food,
            head,
            work.remove(i) + neighbours(work[i]),
            seen.insert(work[i]),
        ),
{
    let c = work[i];
    let rest = work.remove(i);
    let more = rest + neighbours(c);
    let wider = seen.insert(c);
    assert(work.contains(c));
    assert forall|s: Pos| wider.contains(s) implies exists|k: nat|
        touches(wider, s, head, k) by {
        if s != c {
            let j = choose|j: nat| touches(seen, s, head, j);
            let n = choose|n: Pos| #[trigger] adjacent(head, n) && within(seen, s, n, j);
            lemma_within_wider(seen, wider, s, n, j);
            assert(touches(wider, s, head, j));
        } else if adjacent(head, c) {
            assert(touches(wider, c, head, 0));
        } else {
            let b = choose|b: Pos| seen.contains(b) && #[trigger] adjacent(b, c);
            let j = choose|j: nat| touches(seen, b, head, j);
            let n = choose|n: Pos| #[trigger] adjacent(head, n) && within(seen, b, n, j);
            lemma_within_wider(seen, wider, b, n, j);
            lemma_within_onwards(wider, b, c, n, j);
            assert(touches(wider, c, head, j + 1));
        }
    }
    assert forall|w: Pos| more.contains(w) implies in_view(wider, head, w) by {
        lemma_neighbours_adjacent(c, w);
        lemma_remove_contains(work, i, w);
    }
    assert forall|w: Pos|
        in_view(wider, head, w) && (w == food || is_free(size, snake, w)) implies more.contains(w)
        || wider.contains(w) by {
        lemma_concat_contains(rest, neighbours(c), w);
        lemma_neighbours_adjacent(c, w);
        lemma_remove_contains(work, i, w);
    }
}

/// The search stays under way when it drops a candidate that is not free or
/// not new to it, and not the food.
proof fn lemma_dropping(
    size: Size,
    snake: Seq<Pos>,
    food: Pos,
    head: Pos,
    work: Seq<Pos>,
    seen: Set<Pos>,
    i: int,
)
    requires
        under_way(size, snake, food, head, work, seen),
        0 <= i < work.len(),
        work[i] != food,
        !is_free(size, snake, work[i]) || seen.contains(work[i]),
    ensures
        under_way(size, snake, food, head, work.remove(i), seen),
{
    let rest = work.remove(i);
    assert forall|w: Pos| rest.contains(w) implies in_view(seen, head, w) by {
        lemma_remove_contains(work, i, w);
    }
    assert forall|w: Pos|
        in_view(seen, head, w) && (w == food || is_free(size, snake, w)) implies rest.contains(w)
        || seen.contains(w) by {
        lemma_remove_contains(work, i, w);
    }
}

/// A search under way, on a field where a walk over free cells leads from a
/// cell next to the head to the food, ends with a way through the inspected
/// cells from a neighbour of the head to the food.
pub proof fn lemma_explore_finds(
    size: Size,
    snake: Seq<Pos>,
    food: Pos,
    head: Pos,
    work: Seq<Pos>,
    seen: Set<Pos>,
    n: Pos,
    k: nat,
) -> (j: nat)
    requires
        under_way(size, snake, food, head, work, seen),
        adjacent(head, n),
        within(free_cells(size, snake), food, n, k),
    ensures
        touches(explore(size, snake, food, work, seen), food, head, j),
    decreases area(size) - seen.len(), work.len(),
{
    if work.len() == 0 {
        lemma_nothing_left(size, snake, food, head, seen, n, k);
        0
    } else {
        lemma_nearest_exists(work, food);
        let i = nearest(work, food);
        let c = work[i];
        let fresh = is_free(size, snake, c) && !seen.contains(c);
        if fresh {
            lemma_room_left(size, seen, c);
        }
        if c == food {
            lemma_food_met(
                size,
                snake,
                food,
                head,
                work,
                seen,
                explore(size, snake, food, work, seen),
            )
        } else if fresh {
            lemma_inspecting(size, snake, food, head, work, seen, i);
            lemma_explore_finds(
                size,
                snake,
                food,
                head,
                work.remove(i) + neighbours(c),
                seen.insert(c),
                n,
                k,
            )
        } else {
            lemma_dropping(size, snake, food, head, work, seen, i);
            lemma_explore_finds(size, snake, food, head, work.remove(i), seen, n, k)
        }
    }
}

} // verus!
