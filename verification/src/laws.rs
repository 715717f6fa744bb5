//! What holds of every plan of the autopilot.

use crate::ai::{
    adjacent, heading, lemma_neighbours_adjacent, neighbours, plan, step_towards, PlanningFailure,
};
use crate::game::{step_from, Direction, GameView};
use crate::grid::{is_free, Pos, Size};
use crate::reach::{free_cells, lemma_explore_finds, lemma_inspected};
use crate::rings::{lemma_first_touch_unique, touches, within};
use crate::search::inspected;
use crate::walks::{
    lemma_first_touch_exists, lemma_first_within_exists, lemma_rings_end, lemma_within_wider,
};
use vstd::prelude::*;

verus! {

/// Where the autopilot gives a heading, it is that of the step from the head
/// to the returned cell: a cell next to the head that is the food or was
/// inspected.
pub proof fn lemma_plan_step(size: Size, snake: Seq<Pos>, food: Pos) -> (s: Pos)
    requires
        snake.len() > 0,
        exists|k: nat|
            k <= inspected(size, snake, food).len() && #[trigger] touches(
                inspected(size, snake, food),
                food,
                snake[0],
                k,
            ),
    ensures
        adjacent(snake[0], s),
        s == food || inspected(size, snake, food).contains(s),
        plan(size, snake, food) == heading(snake[0], s),
        plan(size, snake, food) is Ok,
{
    let head = snake[0];
    let region = inspected(size, snake, food);
    let k0 = choose|k: nat| k <= region.len() && #[trigger] touches(region, food, head, k);
    let k = lemma_first_touch_exists(region, food, head, k0);
    lemma_first_touch_unique(region, food, head, k);
    let ns = neighbours(head);
    let n = choose|n: Pos| #[trigger] adjacent(head, n) && within(region, food, n, k);
    lemma_neighbours_adjacent(head, n);
    let a = choose|a: int| 0 <= a < ns.len() && ns[a] == n;
    lemma_first_within_exists(region, food, ns, k, a);
    step_towards(region, food, head, k)
}

/// The autopilot reports a snake without a head for the empty snake and for
/// no other, and never a step that is none.
pub proof fn lemma_plan_failures(size: Size, snake: Seq<Pos>, food: Pos)
    ensures
        plan(size, snake, food) == Err::<Direction, PlanningFailure>(PlanningFailure::NoHead)
            <==> snake.len() == 0,
        plan(size, snake, food) != Err::<Direction, PlanningFailure>(PlanningFailure::NoStep),
{
    if snake.len() > 0 {
        let head = snake[0];
        let region = inspected(size, snake, food);
        if exists|k: nat| k <= region.len() && #[trigger] touches(region, food, head, k) {
            lemma_plan_step(size, snake, food);
        }
    }
}

/// The autopilot reports that the food is out of reach exactly where no cell
/// next to the head lies within any number of steps of the food through the
/// inspected cells, and gives a heading where one does: counting no more
/// rings than there are inspected cells loses nothing.
pub proof fn lemma_out_of_reach(size: Size, snake: Seq<Pos>, food: Pos)
    requires
        snake.len() > 0,
    ensures
        plan(size, snake, food) == Err::<Direction, PlanningFailure>(PlanningFailure::Unreachable)
            <==> forall|k: nat| !touches(inspected(size, snake, food), food, snake[0], k),
        plan(size, snake, food) is Ok <==> exists|k: nat|
            touches(inspected(size, snake, food), food, snake[0], k),
{
    let head = snake[0];
    let region = inspected(size, snake, food);
    lemma_inspected(size, snake, food);
    if exists|k: nat| touches(region, food, head, k) {
        let k = choose|k: nat| touches(region, food, head, k);
        lemma_rings_end(region, food, head, k);
        lemma_plan_step(size, snake, food);
    }
}

/// The heading that the autopilot gives leads the head onto the food or onto
/// a free cell of the field: never off the field, and onto the snake only
/// where the food lies there.
pub proof fn lemma_plan_avoids_collision(size: Size, snake: Seq<Pos>, food: Pos, d: Direction)
    requires
        snake.len() > 0,
        plan(size, snake, food) == Ok::<Direction, PlanningFailure>(d),
    ensures
        step_from(snake[0], d) matches Some(c) && (c == food || is_free(size, snake, c)),
{
    lemma_plan_step(size, snake, food);
    lemma_inspected(size, snake, food);
}

/// Where no walk over free cells leads from a cell next to the head to the
/// food, however long, the autopilot reports that the food is out of reach.
pub proof fn lemma_enclosed_food_fails(size: Size, snake: Seq<Pos>, food: Pos)
    requires
        snake.len() > 0,
        forall|k: nat| !touches(free_cells(size, snake), food, snake[0], k),
    ensures
        plan(size, snake, food) == Err::<Direction, PlanningFailure>(PlanningFailure::Unreachable),
{
    let head = snake[0];
    let region = inspected(size, snake, food);
    let free = free_cells(size, snake);
    lemma_inspected(size, snake, food);
    assert forall|k: nat| !touches(region, food, head, k) by {
        if touches(region, food, head, k) {
            let n = choose|n: Pos| #[trigger] adjacent(head, n) && within(region, food, n, k);
            lemma_within_wider(region, free, food, n, k);
            assert(touches(free, food, head, k));
        }
    }
}

/// Where a walk over free cells leads from a cell next to the head to the
/// food, the autopilot gives a heading.
pub proof fn lemma_reachable_food_is_found(size: Size, snake: Seq<Pos>, food: Pos)
    requires
        snake.len() > 0,
        exists|k: nat| touches(free_cells(size, snake), food, snake[0], k),
    ensures
        plan(size, snake, food) is Ok,
{
    let head = snake[0];
    let free = free_cells(size, snake);
    let k = choose|k: nat| touches(free, food, head, k);
    let n = choose|n: Pos| #[trigger] adjacent(head, n) && within(free, food, n, k);
    let work = neighbours(head);
    let seen = Set::<Pos>::empty();
    assert forall|w: Pos| work.contains(w) <==> adjacent(head, w) by {
        lemma_neighbours_adjacent(head, w);
    }
    lemma_explore_finds(size, snake, food, head, work, seen, n, k);
    lemma_out_of_reach(size, snake, food);
}

/// The autopilot gives a heading where a walk over free cells leads from a
/// cell next to the head to the food, and nowhere else.
pub proof fn lemma_plan_when_reachable(size: Size, snake: Seq<Pos>, food: Pos)
    requires
        snake.len() > 0,
    ensures
        plan(size, snake, food) is Ok <==> exists|k: nat|
            touches(free_cells(size, snake), food, snake[0], k),
{
    if exists|k: nat| touches(free_cells(size, snake), food, snake[0], k) {
        lemma_reachable_food_is_found(size, snake, food);
    } else {
        lemma_enclosed_food_fails(size, snake, food);
    }
}

/// A snake that takes the heading of the autopilot survives its next step,
/// in a game that keeps the rules and whose food lies off the snake.
pub proof fn lemma_autopilot_survives(v: GameView, d: Direction, draw: (u16, u16))
    requires
        v.wf(),
        !v.snake.contains(v.food),
        plan(v.field, v.snake, v.food) == Ok::<Direction, PlanningFailure>(d),
    ensures
        !((GameView { direction: d, ..v }).step(draw).1 is Die),
{
    lemma_plan_avoids_collision(v.field, v.snake, v.food, d);
}

} // verus!
