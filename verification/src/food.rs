//! Where the food goes.
//!
//! A pair of numbers, drawn at random, names a cell of the field. The food
//! goes on that cell, or, where the snake lies on it, on the first free cell
//! after it when the field is read row by row and, past its end, from its
//! start again.

use crate::grid::{
    area, cell_at, has_free, holds, in_bounds, is_free, lemma_cell_at_rank, lemma_rank_bound,
    lemma_rank_cell_at, rank, Pos, Size,
};
use std::collections::VecDeque;
use vstd::arithmetic::div_mod::{lemma_fundamental_div_mod_converse, lemma_small_mod};
use vstd::prelude::*;

verus! {

/// The cell that a pair of drawn numbers names on a field.
pub open spec fn drawn_cell(size: Size, draw: (u16, u16)) -> Pos {
    ((draw.0 % size.0) as u16, (draw.1 % size.1) as u16)
}

/// Reduces a pair of drawn numbers to a cell of the field.
pub fn cell_for_draw(size: &Size, draw: (u16, u16)) -> (c: Pos)
    requires
        size.0 > 0,
        size.1 > 0,
    ensures
        c == drawn_cell(*size, draw),
        in_bounds(*size, c),
{
    (draw.0 % size.0, draw.1 % size.1)
}

/// The cell `k` places after `start` when the field is read row by row, and
/// again from its start past its end.
pub open spec fn probe(size: Size, start: Pos, k: int) -> Pos {
    cell_at(size, (rank(size, start) + k) % area(size))
}

/// `k` places after `start` lies the first free cell.
pub open spec fn is_first_free(size: Size, snake: Seq<Pos>, start: Pos, k: int) -> bool {
    &&& 0 <= k < area(size)
    &&& is_free(size, snake, probe(size, start, k))
    &&& forall|j: int| 0 <= j < k ==> !is_free(size, snake, #[trigger] probe(size, start, j))
}

/// The cell for the food: the first free cell from `start` on, and `start`
/// itself where the snake leaves no cell free.
pub open spec fn food_from(size: Size, snake: Seq<Pos>, start: Pos) -> Pos {
    if has_free(size, snake) {
        probe(size, start, choose|k: int| is_first_free(size, snake, start, k))
    } else {
        start
    }
}

/// Every cell of the field lies less than the field's area after `start`.
pub proof fn lemma_probe_reaches(size: Size, start: Pos, c: Pos) -> (k: int)
    requires
        in_bounds(size, start),
        in_bounds(size, c),
    ensures
        0 <= k < area(size),
        probe(size, start, k) == c,
{
    let n = area(size);
    let s = rank(size, start);
    let t = rank(size, c);
    lemma_rank_bound(size, start);
    lemma_rank_bound(size, c);
    lemma_cell_at_rank(size, c);
    if s <= t {
        lemma_small_mod(t as nat, n as nat);
        t - s
    } else {
        lemma_fundamental_div_mod_converse(t + n, n, 1, t);
        t - s + n
    }
}

/// The cell `k` places after `start`, for `k` below the field's area, lies on
/// the field, at the place that the sum of the two has in the field or, past
/// its end, that much from its start.
pub proof fn lemma_probe_cell(size: Size, start: Pos, k: int)
    requires
        in_bounds(size, start),
        0 <= k < area(size),
    ensures
        in_bounds(size, probe(size, start, k)),
        rank(size, start) + k < area(size) ==> probe(size, start, k) == cell_at(
            size,
            rank(size, start) + k,
        ),
        rank(size, start) + k >= area(size) ==> probe(size, start, k) == cell_at(
            size,
            rank(size, start) + k - area(size),
        ),
{
    let n = area(size);
    let s = rank(size, start);
    lemma_rank_bound(size, start);
    if s + k < n {
        lemma_small_mod((s + k) as nat, n as nat);
        lemma_rank_cell_at(size, s + k);
    } else {
        lemma_fundamental_div_mod_converse(s + k, n, 1, s + k - n);
        lemma_rank_cell_at(size, s + k - n);
    }
}

/// Where a free cell lies `j` places after `start`, the first free cell lies
/// no further.
pub proof fn lemma_first_free_before(size: Size, snake: Seq<Pos>, start: Pos, j: int) -> (k: int)
    requires
        0 <= j < area(size),
        is_free(size, snake, probe(size, start, j)),
    ensures
        0 <= k <= j,
        is_first_free(size, snake, start, k),
    decreases j,
{
    if exists|i: int| 0 <= i < j && is_free(size, snake, #[trigger] probe(size, start, i)) {
        let i = choose|i: int| 0 <= i < j && is_free(size, snake, #[trigger] probe(size, start, i));
        lemma_first_free_before(size, snake, start, i)
    } else {
        j
    }
}

/// The cell for the food lies on the field, and off the snake where the
/// snake leaves a cell free.
pub proof fn lemma_food_from(size: Size, snake: Seq<Pos>, start: Pos)
    requires
        in_bounds(size, start),
    ensures
        in_bounds(size, food_from(size, snake, start)),
        has_free(size, snake) ==> !snake.contains(food_from(size, snake, start)),
{
    if has_free(size, snake) {
        let c = choose|c: Pos| is_free(size, snake, c);
        let j = lemma_probe_reaches(size, start, c);
        let k = lemma_first_free_before(size, snake, start, j);
        lemma_first_free_unique(size, snake, start, k);
    }
}

/// Only one number of places leads from `start` to the first free cell.
pub proof fn lemma_first_free_unique(size: Size, snake: Seq<Pos>, start: Pos, k: int)
    requires
        is_first_free(size, snake, start, k),
    ensures
        has_free(size, snake),
        food_from(size, snake, start) == probe(size, start, k),
{
    let j = choose|j: int| is_first_free(size, snake, start, j);
    if j < k {
        assert(!is_free(size, snake, probe(size, start, j)));
    } else if k < j {
        assert(!is_free(size, snake, probe(size, start, k)));
    }
}

/// Finds the cell for the food from the cell that was drawn.
pub fn place_food(size: &Size, snake: &VecDeque<Pos>, start: Pos) -> (food: Pos)
    requires
        in_bounds(*size, start),
    ensures
        food == food_from(*size, snake@, start),
        in_bounds(*size, food),
        has_free(*size, snake@) ==> !snake@.contains(food),
{
    let w: u64 = size.0 as u64;
    let h: u64 = size.1 as u64;
    assert(w * h <= 65535 * 65535 && w * h == area(*size)) by (nonlinear_arith)
        requires
            w == size.0,
            h == size.1,
            w <= 65535,
            h <= 65535,
            area(*size) == (size.0 as int) * (size.1 as int),
    ;
    let n: u64 = w * h;
    proof {
        lemma_rank_bound(*size, start);
    }
    let s: u64 = start.1 as u64 * w + start.0 as u64;
    let mut k: u64 = 0;
    while k < n
        invariant
            in_bounds(*size, start),
            w == size.0,
            n == area(*size),
            n <= 65535 * 65535,
            s == rank(*size, start),
            s < n,
            k <= n,
            forall|j: int| 0 <= j < k ==> !is_free(*size, snake@, #[trigger] probe(*size, start, j)),
        decreases n - k,
    {
        let i: u64 = if s + k < n {
            s + k
        } else {
            s + k - n
        };
        proof {
            lemma_probe_cell(*size, start, k as int);
        }
        let c: Pos = ((i % w) as u16, (i / w) as u16);
        if !holds(snake, &c) {
            proof {
                lemma_first_free_unique(*size, snake@, start, k as int);
            }
            return c;
        }
        k += 1;
    }
    proof {
        if has_free(*size, snake@) {
            let c = choose|c: Pos| is_free(*size, snake@, c);
            lemma_probe_reaches(*size, start, c);
        }
    }
    start
}

} // verus!
