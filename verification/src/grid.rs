//! Cells of the playing field.

use std::collections::VecDeque;
use vstd::arithmetic::div_mod::{
    lemma_fundamental_div_mod, lemma_fundamental_div_mod_converse, lemma_multiply_divide_lt,
};
use vstd::prelude::*;
use vstd::relations::injective_on;
use vstd::set_lib::{lemma_int_range, lemma_len_subset, lemma_map_size, set_int_range};

verus! {

/// A cell of the field: column, then row.
pub type Pos = (u16, u16);

/// The extent of the field: width, then height.
pub type Size = (u16, u16);

/// The cell lies on a field of the given size.
pub open spec fn in_bounds(size: Size, p: Pos) -> bool {
    p.0 < size.0 && p.1 < size.1
}

/// A cell of the field that none of the given cells, those of a snake, lies
/// on.
pub open spec fn is_free(size: Size, snake: Seq<Pos>, c: Pos) -> bool {
    in_bounds(size, c) && !snake.contains(c)
}

/// The snake leaves a cell of the field free.
pub open spec fn has_free(size: Size, snake: Seq<Pos>) -> bool {
    exists|c: Pos| is_free(size, snake, c)
}

/// The number of cells of a field.
pub open spec fn area(size: Size) -> int {
    size.0 as int * size.1 as int
}

/// The place of a cell when the field is read row by row.
pub open spec fn rank(size: Size, p: Pos) -> int {
    p.1 as int * size.0 as int + p.0 as int
}

/// The cell at a place when the field is read row by row.
pub open spec fn cell_at(size: Size, i: int) -> Pos {
    ((i % size.0 as int) as u16, (i / size.0 as int) as u16)
}

/// Tells whether the cell lies on the field.
pub fn on_field(size: &Size, p: &Pos) -> (r: bool)
    ensures
        r == in_bounds(*size, *p),
{
    p.0 < size.0 && p.1 < size.1
}

/// Tells whether the cell is one of the given cells.
pub fn holds(cells: &VecDeque<Pos>, p: &Pos) -> (r: bool)
    ensures
        r == cells@.contains(*p),
{
    let mut i: usize = 0;
    while i < cells.len()
        invariant
            i <= cells.len(),
            forall|j: int| 0 <= j < i ==> cells@[j] != *p,
        decreases cells.len() - i,
    {
        let c: &Pos = &cells[i];
        if c.0 == p.0 && c.1 == p.1 {
            return true;
        }
        i += 1;
    }
    false
}

/// The rank of a cell of the field is below the field's area.
pub proof fn lemma_rank_bound(size: Size, p: Pos)
    requires
        in_bounds(size, p),
    ensures
        0 <= rank(size, p) < area(size),
{
    let w = size.0 as int;
    let h = size.1 as int;
    let y = p.1 as int;
    assert(y * w + w <= h * w) by (nonlinear_arith)
        requires
            y + 1 <= h,
            0 <= w,
    ;
}

/// Two cells of the field with the same rank are the same cell.
pub proof fn lemma_rank_injective(size: Size, p: Pos, q: Pos)
    requires
        in_bounds(size, p),
        in_bounds(size, q),
        rank(size, p) == rank(size, q),
    ensures
        p == q,
{
    let w = size.0 as int;
    let (a, b) = (p.1 as int, q.1 as int);
    if a < b {
        assert(a * w + w <= b * w) by (nonlinear_arith)
            requires
                a + 1 <= b,
                0 <= w,
        ;
    } else if b < a {
        assert(b * w + w <= a * w) by (nonlinear_arith)
            requires
                b + 1 <= a,
                0 <= w,
        ;
    }
}

/// The cell at the rank of a cell of the field is that cell.
pub proof fn lemma_cell_at_rank(size: Size, p: Pos)
    requires
        in_bounds(size, p),
    ensures
        cell_at(size, rank(size, p)) == p,
{
    lemma_fundamental_div_mod_converse(rank(size, p), size.0 as int, p.1 as int, p.0 as int);
}

/// The cell at a place below the field's area lies on the field, and its
/// rank is that place.
pub proof fn lemma_rank_cell_at(size: Size, i: int)
    requires
        0 <= i < area(size),
    ensures
        in_bounds(size, cell_at(size, i)),
        rank(size, cell_at(size, i)) == i,
        cell_at(size, i).0 == i % (size.0 as int),
        cell_at(size, i).1 == i / (size.0 as int),
{
    let w = size.0 as int;
    lemma_multiply_divide_lt(i, w, size.1 as int);
    lemma_fundamental_div_mod(i, w);
}

/// A finite set of cells of the field has no more members than the field has
/// cells.
pub proof fn lemma_cells_fit(size: Size, cells: Set<Pos>)
    requires
        cells.finite(),
        forall|p: Pos| cells.contains(p) ==> in_bounds(size, p),
    ensures
        cells.len() <= area(size),
{
    let f = |p: Pos| rank(size, p);
    assert(injective_on(f, cells)) by {
        assert forall|p: Pos, q: Pos|
            cells.contains(p) && cells.contains(q) && #[trigger] f(p) == #[trigger] f(q) implies p
            == q by {
            lemma_rank_injective(size, p, q);
        }
    }
    let ranks = cells.map(f);
    lemma_map_size(cells, ranks, f);
    let all = set_int_range(0, area(size));
    lemma_int_range(0, area(size));
    assert forall|i: int| ranks.contains(i) implies all.contains(i) by {
        let p = choose|p: Pos| cells.contains(p) && f(p) == i;
        lemma_rank_bound(size, p);
    }
    lemma_len_subset(ranks, all);
}

/// The cells of a field.
pub open spec fn field_cells(size: Size) -> Set<Pos> {
    Set::new(|p: Pos| in_bounds(size, p))
}

/// A field has as many cells as its area.
pub proof fn lemma_field_cells(size: Size)
    ensures
        field_cells(size).finite(),
        field_cells(size).len() == area(size),
{
    let f = |i: int| cell_at(size, i);
    let places = set_int_range(0, area(size));
    lemma_int_range(0, area(size));
    assert(injective_on(f, places)) by {
        assert forall|i: int, j: int|
            places.contains(i) && places.contains(j) && #[trigger] f(i) == #[trigger] f(j) implies i
            == j by {
            lemma_rank_cell_at(size, i);
            lemma_rank_cell_at(size, j);
        }
    }
    assert(places.map(f) =~= field_cells(size)) by {
        assert forall|p: Pos| field_cells(size).contains(p) implies places.map(f).contains(p) by {
            lemma_rank_bound(size, p);
            lemma_cell_at_rank(size, p);
            assert(places.contains(rank(size, p)) && f(rank(size, p)) == p);
        }
        assert forall|p: Pos| places.map(f).contains(p) implies field_cells(size).contains(p) by {
            let i = choose|i: int| places.contains(i) && f(i) == p;
            lemma_rank_cell_at(size, i);
        }
    }
    lemma_map_size(places, field_cells(size), f);
}

/// A snake of fewer cells than the field has leaves a cell of the field
/// free.
pub proof fn lemma_short_snake(size: Size, snake: Seq<Pos>)
    requires
        snake.len() < area(size),
    ensures
        has_free(size, snake),
{
    if !has_free(size, snake) {
        lemma_field_cells(size);
        snake.lemma_cardinality_of_set();
        assert forall|p: Pos| field_cells(size).contains(p) implies snake.to_set().contains(p) by {
            assert(!is_free(size, snake, p));
        }
        lemma_len_subset(field_cells(size), snake.to_set());
    }
}

/// A snake that lies on the field, on no cell twice, and leaves a cell of the
/// field free has fewer cells than the field.
pub proof fn lemma_free_cell_counts(size: Size, snake: Seq<Pos>)
    requires
        snake.no_duplicates(),
        forall|i: int| 0 <= i < snake.len() ==> in_bounds(size, #[trigger] snake[i]),
        has_free(size, snake),
    ensures
        snake.len() < area(size),
{
    let c = choose|c: Pos| is_free(size, snake, c);
    snake.unique_seq_to_set();
    let more = snake.to_set().insert(c);
    lemma_cells_fit(size, more);
}

/// A snake that lies on the field, on no cell twice, has no more cells than
/// the field.
pub proof fn lemma_snake_fits(size: Size, snake: Seq<Pos>)
    requires
        snake.no_duplicates(),
        forall|i: int| 0 <= i < snake.len() ==> in_bounds(size, #[trigger] snake[i]),
    ensures
        snake.len() <= area(size),
{
    snake.unique_seq_to_set();
    lemma_cells_fit(size, snake.to_set());
}

} // verus!
