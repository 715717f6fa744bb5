//! The rules of the game: the field, the snake, the food and one step.

use crate::food::{cell_for_draw, drawn_cell, food_from, lemma_food_from, place_food};
use crate::grid::{
    area, has_free, holds, in_bounds, is_free, lemma_free_cell_counts, lemma_short_snake,
    lemma_snake_fits, on_field,
};
use crate::random::random_u16;
use std::collections::VecDeque;
use vstd::prelude::*;

verus! {

pub use crate::grid::Pos;
pub use crate::grid::Size;

/// The way the snake is heading. Left and right lie on one axis, up and down
/// on the other.
#[derive(Debug, Clone, Copy, PartialEq, Eq, PartialOrd, Structural)]
pub enum Direction {
    Left,
    Up,
    Right,
    Down,
}

/// The axis that a heading lies on.
#[derive(Debug, Clone, Copy, PartialEq, Eq, Structural)]
pub enum Axis {
    Horizontal,
    Vertical,
}

/// What one step of the snake came to.
#[derive(Debug, Clone, Copy, PartialEq, Eq)]
pub enum MoveResult {
    /// The head moved to `new_pos` and the tail followed.
    Moved { new_pos: Pos },
    /// The step led off the field or onto the snake: nothing has changed.
    Die,
    /// The head moved onto the food at `new_pos`, the snake grew by that
    /// cell, and new food lies at `food`.
    Yummi { new_pos: Pos, food: Pos },
}

/// Why no game was made.
#[derive(Debug, Clone, Copy, PartialEq, Eq, Structural)]
pub enum GameError {
    /// The field is narrower or lower than five cells.
    FieldTooSmall,
}

/// The axis of a heading.
pub open spec fn axis_of(d: Direction) -> Axis {
    match d {
        Direction::Left | Direction::Right => Axis::Horizontal,
        Direction::Up | Direction::Down => Axis::Vertical,
    }
}

/// The cell one step from a cell in a heading, where the coordinates have
/// room for it.
pub open spec fn step_from(p: Pos, d: Direction) -> Option<Pos> {
    match d {
        Direction::Left => if p.0 > 0 {
            Some(((p.0 - 1) as u16, p.1))
        } else {
            None
        },
        Direction::Up => if p.1 > 0 {
            Some((p.0, (p.1 - 1) as u16))
        } else {
            None
        },
        Direction::Right => if p.0 < u16::MAX {
            Some(((p.0 + 1) as u16, p.1))
        } else {
            None
        },
        Direction::Down => if p.1 < u16::MAX {
            Some((p.0, (p.1 + 1) as u16))
        } else {
            None
        },
    }
}

/// The column of the head of the snake that a game starts with: the middle of
/// the field, and on a field too narrow for that the fifth column.
pub open spec fn start_column(size: Size) -> int {
    if size.0 / 2 >= 4 {
        size.0 as int / 2
    } else {
        4
    }
}

/// The snake that a game starts with: five cells in the middle row, from the
/// head towards the left.
pub open spec fn initial_snake(size: Size) -> Seq<Pos> {
    Seq::new(5, |i: int| ((start_column(size) - i) as u16, (size.1 / 2) as u16))
}

/// A game as its rules see it.
pub struct GameView {
    /// The size of the field.
    pub field: Size,
    /// The cells of the snake, from the head to the tail.
    pub snake: Seq<Pos>,
    /// The cell of the food.
    pub food: Pos,
    /// The heading of the snake.
    pub direction: Direction,
}

impl GameView {
    /// The field has room for a snake, the snake has a head, lies on the
    /// field and on no cell twice, and the food lies on the field, off the
    /// snake wherever the snake leaves a cell free.
    pub open spec fn wf(self) -> bool {
        &&& self.field.0 >= 5
        &&& self.field.1 >= 5
        &&& self.snake.len() >= 1
        &&& forall|i: int|
            0 <= i < self.snake.len() ==> in_bounds(self.field, #[trigger] self.snake[i])
        &&& self.snake.no_duplicates()
        &&& in_bounds(self.field, self.food)
        &&& has_free(self.field, self.snake) ==> !self.snake.contains(self.food)
    }

    /// The game that starts on a field, with the food where a draw puts it.
    pub open spec fn start(size: Size, draw: (u16, u16)) -> GameView {
        GameView {
            field: size,
            snake: initial_snake(size),
            food: food_from(size, initial_snake(size), drawn_cell(size, draw)),
            direction: Direction::Right,
        }
    }

    /// The game after a request for a heading: one on the axis of the
    /// present heading is ignored, one on the other axis is taken.
    pub open spec fn turn(self, d: Direction) -> GameView {
        if axis_of(d) == axis_of(self.direction) {
            self
        } else {
            GameView { direction: d, ..self }
        }
    }

    /// The cell that the head steps onto, where the step stays on the field
    /// and off the snake.
    pub open spec fn target(self) -> Option<Pos> {
        match step_from(self.snake[0], self.direction) {
            Some(c) => if is_free(self.field, self.snake, c) {
                Some(c)
            } else {
                None
            },
            None => None,
        }
    }

    /// The game after one step, and what the step came to. A step off the
    /// field or onto the snake changes nothing. A step onto the food makes
    /// that cell the head, keeps the tail and puts new food where the draw
    /// says. Any other step makes the cell the head and drops the tail.
    pub open spec fn step(self, draw: (u16, u16)) -> (GameView, MoveResult) {
        match self.target() {
            None => (self, MoveResult::Die),
            Some(c) => {
                let grown = seq![c] + self.snake;
                if c == self.food {
                    let food = food_from(self.field, grown, drawn_cell(self.field, draw));
                    (
                        GameView { snake: grown, food: food, ..self },
                        MoveResult::Yummi { new_pos: c, food: food },
                    )
                } else {
                    (
                        GameView { snake: grown.drop_last(), ..self },
                        MoveResult::Moved { new_pos: c },
                    )
                }
            },
        }
    }
}

/// A game: a field, a snake on it, the food and the snake's heading.
#[derive(Debug)]
pub struct Game {
    field: Size,
    snake: VecDeque<Pos>,
    food: Pos,
    direction: Direction,
}

impl View for Game {
    type V = GameView;

    closed spec fn view(&self) -> GameView {
        GameView {
            field: self.field,
            snake: self.snake@,
            food: self.food,
            direction: self.direction,
        }
    }
}

/// The axis of a heading.
pub fn axis(d: Direction) -> (a: Axis)
    ensures
        a == axis_of(d),
{
    match d {
        Direction::Left | Direction::Right => Axis::Horizontal,
        Direction::Up | Direction::Down => Axis::Vertical,
    }
}

/// The cell one step from a cell in a heading, where the coordinates have
/// room for it.
pub fn next_cell(p: &Pos, d: Direction) -> (r: Option<Pos>)
    ensures
        r == step_from(*p, d),
{
    match d {
        Direction::Left => if p.0 > 0 {
            Some((p.0 - 1, p.1))
        } else {
            None
        },
        Direction::Up => if p.1 > 0 {
            Some((p.0, p.1 - 1))
        } else {
            None
        },
        Direction::Right => if p.0 < u16::MAX {
            Some((p.0 + 1, p.1))
        } else {
            None
        },
        Direction::Down => if p.1 < u16::MAX {
            Some((p.0, p.1 + 1))
        } else {
            None
        },
    }
}

/// On a field of five cells or more each way, the snake that a game starts
/// with has five cells, all of them on the field and no two the same, and
/// leaves the first cell of the field free.
pub proof fn lemma_initial_snake(size: Size)
    requires
        size.0 >= 5,
        size.1 >= 5,
    ensures
        initial_snake(size).len() == 5,
        initial_snake(size).no_duplicates(),
        forall|i: int| 0 <= i < 5 ==> in_bounds(size, #[trigger] initial_snake(size)[i]),
        is_free(size, initial_snake(size), (0, 0)),
        has_free(size, initial_snake(size)),
{
    let snake = initial_snake(size);
    assert(is_free(size, snake, (0, 0)));
}

/// A game that starts on a field of five cells or more each way keeps the
/// rules, whatever was drawn for the food.
pub proof fn lemma_start_wf(size: Size, draw: (u16, u16))
    requires
        size.0 >= 5,
        size.1 >= 5,
    ensures
        GameView::start(size, draw).wf(),
        GameView::start(size, draw).snake.len() == 5,
        GameView::start(size, draw).direction == Direction::Right,
{
    lemma_food_from(size, initial_snake(size), drawn_cell(size, draw));
}

/// One step of a game that keeps the rules gives a game that keeps them: the
/// snake lies on no cell twice. A step onto the food makes the snake one cell
/// longer, any other step that the snake survives keeps its length, and a
/// step that it does not survive changes nothing.
pub proof fn lemma_step(v: GameView, draw: (u16, u16))
    requires
        v.wf(),
    ensures
        v.step(draw).0.wf(),
        v.step(draw).0.snake.no_duplicates(),
        v.step(draw).1 is Yummi ==> v.step(draw).0.snake.len() == v.snake.len() + 1,
        v.step(draw).1 is Moved ==> v.step(draw).0.snake.len() == v.snake.len(),
        v.step(draw).1 is Die ==> v.step(draw).0 == v,
        v.step(draw).0.field == v.field,
        v.step(draw).0.direction == v.direction,
{
    match v.target() {
        None => {},
        Some(c) => {
            let grown = seq![c] + v.snake;
            if c == v.food {
                lemma_food_from(v.field, grown, drawn_cell(v.field, draw));
            }
        },
    }
}

/// In a game that keeps the rules the food lies off the snake until the snake
/// fills the field: the snake leaves a cell free exactly as long as it has
/// fewer cells than the field.
pub proof fn lemma_food_off_snake(v: GameView)
    requires
        v.wf(),
    ensures
        has_free(v.field, v.snake) <==> v.snake.len() < area(v.field),
        v.snake.len() < area(v.field) ==> !v.snake.contains(v.food),
        v.snake.len() <= area(v.field),
{
    if v.snake.len() < area(v.field) {
        lemma_short_snake(v.field, v.snake);
    }
    if has_free(v.field, v.snake) {
        lemma_free_cell_counts(v.field, v.snake);
    }
    lemma_snake_fits(v.field, v.snake);
}

/// A request for a heading changes at most the heading, and a game that
/// keeps the rules goes on keeping them.
pub proof fn lemma_turn(v: GameView, d: Direction)
    ensures
        v.turn(d).field == v.field,
        v.turn(d).snake == v.snake,
        v.turn(d).food == v.food,
        axis_of(d) == axis_of(v.direction) ==> v.turn(d).direction == v.direction,
        axis_of(d) != axis_of(v.direction) ==> v.turn(d).direction == d,
        v.wf() ==> v.turn(d).wf(),
{
}

impl Game {
    /// The game keeps the rules.
    pub open spec fn wf(&self) -> bool {
        self@.wf()
    }

    /// Starts a game on a field of the given size, with food on a cell drawn
    /// at random. A field narrower or lower than five cells is refused.
    pub fn new(size: Size) -> (r: Result<Game, GameError>)
        ensures
            match r {
                Ok(g) => {
                    &&& size.0 >= 5 && size.1 >= 5
                    &&& exists|draw: (u16, u16)| g@ == GameView::start(size, draw)
                    &&& g.wf()
                    &&& g@.field == size
                    &&& g@.snake == initial_snake(size)
                    &&& g@.snake.len() == 5
                    &&& g@.direction == Direction::Right
                },
                Err(e) => e == GameError::FieldTooSmall && (size.0 < 5 || size.1 < 5),
            },
    {
        if size.0 < 5 || size.1 < 5 {
            return Err(GameError::FieldTooSmall);
        }
        let draw: Pos = Game::rand_food(&size);
        Game::with_draw(size, draw)
    }

    /// Starts a game on a field of the given size, with food where the pair
    /// of numbers puts it. A field narrower or lower than five cells is
    /// refused.
    pub fn with_draw(size: Size, draw: (u16, u16)) -> (r: Result<Game, GameError>)
        ensures
            match r {
                Ok(g) => {
                    &&& size.0 >= 5 && size.1 >= 5
                    &&& g@ == GameView::start(size, draw)
                    &&& g.wf()
                    &&& g@.snake.len() == 5
                },
                Err(e) => e == GameError::FieldTooSmall && (size.0 < 5 || size.1 < 5),
            },
    {
        if size.0 < 5 || size.1 < 5 {
            return Err(GameError::FieldTooSmall);
        }
        let snake: VecDeque<Pos> = Game::build_snake(&size);
        let start: Pos = cell_for_draw(&size, draw);
        let food: Pos = place_food(&size, &snake, start);
        Ok(Game { field: size, snake: snake, food: food, direction: Direction::Right })
    }

    /// Builds the snake that a game starts with.
    pub fn build_snake(field_size: &Size) -> (snake: VecDeque<Pos>)
        ensures
            snake@ == initial_snake(*field_size),
    {
        let mut snake: VecDeque<Pos> = VecDeque::with_capacity(5);
        let middle: u16 = field_size.0 / 2;
        let column: u16 = if middle >= 4 {
            middle
        } else {
            4
        };
        let row: u16 = field_size.1 / 2;
        let mut i: u16 = 0;
        while i < 5
            invariant
                i <= 5,
                column == start_column(*field_size),
                row == field_size.1 / 2,
                snake@.len() == i,
                forall|j: int| 0 <= j < i ==> snake@[j] == initial_snake(*field_size)[j],
            decreases 5 - i,
        {
            snake.push_back((column - i, row));
            i += 1;
        }
        snake
    }

    /// Draws a cell of the field at random.
    pub fn rand_food(field_size: &Size) -> (food: Pos)
        requires
            field_size.0 > 0,
            field_size.1 > 0,
        ensures
            in_bounds(*field_size, food),
    {
        let draw: (u16, u16) = (random_u16(), random_u16());
        cell_for_draw(field_size, draw)
    }

    /// Moves the snake one step in its heading, with new food, where the
    /// snake eats, on a cell drawn at random.
    pub fn move_snake(&mut self) -> (r: MoveResult)
        requires
            old(self).wf(),
        ensures
            exists|draw: (u16, u16)| (final(self)@, r) == old(self)@.step(draw),
            final(self).wf(),
            r is Yummi ==> final(self)@.snake.len() == old(self)@.snake.len() + 1,
            r is Moved ==> final(self)@.snake.len() == old(self)@.snake.len(),
            r is Die ==> final(self)@ == old(self)@,
    {
        let draw: Pos = if self.will_eat() {
            Game::rand_food(&self.field)
        } else {
            (0, 0)
        };
        self.move_snake_with(draw)
    }

    /// Tells whether the next step leads the head onto the food.
    pub fn will_eat(&self) -> (r: bool)
        requires
            self.wf(),
        ensures
            r == (self@.target() == Some(self@.food)),
            r == (self@.step((0, 0)).1 is Yummi),
    {
        match next_cell(&self.snake[0], self.direction) {
            Some(c) => c.0 == self.food.0 && c.1 == self.food.1 && on_field(&self.field, &c)
                && !holds(&self.snake, &c),
            None => false,
        }
    }

    /// Moves the snake one step in its heading, with new food, where the
    /// snake eats, where the pair of numbers puts it.
    pub fn move_snake_with(&mut self, draw: (u16, u16)) -> (r: MoveResult)
        requires
            old(self).wf(),
        ensures
            (final(self)@, r) == old(self)@.step(draw),
            final(self).wf(),
            r is Yummi ==> final(self)@.snake.len() == old(self)@.snake.len() + 1,
            r is Moved ==> final(self)@.snake.len() == old(self)@.snake.len(),
            r is Die ==> final(self)@ == old(self)@,
    {
        let curr_head: Pos = self.snake[0];
        let candidate: Pos = match next_cell(&curr_head, self.direction) {
            Some(c) => c,
            None => {
                return MoveResult::Die;
            },
        };
        if holds(&self.snake, &candidate) || !on_field(&self.field, &candidate) {
            MoveResult::Die
        } else {
            self.snake.push_front(candidate);
            if self.food.0 == candidate.0 && self.food.1 == candidate.1 {
                let start: Pos = cell_for_draw(&self.field, draw);
                self.food = place_food(&self.field, &self.snake, start);
                MoveResult::Yummi { new_pos: candidate, food: self.food }
            } else {
                self.snake.pop_back();
                MoveResult::Moved { new_pos: candidate }
            }
        }
    }

    /// Asks for a heading. A heading on the axis of the present one, the
    /// present one itself or its reverse, is ignored.
    pub fn set_direction(&mut self, direction: Direction)
        ensures
            final(self)@ == old(self)@.turn(direction),
            axis_of(direction) == axis_of(old(self)@.direction) ==> final(self)@ == old(self)@,
            axis_of(direction) != axis_of(old(self)@.direction) ==> final(self)@.direction
                == direction,
            old(self).wf() ==> final(self).wf(),
    {
        if axis(self.direction) != axis(direction) {
            self.direction = direction;
        }
    }

    /// The cell of the food.
    pub fn get_food_pos(&self) -> (food: Pos)
        ensures
            food == self@.food,
    {
        self.food
    }

    /// The cells of the snake, from the head to the tail.
    pub fn get_snake(&self) -> (snake: VecDeque<Pos>)
        ensures
            snake@ == self@.snake,
    {
        let mut snake: VecDeque<Pos> = VecDeque::with_capacity(self.snake.len());
        let mut i: usize = 0;
        while i < self.snake.len()
            invariant
                i <= self.snake.len(),
                snake@ == self.snake@.take(i as int),
            decreases self.snake.len() - i,
        {
            snake.push_back(self.snake[i]);
            i += 1;
        }
        snake
    }

    /// The cells of the snake as the game holds them.
    pub fn snake(&self) -> (snake: &VecDeque<Pos>)
        ensures
            snake@ == self@.snake,
    {
        &self.snake
    }

    /// The size of the field.
    pub fn get_field(&self) -> (field: Size)
        ensures
            field == self@.field,
    {
        self.field
    }

    /// The heading of the snake.
    pub fn get_direction(&self) -> (direction: Direction)
        ensures
            direction == self@.direction,
    {
        self.direction
    }
}

} // verus!
