//! One game as it is played: tick by tick, steered by hand or by the
//! autopilot.

use crate::ai::{build_path, plan};
use crate::game::{lemma_step, Direction, Game, GameView, MoveResult};
use vstd::prelude::*;

verus! {

/// A game and who steers it.
#[derive(Debug)]
pub struct Session {
    game: Game,
    autopilot: bool,
}

/// A session as its rules see it.
pub struct SessionView {
    /// The game.
    pub game: GameView,
    /// The autopilot steers.
    pub autopilot: bool,
}

impl SessionView {
    /// The session after a request for a heading by hand: it is passed on to
    /// the game unless the autopilot steers.
    pub open spec fn steer(self, d: Direction) -> SessionView {
        if self.autopilot {
            self
        } else {
            SessionView { game: self.game.turn(d), ..self }
        }
    }

    /// The game as it goes into its next step: where the autopilot steers and
    /// has a heading to give, the game after the request for that heading.
    pub open spec fn aimed(self) -> GameView {
        if self.autopilot {
            match plan(self.game.field, self.game.snake, self.game.food) {
                Ok(d) => self.game.turn(d),
                Err(_) => self.game,
            }
        } else {
            self.game
        }
    }

    /// The session after one tick, and what the snake's step came to.
    pub open spec fn tick(self, draw: (u16, u16)) -> (SessionView, MoveResult) {
        let (game, outcome) = self.aimed().step(draw);
        (SessionView { game: game, ..self }, outcome)
    }
}

impl View for Session {
    type V = SessionView;

    closed spec fn view(&self) -> SessionView {
        SessionView { game: self.game@, autopilot: self.autopilot }
    }
}

/// The autopilot's request changes at most the heading, and the game goes on
/// keeping the rules.
pub proof fn lemma_aimed(s: SessionView)
    ensures
        s.aimed().field == s.game.field,
        s.aimed().snake == s.game.snake,
        s.aimed().food == s.game.food,
        s.game.wf() ==> s.aimed().wf(),
{
}

/// A tick of a session whose game keeps the rules leaves a game that keeps
/// them. Who steers does not change, nor does the field. The snake grows by
/// one cell where it eats, keeps its length where it moves on, and where it
/// dies its cells and the food stay as they were.
pub proof fn lemma_tick(s: SessionView, draw: (u16, u16))
    requires
        s.game.wf(),
    ensures
        s.tick(draw).0.game.wf(),
        s.tick(draw).0.autopilot == s.autopilot,
        s.tick(draw).0.game.field == s.game.field,
        s.tick(draw).1 is Yummi ==> s.tick(draw).0.game.snake.len() == s.game.snake.len() + 1,
        s.tick(draw).1 is Moved ==> s.tick(draw).0.game.snake.len() == s.game.snake.len(),
        s.tick(draw).1 is Die ==> s.tick(draw).0.game.snake == s.game.snake && s.tick(
            draw,
        ).0.game.food == s.game.food,
{
    lemma_step(s.aimed(), draw);
}

impl Session {
    /// The game of the session keeps the rules.
    pub open spec fn wf(&self) -> bool {
        self@.game.wf()
    }

    /// Starts a session with a game, steered by hand.
    pub fn new(game: Game) -> (s: Session)
        ensures
            s@.game == game@,
            !s@.autopilot,
    {
        Session { game: game, autopilot: false }
    }

    /// The game of the session.
    pub fn game(&self) -> (g: &Game)
        ensures
            g@ == self@.game,
    {
        &self.game
    }

    /// Tells whether the autopilot steers.
    pub fn is_autopilot(&self) -> (on: bool)
        ensures
            on == self@.autopilot,
    {
        self.autopilot
    }

    /// Hands the steering to the autopilot, or takes it back.
    pub fn toggle_autopilot(&mut self)
        ensures
            final(self)@.game == old(self)@.game,
            final(self)@.autopilot == !old(self)@.autopilot,
    {
        self.autopilot = !self.autopilot;
    }

    /// Asks for a heading by hand. While the autopilot steers the request is
    /// ignored.
    pub fn steer(&mut self, direction: Direction)
        ensures
            final(self)@ == old(self)@.steer(direction),
            old(self).wf() ==> final(self).wf(),
    {
        if !self.autopilot {
            self.game.set_direction(direction);
        }
    }

    /// Plays one tick: the autopilot, where it steers and has a heading to
    /// give, asks for it, and the snake moves one step, with new food, where
    /// the snake eats, on a cell drawn at random.
    pub fn tick(&mut self) -> (r: MoveResult)
        requires
            old(self).wf(),
        ensures
            exists|draw: (u16, u16)| (final(self)@, r) == old(self)@.tick(draw),
            final(self).wf(),
            final(self)@.autopilot == old(self)@.autopilot,
            r is Yummi ==> final(self)@.game.snake.len() == old(self)@.game.snake.len() + 1,
            r is Moved ==> final(self)@.game.snake.len() == old(self)@.game.snake.len(),
            r is Die ==> final(self)@.game.snake == old(self)@.game.snake && final(self)@.game.food
                == old(self)@.game.food,
    {
        self.aim();
        let ghost aimed = self.game@;
        let r = self.game.move_snake();
        proof {
            let draw = choose|draw: (u16, u16)| (self.game@, r) == aimed.step(draw);
            assert((self@, r) == old(self)@.tick(draw));
        }
        r
    }

    /// Plays one tick, with new food, where the snake eats, where the pair
    /// of numbers puts it.
    pub fn tick_with(&mut self, draw: (u16, u16)) -> (r: MoveResult)
        requires
            old(self).wf(),
        ensures
            (final(self)@, r) == old(self)@.tick(draw),
            final(self).wf(),
            final(self)@.autopilot == old(self)@.autopilot,
            r is Yummi ==> final(self)@.game.snake.len() == old(self)@.game.snake.len() + 1,
            r is Moved ==> final(self)@.game.snake.len() == old(self)@.game.snake.len(),
            r is Die ==> final(self)@.game.snake == old(self)@.game.snake && final(self)@.game.food
                == old(self)@.game.food,
    {
        self.aim();
        self.game.move_snake_with(draw)
    }

    /// Lets the autopilot, where it steers and has a heading to give, ask
    /// for it.
    fn aim(&mut self)
        ensures
            final(self)@.game == old(self)@.aimed(),
            final(self)@.autopilot == old(self)@.autopilot,
    {
        if self.autopilot {
            let heading = build_path(
                self.game.get_field(),
                self.game.snake(),
                self.game.get_food_pos(),
            );
            match heading {
                Ok(direction) => {
                    self.game.set_direction(direction);
                },
                Err(_) => {},
            }
        }
    }
}

} // verus!
