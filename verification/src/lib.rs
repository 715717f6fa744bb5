//! A snake on a bounded grid: the rules of the game and an autopilot
//! that steers the snake towards the food.
//!
//! - [`grid`]: cells, the field and what is counted on it.
//! - [`game`]: the snake, the food, one step and its outcome.
//! - [`food`]: where new food goes.
//! - [`ai`]: the autopilot, which plans with [`search`] and [`rings`] over
//!   the collections of [`cells`].
//! - [`session`]: a game played tick by tick, by hand or by the autopilot.
//! - [`laws`]: what holds of every plan, proved with [`reach`] and
//!   [`walks`].
//!
//! The functions of this crate are verified with Verus against the
//! contracts in their headers. The one exception is the draw of a random
//! number, which is left to the `rand` crate.

pub mod ai;
pub mod cells;
pub mod food;
pub mod game;
pub mod grid;
pub mod laws;
mod random;
pub mod reach;
pub mod rings;
pub mod search;
pub mod session;
pub mod walks;
