//! Core logic of a memory-matching card game: cards with a flip animation,
//! timed bonuses, a countdown timer, a level picker, and the round state
//! machine that ties them together. Time is a millisecond count handed in by
//! the caller; screen positions are integer pixel coordinates.

use vstd::prelude::*;

pub mod board;
pub mod bonuses;
pub mod card;
pub mod game_timer;
pub mod levels;
pub mod round;

verus! {

/// Width of the playing field in pixels; card and button layout derive from it.
pub const WINDOW_WIDTH: u32 = 1600;

/// Height of the playing field in pixels.
pub const WINDOW_HEIGHT: u32 = 900;

/// Width of one card's clickable rectangle in pixels.
pub const CARD_WIDTH: u32 = 125;

/// Height of one card's clickable rectangle in pixels.
pub const CARD_HEIGHT: u32 = 200;

} // verus!
