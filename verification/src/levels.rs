//! The pre-round difficulty picker: three fixed tiers, each a clickable
//! button that arms a board size and a time budget.

use vstd::prelude::*;

verus! {

/// The three difficulty tiers.
#[derive(Clone, Copy, Debug, PartialEq, Eq, Structural)]
pub enum LevelTier {
    Easy,
    Medium,
    Hard,
}

/// The board size (columns of the three-row grid) and time budget in
/// milliseconds that a tier stands for.
pub open spec fn level_params(tier: LevelTier) -> (u32, u64) {
    match tier {
        LevelTier::Easy => (2u32, 45000u64),
        LevelTier::Medium => (4u32, 60000u64),
        LevelTier::Hard => (6u32, 90000u64),
    }
}

/// The pure mapping from a difficulty choice to board size and time budget.
pub fn tier_params(tier: LevelTier) -> (p: (u32, u64))
    ensures
        p == level_params(tier),
{
    match tier {
        LevelTier::Easy => (2, 45000),
        LevelTier::Medium => (4, 60000),
        LevelTier::Hard => (6, 90000),
    }
}

/// One difficulty button: its clickable rectangle and whether it has been
/// armed by a click.
#[derive(Clone, Copy, Debug, PartialEq, Eq, Structural)]
pub struct Level {
    pub width: u32,
    pub height: u32,
    pub start_x: u32,
    pub start_y: u32,
    pub is_clicked: bool,
}

/// Whether the point `(x, y)` lies on the level button's rectangle.
pub open spec fn level_hit(l: Level, x: u32, y: u32) -> bool {
    &&& l.start_y <= y <= l.start_y + l.height
    &&& l.start_x <= x <= l.start_x + l.width
}

impl Level {
    /// An unarmed button whose rectangle has its top-left corner at
    /// `(start_x, start_y)`.
    pub fn new(width: u32, height: u32, start_x: u32, start_y: u32) -> (l: Level)
        ensures
            l == (Level { width, height, start_x, start_y, is_clicked: false }),
    {
        Level { width, height, start_x, start_y, is_clicked: false }
    }

    /// Tests a click at `(x, y)` against the button's rectangle; a hit arms
    /// the button, a miss changes nothing.
    pub fn is_clicked(&mut self, x: u32, y: u32) -> (hit: bool)
        ensures
            hit == level_hit(*old(self), x, y),
            hit ==> *final(self) == (Level { is_clicked: true, ..*old(self) }),
            !hit ==> *final(self) == *old(self),
    {
        if (y as u64) < (self.start_y as u64) || (y as u64) > (self.start_y as u64) + (self.height as u64) {
            return false;
        }
        if (x as u64) < (self.start_x as u64) || (x as u64) > (self.start_x as u64) + (self.width as u64) {
            return false;
        }
        self.is_clicked = true;
        true
    }
}

/// The three difficulty buttons of the menu screen.
#[derive(Clone, Copy, Debug, PartialEq, Eq, Structural)]
pub struct Levels {
    pub easy: Level,
    pub medium: Level,
    pub hard: Level,
}

/// The menu a fresh game shows, laid out for a screen of the given size: all
/// three buttons unarmed, side by side at mid-height.
pub open spec fn initial_levels(screen_width: u32, screen_height: u32) -> Levels {
    let sx = ((screen_width - 700) / 2) as u32;
    let sy = ((screen_height - 70) / 2) as u32;
    Levels {
        easy: Level { width: 200, height: 70, start_x: sx, start_y: sy, is_clicked: false },
        medium: Level {
            width: 200,
            height: 70,
            start_x: (sx + 250) as u32,
            start_y: sy,
            is_clicked: false,
        },
        hard: Level {
            width: 200,
            height: 70,
            start_x: (sx + 500) as u32,
            start_y: sy,
            is_clicked: false,
        },
    }
}

impl Levels {
    /// The menu of a fresh game, laid out for a screen of the given size.
    pub fn new(screen_width: u32, screen_height: u32) -> (ls: Levels)
        requires
            700 <= screen_width <= 100000,
            70 <= screen_height <= 100000,
        ensures
            ls == initial_levels(screen_width, screen_height),
    {
        let start_x = (screen_width - 700) / 2;
        let start_y = (screen_height - 70) / 2;
        let easy = Level::new(200, 70, start_x, start_y);
        let medium = Level::new(200, 70, start_x + 250, start_y);
        let hard = Level::new(200, 70, start_x + 500, start_y);
        Levels { easy, medium, hard }
    }
}

} // verus!
