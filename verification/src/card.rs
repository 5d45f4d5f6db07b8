//! A single matchable tile: identity, grid position, face state, and the
//! three-phase flip animation.

use vstd::prelude::*;

verus! {

/// Phase of the flip animation. A flip walks `TurnStart -> TurnMiddle ->
/// TurnEnd`, one phase per tick; the visible face swaps at `TurnMiddle`.
#[derive(Clone, Copy, Debug, PartialEq, Eq, Structural)]
pub enum CardTurning {
    TurnStart,
    TurnMiddle,
    TurnEnd,
}

/// One card on the board. `match_id` is shared by exactly two cards of a
/// round; `(x, y)` is the top-left corner of its clickable rectangle.
#[derive(Clone, Copy, Debug, PartialEq, Eq, Structural)]
pub struct Card {
    pub match_id: u32,
    pub is_clicked: bool,
    pub turning: bool,
    pub turning_state: CardTurning,
    pub is_matched: bool,
    pub x: u32,
    pub y: u32,
}

/// One animation step of a card: the value `advance` leaves behind.
pub open spec fn card_step(c: Card) -> Card {
    match c.turning_state {
        CardTurning::TurnStart => {
            if c.is_matched {
                Card { turning_state: CardTurning::TurnEnd, ..c }
            } else {
                Card { turning_state: CardTurning::TurnMiddle, ..c }
            }
        }
        CardTurning::TurnMiddle => Card {
            turning_state: CardTurning::TurnEnd,
            is_clicked: !c.is_clicked,
            turning: false,
            ..c
        },
        CardTurning::TurnEnd => {
            if c.turning || c.is_matched {
                Card { turning_state: CardTurning::TurnStart, ..c }
            } else {
                c
            }
        }
    }
}

impl Card {
    /// A fresh face-down card at `(x, y)` carrying `match_id`.
    pub fn new(x: u32, y: u32, match_id: u32) -> (c: Card)
        ensures
            c == (Card {
                match_id,
                is_clicked: false,
                turning: false,
                turning_state: CardTurning::TurnEnd,
                is_matched: false,
                x,
                y,
            }),
    {
        Card {
            match_id,
            is_clicked: false,
            turning: false,
            turning_state: CardTurning::TurnEnd,
            is_matched: false,
            x,
            y,
        }
    }

    /// Advances the flip animation by one tick; the visible face swaps when
    /// the `TurnMiddle` phase completes.
    pub fn update(&mut self)
        ensures
            *final(self) == card_step(*old(self)),
    {
        match self.turning_state {
            CardTurning::TurnStart => {
                if self.is_matched {
                    self.turning_state = CardTurning::TurnEnd;
                } else {
                    self.turning_state = CardTurning::TurnMiddle;
                }
            }
            CardTurning::TurnMiddle => {
                self.turning_state = CardTurning::TurnEnd;
                self.is_clicked = !self.is_clicked;
                self.turning = false;
            }
            CardTurning::TurnEnd => {
                if self.turning || self.is_matched {
                    self.turning_state = CardTurning::TurnStart;
                }
            }
        }
    }

    /// Registers the intent to turn the card: the next ticks play the flip.
    pub fn click(&mut self)
        ensures
            *final(self) == (Card { turning: true, ..*old(self) }),
    {
        self.turning = true;
    }
}

} // verus!
