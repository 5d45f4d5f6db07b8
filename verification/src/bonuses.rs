//! Timed, clickable power-ups. Each bonus walks a strictly cyclic lifecycle
//! `NotActive -> NotUsed -> Using -> Used`; a click only advances
//! `NotUsed -> Using`, and `Using` expires on its own once its configured
//! duration has passed.

use vstd::prelude::*;

verus! {

/// Lifecycle state of a bonus. `NotActive` means still locked; `NotUsed`
/// means armed and clickable; `Using` means its effect is running; `Used` is
/// terminal.
#[derive(Clone, Copy, Debug, PartialEq, Eq, Structural)]
pub enum BonusState {
    Used,
    NotUsed,
    Using,
    NotActive,
}

/// One bonus button: its lifecycle state, its clickable rectangle, the clock
/// value at which `Using` was first observed, and how long the effect lasts.
#[derive(Clone, Copy, Debug, PartialEq, Eq, Structural)]
pub struct Bonus {
    pub state: BonusState,
    pub width: u32,
    pub height: u32,
    pub start_x: u32,
    pub start_y: u32,
    pub started: Option<u64>,
    pub duration: u64,
}

/// The single step of the lifecycle: `NotActive -> NotUsed -> Using -> Used`,
/// with `Used` absorbing.
pub open spec fn bonus_next_state(s: BonusState) -> BonusState {
    match s {
        BonusState::Used => BonusState::Used,
        BonusState::NotUsed => BonusState::Using,
        BonusState::Using => BonusState::Used,
        BonusState::NotActive => BonusState::NotUsed,
    }
}

/// Whether the point `(x, y)` lies on the bonus's clickable rectangle.
pub open spec fn bonus_hit(b: Bonus, x: u32, y: u32) -> bool {
    &&& b.start_y <= y <= b.start_y + b.height
    &&& b.start_x <= x <= b.start_x + b.width
}

/// Whether a click at `(x, y)` is consumed: it must land on the rectangle
/// while the bonus is armed.
pub open spec fn bonus_click_consumed(b: Bonus, x: u32, y: u32) -> bool {
    bonus_hit(b, x, y) && b.state is NotUsed
}

/// One per-tick step of a bonus at time `now`: entering `Using` records the
/// clock; once the configured duration has passed, `Using` expires to `Used`.
pub open spec fn bonus_step(b: Bonus, now: u64) -> Bonus {
    if b.state is Using && b.started is None {
        Bonus { started: Some(now), ..b }
    } else if b.state is Using && b.started is Some {
        if b.started->0 + b.duration < now {
            Bonus { state: bonus_next_state(b.state), ..b }
        } else {
            b
        }
    } else {
        b
    }
}

impl Bonus {
    /// A bonus in lifecycle state `state` whose clickable rectangle has its
    /// top-left corner at `(start_x, start_y)`, and whose effect lasts
    /// `duration` milliseconds once activated.
    pub fn new(state: BonusState, width: u32, height: u32, start_x: u32, start_y: u32, duration: u64) -> (b: Bonus)
        ensures
            b == (Bonus { state, width, height, start_x, start_y, started: None, duration }),
    {
        Bonus { state, width, height, start_x, start_y, started: None, duration }
    }

    /// Advances the lifecycle at time `now`: the first tick observed in
    /// `Using` starts the internal clock; after `duration` has elapsed the
    /// bonus expires to `Used`. This auto-expiry is the only way out of
    /// `Using`.
    pub fn update(&mut self, now: u64)
        ensures
            *final(self) == bonus_step(*old(self), now),
    {
        let is_using = match self.state {
            BonusState::Using => true,
            _ => false,
        };
        if is_using {
            match self.started {
                None => {
                    self.started = Some(now);
                }
                Some(start) => {
                    if now > self.duration && now - self.duration > start {
                        self.update_state();
                    }
                }
            }
        }
    }

    /// Advances the lifecycle by one stage: `NotActive -> NotUsed -> Using ->
    /// Used`, with `Used` terminal.
    pub fn update_state(&mut self)
        ensures
            *final(self) == (Bonus { state: bonus_next_state(old(self).state), ..*old(self) }),
    {
        self.state = match self.state {
            BonusState::Used => BonusState::Used,
            BonusState::NotUsed => BonusState::Using,
            BonusState::Using => BonusState::Used,
            BonusState::NotActive => BonusState::NotUsed,
        };
    }

    /// Handles a click at `(x, y)`: consumed exactly when it lands on the
    /// rectangle while the bonus is armed, in which case the bonus starts
    /// `Using`; in every other state the click is ignored.
    pub fn click_and_update(&mut self, x: u32, y: u32) -> (consumed: bool)
        ensures
            consumed == bonus_click_consumed(*old(self), x, y),
            consumed ==> *final(self) == (Bonus { state: BonusState::Using, ..*old(self) }),
            !consumed ==> *final(self) == *old(self),
    {
        if (y as u64) < (self.start_y as u64) || (y as u64) > (self.start_y as u64) + (self.height as u64) {
            return false;
        }
        if (x as u64) < (self.start_x as u64) || (x as u64) > (self.start_x as u64) + (self.width as u64) {
            return false;
        }

        match self.state {
            BonusState::Used => false,
            BonusState::NotUsed => {
                self.update_state();
                true
            }
            BonusState::Using => false,
            BonusState::NotActive => false,
        }
    }
}

/// The three bonuses of a round: extra time, freeze time, and the match hint.
#[derive(Clone, Copy, Debug, PartialEq, Eq, Structural)]
pub struct Bonuses {
    pub bonus_time: Bonus,
    pub freeze_time: Bonus,
    pub free_match: Bonus,
}

/// The bonus row a fresh round starts with, laid out for a screen
/// `screen_width` pixels wide: extra time still locked, freeze time and the
/// match hint armed.
pub open spec fn initial_bonuses(screen_width: u32) -> Bonuses {
    let sx = ((screen_width - 700) / 2) as u32;
    Bonuses {
        bonus_time: Bonus {
            state: BonusState::NotActive,
            width: 200,
            height: 70,
            start_x: sx,
            start_y: 800,
            started: None,
            duration: 2000,
        },
        freeze_time: Bonus {
            state: BonusState::NotUsed,
            width: 200,
            height: 70,
            start_x: (sx + 250) as u32,
            start_y: 800,
            started: None,
            duration: 15000,
        },
        free_match: Bonus {
            state: BonusState::NotUsed,
            width: 200,
            height: 70,
            start_x: (sx + 500) as u32,
            start_y: 800,
            started: None,
            duration: 1000,
        },
    }
}

/// One per-tick step of all three bonuses.
pub open spec fn bonuses_step(bs: Bonuses, now: u64) -> Bonuses {
    Bonuses {
        bonus_time: bonus_step(bs.bonus_time, now),
        free_match: bonus_step(bs.free_match, now),
        freeze_time: bonus_step(bs.freeze_time, now),
    }
}

impl Bonuses {
    /// The bonus row of a fresh round, laid out for a screen `screen_width`
    /// pixels wide.
    pub fn new(screen_width: u32) -> (bs: Bonuses)
        requires
            screen_width >= 700,
            screen_width <= 100000,
        ensures
            bs == initial_bonuses(screen_width),
    {
        let start_x = (screen_width - 700) / 2;
        let bonus_time = Bonus::new(BonusState::NotActive, 200, 70, start_x, 800, 2000);
        let freeze_time = Bonus::new(BonusState::NotUsed, 200, 70, start_x + 250, 800, 15000);
        let free_match = Bonus::new(BonusState::NotUsed, 200, 70, start_x + 500, 800, 1000);
        Bonuses { bonus_time, freeze_time, free_match }
    }

    /// Advances all three bonus lifecycles at time `now`.
    pub fn update(&mut self, now: u64)
        ensures
            *final(self) == bonuses_step(*old(self), now),
    {
        self.bonus_time.update(now);
        self.free_match.update(now);
        self.freeze_time.update(now);
    }
}

} // verus!
