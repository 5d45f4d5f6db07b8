//! The round state machine: the board, the current selection, match
//! evaluation, scoring, bonus triggering, and the `AtMenu -> Playing ->
//! Won/Lost` lifecycle. One `update` call per frame drives everything; clicks
//! arrive as plain pixel coordinates between frames.

use vstd::prelude::*;

use crate::board::{
    click_pos, count_board, count_ids, find_free_from, find_hit_from, find_partner_from,
    find_pos_from, free_card, grid_x, grid_y, paired, positions_distinct, remove_pos, find_free,
    find_hit, find_partner, find_pos, place_cards, placed_card, shuffle_ids, lemma_count_ids_push,
    lemma_count_board_remove, lemma_count_board_update, lemma_count_board_at_least_two,
    lemma_count_board_pointwise, lemma_positions_distinct_remove, lemma_find_pos_from_props,
    lemma_find_hit_from_props, lemma_find_free_from_props, lemma_find_partner_from_props,
    lemma_grid_positions_distinct,
};
use crate::bonuses::{
    bonus_click_consumed, bonuses_step, initial_bonuses, Bonus, BonusState, Bonuses,
};
use crate::card::{card_step, Card};
use crate::game_timer::{add_saturating, remaining_at, sub_saturating, GameTimer};
use crate::levels::{initial_levels, level_hit, level_params, tier_params, Level, LevelTier, Levels};
use crate::{WINDOW_HEIGHT, WINDOW_WIDTH};

verus! {

/// Lifecycle of a round: created at the menu, playing after a level pick,
/// terminal once won or lost.
#[derive(Clone, Copy, Debug, PartialEq, Eq, Structural)]
pub enum RoundState {
    AtMenu,
    Playing,
    Won,
    Lost,
}

/// What the last tick's match evaluation concluded, for the presentation
/// layer to react to.
#[derive(Clone, Copy, Debug, PartialEq, Eq, Structural)]
pub enum TickOutcome {
    Nothing,
    Matched,
    Mismatched,
}

/// Why a round could not be set up: the board must hold at least one column,
/// fit the window, and tile the three-row grid into whole pairs.
#[derive(Clone, Copy, Debug, PartialEq, Eq, Structural)]
pub enum SetupError {
    BoardTooSmall,
    BoardTooLarge,
    OddCardCount,
}

/// One chosen card: its position and its pair identity.
#[derive(Clone, Copy, Debug, PartialEq, Eq, Structural)]
pub struct SelPick {
    pub x: u32,
    pub y: u32,
    pub match_id: u32,
}

/// The whole state of one game round. The presentation layer reads the
/// fields; all mutation goes through the tick and input handlers.
pub struct GameRound {
    pub mouse_down: bool,
    pub mouse_click: Option<(u32, u32)>,
    pub board: Vec<Card>,
    pub timer: GameTimer,
    pub selected: Vec<SelPick>,
    pub time_on_last_click: Option<u64>,
    pub state: RoundState,
    pub outcome: TickOutcome,
    pub match_strike: u32,
    pub streak_threshold: u32,
    pub bonuses: Bonuses,
    pub levels: Levels,
}

/// The mathematical image of a round: the board and selection as sequences,
/// everything else as plain values.
pub struct RoundView {
    pub mouse_down: bool,
    pub mouse_click: Option<(u32, u32)>,
    pub board: Seq<Card>,
    pub timer: GameTimer,
    pub selected: Seq<SelPick>,
    pub time_on_last_click: Option<u64>,
    pub state: RoundState,
    pub outcome: TickOutcome,
    pub match_strike: u32,
    pub streak_threshold: u32,
    pub bonuses: Bonuses,
    pub levels: Levels,
}

impl View for GameRound {
    type V = RoundView;

    open spec fn view(&self) -> RoundView {
        RoundView {
            mouse_down: self.mouse_down,
            mouse_click: self.mouse_click,
            board: self.board@,
            timer: self.timer,
            selected: self.selected@,
            time_on_last_click: self.time_on_last_click,
            state: self.state,
            outcome: self.outcome,
            match_strike: self.match_strike,
            streak_threshold: self.streak_threshold,
            bonuses: self.bonuses,
            levels: self.levels,
        }
    }
}

/// The states a selected card can be in: still flipping up, or fully face up
/// and idle. In particular it is never free to be chosen again.
pub open spec fn sel_card_ok(c: Card) -> bool {
    ||| (c.turning && !c.is_clicked)
    ||| (!c.turning && c.is_clicked && c.turning_state is TurnEnd)
}

/// The card at index `k` backs the selection entry `e`.
pub open spec fn sel_entry_at(s: Seq<Card>, e: SelPick, k: int) -> bool {
    &&& 0 <= k < s.len()
    &&& s[k].x == e.x
    &&& s[k].y == e.y
    &&& s[k].match_id == e.match_id
    &&& sel_card_ok(s[k])
}

/// Some card on the board backs the selection entry `e`.
pub open spec fn sel_entry_on_board(s: Seq<Card>, e: SelPick) -> bool {
    exists|k: int| #[trigger] sel_entry_at(s, e, k)
}

/// Well-formedness of a board and selection: at most two chosen cards, at
/// distinct positions, each backed by a live card; board positions unique; no
/// card left marked matched on the board; and every pair identity present on
/// exactly zero or two cards.
pub open spec fn wf_bs(board: Seq<Card>, sel: Seq<SelPick>) -> bool {
    &&& sel.len() <= 2
    &&& (forall|a: int, b: int|
        #![trigger sel[a], sel[b]]
        0 <= a < b < sel.len() ==> !(sel[a].x == sel[b].x && sel[a].y == sel[b].y))
    &&& (forall|a: int| 0 <= a < sel.len() ==> sel_entry_on_board(board, #[trigger] sel[a]))
    &&& positions_distinct(board)
    &&& (forall|k: int| 0 <= k < board.len() ==> !(#[trigger] board[k]).is_matched)
    &&& paired(board)
}

impl GameRound {
    /// The round invariant: see `wf_bs`.
    pub open spec fn wf(self) -> bool {
        wf_bs(self.board@, self.selected@)
    }
}

/// The menu tick when no level is armed yet: a pending click may arm the
/// button it lands on; everything else stays as it is.
pub open spec fn menu_arm(v: RoundView) -> RoundView {
    match v.mouse_click {
        Some(pt) => {
            if level_hit(v.levels.easy, pt.0, pt.1) {
                RoundView {
                    levels: Levels {
                        easy: Level { is_clicked: true, ..v.levels.easy },
                        ..v.levels
                    },
                    ..v
                }
            } else if level_hit(v.levels.medium, pt.0, pt.1) {
                RoundView {
                    levels: Levels {
                        medium: Level { is_clicked: true, ..v.levels.medium },
                        ..v.levels
                    },
                    ..v
                }
            } else if level_hit(v.levels.hard, pt.0, pt.1) {
                RoundView {
                    levels: Levels {
                        hard: Level { is_clicked: true, ..v.levels.hard },
                        ..v.levels
                    },
                    ..v
                }
            } else {
                v
            }
        }
        None => v,
    }
}

/// The match hint: with an empty selection it first chooses the first free
/// card; with one card chosen it then looks for that card's partner — a free
/// card sharing the identity at another position — flips it, and stamps the
/// selection time.
pub open spec fn hint_phase(v: RoundView, now: u64) -> RoundView {
    let v1 = if v.selected.len() == 0 {
        match find_free_from(v.board, 0) {
            Some(a) => RoundView {
                board: v.board.update(a, Card { turning: true, ..v.board[a] }),
                selected: v.selected.push(
                    SelPick { x: v.board[a].x, y: v.board[a].y, match_id: v.board[a].match_id },
                ),
                ..v
            },
            None => v,
        }
    } else {
        v
    };
    if v1.selected.len() == 1 {
        let e = v1.selected[0];
        match find_partner_from(v1.board, e.match_id, e.x, e.y, 0) {
            Some(b) => RoundView {
                board: v1.board.update(b, Card { turning: true, ..v1.board[b] }),
                selected: v1.selected.push(
                    SelPick { x: v1.board[b].x, y: v1.board[b].y, match_id: v1.board[b].match_id },
                ),
                time_on_last_click: Some(now),
                ..v1
            },
            None => v1,
        }
    } else {
        v1
    }
}

/// The input phase for the bonus row: a pending click is tested against the
/// extra-time, freeze-time and match-hint buttons in that order. A consumed
/// click starts the bonus `Using`, applies its game effect, and swallows the
/// input; the hint additionally requires at most one card to be chosen.
pub open spec fn bonus_click_phase(v: RoundView, now: u64) -> RoundView {
    if v.mouse_down && v.mouse_click is Some {
        let pt = v.mouse_click->0;
        let x = pt.0;
        let y = pt.1;
        if bonus_click_consumed(v.bonuses.bonus_time, x, y) {
            RoundView {
                bonuses: Bonuses {
                    bonus_time: Bonus { state: BonusState::Using, ..v.bonuses.bonus_time },
                    ..v.bonuses
                },
                timer: GameTimer {
                    duration: add_saturating(v.timer.duration, 15000),
                    ..v.timer
                },
                mouse_down: false,
                mouse_click: None,
                ..v
            }
        } else if bonus_click_consumed(v.bonuses.freeze_time, x, y) {
            RoundView {
                bonuses: Bonuses {
                    freeze_time: Bonus { state: BonusState::Using, ..v.bonuses.freeze_time },
                    ..v.bonuses
                },
                timer: GameTimer {
                    duration: add_saturating(v.timer.duration, 15000),
                    ..v.timer
                },
                mouse_down: false,
                mouse_click: None,
                ..v
            }
        } else if v.selected.len() <= 1 && bonus_click_consumed(v.bonuses.free_match, x, y) {
            let v1 = RoundView {
                bonuses: Bonuses {
                    free_match: Bonus { state: BonusState::Using, ..v.bonuses.free_match },
                    ..v.bonuses
                },
                ..v
            };
            let v2 = hint_phase(v1, now);
            RoundView { mouse_down: false, mouse_click: None, ..v2 }
        } else {
            v
        }
    } else {
        v
    }
}

/// The input phase for the board: with fewer than two cards chosen, a pending
/// click is hit-tested against the cards. Hitting a card that is face up or
/// mid-flip ends the tick without effect; hitting a free card flips it,
/// appends it to the selection, stamps the selection time, and swallows the
/// input. The second component says whether the tick ends here.
pub open spec fn card_click_phase(v: RoundView, now: u64) -> (RoundView, bool) {
    if v.mouse_down && v.selected.len() < 2 && v.mouse_click is Some {
        let pt = v.mouse_click->0;
        let x = pt.0;
        let y = pt.1;
        match find_hit_from(v.board, x, y, 0) {
            Some(k) => {
                if v.board[k].is_clicked || v.board[k].turning {
                    (v, true)
                } else {
                    (
                        RoundView {
                            board: v.board.update(k, Card { turning: true, ..v.board[k] }),
                            selected: v.selected.push(
                                SelPick {
                                    x: v.board[k].x,
                                    y: v.board[k].y,
                                    match_id: v.board[k].match_id,
                                },
                            ),
                            mouse_down: false,
                            mouse_click: None,
                            time_on_last_click: Some(now),
                            ..v
                        },
                        true,
                    )
                }
            }
            None => (v, false),
        }
    } else {
        (v, false)
    }
}

/// One animation tick for every live card.
pub open spec fn animate_phase(v: RoundView) -> RoundView {
    RoundView { board: Seq::new(v.board.len(), |k: int| card_step(v.board[k])), ..v }
}

/// Whether the flip pause is over: more than a second has passed since the
/// most recent selection.
pub open spec fn resolution_due(v: RoundView, now: u64) -> bool {
    &&& v.time_on_last_click is Some
    &&& v.time_on_last_click->0 + 1000 < now
}

/// Match evaluation, once two cards are chosen and the flip pause is over.
/// Equal identities: both cards leave the board, the streak grows, and five
/// seconds are granted unless time is frozen. Differing identities: both
/// cards flip back, the streak resets, and two seconds are taken (the budget
/// floored at zero) unless time is frozen. Either way the selection clears.
pub open spec fn resolve_phase(v: RoundView, now: u64) -> RoundView {
    if resolution_due(v, now) && v.selected.len() == 2 {
        let e0 = v.selected[0];
        let e1 = v.selected[1];
        if e0.match_id == e1.match_id {
            RoundView {
                board: remove_pos(remove_pos(v.board, e0.x, e0.y), e1.x, e1.y),
                outcome: TickOutcome::Matched,
                timer: if !(v.bonuses.freeze_time.state is Using) {
                    GameTimer { duration: add_saturating(v.timer.duration, 5000), ..v.timer }
                } else {
                    v.timer
                },
                match_strike: if v.match_strike == u32::MAX {
                    v.match_strike
                } else {
                    (v.match_strike + 1) as u32
                },
                selected: Seq::empty(),
                ..v
            }
        } else {
            RoundView {
                board: click_pos(click_pos(v.board, e0.x, e0.y), e1.x, e1.y),
                outcome: TickOutcome::Mismatched,
                timer: if !(v.bonuses.freeze_time.state is Using) {
                    GameTimer { duration: sub_saturating(v.timer.duration, 2000), ..v.timer }
                } else {
                    v.timer
                },
                match_strike: 0,
                selected: Seq::empty(),
                ..v
            }
        }
    } else {
        v
    }
}

/// Streak reward: once the streak reaches the configured threshold, the
/// extra-time bonus is unlocked if it is still locked.
pub open spec fn unlock_phase(v: RoundView) -> RoundView {
    if v.match_strike == v.streak_threshold && v.bonuses.bonus_time.state is NotActive {
        RoundView {
            bonuses: Bonuses {
                bonus_time: Bonus { state: BonusState::NotUsed, ..v.bonuses.bonus_time },
                ..v.bonuses
            },
            ..v
        }
    } else {
        v
    }
}

/// One whole playing tick, in the authoritative order: bonus input, bonus
/// lifecycles, the timer (skipped while time is frozen), the terminal checks,
/// board input (which, when it consumes or rejects a click, ends the tick),
/// card animations, match evaluation, and the streak reward.
pub open spec fn playing_step(v: RoundView, now: u64) -> RoundView {
    let v0 = RoundView { outcome: TickOutcome::Nothing, ..v };
    let v1 = bonus_click_phase(v0, now);
    let v2 = RoundView { bonuses: bonuses_step(v1.bonuses, now), ..v1 };
    let v3 = if v2.bonuses.freeze_time.state is Using {
        v2
    } else {
        RoundView { timer: GameTimer { remaining: remaining_at(v2.timer, now), ..v2.timer }, ..v2 }
    };
    if v3.timer.remaining == 0 && v3.board.len() != 0 {
        RoundView { state: RoundState::Lost, ..v3 }
    } else if v3.board.len() == 0 {
        RoundView { state: RoundState::Won, ..v3 }
    } else {
        let cc = card_click_phase(v3, now);
        if cc.1 {
            cc.0
        } else {
            unlock_phase(resolve_phase(animate_phase(cc.0), now))
        }
    }
}

/// What a freshly set up round looks like, next to the state `v` it replaced:
/// a full three-row board of paired identities `1..=3*board_size/2` laid out
/// on the grid, a timer of `budget` milliseconds started at `now`, an empty
/// selection, a zero streak, and the bonus row reset; mouse state, menu state
/// and threshold carry over.
pub open spec fn fresh_round(new: RoundView, v: RoundView, now: u64, board_size: u32, budget: u64) -> bool {
    &&& new.board.len() == 3 * board_size
    &&& (forall|id: u32|
        #[trigger] count_board(new.board, id) == if 1 <= id <= (3 * board_size) / 2 {
            2nat
        } else {
            0nat
        })
    &&& (forall|k: int|
        0 <= k < new.board.len() ==> ((#[trigger] new.board[k]).x == grid_x(board_size, k)
            && new.board[k].y == grid_y(board_size, k) && !new.board[k].is_clicked
            && !new.board[k].turning && new.board[k].turning_state is TurnEnd
            && !new.board[k].is_matched))
    &&& positions_distinct(new.board)
    &&& new.timer == (GameTimer { start: now, remaining: budget, duration: budget })
    &&& new.selected.len() == 0
    &&& new.time_on_last_click is None
    &&& new.match_strike == 0
    &&& new.bonuses == initial_bonuses(WINDOW_WIDTH)
    &&& new.mouse_down == v.mouse_down
    &&& new.mouse_click == v.mouse_click
    &&& new.levels == v.levels
    &&& new.outcome == v.outcome
    &&& new.streak_threshold == v.streak_threshold
}

/// The state a fresh game starts in: at the menu with an empty board, a zero
/// timer, the default streak threshold of two, and the standard layout.
pub open spec fn initial_round() -> RoundView {
    RoundView {
        mouse_down: false,
        mouse_click: None,
        board: Seq::empty(),
        timer: GameTimer { start: 0, remaining: 0, duration: 0 },
        selected: Seq::empty(),
        time_on_last_click: None,
        state: RoundState::AtMenu,
        outcome: TickOutcome::Nothing,
        match_strike: 0,
        streak_threshold: 2,
        bonuses: initial_bonuses(WINDOW_WIDTH),
        levels: initial_levels(WINDOW_WIDTH, WINDOW_HEIGHT),
    }
}

impl GameRound {
    /// A fresh game at the menu.
    pub fn new() -> (r: GameRound)
        ensures
            r@ == initial_round(),
            r.wf(),
    {
        GameRound {
            mouse_down: false,
            mouse_click: None,
            board: Vec::new(),
            timer: GameTimer::new(0, 0),
            selected: Vec::new(),
            time_on_last_click: None,
            state: RoundState::AtMenu,
            outcome: TickOutcome::Nothing,
            match_strike: 0,
            streak_threshold: 2,
            bonuses: Bonuses::new(WINDOW_WIDTH),
            levels: Levels::new(WINDOW_WIDTH, WINDOW_HEIGHT),
        }
    }

    /// Records a pointer press at `(x, y)`; it is acted on by the next tick.
    pub fn mouse_button_down_event(&mut self, x: u32, y: u32)
        ensures
            final(self)@ == (RoundView {
                mouse_down: true,
                mouse_click: Some((x, y)),
                ..old(self)@
            }),
    {
        self.mouse_down = true;
        self.mouse_click = Some((x, y));
    }

    /// Sets up a round: pair identities `1..=3*board_size/2`, each on two
    /// cards, shuffled onto a grid of three rows and `board_size` columns;
    /// the timer started at `now` with the given budget; selection, streak
    /// and bonuses reset. A board that is too small or too wide for the
    /// window, or that cannot be tiled into whole pairs, is rejected up
    /// front and the round is left untouched.
    pub fn create_game(&mut self, now: u64, board_size: u32, budget: u64) -> (r: Result<(), SetupError>)
        ensures
            old(self).valid_board_size(board_size) ==> r is Ok && fresh_round(
                final(self)@,
                old(self)@,
                now,
                board_size,
                budget,
            ) && final(self).state == old(self).state && final(self).wf(),
            board_size < 2 ==> r == Result::<(), SetupError>::Err(SetupError::BoardTooSmall),
            board_size > 10 ==> r == Result::<(), SetupError>::Err(SetupError::BoardTooLarge),
            2 <= board_size <= 10 && board_size % 2 == 1 ==> r == Result::<(),
                SetupError,
            >::Err(SetupError::OddCardCount),
            !old(self).valid_board_size(board_size) ==> *final(self) == *old(self),
    {
        if board_size < 2 {
            return Err(SetupError::BoardTooSmall);
        }
        if board_size > 10 {
            return Err(SetupError::BoardTooLarge);
        }
        if board_size % 2 == 1 {
            return Err(SetupError::OddCardCount);
        }
        let pairs: u32 = (board_size * 3) / 2;
        proof {
            assert(2 * pairs == 3 * board_size);
        }

        let mut ids: Vec<u32> = Vec::new();
        let mut v: u32 = 1;
        while v <= pairs
            invariant
                1 <= v <= pairs + 1,
                pairs <= 15,
                ids@.len() == v - 1,
                forall|x: u32|
                    #[trigger] count_ids(ids@, x) == if 1 <= x < v {
                        1nat
                    } else {
                        0nat
                    },
            decreases pairs + 1 - v,
        {
            let ghost pre: Seq<u32> = ids@;
            ids.push(v);
            proof {
                assert forall|x: u32| #[trigger] count_ids(ids@, x) == (if 1 <= x < v + 1 {
                    1nat
                } else {
                    0nat
                }) by {
                    lemma_count_ids_push(pre, v, x);
                }
            }
            v = v + 1;
        }
        let mut w: u32 = 1;
        while w <= pairs
            invariant
                1 <= w <= pairs + 1,
                pairs <= 15,
                ids@.len() == pairs + w - 1,
                forall|x: u32|
                    #[trigger] count_ids(ids@, x) == if 1 <= x < w {
                        2nat
                    } else if w <= x <= pairs {
                        1nat
                    } else {
                        0nat
                    },
            decreases pairs + 1 - w,
        {
            let ghost pre: Seq<u32> = ids@;
            ids.push(w);
            proof {
                assert forall|x: u32| #[trigger] count_ids(ids@, x) == (if 1 <= x < w + 1 {
                    2nat
                } else if w + 1 <= x <= pairs {
                    1nat
                } else {
                    0nat
                }) by {
                    lemma_count_ids_push(pre, w, x);
                }
            }
            w = w + 1;
        }
        let ghost built: Seq<u32> = ids@;

        shuffle_ids(&mut ids);
        let ghost shuffled: Seq<u32> = ids@;

        self.timer = GameTimer::new(now, budget);
        self.board = place_cards(ids, board_size);
        self.selected = Vec::new();
        self.time_on_last_click = None;
        self.match_strike = 0;
        self.bonuses = Bonuses::new(WINDOW_WIDTH);

        proof {
            assert forall|id: u32| #[trigger] count_board(self.board@, id) == (if 1 <= id <= (3
                * board_size) / 2 {
                2nat
            } else {
                0nat
            }) by {
                assert(count_board(self.board@, id) == count_ids(shuffled, id));
                assert(count_ids(shuffled, id) == count_ids(built, id));
            }
            assert forall|k1: int, b: int|
                0 <= k1 < b < self.board@.len() implies !(self.board@[k1].x == self.board@[b].x
                && self.board@[k1].y == self.board@[b].y) by {
                assert(self.board@[k1] == placed_card(shuffled, board_size, k1));
                assert(self.board@[b] == placed_card(shuffled, board_size, b));
                lemma_grid_positions_distinct(board_size, k1, b);
            }
        }
        Ok(())
    }

    /// Whether `board_size` columns tile the three-row grid into whole pairs
    /// and fit the window: an even count between two and ten.
    pub open spec fn valid_board_size(self, board_size: u32) -> bool {
        2 <= board_size <= 10 && board_size % 2 == 0
    }

    /// Records the pointer release; a click no tick has consumed is dropped.
    pub fn mouse_button_up_event(&mut self)
        ensures
            final(self)@ == (RoundView { mouse_down: false, mouse_click: None, ..old(self)@ }),
    {
        self.mouse_down = false;
        self.mouse_click = None;
    }

    /// The match hint's selection: see `hint_phase`.
    fn apply_hint(&mut self, now: u64)
        ensures
            final(self)@ == hint_phase(old(self)@, now),
    {
        if self.selected.len() == 0 {
            match find_free(&self.board) {
                Some(a) => {
                    proof {
                        lemma_find_free_from_props(self.board@, 0);
                    }
                    let c = self.board[a];
                    self.board.set(a, Card { turning: true, ..c });
                    self.selected.push(SelPick { x: c.x, y: c.y, match_id: c.match_id });
                }
                None => {}
            }
        }
        if self.selected.len() == 1 {
            let e = self.selected[0];
            match find_partner(&self.board, e.match_id, e.x, e.y) {
                Some(b) => {
                    proof {
                        lemma_find_partner_from_props(self.board@, e.match_id, e.x, e.y, 0);
                    }
                    let c = self.board[b];
                    self.board.set(b, Card { turning: true, ..c });
                    self.selected.push(SelPick { x: c.x, y: c.y, match_id: c.match_id });
                    self.time_on_last_click = Some(now);
                }
                None => {}
            }
        }
    }

    /// The bonus-row input phase: see `bonus_click_phase`.
    fn bonus_click_step(&mut self, now: u64)
        ensures
            final(self)@ == bonus_click_phase(old(self)@, now),
    {
        if self.mouse_down {
            match self.mouse_click {
                Some((x, y)) => {
                    if self.bonuses.bonus_time.click_and_update(x, y) {
                        self.timer.give_additional_time(15000);
                        self.mouse_down = false;
                        self.mouse_click = None;
                    } else if self.bonuses.freeze_time.click_and_update(x, y) {
                        self.timer.give_additional_time(15000);
                        self.mouse_down = false;
                        self.mouse_click = None;
                    } else if self.selected.len() <= 1 && self.bonuses.free_match.click_and_update(
                        x,
                        y,
                    ) {
                        self.apply_hint(now);
                        self.mouse_down = false;
                        self.mouse_click = None;
                    }
                }
                None => {}
            }
        }
    }

    /// The board input phase: see `card_click_phase`. The result says whether
    /// the tick ends here.
    fn card_click_step(&mut self, now: u64) -> (consumed: bool)
        ensures
            ({
                let r = card_click_phase(old(self)@, now);
                final(self)@ == r.0 && consumed == r.1
            }),
    {
        if self.mouse_down && self.selected.len() < 2 {
            match self.mouse_click {
                Some((x, y)) => {
                    match find_hit(&self.board, x, y) {
                        Some(k) => {
                            proof {
                                lemma_find_hit_from_props(self.board@, x, y, 0);
                            }
                            let c = self.board[k];
                            if c.is_clicked || c.turning {
                                true
                            } else {
                                self.board.set(k, Card { turning: true, ..c });
                                self.selected.push(
                                    SelPick { x: c.x, y: c.y, match_id: c.match_id },
                                );
                                self.mouse_down = false;
                                self.mouse_click = None;
                                self.time_on_last_click = Some(now);
                                true
                            }
                        }
                        None => false,
                    }
                }
                None => false,
            }
        } else {
            false
        }
    }

    /// Match evaluation: see `resolve_phase`.
    fn resolve_step(&mut self, now: u64)
        ensures
            final(self)@ == resolve_phase(old(self)@, now),
    {
        let due = match self.time_on_last_click {
            Some(t) => now > 1000 && now - 1000 > t,
            None => false,
        };
        if due && self.selected.len() == 2 {
            let e0 = self.selected[0];
            let e1 = self.selected[1];
            if e0.match_id == e1.match_id {
                match find_pos(&self.board, e0.x, e0.y) {
                    Some(k) => {
                        proof {
                            lemma_find_pos_from_props(self.board@, e0.x, e0.y, 0);
                        }
                        self.board.remove(k);
                    }
                    None => {}
                }
                match find_pos(&self.board, e1.x, e1.y) {
                    Some(k) => {
                        proof {
                            lemma_find_pos_from_props(self.board@, e1.x, e1.y, 0);
                        }
                        self.board.remove(k);
                    }
                    None => {}
                }
                self.outcome = TickOutcome::Matched;
                let freeze_using = matches!(self.bonuses.freeze_time.state, BonusState::Using);
                if !freeze_using {
                    self.timer.give_additional_time(5000);
                }
                if self.match_strike < u32::MAX {
                    self.match_strike = self.match_strike + 1;
                }
                self.selected = Vec::new();
            } else {
                match find_pos(&self.board, e0.x, e0.y) {
                    Some(k) => {
                        proof {
                            lemma_find_pos_from_props(self.board@, e0.x, e0.y, 0);
                        }
                        let c = self.board[k];
                        self.board.set(k, Card { turning: true, ..c });
                    }
                    None => {}
                }
                match find_pos(&self.board, e1.x, e1.y) {
                    Some(k) => {
                        proof {
                            lemma_find_pos_from_props(self.board@, e1.x, e1.y, 0);
                        }
                        let c = self.board[k];
                        self.board.set(k, Card { turning: true, ..c });
                    }
                    None => {}
                }
                self.outcome = TickOutcome::Mismatched;
                let freeze_using = matches!(self.bonuses.freeze_time.state, BonusState::Using);
                if !freeze_using {
                    self.timer.take_time(2000);
                }
                self.match_strike = 0;
                self.selected = Vec::new();
            }
        }
    }
}

/// What the menu tick guarantees: an armed difficulty starts a fresh round
/// of its board size and budget and moves to `Playing`; otherwise a pending
/// click may arm the button it lands on.
pub open spec fn menu_update_ok(v: RoundView, new: RoundView, now: u64) -> bool {
    if v.levels.easy.is_clicked {
        fresh_round(new, v, now, level_params(LevelTier::Easy).0, level_params(LevelTier::Easy).1)
            && new.state is Playing
    } else if v.levels.medium.is_clicked {
        fresh_round(new, v, now, level_params(LevelTier::Medium).0, level_params(LevelTier::Medium).1)
            && new.state is Playing
    } else if v.levels.hard.is_clicked {
        fresh_round(new, v, now, level_params(LevelTier::Hard).0, level_params(LevelTier::Hard).1)
            && new.state is Playing
    } else {
        new == menu_arm(v)
    }
}

impl GameRound {
    /// One frame of the game. At the menu an armed difficulty starts its
    /// round; while playing the tick runs in the authoritative order of
    /// `playing_step`; a finished round never changes again.
    #[verifier::rlimit(100)]
    pub fn update(&mut self, now: u64)
        requires
            old(self).wf(),
            now >= old(self).timer.start,
        ensures
            final(self).wf(),
            old(self).state is Playing ==> final(self)@ == playing_step(old(self)@, now),
            old(self).state is Won || old(self).state is Lost ==> *final(self) == *old(self),
            old(self).state is AtMenu ==> menu_update_ok(old(self)@, final(self)@, now),
    {
        proof {
            if self.state is Playing {
                lemma_playing_step_wf(old(self)@, now);
            }
        }
        match self.state {
            RoundState::AtMenu => {
                // every tier names a valid board size, so setup cannot fail
                if self.levels.easy.is_clicked {
                    let p = tier_params(LevelTier::Easy);
                    let _ok = self.create_game(now, p.0, p.1);
                    self.state = RoundState::Playing;
                } else if self.levels.medium.is_clicked {
                    let p = tier_params(LevelTier::Medium);
                    let _ok = self.create_game(now, p.0, p.1);
                    self.state = RoundState::Playing;
                } else if self.levels.hard.is_clicked {
                    let p = tier_params(LevelTier::Hard);
                    let _ok = self.create_game(now, p.0, p.1);
                    self.state = RoundState::Playing;
                } else {
                    match self.mouse_click {
                        Some((x, y)) => {
                            if self.levels.easy.is_clicked(x, y) {
                            } else if self.levels.medium.is_clicked(x, y) {
                            } else if self.levels.hard.is_clicked(x, y) {
                            }
                        }
                        None => {}
                    }
                }
            }
            RoundState::Playing => {
                self.outcome = TickOutcome::Nothing;
                let ghost v0: RoundView = self@;
                self.bonus_click_step(now);
                self.bonuses.update(now);
                let ghost v2: RoundView = self@;
                proof {
                    assert(v2 == (RoundView {
                        bonuses: bonuses_step(bonus_click_phase(v0, now).bonuses, now),
                        ..bonus_click_phase(v0, now)
                    }));
                    assert(self.timer.start == old(self).timer.start);
                }
                let freeze_using = matches!(self.bonuses.freeze_time.state, BonusState::Using);
                if !freeze_using {
                    self.timer.update(now);
                }
                let ghost v3: RoundView = self@;
                if self.timer.remaining == 0 && self.board.len() != 0 {
                    self.state = RoundState::Lost;
                    return;
                }
                if self.board.len() == 0 {
                    self.state = RoundState::Won;
                    return;
                }
                let consumed = self.card_click_step(now);
                if consumed {
                    return;
                }
                advance_cards(&mut self.board);
                proof {
                    assert(self@ == animate_phase(card_click_phase(v3, now).0));
                }
                self.resolve_step(now);
                if self.match_strike == self.streak_threshold {
                    if matches!(self.bonuses.bonus_time.state, BonusState::NotActive) {
                        self.bonuses.bonus_time.update_state();
                    }
                }
            }
            RoundState::Won => {}
            RoundState::Lost => {}
        }
    }
}

/// One animation tick for every card of the board, in place.
fn advance_cards(board: &mut Vec<Card>)
    ensures
        final(board)@ == Seq::new(old(board)@.len(), |k: int| card_step(old(board)@[k])),
{
    let mut i: usize = 0;
    while i < board.len()
        invariant
            0 <= i <= board@.len(),
            board@.len() == old(board)@.len(),
            forall|j: int| 0 <= j < i ==> board@[j] == card_step(old(board)@[j]),
            forall|j: int| i <= j < board@.len() ==> board@[j] == old(board)@[j],
        decreases board@.len() - i,
    {
        let mut c = board[i];
        c.update();
        board.set(i, c);
        i = i + 1;
    }
    proof {
        assert(board@ =~= Seq::new(old(board)@.len(), |k: int| card_step(old(board)@[k])));
    }
}

/// One animation step keeps a card's identity, position and matched flag; a
/// chosen card stays in a chosen card's shape.
proof fn lemma_card_step_keeps(c: Card)
    ensures
        card_step(c).x == c.x,
        card_step(c).y == c.y,
        card_step(c).match_id == c.match_id,
        card_step(c).is_matched == c.is_matched,
        sel_card_ok(c) && !c.is_matched ==> sel_card_ok(card_step(c)),
{
}

/// Flipping the free card at index `k` and appending it to the selection
/// preserves well-formedness: no chosen card sits at a free card's position,
/// and the flipped card backs the new entry.
proof fn lemma_select_free_wf(board: Seq<Card>, sel: Seq<SelPick>, k: int)
    requires
        wf_bs(board, sel),
        sel.len() <= 1,
        0 <= k < board.len(),
        free_card(board[k]),
    ensures
        wf_bs(
            board.update(k, Card { turning: true, ..board[k] }),
            sel.push(SelPick { x: board[k].x, y: board[k].y, match_id: board[k].match_id }),
        ),
        forall|a: int| 0 <= a < sel.len() ==> !((#[trigger] sel[a]).x == board[k].x && sel[a].y == board[k].y),
{
    let c2 = Card { turning: true, ..board[k] };
    let board2 = board.update(k, c2);
    let e = SelPick { x: board[k].x, y: board[k].y, match_id: board[k].match_id };
    let sel2 = sel.push(e);
    assert forall|a: int|
        0 <= a < sel.len() implies !((#[trigger] sel[a]).x == board[k].x && sel[a].y
        == board[k].y) by {
        assert(sel_entry_on_board(board, sel[a]));
        let w = choose|w: int| sel_entry_at(board, sel[a], w);
        if sel[a].x == board[k].x && sel[a].y == board[k].y {
            if w < k {
                assert(!(board[w].x == board[k].x && board[w].y == board[k].y));
            } else if k < w {
                assert(!(board[k].x == board[w].x && board[k].y == board[w].y));
            }
            assert(w == k);
            assert(false);
        }
    }
    assert forall|a: int| 0 <= a < sel2.len() implies sel_entry_on_board(
        board2,
        #[trigger] sel2[a],
    ) by {
        if a < sel.len() {
            assert(sel_entry_on_board(board, sel[a]));
            let w = choose|w: int| sel_entry_at(board, sel[a], w);
            if w == k {
                assert(free_card(board[k]) && sel_card_ok(board[k]));
                assert(false);
            }
            assert(sel_entry_at(board2, sel2[a], w));
        } else {
            assert(sel2[a] == e);
            assert(sel_entry_at(board2, e, k));
        }
    }
    assert(positions_distinct(board2)) by {
        assert forall|a: int, b: int|
            0 <= a < b < board2.len() implies !(board2[a].x == board2[b].x && board2[a].y
            == board2[b].y) by {
            assert(board2[a].x == board[a].x && board2[a].y == board[a].y);
            assert(board2[b].x == board[b].x && board2[b].y == board[b].y);
        }
    }
    assert forall|id: u32| #[trigger] count_board(board2, id) == count_board(board, id) by {
        lemma_count_board_update(board, k, c2, id);
    }
}

/// The match hint preserves well-formedness and the board's size.
proof fn lemma_hint_phase_wf(v: RoundView, now: u64)
    requires
        wf_bs(v.board, v.selected),
        v.selected.len() <= 1,
    ensures
        wf_bs(hint_phase(v, now).board, hint_phase(v, now).selected),
        hint_phase(v, now).board.len() == v.board.len(),
{
    let v1 = if v.selected.len() == 0 {
        match find_free_from(v.board, 0) {
            Some(a) => RoundView {
                board: v.board.update(a, Card { turning: true, ..v.board[a] }),
                selected: v.selected.push(
                    SelPick { x: v.board[a].x, y: v.board[a].y, match_id: v.board[a].match_id },
                ),
                ..v
            },
            None => v,
        }
    } else {
        v
    };
    if v.selected.len() == 0 {
        match find_free_from(v.board, 0) {
            Some(a) => {
                lemma_find_free_from_props(v.board, 0);
                lemma_select_free_wf(v.board, v.selected, a);
            }
            None => {}
        }
    }
    assert(wf_bs(v1.board, v1.selected));
    if v1.selected.len() == 1 {
        let e = v1.selected[0];
        match find_partner_from(v1.board, e.match_id, e.x, e.y, 0) {
            Some(b) => {
                lemma_find_partner_from_props(v1.board, e.match_id, e.x, e.y, 0);
                lemma_select_free_wf(v1.board, v1.selected, b);
            }
            None => {}
        }
    }
}

/// The bonus input phase preserves well-formedness.
proof fn lemma_bonus_click_phase_wf(v: RoundView, now: u64)
    requires
        wf_bs(v.board, v.selected),
    ensures
        wf_bs(bonus_click_phase(v, now).board, bonus_click_phase(v, now).selected),
{
    if v.mouse_down && v.mouse_click is Some {
        let pt = v.mouse_click->0;
        let x = pt.0;
        let y = pt.1;
        if bonus_click_consumed(v.bonuses.bonus_time, x, y) {
        } else if bonus_click_consumed(v.bonuses.freeze_time, x, y) {
        } else if v.selected.len() <= 1 && bonus_click_consumed(v.bonuses.free_match, x, y) {
            let v1 = RoundView {
                bonuses: Bonuses {
                    free_match: Bonus { state: BonusState::Using, ..v.bonuses.free_match },
                    ..v.bonuses
                },
                ..v
            };
            lemma_hint_phase_wf(v1, now);
        }
    }
}

/// The board input phase preserves well-formedness.
proof fn lemma_card_click_phase_wf(v: RoundView, now: u64)
    requires
        wf_bs(v.board, v.selected),
    ensures
        wf_bs(card_click_phase(v, now).0.board, card_click_phase(v, now).0.selected),
{
    if v.mouse_down && v.selected.len() < 2 && v.mouse_click is Some {
        let pt = v.mouse_click->0;
        match find_hit_from(v.board, pt.0, pt.1, 0) {
            Some(k) => {
                lemma_find_hit_from_props(v.board, pt.0, pt.1, 0);
                if !(v.board[k].is_clicked || v.board[k].turning) {
                    lemma_select_free_wf(v.board, v.selected, k);
                }
            }
            None => {}
        }
    }
}

/// The animation phase preserves well-formedness and the board's size.
proof fn lemma_animate_phase_wf(v: RoundView)
    requires
        wf_bs(v.board, v.selected),
    ensures
        wf_bs(animate_phase(v).board, animate_phase(v).selected),
        animate_phase(v).board.len() == v.board.len(),
        forall|id: u32| #[trigger] count_board(animate_phase(v).board, id) == count_board(
            v.board,
            id,
        ),
{
    let b2 = animate_phase(v).board;
    assert forall|k: int|
        0 <= k < v.board.len() implies ((#[trigger] b2[k]).x == v.board[k].x && b2[k].y
        == v.board[k].y && b2[k].match_id == v.board[k].match_id && b2[k].is_matched
        == v.board[k].is_matched) by {
        lemma_card_step_keeps(v.board[k]);
    }
    assert forall|a: int| 0 <= a < v.selected.len() implies sel_entry_on_board(
        b2,
        #[trigger] v.selected[a],
    ) by {
        assert(sel_entry_on_board(v.board, v.selected[a]));
        let w = choose|w: int| sel_entry_at(v.board, v.selected[a], w);
        lemma_card_step_keeps(v.board[w]);
        assert(sel_entry_at(b2, v.selected[a], w));
    }
    assert forall|id: u32| #[trigger] count_board(b2, id) == count_board(v.board, id) by {
        lemma_count_board_pointwise(b2, v.board, id);
    }
}

/// Match evaluation preserves well-formedness. A match removes exactly the
/// two cards of the pair: the board shrinks by two, the pair's count drops to
/// zero, and every other count is untouched. A mismatch moves no card and
/// changes no count.
proof fn lemma_resolve_phase_wf(v: RoundView, now: u64)
    requires
        wf_bs(v.board, v.selected),
    ensures
        wf_bs(resolve_phase(v, now).board, resolve_phase(v, now).selected),
        resolution_due(v, now) && v.selected.len() == 2 && v.selected[0].match_id
            == v.selected[1].match_id ==> ({
            let w = resolve_phase(v, now);
            &&& w.board.len() + 2 == v.board.len()
            &&& count_board(w.board, v.selected[0].match_id) == 0
            &&& (forall|id: u32|
                id != v.selected[0].match_id ==> #[trigger] count_board(w.board, id)
                    == count_board(v.board, id))
        }),
        resolution_due(v, now) && v.selected.len() == 2 && v.selected[0].match_id
            != v.selected[1].match_id ==> ({
            let w = resolve_phase(v, now);
            &&& w.board.len() == v.board.len()
            &&& (forall|id: u32| #[trigger] count_board(w.board, id) == count_board(v.board, id))
            &&& (forall|k: int|
                0 <= k < w.board.len() && ((#[trigger] w.board[k]).x == v.selected[0].x
                    && w.board[k].y == v.selected[0].y) ==> w.board[k].turning)
            &&& (forall|k: int|
                0 <= k < w.board.len() && ((#[trigger] w.board[k]).x == v.selected[1].x
                    && w.board[k].y == v.selected[1].y) ==> w.board[k].turning)
        }),
{
    if resolution_due(v, now) && v.selected.len() == 2 {
        let e0 = v.selected[0];
        let e1 = v.selected[1];
        assert(sel_entry_on_board(v.board, e0));
        assert(sel_entry_on_board(v.board, e1));
        let w0 = choose|w: int| sel_entry_at(v.board, e0, w);
        let w1 = choose|w: int| sel_entry_at(v.board, e1, w);
        assert(sel_entry_at(v.board, e0, w0));
        assert(sel_entry_at(v.board, e1, w1));
        assert(!(e0.x == e1.x && e0.y == e1.y));
        assert(w0 != w1);
        lemma_find_pos_from_props(v.board, e0.x, e0.y, 0);
        assert(find_pos_from(v.board, e0.x, e0.y, 0) is Some);
        let k0 = find_pos_from(v.board, e0.x, e0.y, 0)->0;
        if k0 != w0 {
            if k0 < w0 {
                assert(!(v.board[k0].x == v.board[w0].x && v.board[k0].y == v.board[w0].y));
            } else {
                assert(!(v.board[w0].x == v.board[k0].x && v.board[w0].y == v.board[k0].y));
            }
            assert(false);
        }
        if e0.match_id == e1.match_id {
            let m = e0.match_id;
            lemma_count_board_at_least_two(v.board, w0, w1, m);
            assert(count_board(v.board, m) == 2);
            let b1 = v.board.remove(k0);
            v.board.remove_ensures(k0);
            lemma_positions_distinct_remove(v.board, k0);
            assert forall|id: u32| #[trigger] count_board(b1, id) + (if v.board[k0].match_id == id {
                1nat
            } else {
                0nat
            }) == count_board(v.board, id) by {
                lemma_count_board_remove(v.board, k0, id);
            }
            let w1p = if w1 < k0 {
                w1
            } else {
                w1 - 1
            };
            assert(b1[w1p] == v.board[w1]);
            assert(sel_entry_at(b1, e1, w1p));
            lemma_find_pos_from_props(b1, e1.x, e1.y, 0);
            assert(find_pos_from(b1, e1.x, e1.y, 0) is Some);
            let k1 = find_pos_from(b1, e1.x, e1.y, 0)->0;
            if k1 != w1p {
                if k1 < w1p {
                    assert(!(b1[k1].x == b1[w1p].x && b1[k1].y == b1[w1p].y));
                } else {
                    assert(!(b1[w1p].x == b1[k1].x && b1[w1p].y == b1[k1].y));
                }
                assert(false);
            }
            let b2 = b1.remove(k1);
            b1.remove_ensures(k1);
            lemma_positions_distinct_remove(b1, k1);
            assert forall|id: u32| #[trigger] count_board(b2, id) + (if b1[k1].match_id == id {
                1nat
            } else {
                0nat
            }) == count_board(b1, id) by {
                lemma_count_board_remove(b1, k1, id);
            }
            assert(resolve_phase(v, now).board == b2);
            assert(count_board(b2, m) == 0);
            assert forall|k: int| 0 <= k < b2.len() implies !(#[trigger] b2[k]).is_matched by {
            }
            assert(paired(b2)) by {
                assert forall|id: u32|
                    #[trigger] count_board(b2, id) == 0 || count_board(b2, id) == 2 by {
                    if id != m {
                        assert(count_board(b2, id) == count_board(v.board, id));
                    }
                }
            }
        } else {
            let c0 = Card { turning: true, ..v.board[k0] };
            let b1 = v.board.update(k0, c0);
            assert forall|j: int|
                0 <= j < b1.len() implies (#[trigger] b1[j]).x == v.board[j].x && b1[j].y
                == v.board[j].y && b1[j].match_id == v.board[j].match_id && b1[j].is_matched
                == v.board[j].is_matched by {
            }
            assert(positions_distinct(b1));
            assert forall|id: u32| #[trigger] count_board(b1, id) == count_board(v.board, id) by {
                lemma_count_board_update(v.board, k0, c0, id);
            }
            assert(sel_entry_at(b1, e1, w1) || w1 == k0);
            lemma_find_pos_from_props(b1, e1.x, e1.y, 0);
            assert(b1[w1].x == e1.x && b1[w1].y == e1.y);
            assert(find_pos_from(b1, e1.x, e1.y, 0) is Some);
            let k1 = find_pos_from(b1, e1.x, e1.y, 0)->0;
            if k1 != w1 {
                if k1 < w1 {
                    assert(!(b1[k1].x == b1[w1].x && b1[k1].y == b1[w1].y));
                } else {
                    assert(!(b1[w1].x == b1[k1].x && b1[w1].y == b1[k1].y));
                }
                assert(false);
            }
            let c1 = Card { turning: true, ..b1[k1] };
            let b2 = b1.update(k1, c1);
            assert forall|j: int|
                0 <= j < b2.len() implies (#[trigger] b2[j]).x == v.board[j].x && b2[j].y
                == v.board[j].y && b2[j].match_id == v.board[j].match_id && b2[j].is_matched
                == v.board[j].is_matched by {
            }
            assert(positions_distinct(b2));
            assert forall|id: u32| #[trigger] count_board(b2, id) == count_board(b1, id) by {
                lemma_count_board_update(b1, k1, c1, id);
            }
            assert(resolve_phase(v, now).board == b2);
            assert(k0 != k1);
            assert(b2[k0] == c0);
            assert(b2[k1] == c1);
            assert forall|k: int|
                0 <= k < b2.len() && ((#[trigger] b2[k]).x == e0.x && b2[k].y
                == e0.y) implies b2[k].turning by {
                if k != k0 {
                    if k < k0 {
                        assert(!(v.board[k].x == v.board[k0].x && v.board[k].y == v.board[k0].y));
                    } else {
                        assert(!(v.board[k0].x == v.board[k].x && v.board[k0].y == v.board[k].y));
                    }
                    assert(false);
                }
            }
            assert forall|k: int|
                0 <= k < b2.len() && ((#[trigger] b2[k]).x == e1.x && b2[k].y
                == e1.y) implies b2[k].turning by {
                if k != k1 {
                    if k < k1 {
                        assert(!(v.board[k].x == v.board[k1].x && v.board[k].y == v.board[k1].y));
                    } else {
                        assert(!(v.board[k1].x == v.board[k].x && v.board[k1].y == v.board[k].y));
                    }
                    assert(false);
                }
            }
        }
    }
}

/// One whole playing tick preserves well-formedness.
pub proof fn lemma_playing_step_wf(v: RoundView, now: u64)
    requires
        wf_bs(v.board, v.selected),
    ensures
        wf_bs(playing_step(v, now).board, playing_step(v, now).selected),
{
    let v0 = RoundView { outcome: TickOutcome::Nothing, ..v };
    lemma_bonus_click_phase_wf(v0, now);
    let v1 = bonus_click_phase(v0, now);
    let v2 = RoundView { bonuses: bonuses_step(v1.bonuses, now), ..v1 };
    let v3 = if v2.bonuses.freeze_time.state is Using {
        v2
    } else {
        RoundView { timer: GameTimer { remaining: remaining_at(v2.timer, now), ..v2.timer }, ..v2 }
    };
    assert(wf_bs(v3.board, v3.selected));
    if v3.timer.remaining == 0 && v3.board.len() != 0 {
    } else if v3.board.len() == 0 {
    } else {
        let cc = card_click_phase(v3, now);
        lemma_card_click_phase_wf(v3, now);
        if !cc.1 {
            lemma_animate_phase_wf(cc.0);
            lemma_resolve_phase_wf(animate_phase(cc.0), now);
        }
    }
}

/// On every well-formed board each pair identity present appears on exactly
/// zero or two cards: no card is ever left unpaired.
pub proof fn lemma_pairing_invariant(r: GameRound)
    requires
        r.wf(),
    ensures
        forall|id: u32| #[trigger] count_board(r.board@, id) == 0 || count_board(r.board@, id)
            == 2,
{
}

/// A well-formed round never has more than two cards chosen.
pub proof fn lemma_selection_bound(r: GameRound)
    requires
        r.wf(),
    ensures
        r.selected@.len() <= 2,
{
}

/// While the freeze-time bonus is in use, the tick leaves the remaining time
/// untouched, whatever wall time has elapsed.
pub proof fn lemma_freeze_holds_timer(v: RoundView, now: u64)
    requires
        playing_step(v, now).bonuses.freeze_time.state is Using,
    ensures
        playing_step(v, now).timer.remaining == v.timer.remaining,
{
    let v0 = RoundView { outcome: TickOutcome::Nothing, ..v };
    let v1 = bonus_click_phase(v0, now);
    let v2 = RoundView { bonuses: bonuses_step(v1.bonuses, now), ..v1 };
    assert(v1.timer.remaining == v.timer.remaining);
    assert(playing_step(v, now).bonuses.freeze_time == v2.bonuses.freeze_time);
    assert(v2.bonuses.freeze_time.state is Using);
    assert(playing_step(v, now).timer.remaining == v2.timer.remaining);
}

/// A click arriving while two cards are chosen and their evaluation is still
/// pending changes the selection not at all.
pub proof fn lemma_click_with_full_selection(v: RoundView, now: u64)
    requires
        v.selected.len() == 2,
        !resolution_due(v, now),
    ensures
        playing_step(v, now).selected == v.selected,
{
}

/// Choosing a known pair and letting the flip pause elapse resolves the
/// match: the pair's two cards leave the board and no others, the streak
/// grows by one, and — unless time is frozen — five seconds join the budget.
pub proof fn lemma_match_resolves(v: RoundView, now: u64)
    requires
        wf_bs(v.board, v.selected),
        !v.mouse_down,
        v.selected.len() == 2,
        v.selected[0].match_id == v.selected[1].match_id,
        resolution_due(v, now),
        v.board.len() != 0,
        ({
            let frozen = bonuses_step(v.bonuses, now).freeze_time.state is Using;
            (if frozen {
                v.timer.remaining
            } else {
                remaining_at(v.timer, now)
            }) != 0
        }),
    ensures
        ({
            let w = playing_step(v, now);
            &&& w.state == v.state
            &&& w.board.len() + 2 == v.board.len()
            &&& count_board(w.board, v.selected[0].match_id) == 0
            &&& (forall|id: u32|
                id != v.selected[0].match_id ==> #[trigger] count_board(w.board, id)
                    == count_board(v.board, id))
            &&& w.selected.len() == 0
            &&& w.match_strike == (if v.match_strike == u32::MAX {
                v.match_strike
            } else {
                (v.match_strike + 1) as u32
            })
            &&& w.outcome is Matched
            &&& (!(bonuses_step(v.bonuses, now).freeze_time.state is Using)
                ==> w.timer.duration == add_saturating(v.timer.duration, 5000))
        }),
{
    let v0 = RoundView { outcome: TickOutcome::Nothing, ..v };
    assert(bonus_click_phase(v0, now) == v0);
    let v2 = RoundView { bonuses: bonuses_step(v0.bonuses, now), ..v0 };
    let v3 = if v2.bonuses.freeze_time.state is Using {
        v2
    } else {
        RoundView { timer: GameTimer { remaining: remaining_at(v2.timer, now), ..v2.timer }, ..v2 }
    };
    assert(v3.timer.remaining != 0);
    assert(card_click_phase(v3, now) == (v3, false));
    let v4 = animate_phase(v3);
    lemma_animate_phase_wf(v3);
    assert(resolution_due(v4, now));
    lemma_resolve_phase_wf(v4, now);
    let v5 = resolve_phase(v4, now);
    assert(playing_step(v, now) == unlock_phase(v5));
    assert forall|id: u32|
        id != v.selected[0].match_id implies #[trigger] count_board(v5.board, id) == count_board(
        v.board,
        id,
    ) by {
        assert(count_board(v4.board, id) == count_board(v.board, id));
    }
}

/// Choosing two cards of different pairs and letting the flip pause elapse
/// resolves the mismatch: no card leaves the board, both chosen cards are
/// sent flipping back down, the streak resets to zero, and — unless time is
/// frozen — two seconds leave the budget, floored at zero.
pub proof fn lemma_mismatch_resolves(v: RoundView, now: u64)
    requires
        wf_bs(v.board, v.selected),
        !v.mouse_down,
        v.selected.len() == 2,
        v.selected[0].match_id != v.selected[1].match_id,
        resolution_due(v, now),
        v.board.len() != 0,
        ({
            let frozen = bonuses_step(v.bonuses, now).freeze_time.state is Using;
            (if frozen {
                v.timer.remaining
            } else {
                remaining_at(v.timer, now)
            }) != 0
        }),
    ensures
        ({
            let w = playing_step(v, now);
            &&& w.state == v.state
            &&& w.board.len() == v.board.len()
            &&& (forall|id: u32| #[trigger] count_board(w.board, id) == count_board(v.board, id))
            &&& (forall|k: int|
                0 <= k < w.board.len() && ((#[trigger] w.board[k]).x == v.selected[0].x
                    && w.board[k].y == v.selected[0].y) ==> w.board[k].turning)
            &&& (forall|k: int|
                0 <= k < w.board.len() && ((#[trigger] w.board[k]).x == v.selected[1].x
                    && w.board[k].y == v.selected[1].y) ==> w.board[k].turning)
            &&& w.selected.len() == 0
            &&& w.match_strike == 0
            &&& w.outcome is Mismatched
            &&& (!(bonuses_step(v.bonuses, now).freeze_time.state is Using)
                ==> w.timer.duration == sub_saturating(v.timer.duration, 2000))
        }),
{
    let v0 = RoundView { outcome: TickOutcome::Nothing, ..v };
    assert(bonus_click_phase(v0, now) == v0);
    let v2 = RoundView { bonuses: bonuses_step(v0.bonuses, now), ..v0 };
    let v3 = if v2.bonuses.freeze_time.state is Using {
        v2
    } else {
        RoundView { timer: GameTimer { remaining: remaining_at(v2.timer, now), ..v2.timer }, ..v2 }
    };
    assert(v3.timer.remaining != 0);
    assert(card_click_phase(v3, now) == (v3, false));
    let v4 = animate_phase(v3);
    lemma_animate_phase_wf(v3);
    assert(resolution_due(v4, now));
    lemma_resolve_phase_wf(v4, now);
    let v5 = resolve_phase(v4, now);
    assert(playing_step(v, now) == unlock_phase(v5));
    assert forall|id: u32| #[trigger] count_board(v5.board, id) == count_board(v.board, id) by {
        assert(count_board(v4.board, id) == count_board(v.board, id));
    }
}

/// A playing tick that finds the board empty ends the round as won.
pub proof fn lemma_won_on_empty(v: RoundView, now: u64)
    requires
        v.board.len() == 0,
    ensures
        playing_step(v, now).state is Won,
{
    let v0 = RoundView { outcome: TickOutcome::Nothing, ..v };
    let v1 = bonus_click_phase(v0, now);
    assert(v1.board.len() == 0);
    assert(playing_step(v, now).state is Won);
}

/// A playing tick that finds the time budget exhausted, with cards still on
/// the board and the freeze-time bonus not running, ends the round as lost.
pub proof fn lemma_lost_on_timeout(v: RoundView, now: u64)
    requires
        v.board.len() != 0,
        !v.mouse_down,
        !(bonuses_step(v.bonuses, now).freeze_time.state is Using),
        v.timer.start <= now,
        now - v.timer.start >= v.timer.duration,
    ensures
        playing_step(v, now).state is Lost,
{
    let v0 = RoundView { outcome: TickOutcome::Nothing, ..v };
    assert(bonus_click_phase(v0, now) == v0);
    let v2 = RoundView { bonuses: bonuses_step(v0.bonuses, now), ..v0 };
    assert(!(v2.bonuses.freeze_time.state is Using));
    assert(remaining_at(v2.timer, now) == 0);
}

} // verus!
