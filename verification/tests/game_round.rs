use memory_game::bonuses::BonusState;
use memory_game::round::{GameRound, RoundState, SetupError, TickOutcome};

/// Indices of the first two cards that share a pair identity.
fn find_pair(r: &GameRound) -> (usize, usize) {
    for i in 0..r.board.len() {
        for j in (i + 1)..r.board.len() {
            if r.board[i].match_id == r.board[j].match_id {
                return (i, j);
            }
        }
    }
    panic!("no pair on the board");
}

/// Indices of the first two cards that differ in pair identity.
fn find_mismatch(r: &GameRound) -> (usize, usize) {
    for i in 0..r.board.len() {
        for j in (i + 1)..r.board.len() {
            if r.board[i].match_id != r.board[j].match_id {
                return (i, j);
            }
        }
    }
    panic!("no mismatched cards on the board");
}

fn click_card(r: &mut GameRound, idx: usize, now: u64) {
    let (x, y) = (r.board[idx].x, r.board[idx].y);
    r.mouse_button_down_event(x, y);
    r.update(now);
}

#[test]
fn fresh_game_sits_at_menu() {
    let r = GameRound::new();
    assert!(matches!(r.state, RoundState::AtMenu));
    assert_eq!(r.board.len(), 0);
    assert_eq!(r.selected.len(), 0);
    assert_eq!(r.match_strike, 0);
    assert_eq!(r.streak_threshold, 2);
}

#[test]
fn menu_click_arms_easy_and_next_tick_starts_the_round() {
    let mut r = GameRound::new();
    r.mouse_button_down_event(500, 450);
    r.update(0);
    assert!(matches!(r.state, RoundState::AtMenu));
    assert!(r.levels.easy.is_clicked);
    r.update(5);
    assert!(matches!(r.state, RoundState::Playing));
    assert_eq!(r.board.len(), 6);
    assert_eq!(r.timer.duration, 45000);
    assert_eq!(r.timer.start, 5);
}

#[test]
fn setup_places_each_identity_on_exactly_two_cards() {
    let mut r = GameRound::new();
    assert!(r.create_game(0, 2, 45000).is_ok());
    assert_eq!(r.board.len(), 6);
    for id in 1..=3u32 {
        let n = r.board.iter().filter(|c| c.match_id == id).count();
        assert_eq!(n, 2);
    }
    assert_eq!(r.board.iter().filter(|c| c.match_id == 0).count(), 0);
    assert_eq!(r.board.iter().filter(|c| c.match_id > 3).count(), 0);
}

#[test]
fn setup_lays_out_the_three_row_grid() {
    let mut r = GameRound::new();
    assert!(r.create_game(0, 2, 45000).is_ok());
    // two columns centred in a 1600-wide window, rows at 50/300/550
    let xs: Vec<u32> = r.board.iter().map(|c| c.x).collect();
    let ys: Vec<u32> = r.board.iter().map(|c| c.y).collect();
    assert_eq!(xs, vec![670, 805, 670, 805, 670, 805]);
    assert_eq!(ys, vec![50, 50, 300, 300, 550, 550]);
}

#[test]
fn setup_rejects_bad_board_sizes() {
    let mut r = GameRound::new();
    assert_eq!(r.create_game(0, 0, 45000), Err(SetupError::BoardTooSmall));
    assert_eq!(r.create_game(0, 1, 45000), Err(SetupError::BoardTooSmall));
    assert_eq!(r.create_game(0, 12, 45000), Err(SetupError::BoardTooLarge));
    assert_eq!(r.create_game(0, 5, 45000), Err(SetupError::OddCardCount));
    assert_eq!(r.board.len(), 0);
}

#[test]
fn matching_pair_scores_and_grants_time() {
    let mut r = GameRound::new();
    assert!(r.create_game(0, 2, 45000).is_ok());
    r.state = RoundState::Playing;
    let (i, j) = find_pair(&r);
    let id = r.board[i].match_id;
    click_card(&mut r, i, 16);
    assert_eq!(r.selected.len(), 1);
    click_card(&mut r, j, 32);
    assert_eq!(r.selected.len(), 2);
    // the flip pause: nothing resolves until a second has passed
    r.update(600);
    assert_eq!(r.board.len(), 6);
    assert_eq!(r.selected.len(), 2);
    // past the pause the pair leaves the board
    r.update(1133);
    assert!(matches!(r.outcome, TickOutcome::Matched));
    assert_eq!(r.board.len(), 4);
    assert_eq!(r.board.iter().filter(|c| c.match_id == id).count(), 0);
    assert_eq!(r.match_strike, 1);
    assert_eq!(r.timer.duration, 50000);
    assert_eq!(r.timer.remaining, 45000 - 1133);
    assert_eq!(r.selected.len(), 0);
    // the next tick shows the enlarged budget minus the elapsed time
    r.update(1200);
    assert_eq!(r.timer.remaining, 50000 - 1200);
}

#[test]
fn mismatch_resets_streak_and_takes_time() {
    let mut r = GameRound::new();
    assert!(r.create_game(0, 2, 45000).is_ok());
    r.state = RoundState::Playing;
    r.match_strike = 5;
    let (i, j) = find_mismatch(&r);
    let (x0, y0) = (r.board[i].x, r.board[i].y);
    let (x1, y1) = (r.board[j].x, r.board[j].y);
    click_card(&mut r, i, 16);
    click_card(&mut r, j, 32);
    // a few frames let both flips finish during the pause
    r.update(100);
    r.update(200);
    r.update(300);
    r.update(1133);
    assert!(matches!(r.outcome, TickOutcome::Mismatched));
    assert_eq!(r.board.len(), 6);
    assert_eq!(r.match_strike, 0);
    assert_eq!(r.timer.duration, 43000);
    assert_eq!(r.selected.len(), 0);
    // both cards are sent flipping back down
    for c in r.board.iter() {
        if (c.x, c.y) == (x0, y0) || (c.x, c.y) == (x1, y1) {
            assert!(c.turning);
        }
    }
    // three ticks later both lie face down again
    r.update(1150);
    r.update(1166);
    r.update(1182);
    for c in r.board.iter() {
        assert!(!c.is_clicked);
        assert!(!c.turning);
    }
}

#[test]
fn third_click_while_selection_full_changes_nothing() {
    let mut r = GameRound::new();
    assert!(r.create_game(0, 2, 45000).is_ok());
    r.state = RoundState::Playing;
    let (i, j) = find_mismatch(&r);
    click_card(&mut r, i, 16);
    click_card(&mut r, j, 32);
    assert_eq!(r.selected.len(), 2);
    let k = (0..r.board.len()).find(|&k| k != i && k != j).unwrap();
    // still within the flip pause, so the selection is unresolved
    click_card(&mut r, k, 200);
    assert_eq!(r.selected.len(), 2);
}

#[test]
fn clicking_a_face_up_card_is_ignored() {
    let mut r = GameRound::new();
    assert!(r.create_game(0, 2, 45000).is_ok());
    r.state = RoundState::Playing;
    click_card(&mut r, 0, 16);
    assert_eq!(r.selected.len(), 1);
    // the same card again, while it is still flipping
    click_card(&mut r, 0, 32);
    assert_eq!(r.selected.len(), 1);
    // let the flip finish, then click it once more
    r.mouse_button_up_event();
    r.update(48);
    r.update(64);
    r.update(80);
    click_card(&mut r, 0, 96);
    assert_eq!(r.selected.len(), 1);
}

#[test]
fn click_outside_everything_is_a_no_op() {
    let mut r = GameRound::new();
    assert!(r.create_game(0, 2, 45000).is_ok());
    r.state = RoundState::Playing;
    r.mouse_button_down_event(0, 0);
    r.update(16);
    assert_eq!(r.selected.len(), 0);
    assert_eq!(r.board.len(), 6);
}

#[test]
fn empty_board_wins_and_stays_won() {
    let mut r = GameRound::new();
    assert!(r.create_game(0, 2, 45000).is_ok());
    r.state = RoundState::Playing;
    r.board.clear();
    r.update(16);
    assert!(matches!(r.state, RoundState::Won));
    r.update(32);
    assert!(matches!(r.state, RoundState::Won));
}

#[test]
fn exhausted_timer_loses_and_stays_lost() {
    let mut r = GameRound::new();
    assert!(r.create_game(0, 2, 45000).is_ok());
    r.state = RoundState::Playing;
    r.update(45000);
    assert!(matches!(r.state, RoundState::Lost));
    assert_eq!(r.board.len(), 6);
    let streak = r.match_strike;
    r.update(60000);
    assert!(matches!(r.state, RoundState::Lost));
    assert_eq!(r.board.len(), 6);
    assert_eq!(r.match_strike, streak);
}

#[test]
fn two_matches_in_a_row_unlock_the_extra_time_bonus() {
    let mut r = GameRound::new();
    assert!(r.create_game(0, 2, 45000).is_ok());
    r.state = RoundState::Playing;
    assert!(matches!(r.bonuses.bonus_time.state, BonusState::NotActive));
    let (i, j) = find_pair(&r);
    click_card(&mut r, i, 16);
    click_card(&mut r, j, 32);
    r.update(1133);
    assert_eq!(r.match_strike, 1);
    assert!(matches!(r.bonuses.bonus_time.state, BonusState::NotActive));
    let (i2, j2) = find_pair(&r);
    click_card(&mut r, i2, 1200);
    click_card(&mut r, j2, 1216);
    r.update(2400);
    assert_eq!(r.match_strike, 2);
    assert!(matches!(r.bonuses.bonus_time.state, BonusState::NotUsed));
}

#[test]
fn freeze_time_holds_the_countdown_still() {
    let mut r = GameRound::new();
    assert!(r.create_game(0, 2, 45000).is_ok());
    r.state = RoundState::Playing;
    r.update(1000);
    assert_eq!(r.timer.remaining, 44000);
    // the freeze-time button sits at (700..900, 800..870)
    r.mouse_button_down_event(750, 830);
    r.update(2000);
    assert!(matches!(r.bonuses.freeze_time.state, BonusState::Using));
    assert_eq!(r.timer.duration, 60000);
    assert_eq!(r.timer.remaining, 44000);
    r.update(9000);
    r.update(16000);
    assert!(matches!(r.bonuses.freeze_time.state, BonusState::Using));
    assert_eq!(r.timer.remaining, 44000);
    // past its fifteen seconds the freeze expires and the countdown resumes,
    // roughly where it stopped thanks to the budget grant
    r.update(17001);
    assert!(matches!(r.bonuses.freeze_time.state, BonusState::Used));
    r.update(17050);
    assert_eq!(r.timer.remaining, 60000 - 17050);
}

#[test]
fn extra_time_bonus_grants_fifteen_seconds_when_clicked() {
    let mut r = GameRound::new();
    assert!(r.create_game(0, 2, 45000).is_ok());
    r.state = RoundState::Playing;
    r.bonuses.bonus_time.state = BonusState::NotUsed;
    // the extra-time button sits at (450..650, 800..870)
    r.mouse_button_down_event(500, 830);
    r.update(1000);
    assert!(matches!(r.bonuses.bonus_time.state, BonusState::Using));
    assert_eq!(r.timer.duration, 60000);
    assert_eq!(r.selected.len(), 0);
}

#[test]
fn match_hint_selects_a_whole_pair() {
    let mut r = GameRound::new();
    assert!(r.create_game(0, 2, 45000).is_ok());
    r.state = RoundState::Playing;
    // the match-hint button sits at (950..1150, 800..870)
    r.mouse_button_down_event(1000, 830);
    r.update(1000);
    assert!(matches!(r.bonuses.free_match.state, BonusState::Using));
    assert_eq!(r.selected.len(), 2);
    assert_eq!(r.selected[0].match_id, r.selected[1].match_id);
    assert!(
        !(r.selected[0].x == r.selected[1].x && r.selected[0].y == r.selected[1].y)
    );
    // the pair resolves once the pause has elapsed
    r.update(2200);
    assert!(matches!(r.outcome, TickOutcome::Matched));
    assert_eq!(r.board.len(), 4);
}

#[test]
fn match_hint_completes_a_manual_selection() {
    let mut r = GameRound::new();
    assert!(r.create_game(0, 2, 45000).is_ok());
    r.state = RoundState::Playing;
    click_card(&mut r, 0, 16);
    assert_eq!(r.selected.len(), 1);
    let id = r.selected[0].match_id;
    r.mouse_button_down_event(1000, 830);
    r.update(100);
    assert_eq!(r.selected.len(), 2);
    assert_eq!(r.selected[1].match_id, id);
    assert!(
        !(r.selected[0].x == r.selected[1].x && r.selected[0].y == r.selected[1].y)
    );
}

#[test]
fn match_hint_is_ignored_while_selection_is_full() {
    let mut r = GameRound::new();
    assert!(r.create_game(0, 2, 45000).is_ok());
    r.state = RoundState::Playing;
    let (i, j) = find_mismatch(&r);
    click_card(&mut r, i, 16);
    click_card(&mut r, j, 32);
    assert_eq!(r.selected.len(), 2);
    r.mouse_button_down_event(1000, 830);
    r.update(200);
    assert_eq!(r.selected.len(), 2);
    assert!(matches!(r.bonuses.free_match.state, BonusState::NotUsed));
}

#[test]
fn no_time_grant_while_frozen() {
    let mut r = GameRound::new();
    assert!(r.create_game(0, 2, 45000).is_ok());
    r.state = RoundState::Playing;
    r.mouse_button_down_event(750, 830);
    r.update(100);
    assert!(matches!(r.bonuses.freeze_time.state, BonusState::Using));
    assert_eq!(r.timer.duration, 60000);
    let (i, j) = find_pair(&r);
    click_card(&mut r, i, 116);
    click_card(&mut r, j, 132);
    r.update(200);
    r.update(300);
    r.update(400);
    r.update(1200);
    assert!(matches!(r.outcome, TickOutcome::Matched));
    assert_eq!(r.board.len(), 4);
    assert_eq!(r.match_strike, 1);
    // the five-second grant is withheld while time is frozen
    assert_eq!(r.timer.duration, 60000);
    assert_eq!(r.timer.remaining, 45000);
}

#[test]
fn released_click_is_dropped() {
    let mut r = GameRound::new();
    assert!(r.create_game(0, 2, 45000).is_ok());
    r.state = RoundState::Playing;
    let (x, y) = (r.board[0].x, r.board[0].y);
    r.mouse_button_down_event(x, y);
    r.mouse_button_up_event();
    r.update(16);
    assert_eq!(r.selected.len(), 0);
}

#[test]
fn matching_every_pair_wins_the_round() {
    let mut r = GameRound::new();
    r.mouse_button_down_event(500, 450);
    r.update(0);
    r.update(5);
    assert!(matches!(r.state, RoundState::Playing));
    let mut now: u64 = 5;
    for _ in 0..3 {
        let (i, j) = find_pair(&r);
        now += 16;
        click_card(&mut r, i, now);
        now += 16;
        click_card(&mut r, j, now);
        now += 1100;
        r.update(now);
        assert!(matches!(r.outcome, TickOutcome::Matched));
    }
    assert_eq!(r.board.len(), 0);
    now += 16;
    r.update(now);
    assert!(matches!(r.state, RoundState::Won));
}
