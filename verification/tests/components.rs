use memory_game::bonuses::{Bonus, BonusState, Bonuses};
use memory_game::card::{Card, CardTurning};
use memory_game::game_timer::GameTimer;
use memory_game::levels::{tier_params, LevelTier, Levels};

#[test]
fn card_new_is_face_down_and_idle() {
    let c = Card::new(100, 50, 7);
    assert_eq!(c.match_id, 7);
    assert_eq!(c.x, 100);
    assert_eq!(c.y, 50);
    assert!(!c.is_clicked);
    assert!(!c.turning);
    assert!(!c.is_matched);
    assert!(matches!(c.turning_state, CardTurning::TurnEnd));
}

#[test]
fn card_flip_takes_three_ticks_and_swaps_face() {
    let mut c = Card::new(0, 0, 1);
    c.click();
    assert!(c.turning);
    c.update();
    assert!(matches!(c.turning_state, CardTurning::TurnStart));
    c.update();
    assert!(matches!(c.turning_state, CardTurning::TurnMiddle));
    assert!(!c.is_clicked);
    c.update();
    assert!(matches!(c.turning_state, CardTurning::TurnEnd));
    assert!(c.is_clicked);
    assert!(!c.turning);
    // flipping back down
    c.click();
    c.update();
    c.update();
    c.update();
    assert!(!c.is_clicked);
    assert!(!c.turning);
}

#[test]
fn matched_card_short_circuits_to_turn_end() {
    let mut c = Card::new(0, 0, 1);
    c.is_matched = true;
    c.turning_state = CardTurning::TurnStart;
    c.update();
    assert!(matches!(c.turning_state, CardTurning::TurnEnd));
}

#[test]
fn bonus_lifecycle_is_strictly_cyclic() {
    let mut b = Bonus::new(BonusState::NotActive, 200, 70, 0, 0, 1000);
    b.update_state();
    assert!(matches!(b.state, BonusState::NotUsed));
    b.update_state();
    assert!(matches!(b.state, BonusState::Using));
    b.update_state();
    assert!(matches!(b.state, BonusState::Used));
    b.update_state();
    assert!(matches!(b.state, BonusState::Used));
}

#[test]
fn bonus_click_consumed_only_when_armed_and_hit() {
    let mut b = Bonus::new(BonusState::NotUsed, 200, 70, 100, 800, 1000);
    assert!(!b.click_and_update(99, 810));
    assert!(matches!(b.state, BonusState::NotUsed));
    assert!(!b.click_and_update(150, 879));
    assert!(b.click_and_update(150, 850));
    assert!(matches!(b.state, BonusState::Using));
    // a second click on an active bonus is ignored
    assert!(!b.click_and_update(150, 850));
    assert!(matches!(b.state, BonusState::Using));
}

#[test]
fn locked_bonus_ignores_clicks() {
    let mut b = Bonus::new(BonusState::NotActive, 200, 70, 100, 800, 1000);
    assert!(!b.click_and_update(150, 850));
    assert!(matches!(b.state, BonusState::NotActive));
}

#[test]
fn bonus_expires_after_its_duration() {
    let mut b = Bonus::new(BonusState::NotUsed, 200, 70, 0, 0, 1000);
    assert!(b.click_and_update(10, 10));
    b.update(500);
    assert_eq!(b.started, Some(500));
    assert!(matches!(b.state, BonusState::Using));
    b.update(1500);
    assert!(matches!(b.state, BonusState::Using));
    b.update(1501);
    assert!(b.started.unwrap() + b.duration < 1501);
    assert!(matches!(b.state, BonusState::Used));
}

#[test]
fn bonus_row_starts_with_extra_time_locked() {
    let bs = Bonuses::new(1600);
    assert!(matches!(bs.bonus_time.state, BonusState::NotActive));
    assert!(matches!(bs.freeze_time.state, BonusState::NotUsed));
    assert!(matches!(bs.free_match.state, BonusState::NotUsed));
    assert_eq!(bs.bonus_time.start_x, 450);
    assert_eq!(bs.freeze_time.start_x, 700);
    assert_eq!(bs.free_match.start_x, 950);
    assert_eq!(bs.bonus_time.start_y, 800);
}

#[test]
fn timer_counts_down_and_clamps_at_zero() {
    let mut t = GameTimer::new(1000, 45000);
    assert_eq!(t.remaining, 45000);
    t.update(1000);
    assert_eq!(t.remaining, 45000);
    t.update(2000);
    assert_eq!(t.remaining, 44000);
    t.update(46000);
    assert_eq!(t.remaining, 0);
    t.update(99999);
    assert_eq!(t.remaining, 0);
}

#[test]
fn timer_monotone_under_no_bonus() {
    let mut t1 = GameTimer::new(0, 45000);
    let mut t2 = GameTimer::new(0, 45000);
    t1.update(10000);
    t2.update(20000);
    assert!(t2.remaining < t1.remaining);
    assert!(t1.remaining <= t1.duration);
    assert!(t2.remaining <= t2.duration);
}

#[test]
fn timer_budget_extends_and_reduces_with_floor() {
    let mut t = GameTimer::new(0, 45000);
    assert_eq!(t.give_additional_time(5000), 50000);
    assert_eq!(t.duration, 50000);
    assert_eq!(t.take_time(2000), 48000);
    // the budget is floored at zero, never negative
    assert_eq!(t.take_time(100000), 0);
    assert_eq!(t.duration, 0);
}

#[test]
fn timer_urgency_flips_each_second() {
    let mut t = GameTimer::new(0, 45000);
    assert!(!t.urgent());
    t.update(1000);
    assert_eq!(t.remaining, 44000);
    assert!(t.urgent());
    t.update(2000);
    assert!(!t.urgent());
}

#[test]
fn three_fixed_difficulty_tiers() {
    assert_eq!(tier_params(LevelTier::Easy), (2, 45000));
    assert_eq!(tier_params(LevelTier::Medium), (4, 60000));
    assert_eq!(tier_params(LevelTier::Hard), (6, 90000));
}

#[test]
fn level_click_arms_only_the_hit_button() {
    let mut ls = Levels::new(1600, 900);
    assert_eq!(ls.easy.start_x, 450);
    assert_eq!(ls.easy.start_y, 415);
    assert!(!ls.easy.is_clicked(0, 0));
    assert!(!ls.easy.is_clicked);
    assert!(ls.easy.is_clicked(500, 450));
    assert!(ls.easy.is_clicked);
    assert!(!ls.medium.is_clicked);
    assert!(!ls.hard.is_clicked);
}
