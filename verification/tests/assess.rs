use xq::Move;
use xq::coach::assess::assess;
use xq::coach::note::{MoveLevel, TacticCategory, Verbosity};

fn mv(from: u8, to: u8) -> Move {
    Move::new(from, to)
}

fn roots(best: i32, loss: i32) -> Vec<(Move, i32)> {
    vec![(mv(0, 1), best), (mv(2, 3), best - loss)]
}

fn level_for_loss(best: i32, loss: i32) -> MoveLevel {
    assess(&roots(best, loss), mv(2, 3), false, false).level
}

#[test]
fn level_boundaries_are_exact() {
    const BASE: i32 = 600;

    assert_eq!(level_for_loss(BASE, 9), MoveLevel::Best);
    assert_eq!(level_for_loss(BASE, 10), MoveLevel::Best);
    assert_eq!(level_for_loss(BASE, 11), MoveLevel::Good);

    assert_eq!(level_for_loss(BASE, 49), MoveLevel::Good);
    assert_eq!(level_for_loss(BASE, 50), MoveLevel::Good);
    assert_eq!(level_for_loss(BASE, 51), MoveLevel::Dubious);

    assert_eq!(level_for_loss(BASE, 149), MoveLevel::Dubious);
    assert_eq!(level_for_loss(BASE, 150), MoveLevel::Dubious);
    assert_eq!(level_for_loss(BASE, 151), MoveLevel::Blunder);

    assert_eq!(level_for_loss(BASE, 399), MoveLevel::Blunder);
    assert_eq!(level_for_loss(BASE, 400), MoveLevel::Blunder);
    assert_eq!(level_for_loss(BASE, 401), MoveLevel::Missed);
}

#[test]
fn best_move_is_always_best_level() {
    let a = assess(&roots(600, 0), mv(0, 1), false, false);
    assert_eq!(a.level, MoveLevel::Best);
    assert_eq!(a.score_loss, 0);
    assert_eq!(a.score_after, 600);
}

#[test]
fn playing_a_mate_is_best_regardless_of_score() {
    let a = assess(&roots(600, 900), mv(2, 3), true, false);
    assert_eq!(a.level, MoveLevel::Best);
    assert!(a.forced_by_mate);
}

#[test]
fn missing_a_mate_is_missed_regardless_of_score() {
    let a = assess(&roots(600, 5), mv(2, 3), false, true);
    assert_eq!(a.level, MoveLevel::Missed);
    assert!(a.forced_by_missed_mate);
}

#[test]
fn balanced_position_caps_level_at_dubious() {
    let a = assess(&roots(30, 900), mv(2, 3), false, false);
    assert_eq!(a.level, MoveLevel::Dubious);
    assert!(a.capped_by_balance);
}

#[test]
fn balanced_cap_does_not_upgrade_good_moves() {
    let a = assess(&roots(30, 5), mv(2, 3), false, false);
    assert_eq!(a.level, MoveLevel::Best);
    assert!(!a.capped_by_balance);
}

#[test]
fn empty_root_moves_is_handled_conservatively() {
    let a = assess(&[], mv(0, 1), false, false);
    assert_eq!(a.level, MoveLevel::Dubious);
    assert!(a.best_move.is_none());
    assert!(a.capped_by_balance);
}

#[test]
fn unknown_played_move_degrades_to_missed() {
    let a = assess(&roots(600, 0), mv(9, 9), false, false);
    assert_eq!(a.level, MoveLevel::Missed);
}

#[test]
fn level_ordering_is_from_best_to_worst() {
    assert!(MoveLevel::Best < MoveLevel::Good);
    assert!(MoveLevel::Good < MoveLevel::Dubious);
    assert!(MoveLevel::Dubious < MoveLevel::Blunder);
    assert!(MoveLevel::Blunder < MoveLevel::Missed);
}

#[test]
fn every_level_has_text_and_glyph() {
    for level in MoveLevel::ALL {
        assert!(!level.label().is_empty());
        assert!(!level.glyph().is_empty());
        assert!(!level.token().is_empty());
        assert!(!level.generic_template_id().is_empty());
    }
}

#[test]
fn unknown_move_loses_just_past_the_blunder_threshold() {
    let a = assess(&roots(600, 0), mv(9, 9), false, false);
    assert_eq!(a.score_after, 600 - 401);
    assert_eq!(a.score_loss, 401);
    assert_eq!(a.score_before, 600);
    assert_eq!(a.best_move, Some(mv(0, 1)));
}

#[test]
fn the_first_entry_of_a_repeated_move_counts() {
    let rm = vec![(mv(0, 1), 600), (mv(2, 3), 580), (mv(2, 3), 100)];
    let a = assess(&rm, mv(2, 3), false, false);
    assert_eq!(a.score_after, 580);
    assert_eq!(a.level, MoveLevel::Good);
}

#[test]
fn level_helpers() {
    assert!(MoveLevel::Dubious.needs_explanation());
    assert!(!MoveLevel::Good.needs_explanation());
    assert_eq!(MoveLevel::Missed.rank(), 4);
    assert_eq!(MoveLevel::Best.label(), "最佳着法");
    assert_eq!(TacticCategory::parse("relation"), Some(TacticCategory::Relation));
    assert_eq!(TacticCategory::parse("Relation"), None);
    assert!(TacticCategory::Structure.is_certain());
    assert!(!TacticCategory::Formation.is_certain());
    assert_eq!(TacticCategory::Opening.label(), "开局");
    assert_eq!(Verbosity::default(), Verbosity::Standard);
}
