use xq::Color;
use xq::coach::knowledge::OpeningDef;
use xq::coach::opening::{idea_for, match_opening};

fn line(id: &str, name: &str, moves: &[&str], red: &str, black: &str) -> OpeningDef {
    OpeningDef {
        id: id.to_string(),
        name: name.to_string(),
        aliases: vec![],
        sequence_iccs: moves.iter().map(|m| m.to_string()).collect(),
        sequence_names: vec![],
        max_ply: 0,
        side: "both".to_string(),
        headline: String::new(),
        idea_red: red.to_string(),
        idea_black: black.to_string(),
        key_points: vec![],
        tags: vec![],
    }
}

fn book() -> Vec<OpeningDef> {
    vec![
        line("central_cannon", "中炮", &["h2e2"], "控制中路", "稳守中路"),
        line(
            "central_cannon_vs_screen_horse",
            "中炮对屏风马",
            &["h2e2", "h9g7", "h0g2", "i9h9", "i0h0", "b9c7", "h0h4", "c6c5"],
            "快速出车",
            "屏风马稳健",
        ),
        line("empty", "空", &[], "", ""),
        line("elephant", "飞相局", &["c0e2"], "", "以静制动"),
    ]
}

fn moves(ms: &[&str]) -> Vec<String> {
    ms.iter().map(|m| m.to_string()).collect()
}

#[test]
fn empty_history_matches_nothing() {
    assert!(match_opening(&book(), &[]).is_none());
}

#[test]
fn full_line_is_fully_played() {
    let b = book();
    let seq = b[1].sequence_iccs.clone();
    let m = match_opening(&b, &seq).expect("the line matches itself");
    assert_eq!(m.opening.id, "central_cannon_vs_screen_horse");
    assert!(m.fully_played);
    assert_eq!(m.matched_plies, 8);
}

#[test]
fn two_plies_report_a_line_in_progress_behind_a_full_short_one() {
    let b = book();
    let m = match_opening(&b, &moves(&["h2e2", "h9g7"])).unwrap();
    // 中炮 is fully played and beats the longer line that is only in progress.
    assert_eq!(m.opening.id, "central_cannon");
    assert!(m.fully_played);
    assert_eq!(m.matched_plies, 1);
}

#[test]
fn a_line_in_progress_is_reported_from_two_plies() {
    let b = vec![book()[1].clone()];
    let m = match_opening(&b, &moves(&["h2e2", "h9g7"])).unwrap();
    assert!(!m.fully_played);
    assert_eq!(m.matched_plies, 2);
    assert!(match_opening(&b, &moves(&["h2e2"])).is_none(), "one ply says nothing yet");
}

#[test]
fn longest_full_match_wins() {
    let b = book();
    let mut seq = b[1].sequence_iccs.clone();
    seq.push("a0a1".to_string());
    let m = match_opening(&b, &seq).unwrap();
    assert_eq!(m.opening.id, "central_cannon_vs_screen_horse");
    assert_eq!(m.matched_plies, 8);
}

#[test]
fn unmatched_sequence_returns_none() {
    assert!(match_opening(&book(), &moves(&["a0a1", "a9a8"])).is_none());
}

#[test]
fn ideas_fall_back_to_the_other_side() {
    let b = book();
    assert_eq!(idea_for(&b[0], Color::Red), "控制中路");
    assert_eq!(idea_for(&b[0], Color::Black), "稳守中路");
    assert_eq!(idea_for(&b[3], Color::Red), "以静制动");
    assert_eq!(idea_for(&b[2], Color::Black), "");
}

/// A book without one-ply lines, like the shipped one.
fn shipped_like() -> Vec<OpeningDef> {
    vec![
        line(
            "central_cannon_vs_screen_horse",
            "中炮对屏风马",
            &["h2e2", "h9g7", "h0g2", "i9h9", "i0h0", "b9c7", "h0h4", "c6c5"],
            "快速出车",
            "屏风马稳健",
        ),
        line("elephant_opening", "飞相局", &["c0e2", "c6c5"], "稳健", "以静制动"),
    ]
}

#[test]
fn full_match_central_cannon_vs_screen_horse() {
    let kb = shipped_like();
    let seq = kb
        .iter()
        .find(|o| o.id == "central_cannon_vs_screen_horse")
        .expect("the book has this line")
        .sequence_iccs
        .clone();
    let matched = match_opening(&kb, &seq).expect("it matches");
    assert_eq!(matched.opening.id, "central_cannon_vs_screen_horse");
    assert!(matched.fully_played);
    assert_eq!(matched.matched_plies, seq.len());
}

#[test]
fn partial_match_reports_in_progress() {
    let kb = shipped_like();
    let seq = kb[0].sequence_iccs.clone();
    let partial = &seq[..2];
    let matched = match_opening(&kb, partial).expect("two plies already hint at the line");
    assert!(!matched.fully_played);
    assert_eq!(matched.matched_plies, 2);
}

#[test]
fn longest_match_wins() {
    let kb = shipped_like();
    let seq = kb[0].sequence_iccs.clone();
    let matched = match_opening(&kb, &seq).unwrap();
    assert!(
        matched.matched_plies >= 4,
        "the longer line wins, matched {}",
        matched.matched_plies
    );
}

#[test]
fn single_ply_does_not_claim_in_progress() {
    let kb = shipped_like();
    let seq = kb[0].sequence_iccs.clone();
    let matched = match_opening(&kb, &seq[..1]);
    if let Some(m) = matched {
        assert_ne!((!m.fully_played, m.matched_plies), (true, 1), "one ply is never in progress");
    }
}

#[test]
fn idea_differs_by_side() {
    let kb = shipped_like();
    let opening = &kb[0];
    let red = idea_for(opening, Color::Red);
    let black = idea_for(opening, Color::Black);
    assert!(!red.is_empty());
    assert_ne!(red, black, "the two sides' plans differ");
}
