use xq::Move;
use xq::ai::difficulty::{Difficulty, candidates};

#[test]
fn id_roundtrip() {
    for level in Difficulty::ALL {
        assert_eq!(Difficulty::from_id(level.id()), Some(level));
    }
    assert_eq!(Difficulty::from_id("l9"), None);
}

#[test]
fn unknown_ids_are_rejected() {
    assert_eq!(Difficulty::from_id(""), None);
    assert_eq!(Difficulty::from_id("l"), None);
    assert_eq!(Difficulty::from_id("L1"), None);
    assert_eq!(Difficulty::from_id("l10"), None);
    assert_eq!(Difficulty::from_id("l3"), Some(Difficulty::L3));
}

#[test]
fn levels_are_ordered_by_strength_in_their_limits() {
    let l1 = Difficulty::L1.limits();
    let l5 = Difficulty::L5.limits();
    assert!(l1.max_depth < l5.max_depth);
    assert!(!l1.use_quiescence && l5.use_quiescence);
    assert!(Difficulty::L1.tolerance() > Difficulty::L5.tolerance());
    assert_eq!(Difficulty::L4.tolerance(), 0);
    assert_eq!(Difficulty::L3.limits().max_depth, 6);
}

#[test]
fn labels() {
    assert_eq!(Difficulty::L1.label(), "入门");
    assert_eq!(Difficulty::L5.label(), "大师");
    assert_eq!(Difficulty::L3.subtitle(), "有基本战术意识，会计算几步");
}

#[test]
fn candidates_respect_tolerance() {
    let roots = vec![
        (Move::new(0, 1), 100),
        (Move::new(0, 2), 90),
        (Move::new(0, 3), -400),
    ];
    assert_eq!(candidates(&roots, 80), vec![(Move::new(0, 2), 90)]);
    assert_eq!(candidates(&roots, 0), vec![]);
    assert_eq!(candidates(&roots, 1000).len(), 2);
    assert_eq!(candidates(&[], 80), vec![]);
}
