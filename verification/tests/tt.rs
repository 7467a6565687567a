use xq::Move;
use xq::ai::MATE_SCORE;
use xq::ai::tt::{FLAG_EXACT, TranspositionTable, TtEntry, score_from_tt, score_to_tt};

#[test]
fn entry_is_sixteen_bytes() {
    assert_eq!(core::mem::size_of::<TtEntry>(), 16);
}

#[test]
fn capacity_is_power_of_two() {
    for mb in [1, 2, 4, 8, 16, 32] {
        let tt = TranspositionTable::new(mb);
        assert!(tt.capacity().is_power_of_two());
        assert!(tt.capacity() >= 1024);
    }
}

#[test]
fn store_then_probe_roundtrip() {
    let mut tt = TranspositionTable::new(1);
    let hash = 0xDEAD_BEEF_CAFE_BABE_u64;
    let mv = Move::new(25, 22);

    assert!(tt.probe(hash, 0).is_none());
    tt.store(hash, 6, 123, FLAG_EXACT, Some(mv), 0);

    let probe = tt.probe(hash, 0).expect("a fresh entry is found");
    assert_eq!(probe.score, 123);
    assert_eq!(probe.depth, 6);
    assert_eq!(probe.best, Some(mv));
    assert_eq!(tt.probe_move(hash), Some(mv));
}

#[test]
fn different_hash_misses() {
    let mut tt = TranspositionTable::new(1);
    tt.store(0x1111_2222_3333_4444, 5, 50, FLAG_EXACT, None, 0);
    assert!(tt.probe(0x9999_8888_7777_6666, 0).is_none());
}

#[test]
fn mate_score_adjustment_is_inverse() {
    for ply in 0..30 {
        for dist in 1..20 {
            let node_score = MATE_SCORE - dist;
            assert_eq!(score_from_tt(score_to_tt(node_score, ply), ply), node_score);
            let neg = -(MATE_SCORE - dist);
            assert_eq!(score_from_tt(score_to_tt(neg, ply), ply), neg);
        }
    }
    for ply in 0..30 {
        assert_eq!(score_from_tt(score_to_tt(77, ply), ply), 77);
        assert_eq!(score_from_tt(score_to_tt(-321, ply), ply), -321);
    }
}

#[test]
fn same_position_at_different_ply_yields_correct_root_score() {
    let root_at_ply4 = MATE_SCORE - 6;
    let stored = score_to_tt(root_at_ply4, 4);
    assert_eq!(stored, MATE_SCORE - 2);
    assert_eq!(score_from_tt(stored, 4), root_at_ply4);
    assert_eq!(score_from_tt(stored, 2), MATE_SCORE - 4);
    assert_eq!(score_from_tt(stored, 0), MATE_SCORE - 2);
}

#[test]
fn negative_mate_score_adjustment_is_symmetric() {
    let root_at_ply3 = -(MATE_SCORE - 5);
    let stored = score_to_tt(root_at_ply3, 3);
    assert_eq!(stored, -(MATE_SCORE - 2));
    assert_eq!(score_from_tt(stored, 3), root_at_ply3);
    assert_eq!(score_from_tt(stored, 0), -(MATE_SCORE - 2));
}

#[test]
fn deeper_entry_survives_shallower_write() {
    let mut tt = TranspositionTable::new(1);
    let hash = 0xABCD_1234_5678_9ABC;
    tt.store(hash, 8, 500, FLAG_EXACT, None, 0);
    tt.store(hash, 3, 100, FLAG_EXACT, None, 0);
    assert_eq!(tt.probe(hash, 0).unwrap().depth, 8);
}

#[test]
fn clear_empties_the_table_and_counters() {
    let mut tt = TranspositionTable::new(1);
    tt.store(42, 5, 10, FLAG_EXACT, None, 0);
    assert!(tt.probe(42, 0).is_some());
    assert_eq!(tt.hit_counts(), (1, 1));
    tt.clear();
    assert_eq!(tt.hit_counts(), (0, 0));
    assert!(tt.probe(42, 0).is_none());
    assert_eq!(tt.hit_counts(), (0, 1));
}

#[test]
fn ordinary_scores_are_stored_unchanged() {
    assert_eq!(score_to_tt(500, 7), 500);
    assert_eq!(score_from_tt(-500, 7), -500);
    assert_eq!(score_to_tt(29_904, 1), 29_905);
    assert_eq!(score_from_tt(-29_904, 1), -29_903);
}

#[test]
fn new_generation_keeps_entries() {
    let mut tt = TranspositionTable::new(1);
    tt.store(7 << 32, 2, 30, FLAG_EXACT, None, 0);
    tt.new_generation();
    assert_eq!(tt.probe(7 << 32, 0).unwrap().score, 30);
}
