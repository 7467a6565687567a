use xq::ai::rng::Rng;
use xq::ai::time::{AtomicStop, NeverStop, NodeLimitedStop, StopSignal};

#[test]
fn same_seed_same_sequence() {
    let mut a = Rng::new(42);
    let mut b = Rng::new(42);
    for _ in 0..100 {
        assert_eq!(a.next_u64(), b.next_u64());
    }
}

#[test]
fn different_seed_different_sequence() {
    let mut a = Rng::new(1);
    let mut b = Rng::new(2);
    assert_ne!(a.next_u64(), b.next_u64());
}

#[test]
fn below_respects_bound() {
    let mut rng = Rng::new(7);
    for _ in 0..10_000 {
        assert!(rng.below(12) < 12);
    }
    assert_eq!(rng.below(0), 0);
}

#[test]
fn first_draw_of_seed_zero_is_splitmix_of_scrambled_seed() {
    let state: u64 = 0x1234_5678_9ABC_DEF0u64.wrapping_add(0x9E37_79B9_7F4A_7C15);
    let mut z = state;
    z = (z ^ (z >> 30)).wrapping_mul(0xBF58_476D_1CE4_E5B9);
    z = (z ^ (z >> 27)).wrapping_mul(0x94D0_49BB_1331_11EB);
    let expected = z ^ (z >> 31);
    let mut rng = Rng::new(0);
    assert_eq!(rng.next_u64(), expected);
}

#[test]
fn never_stop_never_stops() {
    assert!(!NeverStop.should_stop());
}

#[test]
fn atomic_stop_toggles() {
    let stop = AtomicStop::new();
    assert!(!stop.should_stop());
    stop.request_stop();
    assert!(stop.should_stop());
    stop.reset();
    assert!(!stop.should_stop());
}

#[test]
fn node_limited_stop_triggers_at_limit() {
    let stop = NodeLimitedStop::new(100);
    assert!(!stop.should_stop());
    stop.report(99);
    assert!(!stop.should_stop());
    stop.report(100);
    assert!(stop.should_stop());
    assert_eq!(stop.seen(), 100);
}
