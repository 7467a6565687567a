use xq::square::BOARD_SIZE;
use xq::zobrist::Zobrist;
use std::collections::HashSet;

/// 1261 个键必须互不相同 —— 只要有重复，就会产生系统性的哈希碰撞。
#[test]
fn all_keys_are_distinct() {
    let table = Zobrist::new();
    let mut seen = HashSet::with_capacity(14 * BOARD_SIZE + 1);
    for row in table.pieces.iter() {
        for &k in row.iter() {
            assert!(seen.insert(k), "Zobrist 键重复: {k:#x}");
        }
    }
    assert!(seen.insert(table.side), "side 键与棋子键重复");
    assert_eq!(seen.len(), 14 * BOARD_SIZE + 1);
}

/// 键不能退化成 0（异或 0 相当于不更新）。
#[test]
fn no_zero_keys() {
    let table = Zobrist::new();
    for row in table.pieces.iter() {
        for &k in row.iter() {
            assert_ne!(k, 0);
        }
    }
    assert_ne!(table.side, 0);
}

/// 高/低 32 位都应有良好的位分布（粗略卡方式检查）。
#[test]
fn bit_distribution_is_reasonable() {
    let table = Zobrist::new();
    let total = 14 * BOARD_SIZE;
    let mut high_ones = 0usize;
    let mut low_ones = 0usize;
    for row in table.pieces.iter() {
        for &k in row.iter() {
            high_ones += (k >> 32).count_ones() as usize;
            low_ones += (k & 0xFFFF_FFFF).count_ones() as usize;
        }
    }
    // 期望各占一半，允许 ±5% 偏差
    for ones in [high_ones, low_ones] {
        let expect = total * 32 / 2;
        let lo = expect - expect / 20;
        let hi = expect + expect / 20;
        assert!(
            (lo..=hi).contains(&ones),
            "位分布异常: {ones} 不在 {lo}..={hi}"
        );
    }
}
