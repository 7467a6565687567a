use xq::{Position, perft, perft_divide};

/// 浅层 perft —— debug 构建下也能在秒级完成。
#[test]
fn perft_shallow_matches_baseline() {
    let mut pos = Position::startpos();

    assert_eq!(perft(&mut pos, 0), 1, "perft(0) 按定义为 1");
    assert_eq!(perft(&mut pos, 1), 44, "perft(1) 与手工推导表不符");
    assert_eq!(perft(&mut pos, 2), 1_920, "perft(2) 不符");
    assert_eq!(perft(&mut pos, 3), 79_666, "perft(3) 不符");

    // 跑完必须完全还原
    assert_eq!(pos.ply(), 0);
    assert_eq!(pos.to_fen(), xq::STARTPOS_FEN);
    pos.assert_consistent();
}

/// `perft_divide` 的各分支之和必须等于同深度的 perft 总量。
///
/// 这既验证了 divide 本身，也提供了一份「每个根着法子树的节点数」清单 ——
/// 将来若某个深度出错，可以据此逐分支定位是哪类棋子的走法有问题。
#[test]
fn perft_divide_sums_to_total() {
    let depth = 3;
    let mut pos = Position::startpos();

    let division = perft_divide(&mut pos, depth);
    let sum: u64 = division.iter().map(|(_, n)| n).sum();
    assert_eq!(sum, perft(&mut pos, depth));
    assert_eq!(sum, 79_666);
    assert_eq!(division.len(), 44, "根着法数应为 44");

    // 每个根着法至少贡献 1 个节点
    assert!(division.iter().all(|(_, n)| *n > 0));
}

/// perft 过程中局面必须始终一致（位图 / 将帅缓存 / 哈希 / 历史栈）。
#[test]
fn perft_keeps_position_consistent() {
    let mut pos = Position::startpos();
    let hash_before = pos.hash();

    // debug 构建下 assert_consistent 会在每个 make_move 后触发；
    // 这里额外在递归返回后整体校验一次。
    perft(&mut pos, 3);

    pos.assert_consistent();
    assert_eq!(pos.hash(), hash_before);
    assert_eq!(pos.history().len(), 1);
    assert!(pos.move_stack().is_empty());
}
