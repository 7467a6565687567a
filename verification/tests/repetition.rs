use xq::square::from_iccs;
use xq::{Color, Move, Position, RepetitionVerdict, adjudicate, is_threefold, occurrences};

fn mv(iccs: &str) -> Move {
    Move::new(
        from_iccs(&iccs[0..2]).expect("起点坐标非法"),
        from_iccs(&iccs[2..4]).expect("终点坐标非法"),
    )
}

fn play(pos: &mut Position, cycle: &[&str], times: usize) {
    for _ in 0..times {
        for iccs in cycle {
            pos.make_move(mv(iccs))
                .unwrap_or_else(|e| panic!("着法 {iccs} 应合法: {e:?}"));
        }
    }
}

/// 双方各自来回平移车 —— 无长将，判和。
///
/// 局面：红帅 `d0` + 红车 `a0`；黑将 `e9` + 黑车 `i9`，两王不同列故无照面。
#[test]
fn quiet_repetition_is_draw() {
    let mut pos = xq::fen::from_fen("4k3r/9/9/9/9/9/9/9/9/R2K5 w - - 0 1").unwrap();

    // 4 个半步一个循环，正好回到初始局面
    let cycle = ["a0a1", "i9i8", "a1a0", "i8i9"];
    assert_eq!(occurrences(&pos), 1);
    play(&mut pos, &cycle, 1);
    assert_eq!(occurrences(&pos), 2, "一圈之后应第 2 次出现");
    assert_eq!(adjudicate(&pos), None, "两次重复还不应触发裁决");
    play(&mut pos, &cycle, 1);
    assert_eq!(occurrences(&pos), 3, "两圈之后应第 3 次出现");

    assert!(
        !pos.move_stack().iter().any(|r| r.gave_check),
        "本循环不应有将军"
    );
    assert_eq!(adjudicate(&pos), Some(RepetitionVerdict::Draw));
}

/// 长将：红车在 d8/e8 之间来回，**每一步都将军**；黑将被迫在 d9/e9 之间躲。
///
/// 局面设计（每一步黑将都只有唯一合法着法，循环是被强制的）：
/// - 红帅 `e0`、红兵 `e5` —— 兵永久封住 e 列，避免两王照面；
/// - 红车 `a8` —— 沿第 8 行保护 `d8`/`e8`，使黑将不能吃车；
/// - 红车 `f1` —— 封住 `f9`，把黑将的退路限制在 d9/e9；
/// - 红车 `d8` —— 将军的主角，在 d8 ↔ e8 摆动。
#[test]
fn long_check_loses() {
    let mut pos = xq::fen::from_fen("3k5/R2R5/9/9/4P4/9/9/9/5R3/4K4 b - - 0 1").unwrap();

    // 一个循环 4 个半步：黑将躲 → 红车将军 → 黑将回 → 红车再将军
    let cycle = ["d9e9", "d8e8", "e9d9", "e8d8"];
    play(&mut pos, &cycle, 2);

    assert!(is_threefold(&pos), "应已三次重复");

    // 循环内红方两着全部将军，黑方两着全部不将军 → 长将方是红方
    let checks: Vec<(Color, bool)> = pos
        .move_stack()
        .iter()
        .map(|r| (r.mover, r.gave_check))
        .collect();
    assert!(
        checks.iter().all(|&(c, g)| c == Color::Black || g),
        "红方在循环内应每步都将军: {checks:?}"
    );
    assert!(
        checks.iter().all(|&(c, g)| c == Color::Red || !g),
        "黑方在循环内不应将军: {checks:?}"
    );

    assert_eq!(
        adjudicate(&pos),
        Some(RepetitionVerdict::LongCheck { loser: Color::Red })
    );
}

/// 未达阈值时不裁决。
#[test]
fn below_threshold_returns_none() {
    let pos = Position::startpos();
    assert_eq!(occurrences(&pos), 1);
    assert!(!is_threefold(&pos));
    assert_eq!(adjudicate(&pos), None);
}
