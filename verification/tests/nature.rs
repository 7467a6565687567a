use xq::position::position_from_pieces;
use xq::square::from_iccs;
use xq::{Color, Move, MoveNature, PieceKind, Position};

fn mv(iccs: &str) -> Move {
    Move::new(
        from_iccs(&iccs[0..2]).unwrap(),
        from_iccs(&iccs[2..4]).unwrap(),
    )
}

#[test]
fn idle_and_capture() {
    // 红帅放 d0、黑将放 e9 —— 两王不同列，避免「白脸将」把测试局面变成非法局面
    let mut pos = position_from_pieces(
        &[
            (Color::Red, PieceKind::King, "d0"),
            (Color::Red, PieceKind::Chariot, "a0"),
            (Color::Black, PieceKind::Pawn, "a3"),
            (Color::Black, PieceKind::King, "e9"),
        ],
        Color::Red,
    )
    .unwrap();
    assert_eq!(pos.nature_of(mv("a0a1")), MoveNature::Idle);
    assert_eq!(pos.nature_of(mv("a0a3")), MoveNature::Capture);
}

/// 红车从 `e1` 走到 `e8`，与黑将 `e9` 同列相邻 → 将军。
#[test]
fn check_is_detected() {
    let mut pos = position_from_pieces(
        &[
            (Color::Red, PieceKind::King, "d0"),
            (Color::Red, PieceKind::Chariot, "e1"),
            (Color::Black, PieceKind::King, "e9"),
            // 黑卒放在 a 列，避免干扰 e 列射线
            (Color::Black, PieceKind::Pawn, "a4"),
        ],
        Color::Red,
    )
    .unwrap();
    assert_eq!(pos.nature_of(mv("e1e8")), MoveNature::Check);
    // 走到 e7 仍然隔着 e8 空格与 e9 黑将同列 → 依然是将军
    assert_eq!(pos.nature_of(mv("e1e7")), MoveNature::Check);
    // 走到 a1 完全脱离 e 列 → 闲着
    assert_eq!(pos.nature_of(mv("e1a1")), MoveNature::Idle);
}

/// 被将时：走将帅 = 避将；吃掉将军的子 = CaptureAttacker；垫子 = Interpose。
#[test]
fn responses_to_check_are_classified() {
    // 黑车 e8 将军红帅 e0
    let mut escape = position_from_pieces(
        &[
            (Color::Red, PieceKind::King, "e0"),
            (Color::Black, PieceKind::Chariot, "e8"),
            (Color::Black, PieceKind::King, "f9"),
        ],
        Color::Red,
    )
    .unwrap();
    assert_eq!(escape.nature_of(mv("e0d0")), MoveNature::Escape);

    // 红车 a8 吃掉将军的黑车 e8
    let mut capture = position_from_pieces(
        &[
            (Color::Red, PieceKind::King, "e0"),
            (Color::Red, PieceKind::Chariot, "a8"),
            (Color::Black, PieceKind::Chariot, "e8"),
            (Color::Black, PieceKind::King, "f9"),
        ],
        Color::Red,
    )
    .unwrap();
    assert_eq!(capture.nature_of(mv("a8e8")), MoveNature::CaptureAttacker);

    // 红车 a5 垫到 e5 解将
    let mut interpose = position_from_pieces(
        &[
            (Color::Red, PieceKind::King, "e0"),
            (Color::Red, PieceKind::Chariot, "a5"),
            (Color::Black, PieceKind::Chariot, "e8"),
            (Color::Black, PieceKind::King, "f9"),
        ],
        Color::Red,
    )
    .unwrap();
    assert_eq!(interpose.nature_of(mv("a5e5")), MoveNature::Interpose);
}

/// 当前版本不产出 Chase / Exchange —— 调用方必须能处理这两个「永不出现」的变体。
#[test]
fn chase_and_exchange_are_never_produced_yet() {
    let mut pos = Position::startpos();
    let moves = pos.legal_moves();
    for mv in moves {
        let nature = pos.nature_of(mv);
        assert!(
            !matches!(nature, MoveNature::Chase | MoveNature::Exchange),
            "初始局面第 1 手不应产出 Chase/Exchange，实际 {nature:?}"
        );
    }
}
