use xq::position::position_from_pieces;
use xq::{Color, DrawReason, GameStatus, PieceKind, Position, perft};

fn build(pieces: &[(Color, PieceKind, &str)], side: Color) -> Position {
    position_from_pieces(pieces, side).expect("测试局面构造失败")
}

#[test]
fn perft_depth_one_is_44() {
    let mut pos = Position::startpos();
    assert_eq!(perft(&mut pos, 1), 44);
    pos.assert_consistent();
}

/// perft 跑完后局面必须逐字节还原。
#[test]
fn perft_restores_position() {
    let mut pos = Position::startpos();
    let before = pos.hash();
    let fen_before = xq::fen::to_fen(&pos);
    perft(&mut pos, 3);
    assert_eq!(pos.hash(), before);
    assert_eq!(xq::fen::to_fen(&pos), fen_before);
    assert_eq!(pos.ply(), 0);
    pos.assert_consistent();
}

#[test]
fn startpos_status_is_ongoing() {
    let mut pos = Position::startpos();
    assert_eq!(pos.status(), GameStatus::Ongoing);
    assert!(!pos.is_in_check(Color::Red));
    assert!(!pos.is_in_check(Color::Black));
}

/// 将死：黑将 `e9` 被 `e8` 红车将军，`d9`/`f9` 分别被 `d8`/`f8` 车控制，
/// 吃 `e8` 车则落点被 `d8`/`f8` 车攻击 —— 无处可逃。
#[test]
fn checkmate_is_detected() {
    let mut pos = build(
        &[
            (Color::Red, PieceKind::King, "e0"),
            (Color::Red, PieceKind::Chariot, "d8"),
            (Color::Red, PieceKind::Chariot, "e8"),
            (Color::Red, PieceKind::Chariot, "f8"),
            (Color::Black, PieceKind::King, "e9"),
        ],
        Color::Black,
    );
    assert!(pos.is_in_check(Color::Black), "黑方应被将军");
    assert!(!pos.has_legal_move(), "黑方应无着可走");
    assert_eq!(
        pos.status(),
        GameStatus::Checkmate {
            loser: Color::Black
        }
    );
}

/// 困毙：黑将 `d9` 无着可走但**未**被将军 —— 中国象棋判负。
///
/// `d8` 被 `a8` 车沿第 8 行控制；`e9` 被 `e1` 车沿 e 列控制；
/// `d9` 本身不被任何红子攻击。
#[test]
fn stalemate_loses_in_xiangqi() {
    let mut pos = build(
        &[
            (Color::Red, PieceKind::King, "e0"),
            (Color::Red, PieceKind::Chariot, "a8"),
            (Color::Red, PieceKind::Chariot, "e1"),
            (Color::Black, PieceKind::King, "d9"),
        ],
        Color::Black,
    );

    assert!(!pos.is_in_check(Color::Black), "困毙的前提是未被将军");
    assert!(!pos.has_legal_move(), "黑方应无着可走");
    assert_eq!(
        pos.status(),
        GameStatus::Stalemate {
            loser: Color::Black
        },
        "中国象棋中困毙判负，而非判和"
    );
}

/// 只有两个将帅 → 子力不足判和。
#[test]
fn bare_kings_is_draw() {
    let mut pos = build(
        &[
            (Color::Red, PieceKind::King, "e0"),
            (Color::Black, PieceKind::King, "e9"),
        ],
        Color::Red,
    );
    assert!(pos.is_insufficient_material());
    assert_eq!(
        pos.status(),
        GameStatus::Draw {
            reason: DrawReason::InsufficientMaterial
        }
    );
}

/// 一个未过河的兵也不算子力不足 —— 保守策略。
#[test]
fn a_single_pawn_prevents_draw() {
    // 红帅放 d0：与黑将 e9 不同列，避免形成「白脸将」非法局面
    let mut pos = build(
        &[
            (Color::Red, PieceKind::King, "d0"),
            (Color::Red, PieceKind::Pawn, "a3"),
            (Color::Black, PieceKind::King, "e9"),
        ],
        Color::Red,
    );
    assert!(!pos.is_insufficient_material());
    assert!(!pos.is_in_check(Color::Red), "测试局面不应处于将军状态");
    assert_eq!(pos.status(), GameStatus::Ongoing);
}

/// 仕士相象均不构成进攻子力。
#[test]
fn advisors_and_elephants_are_not_material() {
    let pos = build(
        &[
            (Color::Red, PieceKind::King, "e0"),
            (Color::Red, PieceKind::Advisor, "d0"),
            (Color::Red, PieceKind::Elephant, "c0"),
            (Color::Black, PieceKind::King, "e9"),
            (Color::Black, PieceKind::Advisor, "d9"),
            (Color::Black, PieceKind::Elephant, "c9"),
        ],
        Color::Red,
    );
    assert!(pos.is_insufficient_material());
}

/// 60 回合自然限着判和（局面仍有大量子力，故不是子力不足和）。
#[test]
fn sixty_move_rule_draws() {
    let start = Position::startpos();
    let mut squares = *start.squares();
    // 移走两个红车与两个红炮，避免它们干扰（保留足量子力以排除子力不足）
    for coord in ["a0", "i0", "b2", "h2"] {
        squares[xq::square::from_iccs(coord).unwrap() as usize] = xq::piece::EMPTY;
    }
    let mut pos = Position::from_squares(squares, Color::Red, 120, 61).unwrap();
    assert!(!pos.is_insufficient_material());
    assert!(!pos.is_in_check(Color::Red));
    assert_eq!(
        pos.status(),
        GameStatus::Draw {
            reason: DrawReason::SixtyMoveRule
        }
    );
}

/// 将军状态下自然限着判定延后 —— 将死优先于限着判和。
#[test]
fn sixty_move_rule_is_deferred_while_in_check() {
    let base = build(
        &[
            (Color::Red, PieceKind::King, "e0"),
            (Color::Red, PieceKind::Chariot, "d8"),
            (Color::Red, PieceKind::Chariot, "e8"),
            (Color::Red, PieceKind::Chariot, "f8"),
            (Color::Black, PieceKind::King, "e9"),
        ],
        Color::Black,
    );
    let mut pos = Position::from_squares(*base.squares(), Color::Black, 120, 61).unwrap();
    assert!(pos.is_in_check(Color::Black));
    assert_eq!(
        pos.status(),
        GameStatus::Checkmate {
            loser: Color::Black
        },
        "将军状态下应优先判定将死，而非自然限着判和"
    );
}
