use xq::notation::NotationError;
use xq::text::{chars_of, trimmed};
use xq::{Color, FenError, IllegalMove, Position, PositionError, from_fen};

#[test]
fn position_error_messages() {
    assert_eq!(
        PositionError::MissingKing(Color::Red).message(),
        "局面缺少红方将帅"
    );
    assert_eq!(
        PositionError::DuplicateKing(Color::Black).message(),
        "局面出现多个黑方将帅"
    );
}

#[test]
fn illegal_move_messages() {
    assert_eq!(IllegalMove::Null.message(), "起点与终点相同");
    assert_eq!(IllegalMove::NoPiece { from: 40 }.message(), "起点 e4 没有棋子");
    assert_eq!(
        IllegalMove::WrongSide {
            from: 85,
            expected: Color::Red
        }
        .message(),
        "起点 e9 的棋子不属于红方"
    );
    assert_eq!(
        IllegalMove::NotLegal { from: 0, to: 45 }.message(),
        "a0 → a5 不满足棋子走法规则（路径阻挡 / 蹩马腿 / 塞象眼 / 九宫河界限制）"
    );
    assert_eq!(
        IllegalMove::LeavesKingInCheck.message(),
        "该着法会导致己方将帅被将（含白脸将）"
    );
}

#[test]
fn fen_error_messages() {
    let err = from_fen("rnbakabnr/9/9 w").err().unwrap();
    assert_eq!(err, FenError::RowCount(3));
    assert_eq!(err.message(), "FEN 棋盘段数应为 10，实际 3");
    let err = Position::from_fen("rnbakabnr/9/1c5c1/p1p1p1p1p/9/9/P1P1P1P1P/1C5C1/9/RNBAKABNR x").err().unwrap();
    assert_eq!(err.message(), "FEN 走子方字段非法: 'x'");
    assert_eq!(
        FenError::BadChar { ch: 'z', row: 3 }.message(),
        "FEN 第 3 行出现非法字符 'z'"
    );
    assert_eq!(
        FenError::KingOutsidePalace(Color::Black).message(),
        "黑方将帅不在九宫内"
    );
}

#[test]
fn notation_error_messages() {
    assert_eq!(NotationError::Empty.message(), "记谱为空");
    assert_eq!(
        NotationError::UnknownPieceChar('X').message(),
        "无法识别的棋子字: X"
    );
    assert_eq!(
        NotationError::ValueOutOfRange(12).message(),
        "路数或格数超出 1..=9: 12"
    );
}

#[test]
fn trimming_drops_outer_white_space_only() {
    let t = trimmed(&chars_of("\u{3000} 炮二 平五\t\n"));
    assert_eq!(t.iter().collect::<String>(), "炮二 平五");
    assert!(trimmed(&chars_of(" \n ")).is_empty());
}
