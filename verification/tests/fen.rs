use xq::fen::{FenError, STARTPOS_FEN, from_fen, to_fen};
use xq::position::PositionError;
use xq::square::{COLS, index};
use xq::{Color, PieceKind, color_of, kind_of};

#[test]
fn startpos_fen_roundtrip() {
    let pos = from_fen(STARTPOS_FEN).expect("内置初始 FEN 必须可解析");
    assert_eq!(to_fen(&pos), STARTPOS_FEN);
}

#[test]
fn startpos_layout_matches_doc() {
    let pos = from_fen(STARTPOS_FEN).unwrap();

    // 黑方底线 row 9：车马象士将士象马车
    let expect_black = "rnbakabnr";
    let actual: String = (0..COLS)
        .map(|col| {
            let p = pos.piece_at(index(col, 9));
            kind_of(p).unwrap().fen_char(color_of(p).unwrap())
        })
        .collect();
    assert_eq!(actual, expect_black);

    // 红方底线 row 0：RNBAKABNR
    let actual: String = (0..COLS)
        .map(|col| {
            let p = pos.piece_at(index(col, 0));
            kind_of(p).unwrap().fen_char(color_of(p).unwrap())
        })
        .collect();
    assert_eq!(actual, "RNBAKABNR");

    // 黑炮在 b7 与 h7
    assert_eq!(kind_of(pos.piece_at(index(1, 7))), Some(PieceKind::Cannon));
    assert_eq!(color_of(pos.piece_at(index(1, 7))), Some(Color::Black));
    assert_eq!(kind_of(pos.piece_at(index(7, 7))), Some(PieceKind::Cannon));

    // 黑卒在 a6 c6 e6 g6 i6
    for col in [0u8, 2, 4, 6, 8] {
        assert_eq!(kind_of(pos.piece_at(index(col, 6))), Some(PieceKind::Pawn));
        assert_eq!(color_of(pos.piece_at(index(col, 6))), Some(Color::Black));
    }

    // 红兵在 a3 c3 e3 g3 i3
    for col in [0u8, 2, 4, 6, 8] {
        assert_eq!(kind_of(pos.piece_at(index(col, 3))), Some(PieceKind::Pawn));
        assert_eq!(color_of(pos.piece_at(index(col, 3))), Some(Color::Red));
    }

    // 红炮在 b2 与 h2
    assert_eq!(kind_of(pos.piece_at(index(1, 2))), Some(PieceKind::Cannon));
    assert_eq!(color_of(pos.piece_at(index(1, 2))), Some(Color::Red));
    assert_eq!(kind_of(pos.piece_at(index(7, 2))), Some(PieceKind::Cannon));

    // 走子方为红
    assert_eq!(pos.side_to_move(), Color::Red);
}

/// 只给两段也应能解析，元信息取默认值。
#[test]
fn two_field_form_is_accepted() {
    let pos =
        from_fen("rnbakabnr/9/1c5c1/p1p1p1p1p/9/9/P1P1P1P1P/1C5C1/9/RNBAKABNR b").unwrap();
    assert_eq!(pos.side_to_move(), Color::Black);
    assert_eq!(pos.halfmove_clock(), 0);
    assert_eq!(pos.fullmove_number(), 1);
}

#[test]
fn malformed_fens_are_rejected() {
    assert!(matches!(
        from_fen("rnbakabnr"),
        Err(FenError::TooFewFields(1))
    ));
    assert!(matches!(
        from_fen("9/9/9/9/9/9/9/9/9 w - - 0 1"),
        Err(FenError::RowCount(9))
    ));
    assert!(matches!(
        from_fen("9/9/9/9/9/9/9/9/9/8 w - - 0 1"),
        Err(FenError::RowWidth { .. })
    ));
    // 缺少红方帅
    assert!(matches!(
        from_fen("4k4/9/9/9/9/9/9/9/9/9 w - - 0 1"),
        Err(FenError::BadPosition(PositionError::MissingKing(
            Color::Red
        )))
    ));
    // 将帅不在九宫（黑将在 e6 —— 黑方九宫是 row 7..9）
    assert!(matches!(
        from_fen("9/9/9/4k4/9/9/9/9/9/4K4 w - - 0 1"),
        Err(FenError::KingOutsidePalace(Color::Black))
    ));
    // 非法字符
    assert!(matches!(
        from_fen("9/9/9/9/9/9/9/9/9/x8 w - - 0 1"),
        Err(FenError::BadChar { .. })
    ));
}

/// 子力越界不应 panic。
#[test]
fn board_with_no_pieces_errors_cleanly() {
    assert!(from_fen("9/9/9/9/9/9/9/9/9/9 w - - 0 1").is_err());
}

#[test]
fn fen_text_of_a_midgame_reads_back() {
    let text = "2bak4/4a4/4b1n2/p3C3p/2p6/6P2/P3P3P/4B4/4A4/2BAK1c2 b - - 7 23";
    let pos = from_fen(text).unwrap();
    let again = from_fen(&to_fen(&pos)).unwrap();
    assert_eq!(to_fen(&again), text);
    assert_eq!(again.side_to_move(), Color::Black);
}

#[test]
fn diagram_draws_the_start_position() {
    let pos = from_fen(STARTPOS_FEN).unwrap();
    let picture = pos.diagram();
    let lines: Vec<&str> = picture.lines().collect();
    assert_eq!(lines.len(), 12);
    assert_eq!(
        lines[0],
        format!("Position(红 to move, halfmove=0, fullmove=1, hash={:#018x})", pos.hash())
    );
    assert_eq!(lines[1], "  row 9  车 马 象 士 将 士 象 马 车");
    assert_eq!(lines[3], "  row 7  · 炮 · · · · · 炮 ·");
    assert_eq!(lines[5], "  row 5  · · · · · · · · ·");
    assert_eq!(lines[10], "  row 0  车 马 相 仕 帅 仕 相 马 车");
    assert_eq!(lines[11], "          a b c d e f g h i");
}
