use xq::square::from_iccs;
use xq::{Color, Move, NotationError, Position};

fn notation_of(fen: &str, iccs: &str) -> String {
    let pos = xq::fen::from_fen(fen).expect("FEN 解析失败");
    let mv = Move::new(
        from_iccs(&iccs[0..2]).unwrap(),
        from_iccs(&iccs[2..4]).unwrap(),
    );
    pos.to_chinese_notation(mv).expect("生成记谱失败")
}

const START: &str = xq::fen::STARTPOS_FEN;

#[test]
fn doc_examples() {
    // 红方「炮二平五」= h2 → e2
    assert_eq!(notation_of(START, "h2e2"), "炮二平五");
    // 红方「马二进三」= h0 → g2（跟目标路数，不是格数）
    assert_eq!(notation_of(START, "h0g2"), "马二进三");
    // 红方「炮八平五」= b2 → e2
    assert_eq!(notation_of(START, "b2e2"), "炮八平五");
    // 红方「马八进七」= b0 → c2
    assert_eq!(notation_of(START, "b0c2"), "马八进七");
    // 红方「兵七进一」= c3 → c4（跟格数）
    assert_eq!(notation_of(START, "c3c4"), "兵七进一");
    // 红方「相三进五」= g0 → e2（跟目标路数）
    assert_eq!(notation_of(START, "g0e2"), "相三进五");
    // 红方「仕四进五」= f0 → e1（跟目标路数）
    assert_eq!(notation_of(START, "f0e1"), "仕四进五");
    // 红方「帅五进一」= e0 → e1（跟格数 —— 若按「目标路数」会输出「帅五进五」）
    assert_eq!(notation_of(START, "e0e1"), "帅五进一");
    // 红方车：a0 是九路，前进一格
    assert_eq!(notation_of(START, "a0a1"), "车九进一");
    assert_eq!(notation_of(START, "i0i1"), "车一进一");
}

/// 黑方用阿拉伯数字（路数与步数都是）。
#[test]
fn black_uses_arabic_numerals() {
    // 黑炮 h7 是 8 路，平到 e7（5 路）
    assert_eq!(notation_of(START, "h7e7"), "炮8平5");
    // 黑马 h9 是 8 路，进到 g7（7 路）—— 这是应对当头炮的标准着法
    assert_eq!(notation_of(START, "h9g7"), "马8进7");
    // 黑卒 a6 是 1 路，前进一格
    assert_eq!(notation_of(START, "a6a5"), "卒1进1");
}

/// 「进 / 退」的方向判定红黑相反：黑方 `row` 减小才是「进」。
#[test]
fn advance_direction_differs_by_side() {
    // 黑卒 a6 → a5：黑方前进方向是 row 递减，故为「进」
    assert_eq!(notation_of(START, "a6a5"), "卒1进1");

    // 黑车在 a7；红兵 e4 封住 e 列，避免两王照面
    let fen = "4k4/9/r8/9/9/4P4/9/9/9/4K4 b - - 0 1";
    let pos = xq::fen::from_fen(fen).expect("FEN 应可解析");
    // a7 → a8：对黑方是后退（row 增大）
    let mv_back = Move::new(from_iccs("a7").unwrap(), from_iccs("a8").unwrap());
    assert_eq!(pos.to_chinese_notation(mv_back).unwrap(), "车1退1");
    // a7 → a6：向前走一格
    let mv_fwd = Move::new(from_iccs("a7").unwrap(), from_iccs("a6").unwrap());
    assert_eq!(pos.to_chinese_notation(mv_fwd).unwrap(), "车1进1");
}

/// 同线两子用「前 / 后」（红方 row 大者为前）。
#[test]
fn front_back_disambiguation_with_two_pieces() {
    // 红方两车同在 e 列：e3（row 大 → 前）、e1（后）
    let fen = "4k4/9/9/9/9/9/4R4/9/4R4/4K4 w - - 0 1";
    let pos = xq::fen::from_fen(fen).unwrap();

    let front = Move::new(from_iccs("e3").unwrap(), from_iccs("e4").unwrap());
    assert_eq!(pos.to_chinese_notation(front).unwrap(), "前车进一");

    let back = Move::new(from_iccs("e1").unwrap(), from_iccs("e2").unwrap());
    assert_eq!(pos.to_chinese_notation(back).unwrap(), "后车进一");
}

/// 同线三子用「前 / 中 / 后」。
#[test]
fn middle_disambiguation_with_three_pieces() {
    // e5（前）、e3（中）、e1（后）
    let fen = "4k4/9/9/9/4R4/9/4R4/9/4R4/4K4 w - - 0 1";
    let pos = xq::fen::from_fen(fen).unwrap();

    let front = Move::new(from_iccs("e5").unwrap(), from_iccs("e6").unwrap());
    assert_eq!(pos.to_chinese_notation(front).unwrap(), "前车进一");

    let middle = Move::new(from_iccs("e3").unwrap(), from_iccs("e4").unwrap());
    assert_eq!(pos.to_chinese_notation(middle).unwrap(), "中车进一");

    let back = Move::new(from_iccs("e1").unwrap(), from_iccs("e2").unwrap());
    assert_eq!(pos.to_chinese_notation(back).unwrap(), "后车进一");
}

/// 同线五子用「前 / 二 / 三 / 四 / 后」。
#[test]
fn nth_disambiguation_with_five_pawns_on_one_file() {
    // a 列五个红兵，row 依次为 7/6/5/4/3（row 大者为前）
    let fen = "3k5/9/P8/P8/P8/P8/P8/9/9/4K4 w - - 0 1";
    let pos = xq::fen::from_fen(fen).unwrap();

    // describe 不校验合法性，故可用任意 from→to 探测起点标识
    let subject_of = |coord: &str| -> String {
        let from = from_iccs(coord).unwrap();
        let to = from + 9; // 向 row 增大方向前进一格
        pos.to_chinese_notation(Move::new(from, to))
            .unwrap_or_else(|e| panic!("{coord} 记谱生成失败: {e:?}"))
    };

    assert_eq!(subject_of("a7"), "前兵进一");
    assert_eq!(subject_of("a6"), "二兵进一");
    assert_eq!(subject_of("a5"), "三兵进一");
    assert_eq!(subject_of("a4"), "四兵进一");
    assert_eq!(subject_of("a3"), "后兵进一");
}

/// 不同线的同种棋子不触发消歧，仍用路数。
#[test]
fn pieces_on_different_files_use_route_number() {
    // 初始局面两个红炮在 b2 / h2，不同列
    let pos = xq::fen::from_fen(START).unwrap();
    let mv = Move::new(from_iccs("b2").unwrap(), from_iccs("e2").unwrap());
    assert_eq!(pos.to_chinese_notation(mv).unwrap(), "炮八平五");
}

/// 繁体异体字也能解析。
#[test]
fn traditional_glyphs_are_accepted() {
    let mut pos = Position::startpos();
    // 「馬二进三」是繁体的马二进三（动作字仍用简体）
    assert!(pos.from_chinese_notation("馬二进三").is_ok());
    // 繁体棋子字 + 标准动作字
    let mv = pos.from_chinese_notation("馬二进三").unwrap();
    assert_eq!(pos.to_iccs_string(mv), "h0g2");
}

/// 往返：从初始局面枚举全部 44 步，逐个生成记谱再解析回来。
#[test]
fn roundtrip_from_startpos() {
    let mut pos = Position::startpos();
    let moves = pos.legal_moves();
    assert_eq!(moves.len(), 44);
    for mv in moves {
        let text = pos.to_chinese_notation(mv).expect("生成记谱失败");
        let parsed = pos
            .from_chinese_notation(&text)
            .unwrap_or_else(|e| panic!("解析 {text} 失败: {e:?}"));
        assert_eq!(parsed, mv, "记谱 {text} 往返后着法不一致");
    }
}

/// 解析：从初始局面按记谱走若干步经典开局。
///
/// > 注意黑方的路数方向：黑方从自己的右侧（即棋图的 `a` 列）数 1 路，
/// > 故 `a9` 的黑车是「车1」、`i9` 的黑车是「车9」。这与很多人的直觉相反。
#[test]
fn parse_classic_opening_moves() {
    let mut pos = Position::startpos();
    let expected = [
        ("炮二平五", "h2e2"),
        ("炮8平5", "h7e7"),
        ("马二进三", "h0g2"),
        ("马8进7", "h9g7"),
        ("车一平二", "i0h0"),
        // 黑方 a9 车是「车1」，但 b9 被己方马占住，故只有 i9 车能动
        ("车9平8", "i9h9"),
        ("兵七进一", "c3c4"),
        ("卒7进1", "g6g5"),
    ];
    for (text, iccs) in expected {
        let mv = pos
            .from_chinese_notation(text)
            .unwrap_or_else(|e| panic!("解析 {text} 失败: {e:?}"));
        assert_eq!(pos.to_iccs_string(mv), iccs, "记谱 {text} 解析出的着法不对");
        // 走完再验证一遍生成
        assert_eq!(pos.to_chinese_notation(mv).unwrap(), text);
        pos.make_move(mv).expect("着法应合法");
    }
}

/// 错误路径。
#[test]
fn parse_errors() {
    let mut pos = Position::startpos();

    assert_eq!(pos.from_chinese_notation(""), Err(NotationError::Empty));

    // 「十」既不是汉字数字也不在 1..9，故在「取值」阶段就失败
    assert_eq!(
        pos.from_chinese_notation("炮二平十"),
        Err(NotationError::MissingValue)
    );

    // 「进」后跟了不可能的值 7（兵最多进 1 格）
    assert!(matches!(
        pos.from_chinese_notation("兵三进七"),
        Err(NotationError::NoMatch)
    ));

    // 五路上没有红炮
    assert!(matches!(
        pos.from_chinese_notation("炮五平五"),
        Err(NotationError::NoMatch)
    ));

    // 缺少动作字
    assert_eq!(
        pos.from_chinese_notation("炮二平"),
        Err(NotationError::MissingValue)
    );

    // 无法识别的棋子字
    assert_eq!(
        pos.from_chinese_notation("龍二进三"),
        Err(NotationError::UnknownPieceChar('龍'))
    );
}

/// 红黑字形不同：轮黑方走时写「帅」应被判为非法记谱，而不是误匹配到黑将。
#[test]
fn wrong_side_glyph_is_rejected() {
    let mut pos = Position::startpos();
    // 先走一步红着，把走子方交给黑方
    let mv = pos.from_chinese_notation("炮二平五").unwrap();
    pos.make_move(mv).unwrap();
    assert_eq!(pos.side_to_move(), Color::Black);

    assert_eq!(
        pos.from_chinese_notation("帅五进一"),
        Err(NotationError::UnknownPieceChar('帅')),
        "黑方走子时不应接受红方的「帅」字"
    );
    // 同一个着法用黑方字形写就应当能解析
    assert!(pos.from_chinese_notation("将5进1").is_ok());
}

#[test]
fn doubled_pawns_on_two_files_share_a_notation() {
    let mut pos = xq::fen::from_fen("3k5/9/9/2P3P2/2P3P2/9/9/9/9/4K4 w - - 0 1").unwrap();
    let left = Move::new(from_iccs("c6").unwrap(), from_iccs("c7").unwrap());
    let right = Move::new(from_iccs("g6").unwrap(), from_iccs("g7").unwrap());
    assert_eq!(pos.to_chinese_notation(left).unwrap(), "前兵进一");
    assert_eq!(pos.to_chinese_notation(right).unwrap(), "前兵进一");
    assert_eq!(pos.from_chinese_notation("前兵进一"), Err(NotationError::Ambiguous));
}
