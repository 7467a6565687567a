use xq::square::to_iccs;
use xq::{Color, MoveList, PieceKind, Position, kind_of};

fn pseudo_from_startpos() -> (Position, MoveList) {
    let pos = Position::startpos();
    let mut list = MoveList::new();
    pos.gen_pseudo_into(&mut list);
    (pos, list)
}

/// 初始局面伪合法着法数 = 44（初始局面不存在自将，故伪合法 == 合法）。
#[test]
fn startpos_pseudo_legal_count_is_44() {
    let (_, list) = pseudo_from_startpos();
    assert_eq!(
        list.len(),
        44,
        "初始局面伪合法着法数应为 44，实际 {}",
        list.len()
    );
}

#[test]
fn startpos_per_piece_breakdown_matches_doc() {
    let (pos, list) = pseudo_from_startpos();

    let count_by_kind = |kind: PieceKind| -> usize {
        list.iter()
            .filter(|mv| kind_of(pos.piece_at(mv.from())) == Some(kind))
            .count()
    };

    assert_eq!(count_by_kind(PieceKind::Chariot), 4, "车 × 2 应为 4 步");
    assert_eq!(count_by_kind(PieceKind::Horse), 4, "马 × 2 应为 4 步");
    assert_eq!(count_by_kind(PieceKind::Elephant), 4, "相 × 2 应为 4 步");
    assert_eq!(count_by_kind(PieceKind::Advisor), 2, "仕 × 2 应为 2 步");
    assert_eq!(count_by_kind(PieceKind::King), 1, "帅应为 1 步");
    assert_eq!(
        count_by_kind(PieceKind::Cannon),
        24,
        "炮 × 2 应为 24 步（含吃 b9 黑马与 h9 黑马两个隔子吃；注意黑方底线是 rnbakabnr，h9 是马不是车）"
    );
    assert_eq!(count_by_kind(PieceKind::Pawn), 5, "兵 × 5 应为 5 步");
}

#[test]
fn cannon_on_b2_has_twelve_moves() {
    let (pos, list) = pseudo_from_startpos();
    let from = xq::square::from_iccs("b2").unwrap();
    let mut targets: Vec<String> = list
        .iter()
        .filter(|mv| mv.from() == from)
        .map(|mv| to_iccs(mv.to()))
        .collect();
    targets.sort();

    assert_eq!(targets.len(), 12, "b2 炮应有 12 步，实际 {targets:?}");
    // 上移 4 步
    for t in ["b3", "b4", "b5", "b6"] {
        assert!(targets.contains(&t.to_string()), "缺上移 {t}");
    }
    // 隔子吃 b9 黑马（炮架 b7 黑炮）
    assert!(targets.contains(&"b9".to_string()), "缺隔子吃 b9 黑马");
    // 下移 1 步、左移 1 步、右移 5 步
    assert!(targets.contains(&"b1".to_string()), "缺下移 b1");
    assert!(targets.contains(&"a2".to_string()), "缺左移 a2");
    for t in ["c2", "d2", "e2", "f2", "g2"] {
        assert!(targets.contains(&t.to_string()), "缺右移 {t}");
    }
    // 不可吃 b7（同列相邻敌子，但无炮架）—— 这是最容易写错的一项
    assert!(
        !targets.contains(&"b7".to_string()),
        "b2 炮不应能吃到 b7（无炮架）"
    );
    let _ = pos;
}

/// 蹩马腿：初始局面 b0 马的 `d1` 被 c0 相蹩住。
#[test]
fn horse_is_blocked_by_leg() {
    let (_, list) = pseudo_from_startpos();
    let from = xq::square::from_iccs("b0").unwrap();
    let targets: Vec<String> = list
        .iter()
        .filter(|mv| mv.from() == from)
        .map(|mv| to_iccs(mv.to()))
        .collect();

    assert!(targets.contains(&"a2".to_string()), "b0 马应能到 a2");
    assert!(targets.contains(&"c2".to_string()), "b0 马应能到 c2");
    assert!(
        !targets.contains(&"d1".to_string()),
        "b0 马不应能到 d1（被 c0 相蹩腿）"
    );
}

/// 塞象眼：红相被己方棋子塞住眼时不能走。
#[test]
fn elephant_is_blocked_by_eye() {
    // 红相在 c0，象眼 b1 放一个红兵
    let pos = xq::position::position_from_pieces(
        &[
            (Color::Red, PieceKind::King, "e0"),
            (Color::Red, PieceKind::Elephant, "c0"),
            (Color::Red, PieceKind::Pawn, "b1"),
            (Color::Black, PieceKind::King, "e9"),
        ],
        Color::Red,
    )
    .unwrap();
    let mut list = MoveList::new();
    pos.gen_pseudo_into(&mut list);
    let from = xq::square::from_iccs("c0").unwrap();
    let targets: Vec<String> = list
        .iter()
        .filter(|mv| mv.from() == from)
        .map(|mv| to_iccs(mv.to()))
        .collect();

    assert!(
        !targets.contains(&"a2".to_string()),
        "象眼被塞，不应能到 a2"
    );
    assert!(
        targets.contains(&"e2".to_string()),
        "另一侧象眼通畅，应能到 e2"
    );
}

/// 相不可过河：红相只能到达 7 个固定点。
#[test]
fn elephant_cannot_cross_river() {
    let pos = xq::position::position_from_pieces(
        &[
            (Color::Red, PieceKind::King, "e0"),
            // 放在河界附近，四方向之一指向河对岸
            (Color::Red, PieceKind::Elephant, "e4"),
            (Color::Black, PieceKind::King, "e9"),
        ],
        Color::Red,
    )
    .unwrap();
    let mut list = MoveList::new();
    pos.gen_pseudo_into(&mut list);
    let from = xq::square::from_iccs("e4").unwrap();
    let targets: Vec<String> = list
        .iter()
        .filter(|mv| mv.from() == from)
        .map(|mv| to_iccs(mv.to()))
        .collect();

    // e4 的四目标：c2/g2/e2/e6，其中 e6 在河对岸（row 6），应被剔除
    assert!(targets.contains(&"c2".to_string()));
    assert!(targets.contains(&"g2".to_string()));
    assert!(
        !targets.contains(&"e6".to_string()),
        "相不可过河，不应能到 e6"
    );
}

/// 兵未过河不能横走，过河后可横走且永不后退。
#[test]
fn pawn_movement_depends_on_river() {
    let pos = xq::position::position_from_pieces(
        &[
            (Color::Red, PieceKind::King, "e0"),
            (Color::Red, PieceKind::Pawn, "c3"), // 未过河（红方 row 3 <= 4）
            (Color::Red, PieceKind::Pawn, "c6"), // 已过河
            (Color::Black, PieceKind::King, "e9"),
        ],
        Color::Red,
    )
    .unwrap();
    let mut list = MoveList::new();
    pos.gen_pseudo_into(&mut list);

    let targets_of = |iccs: &str| -> Vec<String> {
        let from = xq::square::from_iccs(iccs).unwrap();
        list.iter()
            .filter(|mv| mv.from() == from)
            .map(|mv| to_iccs(mv.to()))
            .collect()
    };

    let before = targets_of("c3");
    assert_eq!(before, vec!["c4".to_string()], "未过河的兵只能前进一步");

    let after = targets_of("c6");
    assert!(after.contains(&"c7".to_string()), "过河兵应能前进");
    assert!(after.contains(&"b6".to_string()), "过河兵应能左移");
    assert!(after.contains(&"d6".to_string()), "过河兵应能右移");
    assert!(!after.contains(&"c5".to_string()), "兵永不后退");
}

/// 仕 / 帅被限制在九宫内。
#[test]
fn advisor_and_king_are_confined_to_palace() {
    let targets_of = |pieces: &[(Color, PieceKind, &str)], from: &str| -> Vec<String> {
        let pos = xq::position::position_from_pieces(pieces, Color::Red).unwrap();
        let mut list = MoveList::new();
        pos.gen_pseudo_into(&mut list);
        let idx = xq::square::from_iccs(from).unwrap();
        list.iter()
            .filter(|mv| mv.from() == idx)
            .map(|mv| to_iccs(mv.to()))
            .collect()
    };

    // 仕在 d0：九宫内的斜向落点只有 e1（c1 的 col = 2，在九宫外）
    let advisor = targets_of(
        &[
            (Color::Red, PieceKind::King, "e0"),
            (Color::Red, PieceKind::Advisor, "d0"),
            // 黑将放 d9：与红帅 e0 不同列，避免形成照面的非法局面
            (Color::Black, PieceKind::King, "d9"),
        ],
        "d0",
    );
    assert_eq!(advisor, vec!["e1".to_string()], "d0 仕在九宫内只剩 e1 可走");

    // 帅在 d0：可走 e0 与 d1；c0 的 col = 2 在九宫外
    let king = targets_of(
        &[
            (Color::Red, PieceKind::King, "d0"),
            (Color::Black, PieceKind::King, "e9"),
        ],
        "d0",
    );
    assert!(
        !king.contains(&"c0".to_string()),
        "帅不可走出九宫（c0 在九宫外）"
    );
    let mut sorted = king.clone();
    sorted.sort();
    assert_eq!(sorted, vec!["d1".to_string(), "e0".to_string()]);
}

/// 车射线被己方阻挡、可吃敌方第一个子。
#[test]
fn chariot_ray_stops_and_captures() {
    let pos = xq::position::position_from_pieces(
        &[
            (Color::Red, PieceKind::King, "e0"),
            (Color::Red, PieceKind::Chariot, "a0"),
            (Color::Red, PieceKind::Pawn, "a5"),   // 己方阻挡
            (Color::Black, PieceKind::Pawn, "d0"), // 敌方，可吃
            (Color::Black, PieceKind::King, "e9"),
        ],
        Color::Red,
    )
    .unwrap();
    let mut list = MoveList::new();
    pos.gen_pseudo_into(&mut list);
    let from = xq::square::from_iccs("a0").unwrap();
    let targets: Vec<String> = list
        .iter()
        .filter(|mv| mv.from() == from)
        .map(|mv| to_iccs(mv.to()))
        .collect();

    for t in ["a1", "a2", "a3", "a4"] {
        assert!(targets.contains(&t.to_string()), "应能到 {t}");
    }
    assert!(
        !targets.contains(&"a5".to_string()),
        "己方棋子不可吃也不可越过"
    );
    assert!(targets.contains(&"b0".to_string()));
    assert!(targets.contains(&"c0".to_string()));
    assert!(targets.contains(&"d0".to_string()), "应能吃敌子 d0");
    assert_eq!(targets.len(), 7);
}
