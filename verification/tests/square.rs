use xq::Color;
use xq::square::{
    BOARD_SIZE, COLS, col_from_route, col_of, from_iccs, has_crossed_river, in_palace, index,
    on_own_side, route_number, row_of, to_iccs,
};

#[test]
fn index_roundtrip_is_total() {
    for idx in 0..BOARD_SIZE as u8 {
        assert_eq!(index(col_of(idx), row_of(idx)), idx);
    }
}

#[test]
fn iccs_roundtrip_is_total() {
    for idx in 0..BOARD_SIZE as u8 {
        let s = to_iccs(idx);
        assert_eq!(from_iccs(&s), Some(idx), "ICCS 往返失败: {s}");
    }
}

#[test]
fn iccs_known_values() {
    assert_eq!(to_iccs(index(7, 2)), "h2");
    assert_eq!(to_iccs(index(4, 0)), "e0");
    assert_eq!(to_iccs(index(0, 9)), "a9");
    assert_eq!(from_iccs("h2"), Some(index(7, 2)));
    assert_eq!(from_iccs("j0"), None);
    assert_eq!(from_iccs("h10"), None);
    assert_eq!(from_iccs(""), None);
}

#[test]
fn route_number_matches_design_doc() {
    // 红方：列 i(8) → 1 路；列 a(0) → 9 路
    assert_eq!(route_number(Color::Red, 8), 1);
    assert_eq!(route_number(Color::Red, 0), 9);
    // 红炮初始在 h 列 → 7 → 9-7 = 2 路
    assert_eq!(route_number(Color::Red, 7), 2);
    // 黑方：列 a(0) → 1 路；列 i(8) → 9 路
    assert_eq!(route_number(Color::Black, 0), 1);
    assert_eq!(route_number(Color::Black, 8), 9);
    // 黑炮初始在 h 列 → 7 → 7+1 = 8 路
    assert_eq!(route_number(Color::Black, 7), 8);
}

#[test]
fn route_col_roundtrip() {
    for color in [Color::Red, Color::Black] {
        for col in 0..COLS {
            let route = route_number(color, col);
            assert_eq!(col_from_route(color, route), Some(col));
        }
    }
}

#[test]
fn palace_and_river_bounds() {
    assert!(in_palace(Color::Red, 4, 1));
    assert!(in_palace(Color::Red, 3, 2));
    assert!(!in_palace(Color::Red, 3, 3));
    assert!(!in_palace(Color::Red, 6, 1));
    assert!(in_palace(Color::Black, 5, 9));
    assert!(!in_palace(Color::Black, 5, 6));

    assert!(on_own_side(Color::Red, 4));
    assert!(!on_own_side(Color::Red, 5));
    assert!(has_crossed_river(Color::Red, 5));
    assert!(on_own_side(Color::Black, 5));
    assert!(has_crossed_river(Color::Black, 4));
}
