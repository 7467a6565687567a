use xq::ai::ordering::{History, MovePicker};
use xq::square::from_iccs;
use xq::{Color, Move, PieceKind, Position, position_from_pieces};

fn mv(iccs: &str) -> Move {
    Move::new(
        from_iccs(&iccs[0..2]).unwrap(),
        from_iccs(&iccs[2..4]).unwrap(),
    )
}

fn quiet_position() -> Position {
    position_from_pieces(
        &[
            (Color::Red, PieceKind::King, "e0"),
            (Color::Red, PieceKind::Horse, "b0"),
            (Color::Red, PieceKind::Chariot, "a0"),
            (Color::Black, PieceKind::King, "d9"),
        ],
        Color::Red,
    )
    .unwrap()
}

#[test]
fn history_bump_and_get() {
    let mut h = History::new();
    assert_eq!(h.get(0, 1), 0);
    h.bump(0, 1, 4);
    assert_eq!(h.get(0, 1), 16);
    h.bump(0, 1, 2);
    assert_eq!(h.get(0, 1), 20);
}

#[test]
fn history_decay_shrinks() {
    let mut h = History::new();
    h.bump(0, 1, 8);
    let before = h.get(0, 1);
    h.decay();
    assert!(h.get(0, 1) < before);
}

#[test]
fn history_clear_forgets() {
    let mut h = History::new();
    h.bump(3, 4, 5);
    assert_eq!(h.get(3, 4), 25);
    h.clear();
    assert_eq!(h.get(3, 4), 0);
}

#[test]
fn tt_move_comes_first() {
    let mut pos = Position::startpos();
    let tt = mv("h2e2");
    let killers = [Move(0), Move(0)];
    let history = History::new();

    let mut picker = MovePicker::new(&mut pos, Some(tt), &killers, &history);
    assert_eq!(picker.len(), 44);
    assert_eq!(picker.pick(), Some(tt));
}

#[test]
fn captures_come_before_quiet_moves() {
    let mut pos = position_from_pieces(
        &[
            (Color::Red, PieceKind::King, "e0"),
            (Color::Red, PieceKind::Pawn, "b3"),
            (Color::Red, PieceKind::Chariot, "a0"),
            (Color::Black, PieceKind::King, "d9"),
            (Color::Black, PieceKind::Chariot, "b4"),
        ],
        Color::Red,
    )
    .unwrap();

    let pawn_takes_chariot = mv("b3b4");
    let quiet_rook_move = mv("a0a1");

    let killers = [Move(0), Move(0)];
    let history = History::new();
    let mut picker = MovePicker::new(&mut pos, None, &killers, &history);
    let first = picker.pick().unwrap();
    assert_eq!(first, pawn_takes_chariot);
    assert_ne!(first, quiet_rook_move);
}

#[test]
fn killers_before_quiet_moves() {
    let mut pos = quiet_position();
    let killer = mv("b0c2");
    let killers = [killer, Move(0)];
    let history = History::new();

    let mut picker = MovePicker::new(&mut pos, None, &killers, &history);
    assert!(picker.len() > 1);
    assert_eq!(picker.pick().unwrap(), killer);
}

#[test]
fn history_orders_quiet_moves() {
    let mut pos = quiet_position();
    let killers = [Move(0), Move(0)];
    let mut history = History::new();
    let favoured = mv("b0a2");
    history.bump(favoured.from(), favoured.to(), 6);

    let mut picker = MovePicker::new(&mut pos, None, &killers, &history);
    assert_eq!(picker.pick().unwrap(), favoured);
}

#[test]
fn picker_yields_all_moves_exactly_once() {
    let mut pos = Position::startpos();
    let killers = [Move(0), Move(0)];
    let history = History::new();
    let mut picker = MovePicker::new(&mut pos, None, &killers, &history);

    let total = picker.len();
    let mut seen = std::collections::HashSet::new();
    while let Some(m) = picker.pick() {
        assert!(seen.insert(m), "move {:?} handed out twice", m);
    }
    assert_eq!(seen.len(), total);
    assert_eq!(total, 44);
    assert_eq!(picker.remaining(), 0);
    assert_eq!(picker.pick(), None);
}

#[test]
fn empty_picker_for_a_mated_side() {
    let mut pos = position_from_pieces(
        &[
            (Color::Red, PieceKind::King, "e0"),
            (Color::Red, PieceKind::Chariot, "a9"),
            (Color::Red, PieceKind::Chariot, "b8"),
            (Color::Black, PieceKind::King, "d9"),
        ],
        Color::Black,
    )
    .unwrap();
    let killers = [Move(0), Move(0)];
    let history = History::new();
    let mut picker = MovePicker::new(&mut pos, None, &killers, &history);
    assert!(picker.is_empty());
    assert_eq!(picker.pick(), None);
}
