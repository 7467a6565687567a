use xq::ai::eval::{
    FULL_PHASE_WEIGHT, PHASE_SCALE, evaluate, material_value, mirror_index, pawn_pst,
    phase_factor, phase_weight,
};
use xq::square::{col_of, from_iccs, row_of, to_iccs};
use xq::{BOARD_SIZE, Color, PieceKind, Position, kind_of, position_from_pieces};

#[test]
fn phase_weight_initial_is_76() {
    let pos = Position::startpos();
    let mut weight = 0;
    for idx in 0..BOARD_SIZE as u8 {
        let piece = pos.piece_at(idx);
        if let Some(kind) = kind_of(piece) {
            weight += phase_weight(kind);
        }
    }
    assert_eq!(weight, FULL_PHASE_WEIGHT);
    assert_eq!(phase_factor(&pos), PHASE_SCALE);
}

#[test]
fn mirror_is_involution() {
    for idx in 0..BOARD_SIZE as u8 {
        assert_eq!(mirror_index(mirror_index(idx)), idx);
    }
}

#[test]
fn startpos_is_balanced() {
    assert_eq!(evaluate(&Position::startpos()), 0);
}

#[test]
fn mirrored_position_evaluates_to_negation() {
    let pieces = [
        (Color::Red, PieceKind::King, "e0"),
        (Color::Red, PieceKind::Chariot, "b2"),
        (Color::Red, PieceKind::Horse, "e5"),
        (Color::Red, PieceKind::Pawn, "c6"),
        (Color::Black, PieceKind::King, "d9"),
        (Color::Black, PieceKind::Cannon, "g4"),
        (Color::Black, PieceKind::Advisor, "f9"),
    ];
    let pos = position_from_pieces(&pieces, Color::Red).unwrap();

    let mirrored: Vec<(Color, PieceKind, String)> = pieces
        .iter()
        .map(|(color, kind, coord)| {
            let idx = from_iccs(coord).unwrap();
            let m = mirror_index(idx);
            let text = to_iccs(m);
            (color.opponent(), *kind, text)
        })
        .collect();
    let borrowed: Vec<(Color, PieceKind, &str)> = mirrored
        .iter()
        .map(|(c, k, s)| (*c, *k, s.as_str()))
        .collect();
    let mirrored_pos = position_from_pieces(&borrowed, Color::Black).unwrap();

    assert_eq!(evaluate(&mirrored_pos), -evaluate(&pos));
}

#[test]
fn material_advantage_is_positive_for_red() {
    let pos = position_from_pieces(
        &[
            (Color::Red, PieceKind::King, "e0"),
            (Color::Red, PieceKind::Chariot, "a0"),
            (Color::Black, PieceKind::King, "e9"),
        ],
        Color::Red,
    )
    .unwrap();
    assert!(evaluate(&pos) > 400);
}

#[test]
fn crossed_pawn_worth_more_than_home_pawn() {
    let home = position_from_pieces(
        &[
            (Color::Red, PieceKind::King, "e0"),
            (Color::Red, PieceKind::Pawn, "e3"),
            (Color::Black, PieceKind::King, "e9"),
        ],
        Color::Red,
    )
    .unwrap();
    let crossed = position_from_pieces(
        &[
            (Color::Red, PieceKind::King, "e0"),
            (Color::Red, PieceKind::Pawn, "e7"),
            (Color::Black, PieceKind::King, "e9"),
        ],
        Color::Red,
    )
    .unwrap();
    assert!(evaluate(&crossed) > evaluate(&home) + 40);
}

#[test]
fn pawn_pst_matches_documented_rules() {
    assert_eq!(pawn_pst(2, 4), 0);
    assert_eq!(pawn_pst(2, 5), 20);
    assert_eq!(pawn_pst(2, 6), 40);
    assert_eq!(pawn_pst(2, 7), 55);
    assert_eq!(pawn_pst(2, 8), 35);
    assert_eq!(pawn_pst(2, 9), -50);
    assert_eq!(pawn_pst(4, 6), 55);
    assert_eq!(pawn_pst(8, 6), 30);
    assert_eq!(pawn_pst(0, 4), -10);
}

#[test]
fn cannon_value_decays_and_horse_grows_in_endgame() {
    let opening = material_value(PieceKind::Cannon, PHASE_SCALE);
    let endgame = material_value(PieceKind::Cannon, 0);
    assert!(opening > endgame);

    let horse_opening = material_value(PieceKind::Horse, PHASE_SCALE);
    let horse_endgame = material_value(PieceKind::Horse, 0);
    assert!(horse_endgame > horse_opening);
}

#[test]
fn square_index_helper_is_consistent() {
    let idx = from_iccs("c6").unwrap();
    assert_eq!(col_of(idx), 2);
    assert_eq!(row_of(idx), 6);
}

#[test]
fn evaluate_for_and_side_to_move_follow_the_side() {
    let pos = position_from_pieces(
        &[
            (Color::Red, PieceKind::King, "e0"),
            (Color::Red, PieceKind::Chariot, "a0"),
            (Color::Black, PieceKind::King, "e9"),
        ],
        Color::Black,
    )
    .unwrap();
    let red = evaluate(&pos);
    assert_eq!(xq::ai::eval::evaluate_for(&pos, Color::Red), red);
    assert_eq!(xq::ai::eval::evaluate_for(&pos, Color::Black), -red);
    assert_eq!(xq::ai::eval::evaluate_side_to_move(&pos), -red);
}

/// Evaluation of `pieces` and of their reflection with colours swapped.
fn evaluate_both_ways(pieces: &[(Color, PieceKind, &str)]) -> (i32, i32) {
    let pos = position_from_pieces(pieces, Color::Red).unwrap();
    let mirrored: Vec<(Color, PieceKind, String)> = pieces
        .iter()
        .map(|(color, kind, coord)| (color.opponent(), *kind, to_iccs(mirror_index(from_iccs(coord).unwrap()))))
        .collect();
    let borrowed: Vec<(Color, PieceKind, &str)> = mirrored.iter().map(|(c, k, s)| (*c, *k, s.as_str())).collect();
    let mirrored_pos = position_from_pieces(&borrowed, Color::Black).unwrap();
    (evaluate(&pos), evaluate(&mirrored_pos))
}

#[test]
fn mirrored_board_with_five_chariots_on_one_rank_negates() {
    let (e, m) = evaluate_both_ways(&[
        (Color::Red, PieceKind::King, "e0"),
        (Color::Red, PieceKind::Chariot, "a4"),
        (Color::Red, PieceKind::Chariot, "b4"),
        (Color::Red, PieceKind::Chariot, "c4"),
        (Color::Red, PieceKind::Chariot, "d4"),
        (Color::Red, PieceKind::Chariot, "i4"),
        (Color::Red, PieceKind::Pawn, "i6"),
        (Color::Black, PieceKind::King, "d9"),
    ]);
    assert_eq!(m, -e);
}

#[test]
fn mirrored_board_with_five_chariots_on_two_ranks_differs() {
    let (e, m) = evaluate_both_ways(&[
        (Color::Red, PieceKind::King, "e0"),
        (Color::Red, PieceKind::Chariot, "a0"),
        (Color::Red, PieceKind::Chariot, "b0"),
        (Color::Red, PieceKind::Chariot, "c0"),
        (Color::Red, PieceKind::Chariot, "a1"),
        (Color::Red, PieceKind::Chariot, "i5"),
        (Color::Red, PieceKind::Pawn, "c3"),
        (Color::Black, PieceKind::King, "e9"),
    ]);
    assert_ne!(m, -e);
}
