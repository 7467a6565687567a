use xq::ai::{Difficulty, Engine, NeverStop, NodeLimitedStop, SearchLimits, Searcher};
use xq::square::from_iccs;
use xq::{Color, GameStatus, Move, PieceKind, Position, kind_of, position_from_pieces};

fn mv(iccs: &str) -> Move {
    Move::new(
        from_iccs(&iccs[0..2]).expect("origin"),
        from_iccs(&iccs[2..4]).expect("target"),
    )
}

fn build(pieces: &[(Color, PieceKind, &str)], side: Color) -> Position {
    position_from_pieces(pieces, side).expect("test position")
}

fn mate_in_one_position() -> Position {
    build(
        &[
            (Color::Red, PieceKind::King, "d0"),
            (Color::Red, PieceKind::Chariot, "d8"),
            (Color::Red, PieceKind::Chariot, "e1"),
            (Color::Red, PieceKind::Chariot, "f8"),
            (Color::Black, PieceKind::King, "e9"),
        ],
        Color::Red,
    )
}

#[test]
fn finds_mate_in_one() {
    let mut engine = Engine::new(1);
    let mut pos = mate_in_one_position();

    let result = engine.search_with(&mut pos, SearchLimits::depth(4), &NeverStop);

    assert!(result.is_mate_score(), "score {}", result.score);
    assert_eq!(result.mate_distance(), Some(1));

    let best = result.best_move.expect("a mating move");
    pos.make_move(best).expect("the move is legal");
    assert_eq!(pos.status(), GameStatus::Checkmate { loser: Color::Black });
}

#[test]
fn mate_takes_priority_over_material() {
    let mut engine = Engine::new(2);
    let mut pos = build(
        &[
            (Color::Red, PieceKind::King, "d0"),
            (Color::Red, PieceKind::Chariot, "d8"),
            (Color::Red, PieceKind::Chariot, "e1"),
            (Color::Red, PieceKind::Chariot, "f8"),
            (Color::Black, PieceKind::King, "e9"),
            (Color::Black, PieceKind::Chariot, "d5"),
        ],
        Color::Red,
    );

    assert!(
        pos.legal_move_to(from_iccs("d8").unwrap(), from_iccs("d5").unwrap())
            .is_some()
    );

    let result = engine.search_with(&mut pos, SearchLimits::depth(4), &NeverStop);
    let best = result.best_move.expect("a move");

    let mut probe = pos.clone();
    probe.make_move(best).unwrap();
    assert_eq!(
        probe.status(),
        GameStatus::Checkmate { loser: Color::Black },
        "chose {:?}",
        best
    );
}

#[test]
fn captures_a_hanging_chariot() {
    let mut pos =
        Position::from_fen("1nbakabnr/9/1c5c1/2p1p1p1p/r8/9/2P1P1P1P/1C5C1/9/RNBAKABNR w - - 0 1")
            .expect("FEN parses");

    let target = from_iccs("a5").unwrap();
    let piece = pos.piece_at(target);
    assert_eq!(kind_of(piece), Some(PieceKind::Chariot));

    let mut engine = Engine::new(3);
    let result = engine.search_with(&mut pos, SearchLimits::depth(5), &NeverStop);

    assert!(!result.is_mate_score(), "{:?}", result.mate_distance());
    assert_eq!(result.best_move, Some(mv("a0a5")), "{:?}", result.best_move);
    assert!(
        result.score >= 400 && result.score <= 800,
        "score {}",
        result.score
    );

    let mut after = pos.clone();
    after.make_move(mv("a0a5")).unwrap();
    let counter = mv("b7b0");
    assert!(after.is_legal(counter));
}

#[test]
fn score_is_from_side_to_move_perspective() {
    let mut engine = Engine::new(4);

    let mut red_side = build(
        &[
            (Color::Red, PieceKind::King, "e0"),
            (Color::Red, PieceKind::Chariot, "a0"),
            (Color::Red, PieceKind::Chariot, "i0"),
            (Color::Black, PieceKind::King, "d9"),
        ],
        Color::Red,
    );
    let red_result = engine.search_with(&mut red_side, SearchLimits::depth(3), &NeverStop);
    assert!(red_result.score > 300);

    let mut black_side = build(
        &[
            (Color::Red, PieceKind::King, "e0"),
            (Color::Red, PieceKind::Chariot, "a0"),
            (Color::Red, PieceKind::Chariot, "i0"),
            (Color::Black, PieceKind::King, "d9"),
        ],
        Color::Black,
    );
    let black_result = engine.search_with(&mut black_side, SearchLimits::depth(3), &NeverStop);
    assert!(black_result.score < -300);
}

#[test]
fn search_is_deterministic_under_node_limit() {
    let mut pos = mate_in_one_position();
    let limit = SearchLimits::depth_nodes(5, 200_000);

    let mut first: Option<(Option<Move>, i32, u8, u64)> = None;
    for round in 0..5 {
        let mut engine = Engine::new(2024);
        let stop = NodeLimitedStop::new(200_000);
        let result = engine.search_with(&mut pos, limit, &stop);
        let signature = (result.best_move, result.score, result.depth, result.nodes);

        match first {
            None => first = Some(signature),
            Some(expected) => assert_eq!(signature, expected, "round {}", round),
        }
    }
    assert!(first.is_some());
}

#[test]
fn stopped_search_still_returns_usable_result() {
    let mut engine = Engine::new(5);
    let mut pos = Position::startpos();
    let stop = NodeLimitedStop::new(300);
    let result = engine.search_with(&mut pos, SearchLimits::depth_nodes(30, 300), &stop);

    assert!(result.stopped);
    if let Some(best) = result.best_move {
        assert!(pos.is_legal(best), "{:?}", best);
    }
    assert_eq!(result.nodes, 300);
}

#[test]
fn root_moves_cover_every_move_sorted_descending() {
    let mut engine = Engine::new(6);
    let mut pos = Position::startpos();
    let legal_count = pos.legal_moves().len();

    let result = engine.search_with(&mut pos, SearchLimits::depth(3), &NeverStop);

    assert_eq!(result.root_moves.len(), legal_count);
    for pair in result.root_moves.windows(2) {
        assert!(pair[0].1 >= pair[1].1, "{} < {}", pair[0].1, pair[1].1);
    }
    for (mv, _) in &result.root_moves {
        assert!(pos.is_legal(*mv), "{:?}", mv);
    }
    assert_eq!(result.best_move, Some(result.root_moves[0].0));
}

#[test]
fn startpos_has_no_mate_score() {
    let mut engine = Engine::new(7);
    let mut pos = Position::startpos();
    let result = engine.search_with(&mut pos, SearchLimits::depth(4), &NeverStop);
    assert!(!result.is_mate_score());
    assert!(result.score.abs() < 400, "score {}", result.score);
}

#[test]
fn checkmated_position_reports_no_move() {
    let mut engine = Engine::new(8);
    let mut pos = build(
        &[
            (Color::Red, PieceKind::King, "e0"),
            (Color::Red, PieceKind::Chariot, "d8"),
            (Color::Red, PieceKind::Chariot, "e8"),
            (Color::Red, PieceKind::Chariot, "f8"),
            (Color::Black, PieceKind::King, "e9"),
        ],
        Color::Black,
    );
    let result = engine.search_with(&mut pos, SearchLimits::depth(3), &NeverStop);
    assert_eq!(result.best_move, None);
    assert!(result.is_mate_score());
}

#[test]
fn self_play_never_produces_illegal_move() {
    for game in 0..6u64 {
        let mut engine = Engine::new(1000 + game);
        engine.set_difficulty(Difficulty::L2);
        engine.new_game();

        let mut pos = Position::startpos();
        let stop = NodeLimitedStop::new(60_000);

        for _ in 0..60 {
            if pos.status().is_over() {
                break;
            }
            let result = engine.search_at_level(&mut pos, &stop);
            let Some(best) = result.best_move else { break };

            assert!(pos.is_legal(best), "game {}: {:?}", game, best);
            pos.make_move(best).expect("a legal move is accepted");
            pos.assert_consistent();
        }
    }
}

#[test]
fn mated_side_gets_an_immediate_loss_without_nodes() {
    let mut searcher = Searcher::new(1);
    let mut pos = build(
        &[
            (Color::Red, PieceKind::King, "e0"),
            (Color::Red, PieceKind::Chariot, "d8"),
            (Color::Red, PieceKind::Chariot, "e8"),
            (Color::Red, PieceKind::Chariot, "f8"),
            (Color::Black, PieceKind::King, "e9"),
        ],
        Color::Black,
    );
    let result = searcher.search(&mut pos, &SearchLimits::depth(6), &NeverStop);
    assert_eq!(result.depth, 1);
    assert_eq!(result.score, -xq::ai::MATE_SCORE);
    assert_eq!(result.nodes, 0);
    assert!(result.root_moves.is_empty());
    assert!(result.pv.is_empty());
    assert_eq!(result.mate_distance(), Some(0));
}

#[test]
fn principal_variation_starts_with_the_best_move_and_is_legal() {
    let mut searcher = Searcher::new(1);
    let mut pos = Position::startpos();
    let result = searcher.search(&mut pos, &SearchLimits::depth(4), &NeverStop);
    assert_eq!(result.depth, 4);
    assert!(!result.pv.is_empty() && result.pv.len() <= 4);
    assert_eq!(Some(result.pv[0]), result.best_move);
    let mut walk = pos.clone();
    for m in &result.pv {
        assert!(walk.is_legal(*m), "{:?}", m);
        walk.make_move(*m).unwrap();
    }
    assert_eq!(pos.to_fen(), Position::startpos().to_fen());
}

#[test]
fn limits_constructors() {
    let d = SearchLimits::default();
    assert_eq!(d.max_depth, 64);
    assert_eq!(d.max_nodes, None);
    assert!(d.use_quiescence && d.use_tt);
    assert_eq!(SearchLimits::depth(7).max_depth, 7);
    let n = SearchLimits::depth_nodes(3, 99);
    assert_eq!((n.max_depth, n.max_nodes), (3, Some(99)));
}

#[test]
fn depth_zero_request_still_searches_one_ply() {
    let mut searcher = Searcher::new(1);
    let mut pos = Position::startpos();
    let result = searcher.search(&mut pos, &SearchLimits::depth(0), &NeverStop);
    assert_eq!(result.depth, 1);
    assert_eq!(result.root_moves.len(), 44);
    assert_eq!(searcher.nodes(), result.nodes);
}

#[test]
fn depth_one_scores_are_the_evaluation_after_each_move() {
    let mut searcher = Searcher::new(1);
    let mut pos = Position::startpos();
    let limits = SearchLimits { max_depth: 1, max_nodes: None, use_quiescence: false, use_tt: false };
    let result = searcher.search(&mut pos, &limits, &NeverStop);
    assert_eq!(result.depth, 1);
    assert_eq!(result.root_moves.len(), 44);
    for (m, score) in &result.root_moves {
        let mut after = pos.duplicate();
        after.make_move(*m).unwrap();
        assert_eq!(*score, -xq::ai::eval::evaluate_side_to_move(&after), "move {}", after.to_fen());
    }
}

#[test]
fn mate_in_one_scores_as_a_mate_without_the_table() {
    let mut searcher = Searcher::new(1);
    let mut pos = mate_in_one_position();
    let limits = SearchLimits { max_depth: 3, max_nodes: None, use_quiescence: true, use_tt: false };
    let result = searcher.search(&mut pos, &limits, &NeverStop);
    assert!(!result.stopped);
    assert!(result.score >= xq::ai::search::MATE_SCORE - 1);
    let best = result.best_move.expect("a mating move");
    pos.make_move(best).unwrap();
    assert_eq!(pos.status(), GameStatus::Checkmate { loser: Color::Black });
}

#[test]
fn a_search_that_is_never_told_to_stop_completes() {
    let mut searcher = Searcher::new(1);
    let mut pos = Position::startpos();
    let result = searcher.search(&mut pos, &SearchLimits::depth(2), &NeverStop);
    assert!(!result.stopped);
    assert_eq!(result.depth, 2);
    assert_eq!(result.root_moves.len(), 44);
}

/// Full-width value of `pos` searched `depth` plies deep, `ply` plies from
/// the root, written out move by move.
fn full_width_value(pos: &mut Position, depth: i32, ply: usize) -> i32 {
    if ply >= 95 || depth <= 0 {
        return xq::ai::eval::evaluate_side_to_move(pos);
    }
    if pos.halfmove_clock() >= 120 {
        return 0;
    }
    let moves = pos.legal_moves();
    if moves.is_empty() {
        return -(xq::ai::search::MATE_SCORE - ply as i32);
    }
    let d = if pos.is_in_check(pos.side_to_move()) { depth + 1 } else { depth };
    let mut best = i32::MIN;
    for m in moves {
        pos.make_move(m).unwrap();
        let v = -full_width_value(pos, d - 1, ply + 1);
        pos.unmake_move();
        if v > best {
            best = v;
        }
    }
    best
}

#[test]
fn depth_two_score_is_the_full_width_value() {
    let mut searcher = Searcher::new(1);
    let mut pos = Position::startpos();
    let limits = SearchLimits { max_depth: 2, max_nodes: None, use_quiescence: false, use_tt: false };
    let result = searcher.search(&mut pos, &limits, &NeverStop);
    assert_eq!(result.depth, 2);
    let mut expected = i32::MIN;
    for m in pos.legal_moves() {
        pos.make_move(m).unwrap();
        let v = -full_width_value(&mut pos, 1, 1);
        pos.unmake_move();
        if v > expected {
            expected = v;
        }
    }
    assert_eq!(result.score, expected);
    for (m, score) in &result.root_moves {
        pos.make_move(*m).unwrap();
        let v = -full_width_value(&mut pos, 1, 1);
        pos.unmake_move();
        assert!(v <= *score, "move value above its score");
    }
}

#[test]
fn depth_two_with_captures_scores_a_hanging_chariot() {
    let mut searcher = Searcher::new(1);
    let mut pos = build(
        &[
            (Color::Red, PieceKind::King, "e0"),
            (Color::Red, PieceKind::Chariot, "a0"),
            (Color::Black, PieceKind::King, "f9"),
            (Color::Black, PieceKind::Chariot, "a5"),
        ],
        Color::Red,
    );
    let quiet = SearchLimits { max_depth: 1, max_nodes: None, use_quiescence: false, use_tt: false };
    let with_captures = SearchLimits { max_depth: 1, max_nodes: None, use_quiescence: true, use_tt: false };
    let plain = searcher.search(&mut pos, &quiet, &NeverStop);
    let deep = searcher.search(&mut pos, &with_captures, &NeverStop);
    assert_eq!(plain.best_move, Some(mv("a0a5")));
    assert_eq!(deep.best_move, Some(mv("a0a5")));
    let mut after = pos.duplicate();
    after.make_move(mv("a0a5")).unwrap();
    assert_eq!(plain.score, -xq::ai::eval::evaluate_side_to_move(&after));
    assert_eq!(deep.score, plain.score);
}

#[test]
fn capture_search_sees_the_recapture_of_a_defended_pawn() {
    let mut searcher = Searcher::new(1);
    let mut pos = build(
        &[
            (Color::Red, PieceKind::King, "e0"),
            (Color::Red, PieceKind::Chariot, "a0"),
            (Color::Black, PieceKind::King, "f9"),
            (Color::Black, PieceKind::Chariot, "a9"),
            (Color::Black, PieceKind::Pawn, "a5"),
        ],
        Color::Red,
    );
    let quiet = SearchLimits { max_depth: 1, max_nodes: None, use_quiescence: false, use_tt: false };
    let with_captures = SearchLimits { max_depth: 1, max_nodes: None, use_quiescence: true, use_tt: false };
    let plain = searcher.search(&mut pos, &quiet, &NeverStop);
    let deep = searcher.search(&mut pos, &with_captures, &NeverStop);
    assert_eq!(plain.best_move, Some(mv("a0a5")));
    assert_ne!(deep.best_move, Some(mv("a0a5")));
    assert!(deep.score < plain.score);
}
