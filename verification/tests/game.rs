use xq::ai::difficulty::Difficulty;
use xq::ai::engine::Engine;
use xq::ai::time::NeverStop;
use xq::session::dto::{
    color_word, engine_info, hint_items, kind_word, nature_word, sprite_name, think_budget_ms,
};
use xq::session::{Game, StatusDto, TimeControl};
use xq::{Color, GameStatus, Move, MoveNature, PieceKind, Position, STARTPOS_FEN, from_iccs};

fn mv(iccs: &str) -> Move {
    Move::new(
        from_iccs(&iccs[0..2]).unwrap(),
        from_iccs(&iccs[2..4]).unwrap(),
    )
}

fn timed() -> TimeControl {
    TimeControl {
        base_secs: 600,
        step_secs: 30,
        byoyomi_secs: 10,
    }
}

/// Coordinates are parsed by the session; the error names the bad one.
#[test]
fn apply_iccs_rejects_bad_coordinates() {
    let mut game = Game::new();

    let err = game
        .apply_iccs("h2", "z9", 0)
        .err()
        .expect("z9 is no coordinate");
    assert!(err.contains("z9"), "the message names the coordinate: {err}");

    let err = game
        .apply_iccs("a0", "a5", 0)
        .err()
        .expect("the chariot cannot pass its own pawn");
    assert!(err.contains("不是当前局面下的合法着法"), "got: {err}");
}

#[test]
fn new_game_state_lists_every_piece_and_move() {
    let mut game = Game::new();
    let dto = game.build_dto(0);
    assert_eq!(dto.fen, STARTPOS_FEN);
    assert_eq!(dto.side, "red");
    assert!(!dto.in_check);
    assert_eq!(dto.status.kind, "ongoing");
    assert_eq!(dto.status.text, "进行中");
    assert!(!dto.status.over);
    assert_eq!(dto.status.loser, None);
    assert_eq!(dto.pieces.len(), 32);
    assert_eq!(dto.legal.len(), 44);
    assert!(dto.last_move.is_none());
    assert!(dto.history.is_empty());
    assert_eq!(dto.halfmove_clock, 0);
    assert_eq!(dto.fullmove_number, 1);
    assert!(dto.clock.is_none());

    let first = &dto.pieces[0];
    assert_eq!(first.sq, "a0");
    assert_eq!((first.col, first.row), (0, 0));
    assert_eq!(first.color, "red");
    assert_eq!(first.kind, "chariot");
    assert_eq!(first.sprite, "red_chariot");
    assert_eq!(first.glyph, "车");
    let general = dto.pieces.iter().find(|p| p.sq == "e9").unwrap();
    assert_eq!(general.sprite, "black_general");
    assert_eq!(general.glyph, "将");

    let central = dto.legal.iter().find(|o| o.iccs == "h2e2").unwrap();
    assert_eq!(central.from, "h2");
    assert_eq!(central.to, "e2");
    assert_eq!(central.notation, "炮二平五");
    assert!(!central.capture);
}

#[test]
fn a_played_move_is_recorded_with_its_notation() {
    let mut game = Game::new();
    let played = game.apply_iccs("h2", "e2", 0).expect("炮二平五 is legal");
    assert_eq!(played.from, "h2");
    assert_eq!(played.to, "e2");
    assert_eq!(played.iccs, "h2e2");
    assert_eq!(played.notation, "炮二平五");
    assert!(!played.capture);
    assert_eq!(played.nature, "idle");
    assert_eq!(played.nature_text, "闲着");
    assert_eq!(played.side, "red");
    assert_eq!(game.snapshot().ply(), 1);

    let dto = game.build_dto(0);
    assert_eq!(dto.side, "black");
    assert_eq!(dto.history.len(), 1);
    assert_eq!(dto.last_move.as_ref().unwrap().notation, "炮二平五");
}

#[test]
fn text_moves_accept_coordinates_and_notation() {
    let mut game = Game::new();
    assert_eq!(game.apply_text("  炮二平五 ", 0).unwrap().iccs, "h2e2");
    assert_eq!(game.apply_text("h9-g7", 0).unwrap().notation, "马8进7");
    assert_eq!(game.apply_text("b2 > b9", 0).unwrap().capture, true);
    let err = game.apply_text("", 0).err().unwrap();
    assert_eq!(err, "记谱为空");
    let err = game.apply_text("车九进九", 0).err().unwrap();
    assert_eq!(err, "当前局面下没有合法着法匹配该记谱");
}

#[test]
fn undo_takes_back_the_move_and_its_record() {
    let mut game = Game::new();
    assert!(!game.undo(0), "nothing to take back yet");
    game.apply_iccs("h2", "e2", 0).unwrap();
    game.apply_iccs("h9", "g7", 0).unwrap();
    assert!(game.undo(0));
    let dto = game.build_dto(0);
    assert_eq!(dto.history.len(), 1);
    assert_eq!(dto.last_move.unwrap().iccs, "h2e2");
    assert_eq!(dto.side, "black");
    assert!(game.undo(0));
    assert_eq!(game.build_dto(0).fen, STARTPOS_FEN);
    assert!(!game.undo(0));
}

#[test]
fn illegal_known_move_is_refused() {
    let mut game = Game::new();
    let err = game.apply_known_move(mv("a0a5"), 0).err().unwrap();
    assert_eq!(err, "着法 a0a5 在当前局面下不合法");
    assert_eq!(game.snapshot().ply(), 0);
    assert!(game.apply_known_move(mv("h2e2"), 0).is_ok());
}

#[test]
fn last_move_context_gives_the_position_before_the_move() {
    let mut game = Game::new();
    assert!(game.last_move_context().is_none());
    game.apply_iccs("h2", "e2", 0).unwrap();
    game.apply_iccs("h9", "g7", 0).unwrap();
    let (before, last, history) = game.last_move_context().unwrap();
    assert_eq!(before.ply(), 1);
    assert_eq!(before.side_to_move(), Color::Black);
    assert_eq!(last, mv("h9g7"));
    assert_eq!(history, vec!["h2e2".to_string(), "h9g7".to_string()]);
    assert_eq!(game.snapshot().ply(), 2, "the game itself is untouched");
}

#[test]
fn bad_fen_is_refused_with_its_message() {
    let mut game = Game::new();
    game.apply_iccs("h2", "e2", 0).unwrap();
    let err = game.load_fen("rnbakabnr", 0).err().unwrap();
    assert_eq!(err, "FEN 字段数不足（1 个，至少需要 2 个）");
    assert_eq!(game.snapshot().ply(), 1, "a refused FEN changes nothing");

    let err = game.load_fen("9/9/9/9/9/9/9/9/9/9 w - - 0 1", 0).err().unwrap();
    assert_eq!(err, "FEN 描述的局面非法: 局面缺少红方将帅");

    game.load_fen("3k5/9/9/9/9/9/9/9/9/4K4 w - - 0 1", 0).unwrap();
    let dto = game.build_dto(0);
    assert!(dto.history.is_empty());
    assert_eq!(dto.pieces.len(), 2);
    assert_eq!(dto.status.kind, "draw");
}

#[test]
fn checkmate_status_names_the_loser() {
    let mut game = Game::new();
    // Black king on e9, checked along its rank by a chariot on a9, with the
    // rank below held by a chariot on a8.
    game.load_fen("R3k4/R8/9/9/9/9/9/9/9/3K5 b - - 0 1", 0)
        .unwrap();
    let dto = game.build_dto(0);
    assert_eq!(dto.status.kind, "checkmate");
    assert_eq!(dto.status.text, "将死！黑方负，红方胜");
    assert!(dto.status.over);
    assert_eq!(dto.status.loser.as_deref(), Some("black"));
    assert!(dto.legal.is_empty());
}

#[test]
fn a_move_over_its_time_loses_on_time() {
    let mut game = Game::new_with_clock(timed(), 1_000);
    assert_eq!(game.time_control(), timed());
    assert_eq!(game.step_left_ms(1_000), Some(30_000));
    assert_eq!(game.step_left_ms(11_000), Some(20_000));

    let err = game.apply_iccs("h2", "e2", 32_000).err().unwrap();
    assert_eq!(err, "红方超时判负");
    assert_eq!(game.timeout_loser(), Some(Color::Red));
    assert_eq!(game.snapshot().ply(), 0);

    let err = game.apply_iccs("h2", "e2", 33_000).err().unwrap();
    assert_eq!(err, "对局已因超时结束（红方负）");

    let dto = game.build_dto(34_000);
    assert_eq!(dto.status.kind, "timeout");
    assert_eq!(dto.status.text, "红方超时，判负");
    assert_eq!(dto.status.loser.as_deref(), Some("red"));
}

#[test]
fn a_move_in_time_is_charged_and_undo_gives_the_time_back() {
    let mut game = Game::new_with_clock(timed(), 0);
    game.apply_iccs("h2", "e2", 10_000).unwrap();
    let dto = game.build_dto(10_000);
    let clock = dto.clock.unwrap();
    assert_eq!(clock.red_ms, 590_000);
    assert_eq!(clock.black_ms, 600_000);
    assert_eq!(clock.step_left_ms, 30_000);

    assert!(game.undo(20_000));
    let clock = game.build_dto(20_000).clock.unwrap();
    assert_eq!(clock.red_ms, 600_000);
    assert_eq!(game.timeout_loser(), None);
}

#[test]
fn reset_keeps_the_time_control() {
    let mut game = Game::new_with_clock(timed(), 0);
    game.apply_iccs("h2", "e2", 1_000).unwrap();
    game.reset(5_000);
    assert_eq!(game.snapshot().ply(), 0);
    assert_eq!(game.time_control(), timed());
    assert_eq!(game.step_left_ms(5_000), Some(30_000));

    game.set_time_control(TimeControl::unlimited(), 6_000);
    assert_eq!(game.step_left_ms(6_000), None);
    assert!(game.build_dto(6_000).clock.is_none());
}

#[test]
fn words_for_the_front_end() {
    assert_eq!(color_word(Color::Black), "black");
    assert_eq!(kind_word(PieceKind::Elephant), "elephant");
    assert_eq!(sprite_name(Color::Red, PieceKind::King), "red_king");
    assert_eq!(sprite_name(Color::Black, PieceKind::King), "black_general");
    assert_eq!(sprite_name(Color::Black, PieceKind::Pawn), "black_pawn");
    assert_eq!(nature_word(MoveNature::CaptureAttacker), "capture_attacker");
}

#[test]
fn status_texts() {
    let pos = Position::startpos();
    let s = StatusDto::from(GameStatus::Check { side: Color::Red }, &pos);
    assert_eq!(s.kind, "check");
    assert_eq!(s.text, "红方被将军，必须应将");
    assert!(!s.over);
    let s = StatusDto::from(GameStatus::Stalemate { loser: Color::Black }, &pos);
    assert_eq!(s.text, "困毙！黑方无着可走（且未被将军）。中国象棋判困毙方负");
    assert_eq!(s.loser.as_deref(), Some("black"));
    let s = StatusDto::from(
        GameStatus::Draw {
            reason: xq::DrawReason::SixtyMoveRule,
        },
        &pos,
    );
    assert_eq!(s.text, "和棋 · 60 回合内未吃子，自然限着判和");
    let t = StatusDto::timeout(Color::Black);
    assert_eq!(t.kind, "timeout");
    assert_eq!(t.text, "黑方超时，判负");
}

#[test]
fn think_budget_respects_the_clock() {
    assert_eq!(think_budget_ms(1_200, None), 1_200);
    assert_eq!(think_budget_ms(1_200, Some(10_000)), 1_200);
    assert_eq!(think_budget_ms(1_200, Some(1_000)), 750);
    assert_eq!(think_budget_ms(1_200, Some(100)), 50);
    assert_eq!(think_budget_ms(1_200, Some(i64::MIN)), 50);
}

#[test]
fn engine_reply_and_hints_after_a_move() {
    let mut game = Game::new();
    game.apply_iccs("h2", "e2", 0).unwrap();
    let mut pos = game.snapshot();
    let mut engine = Engine::new(0x5EED_1234);
    engine.set_difficulty(Difficulty::L1);
    let result = engine.search_at_level(&mut pos, &NeverStop);
    assert_eq!(pos.ply(), 1, "the search restores the position");
    let best = result.best_move.expect("black has moves");
    let played = game.apply_known_move(best, 0).unwrap();
    assert_eq!(played.side, "black");
    assert_eq!(game.snapshot().ply(), 2);

    let info = engine_info(Difficulty::L1, &result, 42);
    assert_eq!(info.level, "l1");
    assert_eq!(info.level_label, "入门");
    assert_eq!(info.think_ms, 42);
    assert_eq!(info.depth, result.depth);

    let hints = hint_items(&pos, &result.root_moves, 3);
    assert_eq!(hints.len(), 3.min(result.root_moves.len()));
    assert_eq!(hints[0].score, result.root_moves[0].1);
    assert_eq!(hint_items(&pos, &result.root_moves, 0).len(), 1);
    assert!(hint_items(&pos, &result.root_moves, 50).len() <= 10);

    assert!(game.undo(0));
    assert_eq!(game.snapshot().ply(), 1);
}
