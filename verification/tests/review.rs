use xq::coach::knowledge::{
    Knowledge, PlaceholderSpec, TacticEntry, TemplateDef, TemplateDetail,
};
use xq::coach::llm::{FactSet, accepted_rewrite};
use xq::coach::note::{MoveLevel, Verbosity};
use xq::coach::review::{
    GameContext, build_render_context, fallback_headline, is_mate_for, resolve_opening_tactic,
    review_move, suggestion,
};
use xq::coach::template::{RenderContext, render};
use xq::{Color, Move, Position, from_fen, from_iccs};

fn mv(iccs: &str) -> Move {
    Move::new(
        from_iccs(&iccs[0..2]).unwrap(),
        from_iccs(&iccs[2..4]).unwrap(),
    )
}

fn tactic(id: &str, name: &str, detector: &str, template: &str) -> TacticEntry {
    TacticEntry {
        id: id.to_string(),
        name: name.to_string(),
        detector: detector.to_string(),
        explanation_template: template.to_string(),
    }
}

fn template(id: &str, headline: &str, detail: &str, fallback: bool) -> TemplateDef {
    TemplateDef {
        id: id.to_string(),
        used_by: vec![],
        headline: headline.to_string(),
        detail: TemplateDetail {
            concise: detail.to_string(),
            standard: detail.to_string(),
            verbose: detail.to_string(),
        },
        is_fallback: fallback,
    }
}

fn knowledge() -> Knowledge {
    let mut central = template("tpl.opening_central_cannon", "{side}方 {notation}，架起中炮。", "中炮控制中路。", false);
    central.used_by = vec!["opening_central_cannon".to_string()];
    Knowledge {
        tactics: vec![
            tactic("opening_central_cannon", "中炮", "opening_sequence", "tpl.opening_central_cannon"),
            tactic("opening_screen_horse", "屏风马", "opening_sequence", ""),
            tactic("fork", "捉双", "relation", "tpl.missing"),
            tactic("opening_central_cannon_screen", "中炮对屏风马", "opening_sequence", ""),
        ],
        templates: vec![
            central,
            template("tpl.generic.best", "{side}方 {notation}，{level_text}。", "{unknown}", false),
            template("tpl.generic.good", "{side}方 {notation}，{level_text}。", "走得不错。", false),
            template("tpl.fallback", "{side}方 {notation}。", "", true),
        ],
        openings: vec![],
        placeholders: PlaceholderSpec {
            allowed: vec![],
            required_always: vec!["side".to_string(), "notation".to_string()],
        },
    }
}

fn context(side: &str, notation: &str) -> RenderContext {
    RenderContext {
        side: side.to_string(),
        notation: notation.to_string(),
        level_text: "不错".to_string(),
        ..RenderContext::default()
    }
}

#[test]
fn game_context_defaults() {
    let ctx = GameContext::default();
    assert!(ctx.history_iccs.is_empty());
    assert_eq!(ctx.ply, 1);
    assert_eq!(ctx.verbosity, Verbosity::Standard);
}

#[test]
fn reviewing_the_best_move() {
    let pos = Position::startpos();
    let m = mv("h2e2");
    let (rev, after) = review_move(&pos, m, &vec![(m, 20)]).expect("legal");
    assert_eq!(rev.side, Color::Red);
    assert_eq!(rev.iccs, "h2e2");
    assert_eq!(rev.notation, "炮二平五");
    assert_eq!(rev.captured, 0);
    assert_eq!(rev.assessment.level, MoveLevel::Best);
    assert_eq!(rev.context.mv, m);
    assert!(!rev.context.was_in_check);
    assert_eq!(rev.best_notation.as_deref(), Some("炮二平五"));
    assert!(rev.suggestion.is_none());
    assert_eq!(after.ply(), 1);
    assert_eq!(after.side_to_move(), Color::Black);
}

#[test]
fn a_bad_move_gets_a_suggestion() {
    let pos = Position::startpos();
    let good = mv("h2e2");
    let bad = mv("a0a1");
    let (rev, _) = review_move(&pos, bad, &vec![(good, 200), (bad, -300)]).unwrap();
    assert_ne!(rev.assessment.level, MoveLevel::Best);
    assert_eq!(rev.assessment.score_loss, 500);
    assert_eq!(
        rev.suggestion.as_deref(),
        Some("引擎推荐 炮二平五（评分比本步高 500 厘兵）")
    );
}

#[test]
fn an_illegal_move_has_no_review() {
    let pos = Position::startpos();
    assert!(review_move(&pos, mv("a0a5"), &vec![]).is_none());
    assert_eq!(fallback_headline(Color::Red, "车九进五"), "红方 车九进五。");
}

#[test]
fn mate_detection() {
    let pos = from_fen("R3k4/R8/9/9/9/9/9/9/9/3K5 b - - 0 1").unwrap();
    assert!(is_mate_for(&pos, Color::Black));
    assert!(!is_mate_for(&pos, Color::Red));
    assert!(!is_mate_for(&Position::startpos(), Color::Red));
}

#[test]
fn suggestion_texts() {
    assert_eq!(suggestion(MoveLevel::Best, &Some("炮二平五".to_string()), 0), None);
    assert_eq!(suggestion(MoveLevel::Good, &None, 30), None);
    assert_eq!(
        suggestion(MoveLevel::Dubious, &Some("马二进三".to_string()), 120).as_deref(),
        Some("引擎推荐 马二进三（评分比本步高 120 厘兵）")
    );
}

#[test]
fn openings_show_under_their_longest_tactic_name() {
    let kb = knowledge();
    assert_eq!(
        resolve_opening_tactic(&kb, "中炮对屏风马"),
        ("opening_central_cannon_screen".to_string(), "中炮对屏风马".to_string())
    );
    assert_eq!(
        resolve_opening_tactic(&kb, "中炮过河车"),
        ("opening_central_cannon".to_string(), "中炮".to_string())
    );
    assert_eq!(
        resolve_opening_tactic(&kb, "飞相局"),
        ("opening_seq_飞相局".to_string(), "飞相局".to_string())
    );
}

#[test]
fn render_context_has_every_placeholder() {
    let pos = Position::startpos();
    let m = mv("h2e2");
    let (rev, _) = review_move(&pos, m, &vec![(m, 20)]).unwrap();
    let c = build_render_context(
        Color::Red,
        "炮二平五",
        0,
        &rev.assessment,
        None,
        None,
        &vec![],
    );
    assert_eq!(c.side, "红");
    assert_eq!(c.notation, "炮二平五");
    assert_eq!(c.piece_name, "棋子");
    assert_eq!(c.captured_piece, "棋子");
    assert_eq!(c.best_move_notation, "炮二平五");
    assert_eq!(c.score_loss, "0");
    assert_eq!(c.level_text, "最佳着法");
    assert_eq!(c.opening_name, "当前布局");
    assert_eq!(c.tactic_names, "最佳着法");
    assert_eq!(c.best_reply_hint, "另寻它法");
    assert_eq!(c.threat_targets, "对方棋子");
    assert_eq!(c.defended_piece, "己方棋子");

    let names = vec!["捉".to_string(), "兑".to_string(), "将军".to_string(), "吃子".to_string()];
    let c = build_render_context(
        Color::Black,
        "马8进7",
        4,
        &rev.assessment,
        Some("车9平8"),
        Some("中炮对屏风马"),
        &names,
    );
    assert_eq!(c.side, "黑");
    assert_eq!(c.captured_piece, "马");
    assert_eq!(c.best_move_notation, "车9平8");
    assert_eq!(c.opening_name, "中炮对屏风马");
    assert_eq!(c.tactic_names, "捉、兑、将军");
    assert_eq!(c.best_reply_hint, "走 车9平8");
}

#[test]
fn rendering_walks_down_the_chain() {
    let kb = knowledge();
    let ctx = context("红", "炮二平五");

    let r = render(&kb, &ctx, MoveLevel::Good, &vec!["fork".to_string(), "opening_central_cannon".to_string()], Verbosity::Standard);
    assert_eq!(r.template_id, "tpl.opening_central_cannon");
    assert_eq!(r.headline, "红方 炮二平五，架起中炮。");
    assert!(!r.used_fallback);

    let r = render(&kb, &ctx, MoveLevel::Good, &vec![], Verbosity::Concise);
    assert_eq!(r.template_id, "tpl.generic.good");
    assert_eq!(r.headline, "红方 炮二平五，不错。");
    assert_eq!(r.detail, "走得不错。");

    // The generic best template names an unknown placeholder: fallback.
    let r = render(&kb, &ctx, MoveLevel::Best, &vec![], Verbosity::Standard);
    assert_eq!(r.template_id, "tpl.fallback");
    assert!(r.used_fallback);

    // A required placeholder without a value: last resort.
    let r = render(&kb, &context("红", ""), MoveLevel::Best, &vec![], Verbosity::Standard);
    assert_eq!(r.template_id, "builtin.last_resort");
    assert_eq!(r.headline, "红方 。");
}

#[test]
fn knowledge_lookups() {
    let kb = knowledge();
    assert_eq!(kb.tactic("fork").unwrap().name, "捉双");
    assert!(kb.tactic("nothing").is_none());
    assert_eq!(kb.template("tpl.generic.good").unwrap().id, "tpl.generic.good");
    assert!(kb.fallback_template().unwrap().is_fallback);
    let serving = kb.templates_for("opening_central_cannon");
    assert_eq!(serving.len(), 1);
    assert_eq!(serving[0].id, "tpl.opening_central_cannon");
    assert!(kb.templates_for("fork").is_empty());
}

#[test]
fn accepted_rewrite_is_trimmed() {
    let mut facts = FactSet::default();
    facts.allow_common_words();
    assert_eq!(
        accepted_rewrite("  这一步走得很稳，对方需要小心。 \n", &facts).as_deref(),
        Some("这一步走得很稳，对方需要小心。")
    );
    assert!(accepted_rewrite("**好**", &facts).is_none());
}
