use xq::coach::knowledge::{Knowledge, PlaceholderSpec, TacticEntry, TemplateDef, TemplateDetail};
use xq::coach::note::{MoveLevel, Verbosity};
use xq::coach::template::{ALLOWED_PLACEHOLDERS, RenderContext, render, substitute, try_render};

fn full_context() -> RenderContext {
    RenderContext {
        side: "红".into(),
        notation: "炮二平五".into(),
        piece_name: "炮".into(),
        captured_piece: "卒".into(),
        best_move_notation: "马八进七".into(),
        score_loss: "0".into(),
        level_text: "最佳着法".into(),
        opening_name: "中炮对屏风马".into(),
        tactic_names: "中炮".into(),
        best_reply_hint: "起马保卒".into(),
        threat_targets: "黑马".into(),
        defended_piece: "红兵".into(),
    }
}

fn template(headline: &str) -> TemplateDef {
    TemplateDef {
        id: "t".into(),
        used_by: vec![],
        headline: headline.into(),
        detail: TemplateDetail {
            concise: "c".into(),
            standard: "s".into(),
            verbose: "v".into(),
        },
        is_fallback: false,
    }
}

#[test]
fn context_covers_every_allowed_placeholder() {
    let map = full_context().to_map();
    for name in ALLOWED_PLACEHOLDERS {
        assert!(map.contains_key(name), "missing {}", name);
    }
    assert_eq!(map.len(), ALLOWED_PLACEHOLDERS.len());
}

#[test]
fn empty_required_placeholder_aborts_render() {
    let tpl = template("{side}方走 {notation}。");
    let ctx = RenderContext {
        side: "红".to_string(),
        notation: String::new(),
        ..Default::default()
    };
    let required = vec!["side".to_string(), "notation".to_string()];
    assert!(try_render(&tpl, &ctx, &required, Verbosity::Concise).is_none());
}

#[test]
fn unknown_placeholder_aborts_render() {
    let tpl = template("{不存在的占位符}");
    assert!(try_render(&tpl, &full_context(), &[], Verbosity::Concise).is_none());
}

#[test]
fn unmatched_brace_aborts_render() {
    let tpl = template("{side 少了右括号");
    assert!(try_render(&tpl, &full_context(), &[], Verbosity::Concise).is_none());
}

#[test]
fn placeholders_are_filled_and_detail_follows_verbosity() {
    let tpl = template("{side}方 {notation}，{level_text}。");
    let (headline, detail) =
        try_render(&tpl, &full_context(), &[], Verbosity::Verbose).expect("renders");
    assert_eq!(headline, "红方 炮二平五，最佳着法。");
    assert_eq!(detail, "v");
}

#[test]
fn stray_closing_brace_aborts_render() {
    assert_eq!(substitute("a}b", &full_context(), &[]), None);
    assert_eq!(substitute("no braces", &full_context(), &[]), Some("no braces".to_string()));
    assert_eq!(substitute("", &full_context(), &[]), Some(String::new()));
}

#[test]
fn empty_optional_placeholder_is_accepted() {
    let ctx = RenderContext {
        side: "黑".into(),
        ..Default::default()
    };
    let required = vec!["side".to_string()];
    assert_eq!(
        substitute("{side}{opening_name}!", &ctx, &required),
        Some("黑!".to_string())
    );
    let value_with_brace = RenderContext {
        side: "}".into(),
        ..Default::default()
    };
    assert_eq!(substitute("{side}", &value_with_brace, &[]), None);
}

fn named(id: &str, headline: &str, detail: &str, fallback: bool) -> TemplateDef {
    TemplateDef {
        id: id.into(),
        used_by: vec![],
        headline: headline.into(),
        detail: TemplateDetail {
            concise: detail.into(),
            standard: detail.into(),
            verbose: format!("{detail}（{{best_reply_hint}}）"),
        },
        is_fallback: fallback,
    }
}

/// A small knowledge with the shapes of the shipped one.
fn kb() -> Knowledge {
    Knowledge {
        tactics: vec![TacticEntry {
            id: "check".into(),
            name: "将军".into(),
            detector: "structure".into(),
            explanation_template: "tpl.check".into(),
        }],
        templates: vec![
            named("tpl.check", "{side}方 {notation}，将军！", "{tactic_names}，对方必须应将。", false),
            named("tpl.generic.best", "{side}方 {notation}，{level_text}。", "这是当前最好的选择。", false),
            named("tpl.generic.good", "{side}方 {notation}，走得不错。", "分差 {score_loss} 厘兵。", false),
            named("tpl.fallback", "{side}方 {notation}。", "", true),
        ],
        openings: vec![],
        placeholders: PlaceholderSpec {
            allowed: ALLOWED_PLACEHOLDERS.iter().map(|s| s.to_string()).collect(),
            required_always: vec!["side".into(), "notation".into()],
        },
    }
}

/// No template renders with a brace left.
#[test]
fn placeholder_red_line() {
    let kb = kb();
    let ctx = full_context();
    for tpl in &kb.templates {
        for verbosity in [Verbosity::Concise, Verbosity::Standard, Verbosity::Verbose] {
            if let Some((headline, detail)) = try_render(tpl, &ctx, &[], verbosity) {
                assert!(!headline.contains('{') && !headline.contains('}'), "{}: {headline}", tpl.id);
                assert!(!detail.contains('{') && !detail.contains('}'), "{}: {detail}", tpl.id);
            }
        }
    }
}

/// Without tactics the level's generic template is used, and that is no fallback.
#[test]
fn falls_back_to_level_generic_without_tactics() {
    let rendered = render(&kb(), &full_context(), MoveLevel::Best, &vec![], Verbosity::Standard);
    assert_eq!(rendered.template_id, "tpl.generic.best");
    assert!(!rendered.used_fallback);
    assert!(rendered.headline.contains("炮二平五"));
}

/// A recognised tactic's own template comes first.
#[test]
fn uses_specific_template_when_tactic_matched() {
    let rendered = render(&kb(), &full_context(), MoveLevel::Best, &vec!["check".to_string()], Verbosity::Standard);
    assert_eq!(rendered.template_id, "tpl.check");
    assert!(rendered.headline.contains("将军"));
    assert!(!rendered.used_fallback);
}

/// A tactic that the knowledge does not have is skipped.
#[test]
fn unknown_tactic_id_is_skipped() {
    let rendered = render(&kb(), &full_context(), MoveLevel::Good, &vec!["不存在的战术".to_string()], Verbosity::Concise);
    assert_eq!(rendered.template_id, "tpl.generic.good");
}
