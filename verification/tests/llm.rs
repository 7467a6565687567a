use xq::Color;
use xq::coach::llm::{
    FactSet, LlmError, NoLlm, PromptFacts, RejectReason, SYSTEM_PROMPT, extract_entities,
    is_numeral, is_piece_char, user_prompt, validate_output,
};
use xq::coach::note::MoveLevel;

/// The entities a sample commentary of 炮二平五 allows: entities of its
/// notation, move, headline, detail and line, its tactic (中炮, with its id),
/// its opening, and the words of ordinary play.
fn sample_facts() -> FactSet {
    let mut facts = FactSet::default();
    for text in ["炮二平五", "h2e2", "红方 炮二平五。", "炮发起了对中路的控制。"] {
        facts.collect_entities(text);
    }
    facts.allow("中炮");
    facts.allow("opening_central_cannon");
    facts.allow("中炮对屏风马");
    facts.collect_entities("炮二平五");
    facts.allow_common_words();
    facts
}

#[test]
fn fact_set_includes_known_entities() {
    let facts = sample_facts();
    assert!(facts.contains("炮二平五"));
    assert!(facts.contains("中炮"));
    assert!(facts.contains("中炮对屏风马"));
    assert!(facts.len() > 5);
}

/// A move the input never mentioned is a hallucination.
#[test]
fn detects_hallucinated_move() {
    let facts = sample_facts();
    let bad = "红方走了炮二平五，随后可以车一平二展开攻势，形成压制。";
    match validate_output(bad, &facts) {
        Err(RejectReason::Hallucination(items)) => {
            assert!(items.iter().any(|i| i == "车一平二"), "车一平二 is caught");
        }
        other => panic!("expected a hallucination, got {other:?}"),
    }
}

/// A coordinate the input never mentioned is a hallucination.
#[test]
fn detects_hallucinated_coordinate() {
    let facts = sample_facts();
    let bad = "炮二平五之后红方控制 h5 一带的重要位置，局面主动。";
    match validate_output(bad, &facts) {
        Err(RejectReason::Hallucination(items)) => {
            assert!(items.iter().any(|i| i == "h5"));
        }
        other => panic!("expected a hallucination, got {other:?}"),
    }
}

/// A faithful rewrite passes.
#[test]
fn accepts_faithful_rewrite() {
    let facts = sample_facts();
    let good =
        "红方以炮二平五直取中路，这是当前最优的着法。中炮就位后，红方在中路形成了持续压力。";
    assert!(validate_output(good, &facts).is_ok());
}

#[test]
fn rejects_markdown() {
    let facts = sample_facts();
    let bad = "**红方炮二平五**，控制中路。";
    assert_eq!(validate_output(bad, &facts), Err(RejectReason::Markdown));
}

#[test]
fn rejects_length_out_of_range() {
    let facts = sample_facts();
    assert_eq!(validate_output("好", &facts), Err(RejectReason::Length(1)));

    let long: String = "红方炮二平五。".repeat(40);
    assert!(matches!(
        validate_output(&long, &facts),
        Err(RejectReason::Length(_))
    ));
}

#[test]
fn rejects_empty() {
    let facts = sample_facts();
    assert_eq!(validate_output("   ", &facts), Err(RejectReason::Empty));
}

/// Ordinary words are not taken for entities.
#[test]
fn plain_chinese_is_not_flagged() {
    let facts = sample_facts();
    let text = "这一步走得很稳，把主动权握在手里，对方需要小心应对接下来的变化。";
    assert!(
        validate_output(text, &facts).is_ok(),
        "ordinary Chinese is no hallucination"
    );
}

#[test]
fn entity_extraction_finds_both_kinds() {
    let found = extract_entities("炮二平五之后 h2 的车可以动，马8进7也是选择。");
    assert!(found.contains(&"炮二平五".to_string()));
    assert!(found.contains(&"h2".to_string()));
    assert!(found.contains(&"马8进7".to_string()));
}

#[test]
fn entities_come_in_order_and_only_once_per_start() {
    let found = extract_entities("a0 炮二平五 j1 i9 车一走二 马8进7");
    assert_eq!(found, vec!["a0", "炮二平五", "i9", "马8进7"]);
    assert!(extract_entities("").is_empty());
}

#[test]
fn no_llm_client_always_fails_gracefully() {
    let client = NoLlm;
    match client.refusal() {
        LlmError::Rejected(m) => assert_eq!(m, "未配置 LLM 客户端"),
        other => panic!("expected a refusal, got {other:?}"),
    }
}

#[test]
fn prompt_contains_only_structured_facts() {
    let facts = PromptFacts {
        side: Color::Red,
        notation: "炮二平五".to_string(),
        level: MoveLevel::Best,
        score_loss: 0,
        tactic_names: vec!["中炮".to_string()],
        opening_name: Some("中炮对屏风马".to_string()),
        suggestion: None,
    };
    let prompt = user_prompt(&facts, &vec!["该着法使红方在中路形成持续压力".to_string()]);
    assert!(prompt.contains("炮二平五"));
    assert!(prompt.contains("最佳着法"));
    assert!(prompt.contains("中炮对屏风马"));
    assert!(!prompt.contains("rnbakabnr"), "no raw FEN in the prompt");
}

#[test]
fn prompt_has_every_line_in_order() {
    let facts = PromptFacts {
        side: Color::Black,
        notation: "马8进7".to_string(),
        level: MoveLevel::Blunder,
        score_loss: -35,
        tactic_names: vec!["捉".to_string(), "兑".to_string()],
        opening_name: None,
        suggestion: Some("引擎推荐 车9平8".to_string()),
    };
    let prompt = user_prompt(&facts, &vec![]);
    assert_eq!(
        prompt,
        "【局面】黑方走子\n【着法】马8进7\n【评价】明显失误（分差 -35 厘兵）\n【战术】捉、兑\n【引擎分析】引擎推荐 车9平8\n\n请改写为教练点评。"
    );
}

#[test]
fn reject_reasons_describe_themselves() {
    assert_eq!(
        RejectReason::Hallucination(vec!["h5".to_string(), "车一平二".to_string()]).describe(),
        "出现未提供的实体：h5、车一平二"
    );
    assert_eq!(RejectReason::Length(1).describe(), "长度 1 字，超出允许区间");
    assert_eq!(RejectReason::Markdown.describe(), "含 Markdown 标记");
    assert_eq!(RejectReason::WeirdChars.describe(), "含异常字符");
    assert_eq!(RejectReason::Empty.describe(), "输出为空");
}

#[test]
fn odd_characters_are_refused() {
    let facts = sample_facts();
    assert_eq!(
        validate_output("红方走得很稳\n很稳\n很稳\n很稳", &facts),
        Err(RejectReason::WeirdChars)
    );
    assert_eq!(
        validate_output("红方走得很稳\u{7}对方小心", &facts),
        Err(RejectReason::WeirdChars)
    );
    assert!(validate_output("红方走得很稳\n对方需要小心", &facts).is_ok());
}

#[test]
fn hallucinations_are_listed_once_each() {
    let facts = sample_facts();
    match validate_output("车一平二之后再走车一平二，控制 h5 与 h5 附近。", &facts) {
        Err(RejectReason::Hallucination(items)) => {
            assert_eq!(items, vec!["车一平二".to_string(), "h5".to_string()]);
        }
        other => panic!("expected a hallucination, got {other:?}"),
    }
}

#[test]
fn fact_set_holds_each_entity_once() {
    let mut facts = FactSet::default();
    assert!(facts.is_empty());
    facts.allow("中炮");
    facts.allow("中炮");
    facts.collect_entities("炮二平五 炮二平五 h2");
    assert_eq!(facts.len(), 3);
    assert!(facts.contains("h2"));
    assert!(!facts.contains("h3"));
}

#[test]
fn llm_errors_and_glyph_tests() {
    assert_eq!(LlmError::Timeout.message(), "LLM 调用超时");
    assert_eq!(
        LlmError::Transport("502".to_string()).message(),
        "LLM 传输错误：502"
    );
    assert!(is_piece_char('炮') && !is_piece_char('中'));
    assert!(is_numeral('九') && is_numeral('9') && !is_numeral('0'));
    assert!(SYSTEM_PROMPT.starts_with("你是一位中国象棋教练。"));
}
