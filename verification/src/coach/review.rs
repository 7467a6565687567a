//! Reviewing one move for its commentary: the move's notation, its grade,
//! what tactic recognition needs to know, the engine's suggestion and the
//! placeholder values of the templates.
//!
//! Commentary never fails: a move that cannot be made gets the fallback
//! commentary instead of an error.
use vstd::prelude::*;

use crate::coach::assess::{Assessment, assess, assessment_of, before_of, THRESHOLD_BLUNDER};
use crate::coach::knowledge::{Knowledge, TacticEntry};
use crate::coach::llm::{joined, occurs, occurs_in, signed_decimal, string_views};
use crate::coach::note::{MoveLevel, Verbosity, level_text};
use crate::coach::tactic::MoveContext;
use crate::coach::template::RenderContext;
use crate::color::{Color, opp, side_zh};
use crate::mv::{Move, mv_from, mv_to};
use crate::nature::nature_spec;
use crate::notation::{desc_of, notation_or_iccs, render_spec};
use crate::piece::{color_of_code, glyph_of, kind_of_code};
use crate::position::{Position, Snap, move_verdict, room_to_play, snap_in_check, step};
use crate::rules::{GameStatus, status_of};
use crate::square::iccs_spec;
use crate::text::{chars_of, owned, push_char, push_str};

verus! {

/// Where in the game a move stands.
#[derive(Clone, Debug)]
pub struct GameContext<'a> {
    /// ICCS moves from the first on, for opening matching.
    pub history_iccs: &'a [String],
    /// Number of the move, from 1.
    pub ply: u16,
    /// How much detail the commentary gives.
    pub verbosity: Verbosity,
}

impl Default for GameContext<'_> {
    fn default() -> (r: Self)
        ensures
            r.history_iccs@.len() == 0,
            r.ply == 1,
            r.verbosity == Verbosity::Standard,
    {
        GameContext { history_iccs: &[], ply: 1, verbosity: Verbosity::Standard }
    }
}

/// `loser` is checkmated in state `s`.
pub open spec fn mated(s: Snap, loser: Color) -> bool {
    status_of(s) == (GameStatus::Checkmate { loser })
}

/// Whether `loser` is checkmated in the position.
pub fn is_mate_for(pos_after: &Position, loser: Color) -> (r: bool)
    requires
        pos_after.wf(),
    ensures
        r == mated(pos_after.snap(), loser),
{
    let mut probe = pos_after.duplicate();
    match probe.status() {
        GameStatus::Checkmate { loser: l } => l == loser,
        _ => false,
    }
}

/// Chinese notation of `m` in state `s`, if it can be written.
pub open spec fn chinese_of(s: Snap, m: Move) -> Option<Seq<char>> {
    match desc_of(s, m) {
        Ok(d) => match render_spec(d) {
            Ok(t) => Some(t),
            Err(_) => None,
        },
        Err(_) => None,
    }
}

/// The suggestion for a move graded `level` that lost `loss`, given the
/// notation of the best move: none for a best move.
pub open spec fn suggestion_text(level: MoveLevel, best: Option<Seq<char>>, loss: i32) -> Option<
    Seq<char>,
> {
    if level == MoveLevel::Best {
        None
    } else {
        match best {
            Some(n) => Some("引擎推荐 "@ + n + "（评分比本步高 "@ + signed_decimal(loss as int) + " 厘兵）"@),
            None => None,
        }
    }
}

/// The engine's suggestion; see [`suggestion_text`].
pub fn suggestion(level: MoveLevel, best_notation: &Option<String>, score_loss: i32) -> (r: Option<
    String,
>)
    ensures
        match suggestion_text(
            level,
            match best_notation {
                Some(n) => Some(n@),
                None => None,
            },
            score_loss,
        ) {
            Some(t) => r matches Some(x) && x@ == t,
            None => r is None,
        },
{
    if level == MoveLevel::Best {
        return None;
    }
    match best_notation {
        Some(n) => {
            let mut s = owned("引擎推荐 ");
            push_str(&mut s, n.as_str());
            push_str(&mut s, "（评分比本步高 ");
            crate::coach::llm::push_signed(&mut s, score_loss);
            push_str(&mut s, " 厘兵）");
            Some(s)
        },
        None => None,
    }
}

/// What the commentary of a legal move is built from, before its tactics
/// are recognised.
#[derive(Clone, Debug)]
pub struct MoveReview {
    /// The side that moved.
    pub side: Color,
    /// ICCS text of the move.
    pub iccs: String,
    /// Notation of the move, written before it was made (ICCS text where
    /// none can be written).
    pub notation: String,
    /// Code of the piece taken (0 for none).
    pub captured: u8,
    /// The grade of the move.
    pub assessment: Assessment,
    /// What tactic recognition needs to know of the move.
    pub context: MoveContext,
    /// Notation of the engine's best move, if there is one and it can be written.
    pub best_notation: Option<String>,
    /// The engine's suggestion, for a move that is not the best.
    pub suggestion: Option<String>,
}

/// Whether the first root move mates `enemy` when played in `s`.
pub open spec fn best_mates(s: Snap, root_moves: Seq<(Move, i32)>, enemy: Color) -> bool {
    root_moves.len() > 0 && move_verdict(s, root_moves[0].0) is Ok && mated(
        step(s, root_moves[0].0),
        enemy,
    )
}

/// `rev` reviews legal move `mv` played from state `s`, graded against
/// `root_moves` (best first).
pub open spec fn review_ok(rev: MoveReview, s: Snap, mv: Move, root_moves: Seq<(Move, i32)>) -> bool {
    let side = s.1;
    let enemy = opp(side);
    let a = assessment_of(root_moves, mv, mated(step(s, mv), enemy), best_mates(s, root_moves, enemy));
    let best = match a.best_move {
        Some(b) => chinese_of(s, b),
        None => None,
    };
    &&& rev.side == side
    &&& rev.iccs@ == iccs_spec(mv_from(mv)) + iccs_spec(mv_to(mv))
    &&& rev.notation@ == notation_or_iccs(s, mv)
    &&& rev.captured == s.0[mv_to(mv)]
    &&& rev.assessment == a
    &&& rev.context == (MoveContext {
        side,
        mv,
        nature: nature_spec(s, mv),
        was_in_check: snap_in_check(s, side),
        captured: s.0[mv_to(mv)],
        score_best: a.score_before,
        score_loss: a.score_loss,
    })
    &&& match best {
        Some(t) => rev.best_notation matches Some(x) && x@ == t,
        None => rev.best_notation is None,
    }
    &&& match suggestion_text(a.level, best, a.score_loss) {
        Some(t) => rev.suggestion matches Some(x) && x@ == t,
        None => rev.suggestion is None,
    }
}

/// Reviews move `mv` played in `pos_before`, graded against the engine's
/// scored root moves (best first): `None` when the move cannot be made
/// (its commentary is then the fallback), else the review and the position
/// after the move.
#[verifier::spinoff_prover]
#[verifier::rlimit(60)]
pub fn review_move(pos_before: &Position, mv: Move, root_moves: &Vec<(Move, i32)>) -> (r: Option<
    (MoveReview, Position),
>)
    requires
        pos_before.wf(),
        room_to_play(pos_before.snap(), mv),
        root_moves@.len() > 0 ==> room_to_play(pos_before.snap(), root_moves@[0].0),
        mv_from(mv) < 90,
        mv_to(mv) < 90,
        root_moves@.len() > 0 ==> mv_from(root_moves@[0].0) < 90 && mv_to(root_moves@[0].0) < 90,
        i32::MIN + THRESHOLD_BLUNDER + 1 <= before_of(root_moves@),
        forall|i: int|
            0 <= i < root_moves@.len() ==> i32::MIN <= before_of(root_moves@) - #[trigger] root_moves@[i].1
                <= i32::MAX,
    ensures
        move_verdict(pos_before.snap(), mv) is Err ==> r is None,
        move_verdict(pos_before.snap(), mv) is Ok ==> (r matches Some(p) && {
            let (rev, after) = p;
            &&& after.wf()
            &&& after.snap() == step(pos_before.snap(), mv)
            &&& review_ok(rev, pos_before.snap(), mv, root_moves@)
        }),
{
    let side = pos_before.side_to_move();
    let enemy = side.opponent();
    let iccs = pos_before.to_iccs_string(mv);
    let notation = crate::session::dto::notation_text(pos_before, mv);
    let captured = pos_before.piece_at(mv.to());
    let mut after = pos_before.duplicate();
    if after.make_move(mv).is_err() {
        return None;
    }
    proof {
        crate::position::lemma_legal_move_ok(pos_before.snap(), mv);
    }
    let mut pre = pos_before.duplicate();
    let nature = pre.nature_of(mv);
    let was_in_check = pos_before.is_in_check(side);
    let played_mates = is_mate_for(&after, enemy);
    let best_mates = if root_moves.len() > 0 {
        let mut probe = pos_before.duplicate();
        match probe.make_move(root_moves[0].0) {
            Ok(()) => is_mate_for(&probe, enemy),
            Err(_) => false,
        }
    } else {
        false
    };
    let assessment = assess(root_moves.as_slice(), mv, played_mates, best_mates);
    let context = MoveContext {
        side,
        mv,
        nature,
        was_in_check,
        captured,
        score_best: assessment.score_before,
        score_loss: assessment.score_loss,
    };
    let best_notation = match assessment.best_move {
        Some(b) => match pos_before.to_chinese_notation(b) {
            Ok(t) => Some(t),
            Err(_) => None,
        },
        None => None,
    };
    let suggestion = suggestion(assessment.level, &best_notation, assessment.score_loss);
    Some(
        (
            MoveReview {
                side,
                iccs,
                notation,
                captured,
                assessment,
                context,
                best_notation,
                suggestion,
            },
            after,
        ),
    )
}

/// Headline of the fallback commentary: side and notation in one sentence.
pub fn fallback_headline(side: Color, notation: &str) -> (r: String)
    ensures
        r@ == side_zh(side) + "方 "@ + notation@ + "。"@,
{
    let mut s = owned(side.name_zh());
    push_str(&mut s, "方 ");
    push_str(&mut s, notation);
    push_str(&mut s, "。");
    s
}

/// UTF-8 length of a text, in bytes.
pub open spec fn byte_len(t: Seq<char>) -> nat {
    vstd::utf8::encode_utf8(t).len()
}

/// Index of the opening tactic, among the first `n`, whose name occurs in
/// `name` and is longest in bytes (the first such on a tie).
pub open spec fn opening_tactic_upto(ts: Seq<TacticEntry>, name: Seq<char>, n: int) -> Option<int>
    decreases n,
{
    if n <= 0 {
        None
    } else {
        let prev = opening_tactic_upto(ts, name, n - 1);
        let t = ts[n - 1];
        if t.detector@ == "opening_sequence"@ && occurs(name, t.name@) && match prev {
            None => true,
            Some(p) => byte_len(t.name@) > byte_len(ts[p].name@),
        } {
            Some(n - 1)
        } else {
            prev
        }
    }
}

/// Id and name of the opening tactic for opening `name`: the opening
/// tactic whose name occurs in it and is longest (中炮对屏风马 gives 中炮);
/// with none, an id made from the opening's name, and the name itself.
pub open spec fn opening_tactic(ts: Seq<TacticEntry>, name: Seq<char>) -> (Seq<char>, Seq<char>) {
    match opening_tactic_upto(ts, name, ts.len() as int) {
        Some(i) => (ts[i].id@, ts[i].name@),
        None => ("opening_seq_"@ + name, name),
    }
}

/// The tactic id and name under which an opening is shown, so that the
/// opening's own template is found; see [`opening_tactic`].
pub fn resolve_opening_tactic(kb: &Knowledge, opening_name: &str) -> (r: (String, String))
    ensures
        (r.0@, r.1@) == opening_tactic(kb.tactics@, opening_name@),
{
    let ts = &kb.tactics;
    let name = chars_of(opening_name);
    let mut best: Option<usize> = None;
    let mut best_len: usize = 0;
    let mut i: usize = 0;
    while i < ts.len()
        invariant
            i <= ts@.len(),
            name@ == opening_name@,
            match opening_tactic_upto(ts@, name@, i as int) {
                None => best is None,
                Some(p) => 0 <= p < i && best == Some(p as usize) && best_len == byte_len(
                    ts@[p].name@,
                ),
            },
        decreases ts@.len() - i,
    {
        let t = &ts[i];
        if crate::text::str_eq(t.detector.as_str(), "opening_sequence") && occurs_in(
            &name,
            &chars_of(t.name.as_str()),
        ) {
            let len = t.name.as_str().as_bytes().len();
            let wins = match best {
                None => true,
                Some(_) => len > best_len,
            };
            if wins {
                best = Some(i);
                best_len = len;
            }
        }
        i += 1;
    }
    match best {
        Some(k) => (ts[k].id.clone(), ts[k].name.clone()),
        None => {
            let mut id = owned("opening_seq_");
            push_str(&mut id, opening_name);
            (id, owned(opening_name))
        },
    }
}

/// Chinese glyph of a piece code as text (empty for a code that is no piece).
pub open spec fn piece_word(code: u8) -> Seq<char> {
    match kind_of_code(code) {
        Some(k) => seq![
            glyph_of(
                k,
                match color_of_code(code) {
                    Some(c) => c,
                    None => Color::Red,
                },
            ),
        ],
        None => Seq::empty(),
    }
}

/// The first three names joined with 、.
pub open spec fn names_text(names: Seq<Seq<char>>) -> Seq<char> {
    joined(
        if names.len() > 3 {
            names.take(3)
        } else {
            names
        },
        "、"@,
    )
}

/// Placeholder values for a move's commentary. Every placeholder gets a
/// value; where nothing is known a sensible default text stands in.
pub open spec fn render_context_ok(
    c: RenderContext,
    side: Color,
    notation: Seq<char>,
    captured: u8,
    a: Assessment,
    best: Option<Seq<char>>,
    opening: Option<Seq<char>>,
    names: Seq<Seq<char>>,
) -> bool {
    &&& c.side@ == side_zh(side)
    &&& c.notation@ == notation
    &&& c.piece_name@ == "棋子"@
    &&& c.captured_piece@ == (if captured == 0 {
        "棋子"@
    } else {
        piece_word(captured)
    })
    &&& c.best_move_notation@ == (match best {
        Some(b) => b,
        None => notation,
    })
    &&& c.score_loss@ == signed_decimal(a.score_loss as int)
    &&& c.level_text@ == level_text(a.level)
    &&& c.opening_name@ == (match opening {
        Some(o) => o,
        None => "当前布局"@,
    })
    &&& c.tactic_names@ == (if names_text(names).len() == 0 {
        level_text(a.level)
    } else {
        names_text(names)
    })
    &&& c.best_reply_hint@ == (match best {
        Some(b) => "走 "@ + b,
        None => "另寻它法"@,
    })
    &&& c.threat_targets@ == "对方棋子"@
    &&& c.defended_piece@ == "己方棋子"@
}

/// The placeholder values for a move's commentary; see [`render_context_ok`].
pub fn build_render_context(
    side: Color,
    notation: &str,
    captured: u8,
    assessment: &Assessment,
    best_notation: Option<&str>,
    opening_name: Option<&str>,
    tactic_names: &Vec<String>,
) -> (r: RenderContext)
    ensures
        render_context_ok(
            r,
            side,
            notation@,
            captured,
            *assessment,
            match best_notation {
                Some(b) => Some(b@),
                None => None,
            },
            match opening_name {
                Some(o) => Some(o@),
                None => None,
            },
            string_views(tactic_names@),
        ),
{
    let captured_piece = if captured == 0 {
        owned("棋子")
    } else {
        match crate::piece::kind_of(captured) {
            Some(k) => {
                let c = match crate::piece::color_of(captured) {
                    Some(c) => c,
                    None => Color::Red,
                };
                let mut s = String::new();
                push_char(&mut s, k.name_zh(c));
                s
            },
            None => String::new(),
        }
    };
    let mut first3: Vec<String> = Vec::new();
    let mut i: usize = 0;
    while i < tactic_names.len() && i < 3
        invariant
            i <= tactic_names@.len(),
            i <= 3,
            string_views(first3@) == string_views(tactic_names@).take(i as int),
        decreases 3 - i,
    {
        let ghost prev = first3@;
        first3.push(tactic_names[i].clone());
        assert(string_views(first3@) =~= string_views(prev).push(tactic_names@[i as int]@));
        i += 1;
        assert(string_views(first3@) =~= string_views(tactic_names@).take(i as int));
    }
    proof {
        let v = string_views(tactic_names@);
        if v.len() <= 3 {
            assert(v.take(v.len() as int) =~= v);
        }
    }
    let mut names = String::new();
    crate::coach::llm::push_joined(&mut names, &first3, "、");
    assert(names@ =~= names_text(string_views(tactic_names@)));
    let tactic_text = if names.as_str().is_empty() {
        owned(assessment.level.label())
    } else {
        names
    };
    let mut score_loss = String::new();
    crate::coach::llm::push_signed(&mut score_loss, assessment.score_loss);
    assert(score_loss@ =~= signed_decimal(assessment.score_loss as int));
    let best_reply_hint = match best_notation {
        Some(n) => {
            let mut s = owned("走 ");
            push_str(&mut s, n);
            s
        },
        None => owned("另寻它法"),
    };
    RenderContext {
        side: owned(side.name_zh()),
        notation: owned(notation),
        piece_name: owned("棋子"),
        captured_piece,
        best_move_notation: owned(
            match best_notation {
                Some(b) => b,
                None => notation,
            },
        ),
        score_loss,
        level_text: owned(assessment.level.label()),
        opening_name: owned(
            match opening_name {
                Some(o) => o,
                None => "当前布局",
            },
        ),
        tactic_names: tactic_text,
        best_reply_hint,
        threat_targets: owned("对方棋子"),
        defended_piece: owned("己方棋子"),
    }
}

} // verus!
