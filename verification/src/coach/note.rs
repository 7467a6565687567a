//! Verdicts and labels shown with a move's commentary.
use vstd::prelude::*;

use crate::text::str_eq;

verus! {

/// Verdict on a move, from the score it lost against the best move.
#[derive(Clone, Copy, Debug, PartialEq, Eq, Structural, PartialOrd, Ord, Hash)]
pub enum MoveLevel {
    /// Lost at most 10 hundredths of a pawn.
    Best,
    /// Lost more than 10 and at most 50.
    Good,
    /// Lost more than 50 and at most 150.
    Dubious,
    /// Lost more than 150 and at most 400.
    Blunder,
    /// Lost more than 400, or missed a mate.
    Missed,
}

/// Id of the level's generic template.
pub open spec fn generic_template(l: MoveLevel) -> Seq<char> {
    match l {
        MoveLevel::Best => "tpl.generic.best"@,
        MoveLevel::Good => "tpl.generic.good"@,
        MoveLevel::Dubious => "tpl.generic.dubious"@,
        MoveLevel::Blunder => "tpl.generic.blunder"@,
        MoveLevel::Missed => "tpl.generic.missed"@,
    }
}

/// Text of a move level.
pub open spec fn level_text(l: MoveLevel) -> Seq<char> {
    match l {
        MoveLevel::Best => "最佳着法"@,
        MoveLevel::Good => "不错"@,
        MoveLevel::Dubious => "稍有问题"@,
        MoveLevel::Blunder => "明显失误"@,
        MoveLevel::Missed => "严重漏着"@,
    }
}

/// Position of a level from best (0) to worst (4).
pub open spec fn level_rank(l: MoveLevel) -> int {
    match l {
        MoveLevel::Best => 0,
        MoveLevel::Good => 1,
        MoveLevel::Dubious => 2,
        MoveLevel::Blunder => 3,
        MoveLevel::Missed => 4,
    }
}

impl MoveLevel {
    /// Every level, best first.
    pub const ALL: [MoveLevel; 5] = [
        MoveLevel::Best,
        MoveLevel::Good,
        MoveLevel::Dubious,
        MoveLevel::Blunder,
        MoveLevel::Missed,
    ];

    /// Position from best (0) to worst (4).
    pub fn rank(self) -> (r: u8)
        ensures
            r == level_rank(self),
    {
        match self {
            MoveLevel::Best => 0,
            MoveLevel::Good => 1,
            MoveLevel::Dubious => 2,
            MoveLevel::Blunder => 3,
            MoveLevel::Missed => 4,
        }
    }

    /// Text of the level (never conveyed by colour alone).
    pub fn label(self) -> (r: &'static str)
        ensures
            r@ == level_text(self),
            self == MoveLevel::Best ==> r@ == "最佳着法"@,
            self == MoveLevel::Good ==> r@ == "不错"@,
            self == MoveLevel::Dubious ==> r@ == "稍有问题"@,
            self == MoveLevel::Blunder ==> r@ == "明显失误"@,
            self == MoveLevel::Missed ==> r@ == "严重漏着"@,
    {
        match self {
            MoveLevel::Best => "最佳着法",
            MoveLevel::Good => "不错",
            MoveLevel::Dubious => "稍有问题",
            MoveLevel::Blunder => "明显失误",
            MoveLevel::Missed => "严重漏着",
        }
    }

    /// Glyph of the level, distinct in shape.
    pub fn glyph(self) -> (r: &'static str)
        ensures
            self == MoveLevel::Best ==> r@ == "★"@,
            self == MoveLevel::Good ==> r@ == "✓"@,
            self == MoveLevel::Dubious ==> r@ == "?"@,
            self == MoveLevel::Blunder ==> r@ == "✕"@,
            self == MoveLevel::Missed ==> r@ == "‼"@,
    {
        match self {
            MoveLevel::Best => "★",
            MoveLevel::Good => "✓",
            MoveLevel::Dubious => "?",
            MoveLevel::Blunder => "✕",
            MoveLevel::Missed => "‼",
        }
    }

    /// Name of the level's colour token.
    pub fn token(self) -> (r: &'static str)
        ensures
            self == MoveLevel::Best ==> r@ == "coach.best"@,
            self == MoveLevel::Good ==> r@ == "coach.good"@,
            self == MoveLevel::Dubious ==> r@ == "coach.dubious"@,
            self == MoveLevel::Blunder ==> r@ == "coach.blunder"@,
            self == MoveLevel::Missed ==> r@ == "coach.missed"@,
    {
        match self {
            MoveLevel::Best => "coach.best",
            MoveLevel::Good => "coach.good",
            MoveLevel::Dubious => "coach.dubious",
            MoveLevel::Blunder => "coach.blunder",
            MoveLevel::Missed => "coach.missed",
        }
    }

    /// Id of the level's generic commentary template.
    pub fn generic_template_id(self) -> (r: &'static str)
        ensures
            r@ == generic_template(self),
            self == MoveLevel::Best ==> r@ == "tpl.generic.best"@,
            self == MoveLevel::Good ==> r@ == "tpl.generic.good"@,
            self == MoveLevel::Dubious ==> r@ == "tpl.generic.dubious"@,
            self == MoveLevel::Blunder ==> r@ == "tpl.generic.blunder"@,
            self == MoveLevel::Missed ==> r@ == "tpl.generic.missed"@,
    {
        match self {
            MoveLevel::Best => "tpl.generic.best",
            MoveLevel::Good => "tpl.generic.good",
            MoveLevel::Dubious => "tpl.generic.dubious",
            MoveLevel::Blunder => "tpl.generic.blunder",
            MoveLevel::Missed => "tpl.generic.missed",
        }
    }

    /// Whether the move calls for an explanation (the three worst levels).
    pub fn needs_explanation(self) -> (r: bool)
        ensures
            r == (level_rank(self) >= 2),
    {
        match self {
            MoveLevel::Dubious | MoveLevel::Blunder | MoveLevel::Missed => true,
            _ => false,
        }
    }
}

/// Where a commentary came from.
#[derive(Clone, Copy, Debug, PartialEq, Eq, Structural)]
pub enum NoteSource {
    /// Rendered from local templates.
    Local,
    /// Rewritten by a language model.
    Llm,
}

/// State of the language-model rewrite of a commentary.
#[derive(Clone, Copy, Debug, PartialEq, Eq, Structural)]
pub enum LlmStatus {
    /// Not wanted for this level, or no model configured.
    NotRequested,
    /// Requested, not back yet.
    Pending,
    /// Rewritten.
    Enhanced,
    /// Failed (timeout, rejected, error); the local commentary stays.
    Failed,
}

/// Layer of a tactic, by how reliably it can be decided.
#[derive(Clone, Copy, Debug, PartialEq, Eq, Structural)]
pub enum TacticCategory {
    /// Decided exactly by the rules.
    Structure,
    /// Decided from attack relations and exchange values.
    Relation,
    /// Matched against declared formations.
    Formation,
    /// An opening.
    Opening,
}

/// The category named by `t`, if any.
pub open spec fn category_of(t: Seq<char>) -> Option<TacticCategory> {
    if t == "structure"@ {
        Some(TacticCategory::Structure)
    } else if t == "relation"@ {
        Some(TacticCategory::Relation)
    } else if t == "formation"@ {
        Some(TacticCategory::Formation)
    } else if t == "opening"@ {
        Some(TacticCategory::Opening)
    } else {
        None
    }
}

impl TacticCategory {
    /// Chinese label.
    pub fn label(self) -> (r: &'static str)
        ensures
            self == TacticCategory::Structure ==> r@ == "结构"@,
            self == TacticCategory::Relation ==> r@ == "关系"@,
            self == TacticCategory::Formation ==> r@ == "棋形"@,
            self == TacticCategory::Opening ==> r@ == "开局"@,
    {
        match self {
            TacticCategory::Structure => "结构",
            TacticCategory::Relation => "关系",
            TacticCategory::Formation => "棋形",
            TacticCategory::Opening => "开局",
        }
    }

    /// The category named by `text` in the knowledge base.
    pub fn parse(text: &str) -> (r: Option<TacticCategory>)
        ensures
            r == category_of(text@),
    {
        if str_eq(text, "structure") {
            Some(TacticCategory::Structure)
        } else if str_eq(text, "relation") {
            Some(TacticCategory::Relation)
        } else if str_eq(text, "formation") {
            Some(TacticCategory::Formation)
        } else if str_eq(text, "opening") {
            Some(TacticCategory::Opening)
        } else {
            None
        }
    }

    /// Whether tags of this category are shown as certain (only the
    /// rule-decided layer is).
    pub fn is_certain(self) -> (r: bool)
        ensures
            r == (self == TacticCategory::Structure),
    {
        match self {
            TacticCategory::Structure => true,
            _ => false,
        }
    }
}

/// How long a commentary is.
#[derive(Clone, Copy, Debug, PartialEq, Eq, Structural)]
pub enum Verbosity {
    /// One sentence.
    Concise,
    /// Two or three sentences.
    Standard,
    /// With variations and teaching notes.
    Verbose,
}

impl Default for Verbosity {
    fn default() -> (r: Verbosity)
        ensures
            r == Verbosity::Standard,
    {
        Verbosity::Standard
    }
}

} // verus!
