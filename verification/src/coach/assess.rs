//! Grading a move by the score it lost against the engine's best move.
//!
//! Both scores come from the engine's scored root moves, from the mover's
//! point of view; no extra search is needed.
use vstd::prelude::*;

use crate::coach::note::{MoveLevel, level_rank};
use crate::mv::Move;

verus! {

/// Largest loss (hundredths of a pawn) still graded best.
pub const THRESHOLD_BEST: i32 = 10;
/// Largest loss still graded good.
pub const THRESHOLD_GOOD: i32 = 50;
/// Largest loss still graded dubious.
pub const THRESHOLD_DUBIOUS: i32 = 150;
/// Largest loss still graded a blunder; beyond it the move is missed.
pub const THRESHOLD_BLUNDER: i32 = 400;
/// Scores at most this far from zero before the move count as balanced;
/// there a move is graded dubious at worst.
pub const BALANCED_THRESHOLD: i32 = 100;

/// Grade of a move with its reasons.
#[derive(Clone, Debug)]
pub struct Assessment {
    /// The grade.
    pub level: MoveLevel,
    /// Score lost against the best move (never negative).
    pub score_loss: i32,
    /// Best score before the move (mover's view).
    pub score_before: i32,
    /// Score of the move played (mover's view).
    pub score_after: i32,
    /// The engine's best move.
    pub best_move: Option<Move>,
    /// Whether a balanced position capped the grade at dubious.
    pub capped_by_balance: bool,
    /// Whether the move mates and is graded best for that.
    pub forced_by_mate: bool,
    /// Whether a mate was missed and the move graded missed for that.
    pub forced_by_missed_mate: bool,
}

/// Score of the first entry of `rm` from index `i` on whose move is `played`.
pub open spec fn score_of(rm: Seq<(Move, i32)>, played: Move, i: int) -> Option<i32>
    decreases rm.len() - i,
{
    if i >= rm.len() || i < 0 {
        None
    } else if rm[i].0 == played {
        Some(rm[i].1)
    } else {
        score_of(rm, played, i + 1)
    }
}

/// Grade of a loss by the thresholds alone.
pub open spec fn level_of_loss(loss: int) -> MoveLevel {
    if loss <= THRESHOLD_BEST {
        MoveLevel::Best
    } else if loss <= THRESHOLD_GOOD {
        MoveLevel::Good
    } else if loss <= THRESHOLD_DUBIOUS {
        MoveLevel::Dubious
    } else if loss <= THRESHOLD_BLUNDER {
        MoveLevel::Blunder
    } else {
        MoveLevel::Missed
    }
}

/// Best score before the move: the first root move's, or 0 without root moves.
pub open spec fn before_of(rm: Seq<(Move, i32)>) -> int {
    if rm.len() > 0 {
        rm[0].1 as int
    } else {
        0
    }
}

/// Score of the move played: its root score, or (for a move not among the
/// root moves) just past the blunder threshold below the best score.
pub open spec fn after_of(rm: Seq<(Move, i32)>, played: Move) -> int {
    match score_of(rm, played, 0) {
        Some(s) => s as int,
        None => before_of(rm) - (THRESHOLD_BLUNDER + 1),
    }
}

/// The assessment of `played` given the root moves, best first, and
/// whether the move played and the best move mate: the thresholds grade
/// the loss; a mating move is best; a missed mate is missed; in a balanced
/// position the grade is capped at dubious (never raised).
pub open spec fn assessment_of(rm: Seq<(Move, i32)>, played: Move, played_mates: bool, best_mates: bool) -> Assessment {
    let before = before_of(rm);
    let after = after_of(rm, played);
    let loss = if before - after > 0 {
        before - after
    } else {
        0
    };
    let missed = !played_mates && best_mates;
    let graded = if played_mates {
        MoveLevel::Best
    } else if missed {
        MoveLevel::Missed
    } else {
        level_of_loss(loss)
    };
    let capped = !played_mates && !missed && -BALANCED_THRESHOLD <= before <= BALANCED_THRESHOLD
        && level_rank(graded) > level_rank(MoveLevel::Dubious);
    Assessment {
        level: if capped {
            MoveLevel::Dubious
        } else {
            graded
        },
        score_loss: loss as i32,
        score_before: before as i32,
        score_after: after as i32,
        best_move: if rm.len() > 0 {
            Some(rm[0].0)
        } else {
            None
        },
        capped_by_balance: capped,
        forced_by_mate: played_mates,
        forced_by_missed_mate: missed,
    }
}

/// Grades `played` against `root_moves` (all root moves with their scores,
/// best first), given whether the move played mates and whether the best
/// move mates.
pub fn assess(root_moves: &[(Move, i32)], played: Move, played_mates: bool, best_mates: bool) -> (r: Assessment)
    requires
        i32::MIN + THRESHOLD_BLUNDER + 1 <= before_of(root_moves@),
        forall|i: int|
            0 <= i < root_moves@.len() ==> i32::MIN <= before_of(root_moves@) - #[trigger] root_moves@[i].1
                <= i32::MAX,
    ensures
        r == assessment_of(root_moves@, played, played_mates, best_mates),
{
    let rm = root_moves;
    let (best_move, score_before) = if rm.len() > 0 {
        (Some(rm[0].0), rm[0].1)
    } else {
        (None, 0i32)
    };
    let mut found: Option<i32> = None;
    let mut i: usize = rm.len();
    while i > 0
        invariant
            i <= rm@.len(),
            found == score_of(rm@, played, i as int),
            found matches Some(s) ==> exists|k: int| i <= k < rm@.len() && #[trigger] rm@[k].1 == s,
        decreases i,
    {
        i -= 1;
        if rm[i].0 == played {
            found = Some(rm[i].1);
        }
    }
    let score_after = match found {
        Some(s) => s,
        None => score_before - (THRESHOLD_BLUNDER + 1),
    };
    proof {
        if let Some(s) = found {
            let k = choose|k: int| 0 <= k < rm@.len() && #[trigger] rm@[k].1 == s;
            assert(i32::MIN <= before_of(root_moves@) - root_moves@[k].1 <= i32::MAX);
        }
    }
    let score_loss = if score_before - score_after > 0 {
        score_before - score_after
    } else {
        0
    };
    let mut level = if score_loss <= THRESHOLD_BEST {
        MoveLevel::Best
    } else if score_loss <= THRESHOLD_GOOD {
        MoveLevel::Good
    } else if score_loss <= THRESHOLD_DUBIOUS {
        MoveLevel::Dubious
    } else if score_loss <= THRESHOLD_BLUNDER {
        MoveLevel::Blunder
    } else {
        MoveLevel::Missed
    };
    let forced_by_mate = played_mates;
    if forced_by_mate {
        level = MoveLevel::Best;
    }
    let forced_by_missed_mate = !forced_by_mate && best_mates;
    if forced_by_missed_mate {
        level = MoveLevel::Missed;
    }
    let mut capped_by_balance = false;
    if !forced_by_mate && !forced_by_missed_mate && -BALANCED_THRESHOLD <= score_before
        && score_before <= BALANCED_THRESHOLD && level.rank() > MoveLevel::Dubious.rank() {
        level = MoveLevel::Dubious;
        capped_by_balance = true;
    }
    Assessment {
        level,
        score_loss,
        score_before,
        score_after,
        best_move,
        capped_by_balance,
        forced_by_mate,
        forced_by_missed_mate,
    }
}

/// How a move is graded, from the scores alone: a mating move is best; a
/// move that misses the best move's mate is missed; otherwise the loss
/// against the best score grades the move (at most 10 best, 50 good, 150
/// dubious, 400 blunder, beyond that missed), except that when the best
/// score lies within 100 of zero either way the grade is never worse than
/// dubious, and exactly then the cap is reported.
pub proof fn law_assessment_grades(rm: Seq<(Move, i32)>, played: Move, played_mates: bool, best_mates: bool)
    requires
        i32::MIN + THRESHOLD_BLUNDER + 1 <= before_of(rm),
        forall|i: int| 0 <= i < rm.len() ==> i32::MIN <= before_of(rm) - #[trigger] rm[i].1 <= i32::MAX,
    ensures
        ({
            let a = assessment_of(rm, played, played_mates, best_mates);
            let balanced = -100 <= a.score_before <= 100;
            let by_loss = if a.score_loss <= 10 {
                MoveLevel::Best
            } else if a.score_loss <= 50 {
                MoveLevel::Good
            } else if a.score_loss <= 150 {
                MoveLevel::Dubious
            } else if a.score_loss <= 400 {
                MoveLevel::Blunder
            } else {
                MoveLevel::Missed
            };
            &&& a.score_before == (if rm.len() > 0 {
                rm[0].1
            } else {
                0
            })
            &&& a.score_loss == (if a.score_before > a.score_after {
                a.score_before - a.score_after
            } else {
                0
            })
            &&& played_mates ==> a.level == MoveLevel::Best && !a.capped_by_balance
            &&& !played_mates && best_mates ==> a.level == MoveLevel::Missed && !a.capped_by_balance
            &&& !played_mates && !best_mates && balanced ==> a.level != MoveLevel::Blunder && a.level
                != MoveLevel::Missed
            &&& !played_mates && !best_mates && balanced ==> (a.capped_by_balance <==> a.score_loss > 150)
            &&& !played_mates && !best_mates && balanced && a.score_loss <= 150 ==> a.level == by_loss
            &&& !played_mates && !best_mates && balanced && a.score_loss > 150 ==> a.level == MoveLevel::Dubious
            &&& !played_mates && !best_mates && !balanced ==> a.level == by_loss && !a.capped_by_balance
        }),
{
    if score_of(rm, played, 0) is Some {
        lemma_score_of_in(rm, played, 0);
    }
}

/// A score found for `played` from `i` on is the score of one of the root
/// moves there.
proof fn lemma_score_of_in(rm: Seq<(Move, i32)>, played: Move, i: int)
    requires
        score_of(rm, played, i) is Some,
    ensures
        exists|k: int| i <= k < rm.len() && 0 <= k && #[trigger] rm[k].1 == score_of(rm, played, i)->0,
    decreases rm.len() - i,
{
    if rm[i].0 != played {
        lemma_score_of_in(rm, played, i + 1);
    }
}

} // verus!
