//! Threefold repetition and the perpetual-check verdict.
//!
//! Positions are compared by Zobrist hash. When the current position has
//! occurred three times, the moves from its first occurrence to now form
//! the cycle: a side that gave check with every one of its moves in the
//! cycle loses; if both did, or neither, the game is drawn. Perpetual
//! chasing is not judged and counts as a draw.
use vstd::prelude::*;

use crate::color::{Color, opp};
use crate::mv::MoveRecord;
use crate::position::Position;

verus! {

/// Verdict on a threefold repetition.
#[derive(Clone, Copy, PartialEq, Eq, Structural, Debug)]
pub enum RepetitionVerdict {
    /// One side checked with every move of the cycle and loses.
    LongCheck { loser: Color },
    /// Both sides checked with every move: a draw.
    BothLongCheck,
    /// A draw (no perpetual check).
    Draw,
}

impl RepetitionVerdict {
    /// Text shown to players.
    pub fn description(self) -> (r: &'static str)
        ensures
            self is LongCheck ==> r@ == "一方长将，判长将方负"@,
            self is BothLongCheck ==> r@ == "双方长将，判和"@,
            self is Draw ==> r@ == "循环局面且无长将，判和"@,
    {
        match self {
            RepetitionVerdict::LongCheck { .. } => "一方长将，判长将方负",
            RepetitionVerdict::BothLongCheck => "双方长将，判和",
            RepetitionVerdict::Draw => "循环局面且无长将，判和",
        }
    }

    /// The losing side, if the verdict decides the game.
    pub fn loser(self) -> (r: Option<Color>)
        ensures
            r == (match self {
                RepetitionVerdict::LongCheck { loser } => Some(loser),
                _ => None,
            }),
    {
        match self {
            RepetitionVerdict::LongCheck { loser } => Some(loser),
            _ => None,
        }
    }
}

/// Number of entries of `h` among the first `n` equal to `x`.
pub open spec fn count_upto(h: Seq<u64>, x: u64, n: int) -> nat
    decreases n,
{
    if n <= 0 {
        0
    } else {
        count_upto(h, x, n - 1) + if h[n - 1] == x {
            1nat
        } else {
            0nat
        }
    }
}

/// Index of the first entry of `h` equal to `x`, from `i` on.
pub open spec fn first_index(h: Seq<u64>, x: u64, i: int) -> int
    decreases h.len() - i,
{
    if i >= h.len() {
        h.len() as int
    } else if h[i] == x {
        i
    } else {
        first_index(h, x, i + 1)
    }
}

/// Whether side `c` moved in `cycle` and every one of its moves there gave check.
pub open spec fn checked_throughout(cycle: Seq<MoveRecord>, c: Color) -> bool {
    &&& exists|i: int| 0 <= i < cycle.len() && #[trigger] cycle[i].mover == c
    &&& forall|i: int| 0 <= i < cycle.len() && #[trigger] cycle[i].mover == c ==> cycle[i].gave_check
}

/// Verdict on a cycle of moves.
pub open spec fn cycle_verdict(cycle: Seq<MoveRecord>) -> RepetitionVerdict {
    let red = checked_throughout(cycle, Color::Red);
    let black = checked_throughout(cycle, Color::Black);
    if red && black {
        RepetitionVerdict::BothLongCheck
    } else if red {
        RepetitionVerdict::LongCheck { loser: Color::Red }
    } else if black {
        RepetitionVerdict::LongCheck { loser: Color::Black }
    } else {
        RepetitionVerdict::Draw
    }
}

/// How many times the current position has occurred (this time included).
pub fn occurrences(pos: &Position) -> (r: usize)
    requires
        pos.wf(),
    ensures
        r == count_upto(pos.history_seq(), pos.hash_val(), pos.history_seq().len() as int),
{
    let h = pos.hash();
    let hist = pos.history();
    let mut n: usize = 0;
    let mut i: usize = 0;
    while i < hist.len()
        invariant
            i <= hist@.len(),
            hist@ == pos.history_seq(),
            h == pos.hash_val(),
            n == count_upto(hist@, h, i as int),
            n <= i,
        decreases hist@.len() - i,
    {
        if hist[i] == h {
            n += 1;
        }
        i += 1;
    }
    n
}

/// Whether the current position has occurred at least three times.
pub fn is_threefold(pos: &Position) -> (r: bool)
    requires
        pos.wf(),
    ensures
        r == (count_upto(pos.history_seq(), pos.hash_val(), pos.history_seq().len() as int) >= 3),
{
    occurrences(pos) >= 3
}

/// A value occurring once among the first `n` entries appears at or after
/// its first index and before `n`.
proof fn lemma_first_index(h: Seq<u64>, x: u64, i: int, n: int)
    requires
        0 <= i <= n <= h.len(),
        count_upto(h, x, n) > count_upto(h, x, i),
    ensures
        i <= first_index(h, x, i) < n,
        h[first_index(h, x, i)] == x,
    decreases n - i,
{
    if h[i] != x {
        lemma_count_step(h, x, i);
        lemma_first_index(h, x, i + 1, n);
    }
}

/// One step of a count.
proof fn lemma_count_step(h: Seq<u64>, x: u64, i: int)
    requires
        0 <= i < h.len(),
    ensures
        count_upto(h, x, i + 1) == count_upto(h, x, i) + if h[i] == x {
            1nat
        } else {
            0nat
        },
{
}

/// A count over a prefix reaching the first occurrence is zero.
proof fn lemma_count_before_first(h: Seq<u64>, x: u64, n: int)
    requires
        0 <= n <= first_index(h, x, 0),
        n <= h.len(),
    ensures
        count_upto(h, x, n) == 0,
    decreases n,
{
    if n > 0 {
        lemma_count_before_first(h, x, n - 1);
        lemma_first_index_skips(h, x, 0, n - 1);
    }
}

/// Entries before the first occurrence differ from `x`.
proof fn lemma_first_index_skips(h: Seq<u64>, x: u64, i: int, j: int)
    requires
        0 <= i <= j < first_index(h, x, i),
        j < h.len(),
    ensures
        h[j] != x,
    decreases j - i,
{
    if i < j {
        lemma_first_index_skips(h, x, i + 1, j);
    }
}

/// Counts never exceed the prefix length.
proof fn lemma_count_bound(h: Seq<u64>, x: u64, n: int)
    requires
        0 <= n,
    ensures
        count_upto(h, x, n) <= n,
    decreases n,
{
    if n > 0 {
        lemma_count_bound(h, x, n - 1);
    }
}

/// Verdict on the current position; `None` unless it has occurred three times.
pub fn adjudicate(pos: &Position) -> (r: Option<RepetitionVerdict>)
    requires
        pos.wf(),
    ensures
        ({
            let h = pos.history_seq();
            let x = pos.hash_val();
            let first = first_index(h, x, 0);
            let current = h.len() - 1;
            if count_upto(h, x, h.len() as int) < 3 {
                r is None
            } else {
                r == Some(cycle_verdict(pos.stack().subrange(first, current)))
            }
        }),
{
    if !is_threefold(pos) {
        return None;
    }
    let history = pos.history();
    let h = pos.hash();
    let current = history.len() - 1;
    let mut first: usize = 0;
    while first < history.len() && history[first] != h
        invariant
            first <= history@.len(),
            history@ == pos.history_seq(),
            h == pos.hash_val(),
            first_index(history@, h, 0) == first_index(history@, h, first as int),
        decreases history@.len() - first,
    {
        first += 1;
    }
    proof {
        lemma_count_bound(history@, h, history@.len() as int);
        if first_index(history@, h, 0) >= current {
            lemma_count_before_first(history@, h, current as int);
            lemma_count_step(history@, h, current as int);
        }
    }
    let stack = pos.move_stack();
    let ghost cycle = stack@.subrange(first as int, current as int);
    let mut red_moves: usize = 0;
    let mut red_checks: usize = 0;
    let mut black_moves: usize = 0;
    let mut black_checks: usize = 0;
    let mut k: usize = first;
    while k < current
        invariant
            first <= k <= current,
            current == stack@.len(),
            cycle == stack@.subrange(first as int, current as int),
            red_checks <= red_moves <= k - first,
            black_checks <= black_moves <= k - first,
            (red_moves > 0) == (exists|i: int|
                0 <= i < k - first && #[trigger] cycle[i].mover == Color::Red),
            (red_checks == red_moves) == (forall|i: int|
                0 <= i < k - first && #[trigger] cycle[i].mover == Color::Red
                    ==> cycle[i].gave_check),
            (black_moves > 0) == (exists|i: int|
                0 <= i < k - first && #[trigger] cycle[i].mover == Color::Black),
            (black_checks == black_moves) == (forall|i: int|
                0 <= i < k - first && #[trigger] cycle[i].mover == Color::Black
                    ==> cycle[i].gave_check),
        decreases current - k,
    {
        let record = stack[k];
        let ghost j = k - first;
        assert(cycle[j] == record);
        match record.mover {
            Color::Red => {
                red_moves += 1;
                if record.gave_check {
                    red_checks += 1;
                }
            },
            Color::Black => {
                black_moves += 1;
                if record.gave_check {
                    black_checks += 1;
                }
            },
        }
        k += 1;
    }
    let red_all = red_moves > 0 && red_checks == red_moves;
    let black_all = black_moves > 0 && black_checks == black_moves;
    Some(
        if red_all && black_all {
            RepetitionVerdict::BothLongCheck
        } else if red_all {
            RepetitionVerdict::LongCheck { loser: Color::Red }
        } else if black_all {
            RepetitionVerdict::LongCheck { loser: Color::Black }
        } else {
            RepetitionVerdict::Draw
        },
    )
}

/// Verdict on a repetition cycle, by who kept checking: a side that moved
/// in the cycle and gave check with every one of its moves loses, unless the
/// other side did so too (both lose their claim); otherwise it is a draw.
pub proof fn law_cycle_verdict_by_checks(cycle: Seq<MoveRecord>)
    ensures
        ({
            let red = (exists|i: int| 0 <= i < cycle.len() && #[trigger] cycle[i].mover == Color::Red)
                && (forall|i: int| 0 <= i < cycle.len() && #[trigger] cycle[i].mover == Color::Red ==> cycle[i].gave_check);
            let black = (exists|i: int| 0 <= i < cycle.len() && #[trigger] cycle[i].mover == Color::Black)
                && (forall|i: int| 0 <= i < cycle.len() && #[trigger] cycle[i].mover == Color::Black ==> cycle[i].gave_check);
            &&& red && black ==> cycle_verdict(cycle) == RepetitionVerdict::BothLongCheck
            &&& red && !black ==> cycle_verdict(cycle) == RepetitionVerdict::LongCheck { loser: Color::Red }
            &&& !red && black ==> cycle_verdict(cycle) == RepetitionVerdict::LongCheck { loser: Color::Black }
            &&& !red && !black ==> cycle_verdict(cycle) == RepetitionVerdict::Draw
        }),
{
}

/// Swapping the colours of the movers in a cycle swaps the loser of its
/// verdict and keeps a draw or a double long check as it is.
pub proof fn law_cycle_verdict_symmetric(cycle: Seq<MoveRecord>, swapped: Seq<MoveRecord>)
    requires
        swapped.len() == cycle.len(),
        forall|i: int| 0 <= i < cycle.len() ==> #[trigger] swapped[i].mover == opp(cycle[i].mover)
            && swapped[i].gave_check == cycle[i].gave_check,
    ensures
        cycle_verdict(swapped) == (match cycle_verdict(cycle) {
            RepetitionVerdict::LongCheck { loser } => RepetitionVerdict::LongCheck { loser: opp(loser) },
            v => v,
        }),
{
    lemma_checked_swapped(cycle, swapped, Color::Red);
    lemma_checked_swapped(cycle, swapped, Color::Black);
}

/// A side kept checking in the swapped cycle exactly when the other side
/// did in the cycle.
proof fn lemma_checked_swapped(cycle: Seq<MoveRecord>, swapped: Seq<MoveRecord>, c: Color)
    requires
        swapped.len() == cycle.len(),
        forall|i: int| 0 <= i < cycle.len() ==> #[trigger] swapped[i].mover == opp(cycle[i].mover)
            && swapped[i].gave_check == cycle[i].gave_check,
    ensures
        checked_throughout(swapped, c) == checked_throughout(cycle, opp(c)),
{
    assert forall|i: int| 0 <= i < cycle.len() implies (#[trigger] swapped[i].mover == c) == (cycle[i].mover
        == opp(c)) by {
        assert(swapped[i].mover == opp(cycle[i].mover));
    }
    if checked_throughout(cycle, opp(c)) {
        let k = choose|i: int| 0 <= i < cycle.len() && #[trigger] cycle[i].mover == opp(c);
        assert(swapped[k].mover == c);
        assert forall|i: int| 0 <= i < swapped.len() && #[trigger] swapped[i].mover == c implies swapped[i].gave_check by {
            assert(cycle[i].mover == opp(c));
        }
    }
    if checked_throughout(swapped, c) {
        let k = choose|i: int| 0 <= i < swapped.len() && #[trigger] swapped[i].mover == c;
        assert(cycle[k].mover == opp(c));
        assert forall|i: int| 0 <= i < cycle.len() && #[trigger] cycle[i].mover == opp(c) implies cycle[i].gave_check by {
            assert(swapped[i].mover == c);
        }
    }
}

} // verus!
