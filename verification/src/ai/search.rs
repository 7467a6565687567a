//! Iterative-deepening principal-variation search with a transposition
//! table, killer and history move ordering, late-move reductions, check
//! extensions and a capture-only quiescence search.
use vstd::prelude::*;

use crate::ai::eval::{eval_spec, evaluate_side_to_move};
use crate::color::Color;
use crate::ai::ordering::{History, MovePicker};
use crate::ai::time::StopSignal;
use crate::ai::tt::{FLAG_EXACT, FLAG_LOWER, FLAG_UPPER, TranspositionTable, probe_spec};
use crate::mv::{Move, MoveList, mv_from, mv_to};
use crate::piece::{PieceKind, kind_of, kind_of_code};
use crate::position::{
    Position, Snap, legal_list, lemma_legal_move_ok, lemma_step_ok, snap_hash, snap_in_check, step,
};
use crate::rules::same_game;

verus! {

/// Deepest ply the search reaches.
pub const MAX_PLY: usize = 96;
/// Score of being mated at the root (mate in `n` plies scores `MATE_SCORE - n`).
pub const MATE_SCORE: i32 = 30_000;
/// Scores at least this far from zero announce a forced mate.
pub const MATE_THRESHOLD: i32 = 29_904;
/// Bound of the search window.
pub const INF: i32 = 32_000;
/// Nodes between two questions to the stop signal.
pub const STOP_CHECK_INTERVAL: u64 = 1024;
/// Most captures the quiescence search looks at in one position.
pub const MAX_CAPTURES: usize = 64;
/// Largest score of a position itself (evaluation, mate or table score).
pub const SCORE_BOUND: i32 = 1_000_000;
/// Bound of every search window (the score bound plus room for the root
/// windows to widen by one per root move).
pub const WINDOW_BOUND: i32 = 1_000_300;

/// Limits of one search.
#[derive(Clone, Copy, Debug)]
pub struct SearchLimits {
    /// Deepest iteration.
    pub max_depth: u8,
    /// Node budget, if any.
    pub max_nodes: Option<u64>,
    /// Whether leaves are resolved by a capture search.
    pub use_quiescence: bool,
    /// Whether the transposition table is used.
    pub use_tt: bool,
}

impl Default for SearchLimits {
    fn default() -> (r: SearchLimits)
        ensures
            r.max_depth == 64,
            r.max_nodes is None,
            r.use_quiescence,
            r.use_tt,
    {
        SearchLimits { max_depth: 64, max_nodes: None, use_quiescence: true, use_tt: true }
    }
}

impl SearchLimits {
    /// Search to `depth`, without a node budget.
    pub fn depth(depth: u8) -> (r: SearchLimits)
        ensures
            r.max_depth == depth,
            r.max_nodes is None,
            r.use_quiescence,
            r.use_tt,
    {
        SearchLimits { max_depth: depth, max_nodes: None, use_quiescence: true, use_tt: true }
    }

    /// Search to `depth` within `nodes` nodes.
    pub fn depth_nodes(depth: u8, nodes: u64) -> (r: SearchLimits)
        ensures
            r.max_depth == depth,
            r.max_nodes == Some(nodes),
            r.use_quiescence,
            r.use_tt,
    {
        SearchLimits { max_depth: depth, max_nodes: Some(nodes), use_quiescence: true, use_tt: true }
    }
}

/// Outcome of a search.
#[derive(Clone, Debug)]
pub struct SearchResult {
    /// Best move of the last completed iteration.
    pub best_move: Option<Move>,
    /// Its score, from the side to move's point of view.
    pub score: i32,
    /// Depth of the last completed iteration.
    pub depth: u8,
    /// Nodes visited.
    pub nodes: u64,
    /// Expected line of play, starting with the best move.
    pub pv: Vec<Move>,
    /// Every root move with its score, best first.
    pub root_moves: Vec<(Move, i32)>,
    /// Whether the search was interrupted.
    pub stopped: bool,
}

impl Default for SearchResult {
    fn default() -> (r: SearchResult)
        ensures
            r.best_move is None,
            r.score == 0,
            r.depth == 0,
            r.nodes == 0,
            r.pv@.len() == 0,
            r.root_moves@.len() == 0,
            !r.stopped,
    {
        SearchResult {
            best_move: None,
            score: 0,
            depth: 0,
            nodes: 0,
            pv: Vec::new(),
            root_moves: Vec::new(),
            stopped: false,
        }
    }
}

impl SearchResult {
    /// Whether the score announces a forced mate.
    pub fn is_mate_score(&self) -> (r: bool)
        requires
            self.score > i32::MIN,
        ensures
            r == is_mate(self.score),
    {
        let a = if self.score < 0 {
            -self.score
        } else {
            self.score
        };
        a >= MATE_THRESHOLD
    }

    /// Plies to the announced mate: positive when the side to move mates,
    /// negative when it is mated.
    pub fn mate_distance(&self) -> (r: Option<i32>)
        requires
            self.score > i32::MIN,
        ensures
            !(self.score >= MATE_THRESHOLD || self.score <= -MATE_THRESHOLD) ==> r is None,
            self.score >= MATE_THRESHOLD ==> r == Some((MATE_SCORE - self.score) as i32),
            self.score <= -MATE_THRESHOLD ==> r == Some((-(MATE_SCORE + self.score)) as i32),
    {
        if !self.is_mate_score() {
            return None;
        }
        let a = if self.score < 0 {
            -self.score
        } else {
            self.score
        };
        let d = MATE_SCORE - a;
        Some(
            if self.score > 0 {
                d
            } else {
                -d
            },
        )
    }
}

/// Whether `rs` is sorted by non-increasing score.
pub open spec fn sorted_desc(rs: Seq<(Move, i32)>) -> bool {
    forall|i: int, j: int| 0 <= i < j < rs.len() ==> #[trigger] rs[i].1 >= #[trigger] rs[j].1
}

/// The moves of scored root moves, in order.
pub open spec fn moves_of(rs: Seq<(Move, i32)>) -> Seq<Move> {
    rs.map_values(|p: (Move, i32)| p.0)
}

/// Whether every move of `rs` is a legal move in state `s`.
pub open spec fn all_legal(s: Snap, rs: Seq<(Move, i32)>) -> bool {
    forall|i: int| 0 <= i < rs.len() ==> legal_list(s).contains(#[trigger] rs[i].0)
}

/// Whether `line` can be played from `s`, each move legal where it is played.
pub open spec fn legal_line(s: Snap, line: Seq<Move>) -> bool
    decreases line.len(),
{
    if line.len() == 0 {
        true
    } else {
        legal_list(s).contains(line[0]) && legal_line(step(s, line[0]), line.drop_first())
    }
}

/// Deepest iteration a search runs for a requested depth.
pub open spec fn depth_cap(d: u8) -> int {
    if d < 1 {
        1
    } else if d > 95 {
        95
    } else {
        d as int
    }
}

/// Whether a score announces a forced mate.
pub open spec fn is_mate(score: i32) -> bool {
    score >= MATE_THRESHOLD || score <= -MATE_THRESHOLD
}

/// What a search of state `s` under `limits` reports in `r`:
/// - the depth of its last completed iteration, at most the requested
///   depth clamped to `1..=95`; at least 1 unless interrupted; below the
///   requested depth only when interrupted or a mate was found;
/// - before any completed iteration, nothing (no move, score 0);
/// - after one, every legal move exactly once with its score, best first;
///   the best move and score are the first entry's; the line of play starts
///   with the best move and is legal move after move;
/// - without legal moves, a loss by mate found at depth 1 with no node
///   searched.
pub open spec fn search_reports(s: Snap, limits: SearchLimits, r: SearchResult) -> bool {
    &&& r.depth <= depth_cap(limits.max_depth)
    &&& !r.stopped ==> r.depth >= 1
    &&& !r.stopped && r.depth < depth_cap(limits.max_depth) ==> is_mate(r.score)
    &&& r.depth == 0 ==> r.best_move is None && r.score == 0 && r.root_moves@.len() == 0
        && r.pv@.len() == 0
    &&& r.depth >= 1 ==> moves_of(r.root_moves@).to_multiset() == legal_list(s).to_multiset()
    &&& sorted_desc(r.root_moves@)
    &&& r.root_moves@.len() > 0 ==> r.best_move == Some(r.root_moves@[0].0) && r.score
        == r.root_moves@[0].1 && r.pv@.len() >= 1 && r.pv@[0] == r.root_moves@[0].0
    &&& r.root_moves@.len() == 0 ==> r.best_move is None && r.pv@.len() == 0
    &&& r.depth >= 1 && r.root_moves@.len() == 0 ==> r.score == -MATE_SCORE
    &&& legal_line(s, r.pv@)
    &&& r.pv@.len() <= 16
    &&& r.pv@.len() <= r.depth
    &&& legal_list(s).len() == 0 ==> r.depth == 1 && r.score == -MATE_SCORE && !r.stopped
        && r.nodes == 0
}

/// Lowest score a search inside a window opened at `alpha` reports.
spec fn floor_of(alpha: int) -> int {
    if alpha < -SCORE_BOUND {
        alpha
    } else {
        -SCORE_BOUND as int
    }
}

/// Highest score a search inside the window `(alpha, beta)` reports.
spec fn ceiling_of(alpha: int, beta: int) -> int {
    if alpha >= beta && alpha >= SCORE_BOUND {
        alpha
    } else if beta >= SCORE_BOUND {
        beta
    } else {
        SCORE_BOUND as int
    }
}

/// Largest `k` with `2^k <= n` (for `n >= 1`).
pub open spec fn log2_floor(n: nat) -> nat
    decreases n,
{
    if n <= 1 {
        0
    } else {
        1 + log2_floor(n / 2)
    }
}

/// Base-2 logarithm rounded down, of a number at least 1.
fn ilog2(n: i32) -> (r: i32)
    requires
        1 <= n <= 1024,
    ensures
        r == log2_floor(n as nat),
        0 <= r <= 10,
{
    proof {
        reveal_with_fuel(two_pow, 11);
        lemma_log2_bound(n as nat, 10, 1024);
    }
    let mut k: i32 = 0;
    let mut m = n;
    while m > 1
        invariant
            1 <= m <= n,
            0 <= k,
            k + log2_floor(m as nat) == log2_floor(n as nat),
            log2_floor(n as nat) <= 10,
        decreases m,
    {
        m = m / 2;
        k = k + 1;
    }
    k
}

/// `n <= p` with `p` the `j`-th power of two gives `log2_floor(n) <= j`.
proof fn lemma_log2_bound(n: nat, j: nat, p: nat)
    requires
        1 <= n <= p,
        p == two_pow(j),
    ensures
        log2_floor(n) <= j,
    decreases j,
{
    if n > 1 {
        if j == 0 {
            assert(p == 1);
        } else {
            lemma_log2_bound(n / 2, (j - 1) as nat, two_pow((j - 1) as nat));
        }
    }
}

/// `2^j`.
pub open spec fn two_pow(j: nat) -> nat
    decreases j,
{
    if j == 0 {
        1
    } else {
        2 * two_pow((j - 1) as nat)
    }
}

/// The captures the capture search tries in `s`: the capturing moves among
/// its legal moves, in their order, the first `MAX_CAPTURES` of them.
pub open spec fn capture_list(s: Snap) -> Seq<Move> {
    let f = legal_list(s).filter(takes_in(s));
    if f.len() <= MAX_CAPTURES {
        f
    } else {
        f.take(MAX_CAPTURES as int)
    }
}

/// Value of the capture search of `s`, `ply` plies from the root: the
/// evaluation at the last ply; without a legal move, a loss by mate; and
/// otherwise the better of the evaluation (standing pat) and the best of
/// the negated values after each capture of [`capture_list`].
///
/// The search stands pat before it looks for legal moves, so a position
/// without a legal move whose evaluation reaches the window's upper end
/// reports that evaluation. Such positions have two readings: the loss
/// (`hi == false`) and the better of the loss and the evaluation
/// (`hi == true`). Above them the readings alternate: a lower reading takes
/// the upper readings of the positions after each capture, and the other
/// way round, so that the two differ only through such positions.
pub open spec fn quiet_value(s: Snap, ply: int, hi: bool) -> int
    decreases MAX_PLY - ply, MAX_CAPTURES + 1,
{
    if ply >= MAX_PLY - 1 {
        side_eval(s)
    } else if legal_list(s).len() == 0 {
        if hi && side_eval(s) > -(MATE_SCORE - ply) {
            side_eval(s)
        } else {
            -(MATE_SCORE - ply)
        }
    } else {
        let caps = capture_list(s);
        let b = best_capture(s, caps, ply + 1, !hi);
        if caps.len() > 0 && b > side_eval(s) {
            b
        } else {
            side_eval(s)
        }
    }
}

/// Best of the negated capture-search values (reading `hi`), at `ply`, of
/// the states the moves `ms` reach from `s`.
pub open spec fn best_capture(s: Snap, ms: Seq<Move>, ply: int, hi: bool) -> int
    decreases MAX_PLY - ply + 1, ms.len(),
{
    if ply > MAX_PLY || ms.len() == 0 {
        0
    } else {
        let v = -quiet_value(step(s, ms.last()), ply, hi);
        if ms.len() == 1 {
            v
        } else {
            let rest = best_capture(s, ms.drop_last(), ply, hi);
            if rest >= v {
                rest
            } else {
                v
            }
        }
    }
}

/// The best of a non-empty list of captures is at least each capture's
/// value and is the value of one of them.
pub proof fn lemma_best_capture(s: Snap, ms: Seq<Move>, ply: int, hi: bool)
    requires
        ply <= MAX_PLY,
        ms.len() > 0,
    ensures
        forall|i: int| 0 <= i < ms.len() ==> best_capture(s, ms, ply, hi) >= -quiet_value(step(s, #[trigger] ms[i]), ply, hi),
        exists|i: int| 0 <= i < ms.len() && best_capture(s, ms, ply, hi) == -quiet_value(step(s, #[trigger] ms[i]), ply, hi),
    decreases ms.len(),
{
    if ms.len() > 1 {
        lemma_best_capture(s, ms.drop_last(), ply, hi);
        let k = choose|i: int| 0 <= i < ms.drop_last().len() && best_capture(s, ms.drop_last(), ply, hi) == -quiet_value(step(s, #[trigger] ms.drop_last()[i]), ply, hi);
        assert(ms[k] == ms.drop_last()[k]);
        assert forall|i: int| 0 <= i < ms.len() implies best_capture(s, ms, ply, hi) >= -quiet_value(step(s, #[trigger] ms[i]), ply, hi) by {
            if i < ms.len() - 1 {
                assert(ms[i] == ms.drop_last()[i]);
            }
        }
        if best_capture(s, ms, ply, hi) == -quiet_value(step(s, ms[ms.len() - 1]), ply, hi) {
        } else {
            assert(best_capture(s, ms, ply, hi) == -quiet_value(step(s, ms[k]), ply, hi));
        }
    } else {
        assert(best_capture(s, ms, ply, hi) == -quiet_value(step(s, ms[0]), ply, hi));
    }
}

/// Value of `s` searched `depth` plies deep, `ply` plies from the root,
/// over every legal move (the full-width search without table or
/// reductions): the evaluation at the last ply; when no depth is left, the
/// evaluation, or with a capture search (`q`) its value in reading `hi`; a
/// draw once the halfmove clock reaches 120; a loss without a legal move;
/// and otherwise the best of the negated values after each move, one ply
/// deeper when the side to move is in check. With a capture search the
/// readings alternate from ply to ply as in [`quiet_value`]; without one
/// there is a single reading.
pub open spec fn negamax(s: Snap, depth: int, ply: int, q: bool, hi: bool) -> int
    decreases MAX_PLY - ply, legal_list(s).len() + 1,
{
    if ply >= MAX_PLY - 1 {
        side_eval(s)
    } else if depth <= 0 {
        if q {
            quiet_value(s, ply, hi)
        } else {
            side_eval(s)
        }
    } else if s.2 >= 120 {
        0
    } else if legal_list(s).len() == 0 {
        -(MATE_SCORE - ply)
    } else {
        let d = if snap_in_check(s, s.1) {
            depth + 1
        } else {
            depth
        };
        best_of(s, legal_list(s), d - 1, ply + 1, q, q && !hi)
    }
}

/// Best of the negated values (reading `hi`), `depth` plies deep at `ply`,
/// of the states the moves `ms` reach from `s`.
pub open spec fn best_of(s: Snap, ms: Seq<Move>, depth: int, ply: int, q: bool, hi: bool) -> int
    decreases MAX_PLY - ply + 1, ms.len(),
{
    if ply > MAX_PLY || ms.len() == 0 {
        0
    } else {
        let v = -negamax(step(s, ms.last()), depth, ply, q, hi);
        if ms.len() == 1 {
            v
        } else {
            let rest = best_of(s, ms.drop_last(), depth, ply, q, hi);
            if rest >= v {
                rest
            } else {
                v
            }
        }
    }
}

/// The best of a non-empty list is at least each move's value and is the
/// value of one of them.
pub proof fn lemma_best_of(s: Snap, ms: Seq<Move>, depth: int, ply: int, q: bool, hi: bool)
    requires
        ply <= MAX_PLY,
        ms.len() > 0,
    ensures
        forall|i: int| 0 <= i < ms.len() ==> best_of(s, ms, depth, ply, q, hi) >= -negamax(step(s, #[trigger] ms[i]), depth, ply, q, hi),
        exists|i: int| 0 <= i < ms.len() && best_of(s, ms, depth, ply, q, hi) == -negamax(step(s, #[trigger] ms[i]), depth, ply, q, hi),
    decreases ms.len(),
{
    if ms.len() > 1 {
        lemma_best_of(s, ms.drop_last(), depth, ply, q, hi);
        let k = choose|i: int| 0 <= i < ms.drop_last().len() && best_of(s, ms.drop_last(), depth, ply, q, hi) == -negamax(step(s, #[trigger] ms.drop_last()[i]), depth, ply, q, hi);
        assert(ms[k] == ms.drop_last()[k]);
        assert forall|i: int| 0 <= i < ms.len() implies best_of(s, ms, depth, ply, q, hi) >= -negamax(step(s, #[trigger] ms[i]), depth, ply, q, hi) by {
            if i < ms.len() - 1 {
                assert(ms[i] == ms.drop_last()[i]);
            }
        }
        if best_of(s, ms, depth, ply, q, hi) == -negamax(step(s, ms[ms.len() - 1]), depth, ply, q, hi) {
        } else {
            assert(best_of(s, ms, depth, ply, q, hi) == -negamax(step(s, ms[k]), depth, ply, q, hi));
        }
    } else {
        assert(best_of(s, ms, depth, ply, q, hi) == -negamax(step(s, ms[0]), depth, ply, q, hi));
    }
}

/// Without a capture search the two readings of the search value agree.
pub proof fn law_plain_search_has_one_value(s: Snap, depth: int, ply: int)
    ensures
        negamax(s, depth, ply, false, false) == negamax(s, depth, ply, false, true),
{
}

/// Whether `r` reports a value read between `lo` and `hi` within the window
/// `(alpha, beta)`: between them inside it, at or above the lower reading
/// when at or below `alpha`, at or below the upper reading when at or above
/// `beta`. With one reading (`lo == hi`) the report is exact inside the
/// window and a bound outside it.
pub open spec fn brackets(r: int, lo: int, hi: int, alpha: int, beta: int) -> bool {
    &&& r <= alpha ==> lo <= r
    &&& r >= beta ==> hi >= r
    &&& alpha < r < beta ==> lo <= r <= hi
}

/// Value of the root `s` searched `depth` plies deep (reading `hi`): the
/// best of the negated values of its moves, each searched one ply less.
pub open spec fn root_value(s: Snap, depth: int, q: bool, hi: bool) -> int {
    best_of(s, legal_list(s), depth - 1, 1, q, q && !hi)
}

/// Whether a root score `r` reports the root value read between `lo` and
/// `hi`: between them when it lies strictly between `-INF` and `INF`, and at
/// or beyond either end only when the matching reading is too.
pub open spec fn root_reports(r: int, lo: int, hi: int) -> bool {
    &&& r <= -INF ==> lo <= -INF
    &&& r >= INF ==> hi >= INF
    &&& -INF < r < INF ==> lo <= r <= hi
}

/// Whether the scored root moves `rs` of a search of `s` to `depth`
/// (capture search `q`) report the root value with their first score, and,
/// when that score is below `INF`, each move's own value (lower reading) as
/// at most its score.
pub open spec fn root_scores_sound(s: Snap, depth: int, q: bool, rs: Seq<(Move, i32)>) -> bool {
    &&& rs.len() > 0 ==> root_reports(rs[0].1 as int, root_value(s, depth, q, false), root_value(s, depth, q, true))
    &&& rs.len() > 0 && rs[0].1 < INF ==> forall|i: int|
        0 <= i < rs.len() ==> -negamax(step(s, #[trigger] rs[i].0), depth - 1, 1, q, q) <= rs[i].1
}
/// After inserting a score into a sorted list, the first score is the
/// larger of the running best and the new score (or stays at or below
/// `-INF` while the best does).
proof fn lemma_insert_top(old_rs: Seq<(Move, i32)>, new_rs: Seq<(Move, i32)>, p: int, x: (Move, i32), alpha: int)
    requires
        sorted_desc(new_rs),
        0 <= p <= old_rs.len(),
        new_rs == old_rs.insert(p, x),
        -INF <= alpha,
        old_rs.len() > 0 ==> (alpha == -INF && old_rs[0].1 <= -INF) || old_rs[0].1 == alpha,
        old_rs.len() == 0 ==> alpha == -INF,
    ensures
        ({
            let a2 = if x.1 > alpha {
                x.1 as int
            } else {
                alpha
            };
            (a2 == -INF && new_rs[0].1 <= -INF) || new_rs[0].1 == a2
        }),
{
    assert(new_rs[p] == x);
    if p > 0 {
        assert(new_rs[0] == old_rs[0]);
        assert(new_rs[0].1 >= new_rs[p].1);
    } else if old_rs.len() > 0 {
        assert(new_rs[1] == old_rs[0]);
        assert(new_rs[0].1 >= new_rs[1].1);
    }
}

/// Whether `m` takes a piece in `s`.
pub open spec fn takes_in(s: Snap) -> spec_fn(Move) -> bool {
    |m: Move| s.0[mv_to(m) as int] != 0
}

/// Whether playing `m` in `s` leaves the side then to move without a legal
/// move, before the halfmove clock reaches the draw limit of the search.
pub open spec fn quick_mate(s: Snap, m: Move) -> bool {
    legal_list(step(s, m)).len() == 0 && step(s, m).2 < 120
}

/// Whether every scored root move of `rs` that mates at once scores a mate
/// in one, for a search of `s` to `depth` without the table.
pub open spec fn mates_scored(s: Snap, depth: int, limits: SearchLimits, rs: Seq<(Move, i32)>) -> bool {
    forall|i: int|
        0 <= i < rs.len() && depth >= 2 && !limits.use_tt && quick_mate(s, #[trigger] rs[i].0)
            ==> rs[i].1 == MATE_SCORE - 1
}

/// A search that completed an iteration of depth two or more without the
/// table scores a position with a mate in one at least as a mate in one,
/// and names a best move.
pub proof fn law_search_finds_mate_in_one(s: Snap, limits: SearchLimits, r: SearchResult, mv: Move)
    requires
        search_reports(s, limits, r),
        mates_scored(s, r.depth as int, limits, r.root_moves@),
        r.depth >= 2,
        !limits.use_tt,
        legal_list(s).contains(mv),
        quick_mate(s, mv),
    ensures
        r.score >= MATE_SCORE - 1,
        r.best_move is Some,
{
    broadcast use vstd::seq_lib::group_to_multiset_ensures;

    let ms = moves_of(r.root_moves@);
    assert(legal_list(s).to_multiset().count(mv) > 0);
    assert(ms.to_multiset().count(mv) > 0);
    assert(ms.contains(mv));
    let k = choose|k: int| 0 <= k < ms.len() && ms[k] == mv;
    assert(r.root_moves@[k].0 == mv);
    assert(r.root_moves@[k].1 == MATE_SCORE - 1);
    if k > 0 {
        assert(r.root_moves@[0].1 >= r.root_moves@[k].1);
    }
}

/// Room left in a line of `len` moves that may grow to `max_len` moves,
/// and to 16 at most.
pub open spec fn pv_room(len: int, max_len: int) -> nat {
    let cap = if max_len < 16 {
        max_len
    } else {
        16
    };
    if len < cap {
        (cap - len) as nat
    } else {
        0
    }
}

/// The static evaluation of `s` from the point of view of the side to move.
pub open spec fn side_eval(s: Snap) -> int {
    match s.1 {
        Color::Red => eval_spec(s.0),
        Color::Black => -eval_spec(s.0),
    }
}

/// Value of a captured piece for ordering captures (0 for an empty point).
pub open spec fn capture_value_of(piece: u8) -> int {
    match kind_of_code(piece) {
        Some(PieceKind::King) => 10_000,
        Some(PieceKind::Chariot) => 900,
        Some(PieceKind::Cannon) => 450,
        Some(PieceKind::Horse) => 400,
        Some(PieceKind::Advisor) => 200,
        Some(PieceKind::Elephant) => 200,
        Some(PieceKind::Pawn) => 100,
        None => 0,
    }
}

/// Value of a captured piece for ordering captures.
fn capture_value(piece: u8) -> (r: i32)
    ensures
        r == capture_value_of(piece),
        0 <= r <= 10_000,
{
    match kind_of(piece) {
        Some(PieceKind::King) => 10_000,
        Some(PieceKind::Chariot) => 900,
        Some(PieceKind::Cannon) => 450,
        Some(PieceKind::Horse) => 400,
        Some(PieceKind::Advisor) | Some(PieceKind::Elephant) => 200,
        Some(PieceKind::Pawn) => 100,
        None => 0,
    }
}

/// The search engine's state kept between searches.
pub struct Searcher {
    /// Transposition table.
    pub tt: TranspositionTable,
    history: History,
    killers: Vec<[Move; 2]>,
    nodes: u64,
    stopped: bool,
    node_limit: u64,
}

impl Searcher {
    /// Table, history and killer slots are consistent.
    pub closed spec fn wf(&self) -> bool {
        &&& self.tt.wf()
        &&& self.history.wf()
        &&& self.killers@.len() == MAX_PLY
    }

    /// The transposition table.
    pub closed spec fn table_state(&self) -> TranspositionTable {
        self.tt
    }

    /// The transposition table.
    pub fn table(&self) -> (r: &TranspositionTable)
        ensures
            *r == self.table_state(),
    {
        &self.tt
    }

    /// Nodes visited by the last search.
    pub closed spec fn node_count(&self) -> u64 {
        self.nodes
    }

    /// Whether the last search was interrupted.
    pub closed spec fn was_stopped(&self) -> bool {
        self.stopped
    }

    /// Node budget of the last search.
    pub closed spec fn node_budget(&self) -> u64 {
        self.node_limit
    }

    /// An interruption is owed to the node count reaching the budget or to
    /// a signal that may ask to stop; a search still running has counted
    /// fewer nodes than its budget (or none yet).
    pub closed spec fn stop_explained<S: StopSignal + ?Sized>(&self, stop: &S) -> bool {
        &&& self.stopped ==> self.nodes >= self.node_limit || !stop.never_stops()
        &&& !self.stopped ==> self.nodes < self.node_limit || self.nodes == 0
    }

    /// Whether the table holds no entry for state `s` (probed at `ply`).
    pub closed spec fn table_misses(&self, s: Snap, ply: int) -> bool {
        probe_spec(self.tt.slots()[self.tt.slot_of(snap_hash(s))], snap_hash(s), ply) is None
    }

    /// Empty killer slots.
    fn fresh_killers() -> (r: Vec<[Move; 2]>)
        ensures
            r@.len() == MAX_PLY,
    {
        let mut v: Vec<[Move; 2]> = Vec::new();
        let mut i: usize = 0;
        while i < MAX_PLY
            invariant
                i <= MAX_PLY,
                v@.len() == i,
            decreases MAX_PLY - i,
        {
            v.push([Move(0), Move(0)]);
            i += 1;
        }
        v
    }

    /// A searcher with a table of about `tt_mb` MiB.
    pub fn new(tt_mb: usize) -> (r: Searcher)
        requires
            tt_mb <= 4095,
        ensures
            r.wf(),
            r.node_count() == 0,
    {
        Searcher {
            tt: TranspositionTable::new(tt_mb),
            history: History::new(),
            killers: Self::fresh_killers(),
            nodes: 0,
            stopped: false,
            node_limit: u64::MAX,
        }
    }

    /// Forgets everything learnt (new game).
    pub fn reset(&mut self)
        requires
            old(self).wf(),
        ensures
            final(self).wf(),
            final(self).node_count() == 0,
    {
        proof {
            self.tt.lemma_wf_shape();
        }
        self.tt.clear();
        self.history.clear();
        self.killers = Self::fresh_killers();
        self.nodes = 0;
        self.stopped = false;
        self.node_limit = u64::MAX;
    }

    /// Nodes visited by the last search.
    pub fn nodes(&self) -> (r: u64)
        ensures
            r == self.node_count(),
    {
        self.nodes
    }

    /// Counts a node and decides whether to stop: at the node budget, or
    /// when the stop signal (asked every [`STOP_CHECK_INTERVAL`] nodes)
    /// says so.
    fn tick<S: StopSignal + ?Sized>(&mut self, stop: &S)
        requires
            old(self).wf(),
            !old(self).stopped,
        ensures
            final(self).wf(),
            final(self).tt == old(self).tt,
            final(self).nodes == old(self).nodes.wrapping_add(1),
            final(self).nodes >= final(self).node_limit ==> final(self).stopped,
            old(self).stopped ==> final(self).stopped,
            final(self).node_limit == old(self).node_limit,
            final(self).stopped ==> old(self).stopped || final(self).nodes >= final(self).node_limit
                || (final(self).nodes % STOP_CHECK_INTERVAL == 0 && !stop.never_stops()),
            old(self).stop_explained(stop) ==> final(self).stop_explained(stop),
    {
        self.nodes = self.nodes.wrapping_add(1);
        if self.nodes >= self.node_limit {
            self.stopped = true;
            return ;
        }
        if self.nodes % STOP_CHECK_INTERVAL == 0 && stop.should_stop() {
            self.stopped = true;
        }
    }

    /// Moves the best-valued capture from `i` on to `i` (and the one at `i`
    /// to where that was), returning where it was.
    fn select_capture(captures: &mut Vec<Move>, values: &mut Vec<i32>, i: usize) -> (b: usize)
        requires
            old(captures)@.len() == old(values)@.len(),
            i < old(captures)@.len(),
        ensures
            i <= b < old(captures)@.len(),
            forall|j: int| i <= j < old(values)@.len() ==> old(values)@[j] <= old(values)@[b as int],
            forall|j: int| i <= j < b ==> old(values)@[j] < old(values)@[b as int],
            final(captures)@ == old(captures)@.update(i as int, old(captures)@[b as int]).update(
                b as int,
                old(captures)@[i as int],
            ),
            final(values)@ == old(values)@.update(i as int, old(values)@[b as int]).update(
                b as int,
                old(values)@[i as int],
            ),
    {
        let count = values.len();
        let mut best = i;
        let mut j = i + 1;
        while j < count
            invariant
                i < count,
                i <= best < count,
                i + 1 <= j <= count,
                count == values@.len(),
                values@ == old(values)@,
                forall|k: int| i <= k < j ==> values@[k] <= values@[best as int],
                forall|k: int| i <= k < best ==> values@[k] < values@[best as int],
            decreases count - j,
        {
            if values[j] > values[best] {
                best = j;
            }
            j += 1;
        }
        let ci = captures[i];
        let cb = captures[best];
        let vi = values[i];
        let vb = values[best];
        captures.set(i, cb);
        captures.set(best, ci);
        values.set(i, vb);
        values.set(best, vi);
        best
    }

    /// Capture-only search at the leaves, with a stand-pat cut.
    #[verifier::rlimit(100)]
    #[verifier::spinoff_prover]
    fn quiescence<S: StopSignal + ?Sized>(
        &mut self,
        pos: &mut Position,
        alpha: i32,
        beta: i32,
        ply: usize,
        stop: &S,
    ) -> (r: i32)
        requires
            old(self).wf(),
            !old(self).stopped,
            old(self).stop_explained(stop),
            old(pos).wf(),
            1 <= ply < MAX_PLY,
            -WINDOW_BOUND <= alpha <= WINDOW_BOUND,
            -WINDOW_BOUND <= beta <= WINDOW_BOUND,
            old(pos).halfmove() + (MAX_PLY - ply) < 0xffff,
            old(pos).fullmove() + (MAX_PLY - ply) < 0xffff,
        ensures
            final(self).wf(),
            final(self).stop_explained(stop),
            final(self).node_limit == old(self).node_limit,
            final(pos).wf(),
            same_game(*final(pos), *old(pos)),
            old(self).stopped ==> final(self).stopped,
            floor_of(alpha as int) <= r <= ceiling_of(alpha as int, beta as int),
            final(self).stopped ==> r == 0,
            !final(self).stopped && ply >= MAX_PLY - 1 ==> r == side_eval(old(pos).snap()),
            !final(self).stopped && ply < MAX_PLY - 1 && side_eval(old(pos).snap()) >= beta ==> r
                == side_eval(old(pos).snap()),
            !final(self).stopped && ply < MAX_PLY - 1 && legal_list(old(pos).snap()).len() > 0 ==> r
                >= side_eval(old(pos).snap()),
            !final(self).stopped && ply < MAX_PLY - 1 && side_eval(old(pos).snap()) < beta && legal_list(
                old(pos).snap(),
            ).len() == 0 ==> r == -(MATE_SCORE - ply),
            !final(self).stopped && alpha < beta ==> brackets(
                r as int,
                quiet_value(old(pos).snap(), ply as int, false),
                quiet_value(old(pos).snap(), ply as int, true),
                alpha as int,
                beta as int,
            ),
        decreases MAX_PLY - ply,
    {
        let ghost alpha0 = alpha;
        let mut alpha = alpha;
        self.tick(stop);
        if self.stopped {
            return 0;
        }
        if ply >= MAX_PLY - 1 {
            return evaluate_side_to_move(pos);
        }
        let stand_pat = evaluate_side_to_move(pos);
        if stand_pat >= beta {
            return stand_pat;
        }
        if stand_pat > alpha {
            alpha = stand_pat;
        }
        let ghost alpha1 = alpha;
        let mut generated = MoveList::new();
        pos.gen_legal_into(&mut generated);
        if generated.is_empty() {
            return -(MATE_SCORE - ply as i32);
        }
        let ghost s = pos.snap();
        let ghost start = *pos;
        let mut captures: Vec<Move> = Vec::new();
        let mut values: Vec<i32> = Vec::new();
        let n = generated.len();
        let mut i: usize = 0;
        while i < n && captures.len() < MAX_CAPTURES
            invariant
                pos.wf(),
                s == pos.snap(),
                generated@ == legal_list(s),
                n == generated@.len(),
                i <= n,
                captures@.len() == values@.len(),
                captures@.len() <= MAX_CAPTURES,
                forall|k: int| 0 <= k < captures@.len() ==> legal_list(s).contains(#[trigger] captures@[k]),
                captures@ == legal_list(s).take(i as int).filter(takes_in(s)),
            decreases n - i,
        {
            let mv = generated.get(i);
            proof {
                assert(generated@[i as int] == mv);
                assert(legal_list(s).contains(mv));
                crate::position::law_legal_moves_are_safe(s, mv);
                crate::board::law_pseudo_moves_sound(s.0, s.1, 90);
                crate::board::lemma_sound_capped(s.0, s.1, crate::board::pseudo_moves(s.0, s.1));
                let ps = crate::mv::capped(crate::board::pseudo_moves(s.0, s.1));
                let k = choose|k: int| 0 <= k < ps.len() && ps[k] == mv;
                assert(crate::board::moves_sound(s.0, s.1, ps));
                assert(0 <= mv_to(ps[k]) < 90);
                crate::position::lemma_filter_take(legal_list(s), takes_in(s), i as int);
            }
            let target = pos.piece_at(mv.to());
            if target != 0 {
                captures.push(mv);
                values.push(capture_value(target));
            }
            i += 1;
        }
        proof {
            let l = legal_list(s);
            let p = takes_in(s);
            let f = l.filter(p);
            assert(l =~= l.take(i as int) + l.skip(i as int));
            Seq::filter_distributes_over_add(l.take(i as int), l.skip(i as int), p);
            assert(f =~= captures@ + l.skip(i as int).filter(p));
            l.skip(i as int).lemma_filter_len(p);
            if i == n {
                assert(l.skip(i as int).filter(p).len() == 0);
                assert(f =~= captures@);
            } else {
                assert(captures@.len() == MAX_CAPTURES);
                assert(f.take(MAX_CAPTURES as int) =~= captures@);
                if f.len() <= MAX_CAPTURES {
                    assert(f =~= captures@);
                }
            }
            assert(captures@ == capture_list(s));
        }
        let ghost caps0 = captures@;
        let ghost ec = alpha0 < beta;
        let ghost mut best_g: Move = Move(0);
        let count = captures.len();
        let mut i: usize = 0;
        let mut outcome: Option<i32> = None;
        while i < count && outcome.is_none()
            invariant
                self.wf(),
                self.stop_explained(stop),
                self.node_limit == old(self).node_limit,
                pos.wf(),
                same_game(*pos, start),
                start.wf(),
                s == start.snap(),
                outcome is None ==> !self.stopped,
                outcome matches Some(v) ==> floor_of(alpha0 as int) <= v <= ceiling_of(alpha0 as int, beta as int),
                outcome matches Some(v) ==> (self.stopped && v == 0) || (!self.stopped && v >= stand_pat),
                stand_pat == side_eval(s),
                stand_pat < beta,
                stand_pat <= alpha1,
                alpha1 > alpha0 ==> alpha1 == stand_pat,
                alpha0 <= alpha1,
                alpha1 <= alpha,
                1 <= ply < MAX_PLY - 1,
                start.halfmove() + (MAX_PLY - ply) < 0xffff,
                start.fullmove() + (MAX_PLY - ply) < 0xffff,
                count == captures@.len(),
                count == values@.len(),
                i <= count,
                -WINDOW_BOUND <= alpha0 <= WINDOW_BOUND,
                -WINDOW_BOUND <= beta <= WINDOW_BOUND,
                -SCORE_BOUND < beta,
                alpha0 <= alpha <= ceiling_of(alpha0 as int, beta as int),
                caps0 == capture_list(s),
                forall|k: int| 0 <= k < captures@.len() ==> caps0.contains(#[trigger] captures@[k]),
                forall|m: Move| caps0.contains(m) ==> #[trigger] captures@.contains(m),
                forall|m: Move| caps0.contains(m) ==> #[trigger] legal_list(s).contains(m),
                outcome matches Some(v) ==> (!self.stopped ==> v >= beta),
                ec == (alpha0 < beta),
                ec && outcome is None ==> alpha < beta,
                ec && outcome is None ==> forall|k: int|
                    0 <= k < i ==> -quiet_value(step(s, #[trigger] captures@[k]), ply + 1, true) <= alpha,
                ec && outcome is None && alpha > alpha1 ==> caps0.contains(best_g) && -quiet_value(
                    step(s, best_g),
                    ply + 1,
                    false,
                ) >= alpha,
                outcome matches Some(v) ==> (ec && !self.stopped ==> caps0.contains(best_g) && -quiet_value(
                    step(s, best_g),
                    ply + 1,
                    false,
                ) >= v),
            decreases count - i,
        {
            let ghost before_caps = captures@;
            let b = Self::select_capture(&mut captures, &mut values, i);
            let mv = captures[i];
            proof {
                assert(caps0.contains(before_caps[b as int]));
                assert(caps0.contains(before_caps[i as int]));
                assert forall|k: int| 0 <= k < captures@.len() implies caps0.contains(
                    #[trigger] captures@[k],
                ) by {
                    assert(caps0.contains(before_caps[k]));
                }
                assert forall|m: Move| caps0.contains(m) implies #[trigger] captures@.contains(m) by {
                    assert(before_caps.contains(m));
                    let j = choose|j: int| 0 <= j < before_caps.len() && before_caps[j] == m;
                    if j == i {
                        assert(captures@[b as int] == m);
                    } else if j == b {
                        assert(captures@[i as int] == m);
                    } else {
                        assert(captures@[j] == m);
                    }
                }
                assert forall|k: int| 0 <= k < i implies #[trigger] captures@[k] == before_caps[k] by {}
                assert(caps0.contains(mv));
                assert(legal_list(s).contains(mv));
                lemma_legal_move_ok(s, mv);
                lemma_step_ok(s, mv);
            }
            let ghost before = *pos;
            let ghost alpha_in = alpha;
            pos.make_move_unchecked(mv);
            let child = self.quiescence(pos, -beta, -alpha, ply + 1, stop);
            pos.unmake_move_unchecked();
            proof {
                assert(pos.stack() =~= before.stack());
                assert(pos.history_seq() =~= before.history_seq());
                assert(pos.past_states() =~= before.past_states());
            }
            let score = -child;
            if self.stopped {
                outcome = Some(0);
            } else if score >= beta {
                outcome = Some(score);
                proof {
                    best_g = mv;
                }
            } else if score > alpha {
                alpha = score;
                proof {
                    best_g = mv;
                }
            }
            i += 1;
        }
        proof {
            if ec && !self.stopped {
                let caps = capture_list(s);
                if caps.len() > 0 {
                    lemma_best_capture(s, caps, ply + 1, true);
                    lemma_best_capture(s, caps, ply + 1, false);
                    if outcome is None {
                        let j = choose|j: int| 0 <= j < caps.len() && best_capture(s, caps, ply + 1, true) == -quiet_value(step(s, #[trigger] caps[j]), ply + 1, true);
                        assert(caps.contains(caps[j]));
                        assert(captures@.contains(caps[j]));
                        let k = choose|k: int| 0 <= k < captures@.len() && captures@[k] == caps[j];
                        assert(-quiet_value(step(s, captures@[k]), ply + 1, true) <= alpha);
                    }
                    if outcome is Some || alpha > alpha1 {
                        let j = choose|j: int| 0 <= j < caps.len() && caps[j] == best_g;
                        assert(best_capture(s, caps, ply + 1, false) >= -quiet_value(step(s, caps[j]), ply + 1, false));
                    }
                }
            }
        }
        match outcome {
            Some(v) => v,
            None => alpha,
        }
    }

    /// Principal-variation search of `pos` to `depth` inside the window
    /// `(alpha, beta)`, `ply` plies from the root.
    #[verifier::rlimit(100)]
    #[verifier::spinoff_prover]
    fn pvs<S: StopSignal + ?Sized>(
        &mut self,
        pos: &mut Position,
        depth: i32,
        alpha: i32,
        beta: i32,
        ply: usize,
        limits: &SearchLimits,
        stop: &S,
    ) -> (r: i32)
        requires
            old(self).wf(),
            !old(self).stopped,
            old(self).stop_explained(stop),
            old(pos).wf(),
            1 <= ply < MAX_PLY,
            -1000 <= depth <= 100,
            -WINDOW_BOUND <= alpha <= WINDOW_BOUND,
            -WINDOW_BOUND <= beta <= WINDOW_BOUND,
            old(pos).halfmove() + (MAX_PLY - ply) < 0xffff,
            old(pos).fullmove() + (MAX_PLY - ply) < 0xffff,
        ensures
            final(self).wf(),
            final(self).stop_explained(stop),
            final(self).node_limit == old(self).node_limit,
            final(pos).wf(),
            same_game(*final(pos), *old(pos)),
            old(self).stopped ==> final(self).stopped,
            floor_of(alpha as int) <= r <= ceiling_of(alpha as int, beta as int),
            final(self).stopped ==> r == 0,
            !final(self).stopped && ply >= MAX_PLY - 1 ==> r == side_eval(old(pos).snap()),
            !final(self).stopped && ply < MAX_PLY - 1 && depth <= 0 && !limits.use_quiescence ==> r
                == side_eval(old(pos).snap()),
            !final(self).stopped && ply < MAX_PLY - 1 && depth > 0 && old(pos).halfmove() >= 120 ==> r
                == 0,
            !final(self).stopped && ply < MAX_PLY - 1 && depth > 0 && old(pos).halfmove() < 120 && (
            !limits.use_tt || old(self).table_misses(old(pos).snap(), ply as int))
                && legal_list(old(pos).snap()).len() == 0 ==> r == -(MATE_SCORE - ply),
            !final(self).stopped && ply + 2 == MAX_PLY && depth > 0 && old(pos).halfmove() < 120 && (
            !limits.use_tt || old(self).table_misses(old(pos).snap(), ply as int)) ==> forall|m: Move|
                legal_list(old(pos).snap()).contains(m) ==> r >= -side_eval(
                    #[trigger] step(old(pos).snap(), m),
                ) || r >= beta,
            !final(self).stopped && depth >= 2 && ply + 2 < MAX_PLY && old(pos).halfmove() < 120
                && !limits.use_tt && (exists|m: Move|
                legal_list(old(pos).snap()).contains(m) && #[trigger] quick_mate(old(pos).snap(), m))
                ==> r >= MATE_SCORE - (ply + 1) || r >= beta,
            !final(self).stopped && !limits.use_tt && depth < 3 && alpha < beta ==> brackets(
                r as int,
                negamax(old(pos).snap(), depth as int, ply as int, limits.use_quiescence, false),
                negamax(old(pos).snap(), depth as int, ply as int, limits.use_quiescence, true),
                alpha as int,
                beta as int,
            ),
            !final(self).stopped && !limits.use_tt && depth == 3 && !snap_in_check(
                old(pos).snap(),
                old(pos).snap().1,
            ) && alpha < beta && r > alpha ==> r <= negamax(
                old(pos).snap(),
                3,
                ply as int,
                limits.use_quiescence,
                true,
            ),
        decreases MAX_PLY - ply,
    {
        let ghost alpha0 = alpha;
        let mut alpha = alpha;
        self.tick(stop);
        if self.stopped {
            return 0;
        }
        if ply >= MAX_PLY - 1 {
            return evaluate_side_to_move(pos);
        }
        if depth <= 0 {
            return if limits.use_quiescence {
                self.quiescence(pos, alpha, beta, ply, stop)
            } else {
                evaluate_side_to_move(pos)
            };
        }
        if pos.halfmove_clock() >= 120 {
            return 0;
        }
        let in_check = pos.is_in_check(pos.side_to_move());
        let original_depth = depth;
        let depth = if in_check {
            depth + 1
        } else {
            depth
        };
        let hash = pos.hash();
        let mut tt_move: Option<Move> = None;
        if limits.use_tt {
            if let Some(hit) = self.tt.probe(hash, ply as i32) {
                tt_move = hit.best;
                if hit.depth >= original_depth as i8 {
                    let usable = if hit.flag == FLAG_EXACT {
                        true
                    } else if hit.flag == FLAG_LOWER {
                        hit.score >= beta
                    } else if hit.flag == FLAG_UPPER {
                        hit.score <= alpha
                    } else {
                        false
                    };
                    if usable {
                        return hit.score;
                    }
                }
            }
        }
        let killers = self.killers[ply];
        let mut picker = MovePicker::new(pos, tt_move, &killers, &self.history);
        if picker.is_empty() {
            return -(MATE_SCORE - ply as i32);
        }
        let ghost s = pos.snap();
        let ghost start = *pos;
        proof {
            crate::position::lemma_legal_list_len(s);
        }
        let original_alpha = alpha;
        let ghost mate_cond = original_depth >= 2 && !limits.use_tt && ply + 2 < MAX_PLY;
        let ghost horizon_cond = ply + 2 == MAX_PLY;
        let ghost exact_cond = !limits.use_tt && original_depth < 3 && alpha0 < beta;
        let ghost q = limits.use_quiescence;
        let ghost wit_cond = !limits.use_tt && alpha0 < beta && (original_depth < 3 || (original_depth == 3
            && !in_check));
        let ghost mut best_g: Move = Move(0);
        let mut best_move: Option<Move> = None;
        let mut first = true;
        let mut move_index: i32 = 0;
        let mut cut = false;
        let mut halted = false;
        while !cut && !halted && picker.remaining() > 0
            invariant
                self.wf(),
                self.stop_explained(stop),
                self.node_limit == old(self).node_limit,
                pos.wf(),
                same_game(*pos, start),
                start.wf(),
                s == start.snap(),
                !halted ==> !self.stopped,
                1 <= ply < MAX_PLY - 1,
                1 <= original_depth <= 100,
                original_depth <= depth <= original_depth + 1,
                in_check ==> depth == original_depth + 1,
                !in_check ==> depth == original_depth,
                start.halfmove() + (MAX_PLY - ply) < 0xffff,
                start.fullmove() + (MAX_PLY - ply) < 0xffff,
                picker.wf(),
                picker.moves().len() <= crate::mv::MAX_MOVES,
                move_index == picker.cursor(),
                forall|k: int|
                    0 <= k < picker.moves().len() ==> legal_list(s).contains(
                        #[trigger] picker.moves()[k],
                    ),
                -WINDOW_BOUND <= alpha0 <= WINDOW_BOUND,
                -WINDOW_BOUND <= beta <= WINDOW_BOUND,
                original_alpha == alpha0,
                alpha0 <= alpha <= ceiling_of(alpha0 as int, beta as int),
                first ==> alpha == alpha0 && move_index == 0,
                !first && !cut && !halted ==> alpha < beta,
                cut ==> alpha >= beta,
                picker.moves().to_multiset() == legal_list(s).to_multiset(),
                mate_cond == (original_depth >= 2 && !limits.use_tt && ply + 2 < MAX_PLY),
                halted ==> self.stopped,
                mate_cond && !halted ==> forall|k: int|
                    0 <= k < picker.cursor() && quick_mate(s, #[trigger] picker.moves()[k]) ==> alpha
                        >= MATE_SCORE - (ply + 1) || alpha >= beta,
                horizon_cond == (ply + 2 == MAX_PLY),
                exact_cond == (!limits.use_tt && original_depth < 3 && alpha0 < beta),
                q == limits.use_quiescence,
                exact_cond && !halted && !cut ==> forall|k: int|
                    0 <= k < picker.cursor() ==> -negamax(step(s, #[trigger] picker.moves()[k]), depth - 1, ply + 1, q, q)
                        <= alpha,
                wit_cond == (!limits.use_tt && alpha0 < beta && (original_depth < 3 || (original_depth == 3
                    && !in_check))),
                wit_cond && !halted && (alpha > alpha0 || cut) ==> legal_list(s).contains(best_g) && -negamax(
                    step(s, best_g),
                    depth - 1,
                    ply + 1,
                    q,
                    false,
                ) >= alpha,
                horizon_cond && !halted ==> forall|k: int|
                    0 <= k < picker.cursor() ==> alpha >= -side_eval(step(s, #[trigger] picker.moves()[k]))
                        || alpha >= beta,
            ensures
                !cut && !halted ==> picker.cursor() == picker.moves().len(),
            decreases picker.moves().len() - picker.cursor(),
        {
            let ghost before_pick = picker.moves();
            let ghost before_scores = picker.scores();
            let ghost c0 = picker.cursor();
            proof {
                picker.lemma_wf();
            }
            proof {
                crate::ai::ordering::law_pick_is_a_best_swap(before_pick, before_scores, c0);
                crate::ai::ordering::lemma_best_from(before_scores, c0, before_pick.len() as int);
            }
            let mv = match picker.pick() {
                Some(m) => m,
                None => {
                    break;
                },
            };
            proof {
                let b = crate::ai::ordering::best_from(before_scores, c0, before_pick.len() as int);
                crate::ai::ordering::lemma_best_from(before_scores, c0, before_pick.len() as int);
                assert(legal_list(s).contains(before_pick[b]));
                assert(legal_list(s).contains(before_pick[c0]));
                assert forall|k: int| 0 <= k < picker.moves().len() implies legal_list(s).contains(
                    #[trigger] picker.moves()[k],
                ) by {
                    assert(legal_list(s).contains(before_pick[k]));
                }
                lemma_legal_move_ok(s, mv);
                lemma_step_ok(s, mv);
            }
            let is_capture = pos.piece_at(mv.to()) != 0;
            let ghost before = *pos;
            let ghost alpha_before = alpha;
            let ghost cv_lo = -negamax(step(s, mv), depth - 1, ply + 1, q, q);
            let ghost cv_hi = -negamax(step(s, mv), depth - 1, ply + 1, q, false);
            pos.make_move_unchecked(mv);
            let score = if first {
                first = false;
                -self.pvs(pos, depth - 1, -beta, -alpha, ply + 1, limits, stop)
            } else {
                let mut reduction: i32 = 0;
                if original_depth >= 3 && move_index >= 3 && !is_capture && !in_check {
                    let lg = ilog2(move_index);
                    reduction = if lg - 1 > 0 {
                        lg - 1
                    } else {
                        0
                    };
                    if reduction > depth - 2 {
                        reduction = depth - 2;
                    }
                    if reduction < 0 {
                        reduction = 0;
                    }
                }
                let mut sc = -self.pvs(
                    pos,
                    depth - 1 - reduction,
                    -alpha - 1,
                    -alpha,
                    ply + 1,
                    limits,
                    stop,
                );
                if reduction > 0 && !self.stopped && sc > alpha {
                    sc = -self.pvs(pos, depth - 1, -alpha - 1, -alpha, ply + 1, limits, stop);
                }
                if !self.stopped && sc > alpha && sc < beta {
                    sc = -self.pvs(pos, depth - 1, -beta, -alpha, ply + 1, limits, stop);
                }
                sc
            };
            pos.unmake_move_unchecked();
            proof {
                assert(pos.stack() =~= before.stack());
                assert(pos.history_seq() =~= before.history_seq());
                assert(pos.past_states() =~= before.past_states());
            }
            proof {
                assert forall|k: int|
                    0 <= k < c0 implies #[trigger] picker.moves()[k] == before_pick[k] by {}
                assert(picker.moves()[c0] == mv);
                if exact_cond && !self.stopped {
                    if !q {
                        law_plain_search_has_one_value(step(s, mv), depth - 1, ply + 1);
                    }
                    assert(score >= beta ==> cv_hi >= score);
                    assert(score <= alpha_before ==> cv_lo <= score);
                    assert(alpha_before < score < beta ==> cv_lo <= score <= cv_hi);
                }
                if wit_cond && !self.stopped {
                    assert(score >= beta ==> cv_hi >= score);
                    assert(alpha_before < score < beta ==> score <= cv_hi);
                }
            }
            move_index = move_index + 1;
            if self.stopped {
                halted = true;
            } else {
                if score > alpha {
                    alpha = score;
                    best_move = Some(mv);
                    proof {
                        best_g = mv;
                    }
                }
                if alpha >= beta {
                    if !is_capture {
                        let slot = self.killers[ply];
                        if slot[0] != mv {
                            self.killers.set(ply, [mv, slot[0]]);
                        }
                        self.history.bump(mv.from(), mv.to(), original_depth);
                    }
                    cut = true;
                }
            }
        }
        if halted {
            return 0;
        }
        proof {
            if exact_cond {
                broadcast use vstd::seq_lib::group_to_multiset_ensures;

                picker.lemma_wf();
                let l = legal_list(s);
                assert(l.len() > 0);
                lemma_best_of(s, l, depth - 1, ply + 1, q, q);
                lemma_best_of(s, l, depth - 1, ply + 1, q, false);
                let lo = negamax(s, original_depth as int, ply as int, q, false);
                let hi = negamax(s, original_depth as int, ply as int, q, true);
                assert(lo == best_of(s, l, depth - 1, ply + 1, q, q));
                assert(hi == best_of(s, l, depth - 1, ply + 1, q, false));
                if !cut {
                    let i = choose|i: int| 0 <= i < l.len() && best_of(s, l, depth - 1, ply + 1, q, q) == -negamax(step(s, #[trigger] l[i]), depth - 1, ply + 1, q, q);
                    let m = l[i];
                    assert(l.contains(m));
                    assert(l.to_multiset().count(m) > 0);
                    assert(picker.moves().to_multiset().count(m) > 0);
                    assert(picker.moves().contains(m));
                    let k = choose|k: int| 0 <= k < picker.moves().len() && picker.moves()[k] == m;
                    assert(-negamax(step(s, picker.moves()[k]), depth - 1, ply + 1, q, q) <= alpha);
                }
                if alpha > alpha0 || cut {
                    let j = choose|j: int| 0 <= j < l.len() && l[j] == best_g;
                    assert(hi >= -negamax(step(s, l[j]), depth - 1, ply + 1, q, false));
                }
            }
            if wit_cond && !exact_cond && (alpha > alpha0 || cut) {
                let l = legal_list(s);
                lemma_best_of(s, l, depth - 1, ply + 1, q, false);
                let j = choose|j: int| 0 <= j < l.len() && l[j] == best_g;
                assert(negamax(s, 3, ply as int, q, true) >= -negamax(step(s, l[j]), depth - 1, ply + 1, q, false));
            }
            if horizon_cond && !cut {
                broadcast use vstd::seq_lib::group_to_multiset_ensures;

                picker.lemma_wf();
                assert forall|m: Move| legal_list(s).contains(m) implies alpha >= -side_eval(
                    #[trigger] step(s, m),
                ) || alpha >= beta by {
                    assert(legal_list(s).to_multiset().count(m) > 0);
                    assert(picker.moves().to_multiset().count(m) > 0);
                    assert(picker.moves().contains(m));
                    let k = choose|k: int| 0 <= k < picker.moves().len() && picker.moves()[k] == m;
                    assert(alpha >= -side_eval(step(s, picker.moves()[k])) || alpha >= beta);
                }
            }
            if mate_cond && !cut && (exists|m: Move|
                legal_list(s).contains(m) && #[trigger] quick_mate(s, m)) {
                broadcast use vstd::seq_lib::group_to_multiset_ensures;

                let m = choose|m: Move| legal_list(s).contains(m) && #[trigger] quick_mate(s, m);
                assert(legal_list(s).to_multiset().count(m) > 0);
                assert(picker.moves().to_multiset().count(m) > 0);
                assert(picker.moves().contains(m));
                picker.lemma_wf();
                let k = choose|k: int| 0 <= k < picker.moves().len() && picker.moves()[k] == m;
                assert(quick_mate(s, picker.moves()[k]));
            }
        }
        let flag = if alpha >= beta {
            FLAG_LOWER
        } else if alpha > original_alpha {
            FLAG_EXACT
        } else {
            FLAG_UPPER
        };
        if limits.use_tt && -32767 < alpha && alpha < 32767 {
            self.tt.store(hash, original_depth as i8, alpha, flag, best_move, ply as i32);
        }
        alpha
    }

    /// Plays root move `mv` and scores it: the first move with the full
    /// window, later ones with a null window above `alpha` first and the full
    /// window again only when that finds an improvement.
    fn score_root_move<S: StopSignal + ?Sized>(
        &mut self,
        pos: &mut Position,
        mv: Move,
        first: bool,
        alpha: i32,
        depth: usize,
        limits: &SearchLimits,
        stop: &S,
    ) -> (r: i32)
        requires
            old(self).wf(),
            !old(self).stopped,
            old(self).stop_explained(stop),
            old(pos).wf(),
            legal_list(old(pos).snap()).contains(mv),
            1 <= depth < MAX_PLY,
            old(pos).halfmove() + MAX_PLY < 0xffff,
            old(pos).fullmove() + MAX_PLY < 0xffff,
            -INF <= alpha <= SCORE_BOUND + crate::mv::MAX_MOVES,
            first ==> alpha == -INF,
        ensures
            final(self).wf(),
            final(self).stop_explained(stop),
            final(self).node_limit == old(self).node_limit,
            final(pos).wf(),
            same_game(*final(pos), *old(pos)),
            old(self).stopped ==> final(self).stopped,
            -SCORE_BOUND <= r <= (if alpha >= SCORE_BOUND {
                alpha + 1
            } else {
                SCORE_BOUND as int
            }),
            final(self).stopped ==> r == 0,
            !final(self).stopped && depth == 1 && !limits.use_quiescence ==> r == -side_eval(
                step(old(pos).snap(), mv),
            ),
            !final(self).stopped && depth >= 2 && !limits.use_tt && quick_mate(old(pos).snap(), mv)
                ==> r == MATE_SCORE - 1,
            !final(self).stopped && !limits.use_tt && depth <= 3 && alpha < INF ==> brackets(
                r as int,
                -negamax(step(old(pos).snap(), mv), depth - 1, 1, limits.use_quiescence, limits.use_quiescence),
                -negamax(step(old(pos).snap(), mv), depth - 1, 1, limits.use_quiescence, false),
                alpha as int,
                INF as int,
            ),
    {
        let ghost s = pos.snap();
        proof {
            lemma_legal_move_ok(s, mv);
            lemma_step_ok(s, mv);
        }
        let ghost before = *pos;
        let beta = INF;
        pos.make_move_unchecked(mv);
        let d = depth as i32 - 1;
        let score = if first {
            -self.pvs(pos, d, -beta, -alpha, 1, limits, stop)
        } else {
            let probe = -self.pvs(pos, d, -alpha - 1, -alpha, 1, limits, stop);
            if !self.stopped && probe > alpha {
                -self.pvs(pos, d, -beta, -alpha, 1, limits, stop)
            } else {
                probe
            }
        };
        pos.unmake_move_unchecked();
        proof {
            assert(pos.stack() =~= before.stack());
            assert(pos.history_seq() =~= before.history_seq());
            assert(pos.past_states() =~= before.past_states());
            if !limits.use_quiescence {
                law_plain_search_has_one_value(step(s, mv), depth - 1, 1);
            }
        }
        score
    }

    /// Inserts `(mv, score)` into `rs` after every entry scoring at least
    /// `score`, returning where it went.
    fn insert_scored(rs: &mut Vec<(Move, i32)>, mv: Move, score: i32) -> (p: usize)
        requires
            sorted_desc(old(rs)@),
        ensures
            p <= old(rs)@.len(),
            final(rs)@ == old(rs)@.insert(p as int, (mv, score)),
            sorted_desc(final(rs)@),
            moves_of(final(rs)@).to_multiset() == moves_of(old(rs)@).to_multiset().insert(mv),
    {
        let ghost before = rs@;
        let mut p: usize = 0;
        while p < rs.len() && rs[p].1 >= score
            invariant
                p <= rs@.len(),
                forall|q: int| 0 <= q < p ==> #[trigger] rs@[q].1 >= score,
            decreases rs@.len() - p,
        {
            p += 1;
        }
        rs.insert(p, (mv, score));
        proof {
            assert(moves_of(rs@) =~= moves_of(before).insert(p as int, mv));
            vstd::seq_lib::to_multiset_insert(moves_of(before), p as int, mv);
            assert forall|i: int, j: int| 0 <= i < j < rs@.len() implies #[trigger] rs@[i].1
                >= #[trigger] rs@[j].1 by {
                if p < before.len() {
                    assert(before[p as int].1 < score);
                }
                if i < p && j > p {
                    assert(before[i].1 >= score);
                }
                if i > p {
                    assert(before[i - 1].1 >= before[j - 1].1);
                }
                if i == p && j > p {
                    assert(before[p as int].1 >= before[j - 1].1);
                }
                if i < p && j < p {
                    assert(before[i].1 >= before[j].1);
                }
                if i < p && j == p {
                    assert(before[i].1 >= score);
                }
            }
        }
        p
    }

    /// Searches every root move to `depth`, returning the best score and all
    /// root moves with their scores, best first (ties in search order).
    /// Without legal moves: `-MATE_SCORE` and no moves, with nothing searched.
    #[verifier::rlimit(100)]
    #[verifier::spinoff_prover]
    fn search_root<S: StopSignal + ?Sized>(
        &mut self,
        pos: &mut Position,
        depth: usize,
        limits: &SearchLimits,
        stop: &S,
    ) -> (r: (i32, Vec<(Move, i32)>))
        requires
            old(self).wf(),
            !old(self).stopped,
            old(self).stop_explained(stop),
            old(pos).wf(),
            1 <= depth < MAX_PLY,
            old(pos).halfmove() + MAX_PLY < 0xffff,
            old(pos).fullmove() + MAX_PLY < 0xffff,
        ensures
            final(self).wf(),
            final(self).stop_explained(stop),
            final(self).node_limit == old(self).node_limit,
            final(pos).wf(),
            same_game(*final(pos), *old(pos)),
            old(self).stopped ==> final(self).stopped,
            sorted_desc(r.1@),
            all_legal(old(pos).snap(), r.1@),
            !final(self).stopped ==> moves_of(r.1@).to_multiset() == legal_list(
                old(pos).snap(),
            ).to_multiset(),
            r.1@.len() == 0 ==> r.0 == -MATE_SCORE,
            r.1@.len() > 0 ==> r.0 == r.1@[0].1,
            forall|i: int|
                0 <= i < r.1@.len() ==> -SCORE_BOUND <= #[trigger] r.1@[i].1 <= SCORE_BOUND
                    + crate::mv::MAX_MOVES,
            legal_list(old(pos).snap()).len() == 0 ==> r.1@.len() == 0 && *final(self) == *old(
                self,
            ),
            mates_scored(old(pos).snap(), depth as int, *limits, r.1@),
            !final(self).stopped && !limits.use_tt && depth <= 3 ==> root_scores_sound(
                old(pos).snap(),
                depth as int,
                limits.use_quiescence,
                r.1@,
            ),
    {
        let tt_move = if limits.use_tt {
            self.tt.probe_move(pos.hash())
        } else {
            None
        };
        let killers = self.killers[0];
        let mut picker = MovePicker::new(pos, tt_move, &killers, &self.history);
        let ghost s = pos.snap();
        let ghost start = *pos;
        if picker.is_empty() {
            let empty: Vec<(Move, i32)> = Vec::new();
            proof {
                assert(legal_list(s) =~= Seq::<Move>::empty());
                assert(moves_of(empty@) =~= Seq::<Move>::empty());
            }
            return (-MATE_SCORE, empty);
        }
        proof {
            crate::position::lemma_legal_list_len(s);
            assert forall|k: int| 0 <= k < picker.moves().len() implies legal_list(s).contains(
                #[trigger] picker.moves()[k],
            ) by {}
        }
        let mut root: Vec<Move> = Vec::new();
        while picker.remaining() > 0
            invariant
                picker.wf(),
                root@ == picker.moves().take(picker.cursor()),
                picker.moves().to_multiset() == legal_list(s).to_multiset(),
                picker.moves().len() == legal_list(s).len(),
                forall|k: int|
                    0 <= k < picker.moves().len() ==> legal_list(s).contains(
                        #[trigger] picker.moves()[k],
                    ),
            decreases picker.moves().len() - picker.cursor(),
        {
            let ghost before_pick = picker.moves();
            let ghost before_scores = picker.scores();
            let ghost c0 = picker.cursor();
            proof {
                picker.lemma_wf();
                crate::ai::ordering::law_pick_is_a_best_swap(before_pick, before_scores, c0);
            }
            match picker.pick() {
                Some(mv) => {
                    root.push(mv);
                },
                None => {},
            }
            proof {
                let b = crate::ai::ordering::best_from(before_scores, c0, before_pick.len() as int);
                crate::ai::ordering::lemma_best_from(before_scores, c0, before_pick.len() as int);
                assert(legal_list(s).contains(before_pick[b]));
                assert(legal_list(s).contains(before_pick[c0]));
                assert forall|k: int| 0 <= k < picker.moves().len() implies legal_list(s).contains(
                    #[trigger] picker.moves()[k],
                ) by {
                    assert(legal_list(s).contains(before_pick[k]));
                }
                assert(root@ =~= picker.moves().take(picker.cursor()));
            }
        }
        proof {
            picker.lemma_wf();
            assert(root@ =~= picker.moves());
        }
        let n = root.len();
        let mut scored: Vec<(Move, i32)> = Vec::new();
        let mut alpha: i32 = -INF;
        let mut index: usize = 0;
        let ghost exact = !limits.use_tt && depth <= 3;
        let ghost q = limits.use_quiescence;
        let ghost mut best_g: Move = Move(0);
        proof {
            assert(moves_of(scored@) =~= root@.take(0));
        }
        while index < n
            invariant
                self.wf(),
                self.stop_explained(stop),
                self.node_limit == old(self).node_limit,
                pos.wf(),
                same_game(*pos, start),
                start.wf(),
                s == start.snap(),
                1 <= depth < MAX_PLY,
                start.halfmove() + MAX_PLY < 0xffff,
                start.fullmove() + MAX_PLY < 0xffff,
                n == root@.len(),
                n <= crate::mv::MAX_MOVES,
                root@.to_multiset() == legal_list(s).to_multiset(),
                forall|k: int| 0 <= k < n ==> legal_list(s).contains(#[trigger] root@[k]),
                index <= n,
                scored@.len() == index,
                moves_of(scored@).to_multiset() == root@.take(index as int).to_multiset(),
                sorted_desc(scored@),
                all_legal(s, scored@),
                -INF <= alpha <= SCORE_BOUND + index,
                index == 0 ==> alpha == -INF,
                forall|i: int|
                    0 <= i < scored@.len() ==> -SCORE_BOUND <= #[trigger] scored@[i].1
                        <= SCORE_BOUND + index,
                mates_scored(s, depth as int, *limits, scored@),
                old(self).stopped ==> self.stopped,
                exact == (!limits.use_tt && depth <= 3),
                q == limits.use_quiescence,
                exact && alpha < INF ==> forall|k: int|
                    0 <= k < index ==> -negamax(step(s, #[trigger] root@[k]), depth - 1, 1, q, q) <= alpha,
                exact && alpha < INF ==> forall|k: int|
                    0 <= k < scored@.len() ==> -negamax(step(s, #[trigger] scored@[k].0), depth - 1, 1, q, q) <= scored@[k].1,
                exact && alpha > -INF ==> legal_list(s).contains(best_g) && -negamax(step(s, best_g), depth - 1, 1, q, false)
                    >= (if alpha < INF { alpha as int } else { INF as int }),
                scored@.len() > 0 ==> (alpha == -INF && scored@[0].1 <= -INF) || scored@[0].1 == alpha,
            ensures
                self.stopped || index == n,
            decreases n - index,
        {
            if self.stopped {
                break;
            }
            let mv = root[index];
            proof {
                assert(legal_list(s).contains(root@[index as int]));
            }
            let score = self.score_root_move(pos, mv, index == 0, alpha, depth, limits, stop);
            if self.stopped {
                break;
            }
            let ghost old_scored = scored@;
            let p = Self::insert_scored(&mut scored, mv, score);
            proof {
                assert(root@.take(index as int + 1) =~= root@.take(index as int).push(mv));
                vstd::seq_lib::to_multiset_build(root@.take(index as int), mv);
                assert forall|i: int| 0 <= i < scored@.len() implies legal_list(s).contains(
                    #[trigger] scored@[i].0,
                ) by {
                    if i < p {
                        assert(legal_list(s).contains(old_scored[i].0));
                    } else if i > p {
                        assert(legal_list(s).contains(old_scored[i - 1].0));
                    }
                }
                assert forall|i: int|
                    0 <= i < scored@.len() && depth >= 2 && !limits.use_tt && quick_mate(s, #[trigger] scored@[i].0)
                    implies scored@[i].1 == MATE_SCORE - 1 by {
                    if i < p {
                        assert(old_scored[i] == scored@[i]);
                    } else if i > p {
                        assert(old_scored[i - 1] == scored@[i]);
                    }
                }
                assert forall|i: int| 0 <= i < scored@.len() implies -SCORE_BOUND
                    <= #[trigger] scored@[i].1 <= SCORE_BOUND + index + 1 by {
                    if i < p {
                        assert(-SCORE_BOUND <= old_scored[i].1 <= SCORE_BOUND + index);
                    } else if i > p {
                        assert(-SCORE_BOUND <= old_scored[i - 1].1 <= SCORE_BOUND + index);
                    }
                }
            }
            proof {
                lemma_insert_top(old_scored, scored@, p as int, (mv, score), alpha as int);
                if exact && (if score > alpha { score } else { alpha }) < INF {
                    assert forall|k: int| 0 <= k < scored@.len() implies -negamax(
                        step(s, #[trigger] scored@[k].0),
                        depth - 1,
                        1,
                        q,
                        q,
                    ) <= scored@[k].1 by {
                        if k < p {
                            assert(old_scored[k] == scored@[k]);
                        } else if k > p {
                            assert(old_scored[k - 1] == scored@[k]);
                        }
                    }
                }
            }
            if score > alpha {
                proof {
                    if alpha < INF {
                        best_g = mv;
                    }
                }
                alpha = score;
            }
            index += 1;
        }
        proof {
            if !self.stopped {
                assert(root@.take(n as int) =~= root@);
            }
            if !self.stopped && exact && scored@.len() > 0 {
                broadcast use vstd::seq_lib::group_to_multiset_ensures;

                let l = legal_list(s);
                assert(l.len() > 0) by {
                    vstd::seq_lib::to_multiset_len(moves_of(scored@));
                    vstd::seq_lib::to_multiset_len(l);
                }
                lemma_best_of(s, l, depth - 1, 1, q, q);
                lemma_best_of(s, l, depth - 1, 1, q, false);
                if alpha < INF {
                    let i = choose|i: int| 0 <= i < l.len() && best_of(s, l, depth - 1, 1, q, q) == -negamax(step(s, #[trigger] l[i]), depth - 1, 1, q, q);
                    let m = l[i];
                    assert(l.contains(m));
                    assert(l.to_multiset().count(m) > 0);
                    assert(root@.to_multiset().count(m) > 0);
                    assert(root@.contains(m));
                    let k = choose|k: int| 0 <= k < root@.len() && root@[k] == m;
                    assert(-negamax(step(s, root@[k]), depth - 1, 1, q, q) <= alpha);
                }
                if alpha > -INF {
                    let j = choose|j: int| 0 <= j < l.len() && l[j] == best_g;
                    assert(best_of(s, l, depth - 1, 1, q, false) >= -negamax(step(s, l[j]), depth - 1, 1, q, false));
                }
            }
        }
        let best_score = if scored.len() > 0 {
            scored[0].1
        } else {
            -MATE_SCORE
        };
        (best_score, scored)
    }

    /// The best move the table names for state `s`, if any.
    pub closed spec fn table_move(&self, s: Snap) -> Option<Move> {
        let h = snap_hash(s);
        match probe_spec(self.tt.slots()[self.tt.slot_of(h)], h, 0) {
            Some(p) => p.best,
            None => None,
        }
    }

    /// The line the table gives from `s`, `n` moves at most: its best move
    /// while that move is legal where it is played.
    pub closed spec fn table_line(&self, s: Snap, n: nat) -> Seq<Move>
        decreases n,
    {
        if n == 0 {
            Seq::empty()
        } else {
            match self.table_move(s) {
                Some(m) => if legal_list(s).contains(m) {
                    seq![m] + self.table_line(step(s, m), (n - 1) as nat)
                } else {
                    Seq::empty()
                },
                None => Seq::empty(),
            }
        }
    }

    /// Follows the table's best moves from `pos`, appending each one that is
    /// legal where it is played, until `pv` holds `max_len` moves (16 at
    /// most). The position is left as it was.
    #[verifier::rlimit(40)]
    fn extend_pv(&self, pos: &mut Position, pv: &mut Vec<Move>, max_len: usize)
        requires
            self.wf(),
            old(pos).wf(),
            old(pv)@.len() <= 16,
            old(pos).halfmove() + (16 - old(pv)@.len()) < 0xffff,
            old(pos).fullmove() + (16 - old(pv)@.len()) < 0xffff,
        ensures
            final(pos).wf(),
            same_game(*final(pos), *old(pos)),
            old(pv)@.len() <= final(pv)@.len(),
            final(pv)@.len() <= (if old(pv)@.len() < max_len && old(pv)@.len() < 16 {
                if max_len < 16 {
                    max_len as int
                } else {
                    16
                }
            } else {
                old(pv)@.len() as int
            }),
            final(pv)@.take(old(pv)@.len() as int) == old(pv)@,
            legal_line(old(pos).snap(), final(pv)@.skip(old(pv)@.len() as int)),
            final(pv)@ == old(pv)@ + self.table_line(old(pos).snap(), pv_room(old(pv)@.len() as int, max_len as int)),
        decreases 16 - old(pv)@.len(),
    {
        let ghost s = pos.snap();
        let ghost pv0 = pv@;
        if pv.len() < max_len && pv.len() < 16 {
            match self.tt.probe_move(pos.hash()) {
                Some(mv) => {
                    if pos.is_legal(mv) {
                        proof {
                            lemma_legal_move_ok(s, mv);
                            lemma_step_ok(s, mv);
                        }
                        let ghost before = *pos;
                        pos.make_move_unchecked(mv);
                        pv.push(mv);
                        let ghost pv1 = pv@;
                        self.extend_pv(pos, pv, max_len);
                        pos.unmake_move_unchecked();
                        proof {
                            assert(pos.stack() =~= before.stack());
                            assert(pos.history_seq() =~= before.history_seq());
                            assert(pos.past_states() =~= before.past_states());
                            let k = pv0.len() as int;
                            assert(pv1.take(k) =~= pv0);
                            assert(pv@.take(k) =~= pv1.take(k + 1).take(k));
                            assert(pv1[k] == mv);
                            assert(pv@.take(k + 1)[k] == pv1[k]);
                            assert(pv@[k] == mv);
                            assert(pv@.skip(k)[0] == mv);
                            assert(pv@.skip(k).drop_first() =~= pv@.skip(k + 1));
                            assert(pv_room(k + 1, max_len as int) == pv_room(k, max_len as int) - 1);
                            assert(pv@ =~= pv0 + self.table_line(s, pv_room(k, max_len as int)));
                        }
                    } else {
                        proof {
                            assert(pv@.skip(pv0.len() as int) =~= Seq::<Move>::empty());
                            assert(self.table_line(s, pv_room(pv0.len() as int, max_len as int)) =~= Seq::<Move>::empty());
                            assert(pv@ =~= pv0 + Seq::<Move>::empty());
                        }
                    }
                },
                None => {
                    proof {
                        assert(pv@.skip(pv0.len() as int) =~= Seq::<Move>::empty());
                        assert(self.table_line(s, pv_room(pv0.len() as int, max_len as int)) =~= Seq::<Move>::empty());
                        assert(pv@ =~= pv0 + Seq::<Move>::empty());
                    }
                },
            }
        } else {
            proof {
                assert(pv@.skip(pv0.len() as int) =~= Seq::<Move>::empty());
                assert(pv_room(pv0.len() as int, max_len as int) == 0);
                assert(pv@ =~= pv0 + Seq::<Move>::empty());
            }
        }
        proof {
            assert(pv@.take(pv0.len() as int) =~= pv0);
        }
    }

    /// The expected line of play starting with root move `first`, following
    /// the table's best moves while they are legal, `max_len` moves at most
    /// (and 16 at most). The position is left as it was.
    fn extract_pv(&self, pos: &mut Position, first: Move, max_len: usize) -> (pv: Vec<Move>)
        requires
            self.wf(),
            old(pos).wf(),
            legal_list(old(pos).snap()).contains(first),
            old(pos).halfmove() + 17 < 0xffff,
            old(pos).fullmove() + 17 < 0xffff,
        ensures
            final(pos).wf(),
            same_game(*final(pos), *old(pos)),
            1 <= pv@.len(),
            pv@[0] == first,
            pv@.len() <= 16,
            max_len >= 1 ==> pv@.len() <= max_len,
            legal_line(old(pos).snap(), pv@),
    {
        let ghost s = pos.snap();
        proof {
            lemma_legal_move_ok(s, first);
            lemma_step_ok(s, first);
        }
        let mut pv: Vec<Move> = Vec::new();
        pv.push(first);
        let ghost before = *pos;
        pos.make_move_unchecked(first);
        self.extend_pv(pos, &mut pv, max_len);
        pos.unmake_move_unchecked();
        proof {
            assert(pos.stack() =~= before.stack());
            assert(pos.history_seq() =~= before.history_seq());
            assert(pos.past_states() =~= before.past_states());
            assert(pv@.take(1)[0] == first);
            assert(pv@.drop_first() =~= pv@.skip(1));
        }
        pv
    }

    /// Iterative deepening from depth 1 to the requested depth (clamped to
    /// 1..=95): each completed iteration replaces the result; an interrupted
    /// one is discarded, so the result is always that of the last completed
    /// depth. Deepening ends early once a forced mate is found. The position
    /// is left as it was.
    #[verifier::rlimit(100)]
    #[verifier::spinoff_prover]
    pub fn search<S: StopSignal + ?Sized>(&mut self, pos: &mut Position, limits: &SearchLimits, stop: &S) -> (r: SearchResult)
        requires
            old(self).wf(),
            old(pos).wf(),
            old(pos).halfmove() + MAX_PLY < 0xffff,
            old(pos).fullmove() + MAX_PLY < 0xffff,
        ensures
            final(self).wf(),
            final(pos).wf(),
            same_game(*final(pos), *old(pos)),
            r.nodes == final(self).node_count(),
            r.stopped == final(self).was_stopped(),
            search_reports(old(pos).snap(), *limits, r),
            final(self).node_budget() == (match limits.max_nodes {
                Some(n) => n,
                None => u64::MAX,
            }),
            r.stopped ==> r.nodes >= final(self).node_budget() || !stop.never_stops(),
            mates_scored(old(pos).snap(), r.depth as int, *limits, r.root_moves@),
            !limits.use_tt && r.depth <= 3 ==> root_scores_sound(
                old(pos).snap(),
                r.depth as int,
                limits.use_quiescence,
                r.root_moves@,
            ),
    {
        self.nodes = 0;
        self.stopped = false;
        self.node_limit = match limits.max_nodes {
            Some(n) => n,
            None => u64::MAX,
        };
        self.killers = Self::fresh_killers();
        self.history.decay();
        self.tt.new_generation();
        let max_depth: usize = if limits.max_depth < 1 {
            1
        } else if limits.max_depth as usize > MAX_PLY - 1 {
            MAX_PLY - 1
        } else {
            limits.max_depth as usize
        };
        let ghost s = pos.snap();
        let ghost start = *pos;
        let mut result = SearchResult::default();
        proof {
            assert(legal_line(s, result.pv@));
        }
        let mut depth: usize = 1;
        while depth <= max_depth
            invariant_except_break
                !self.stopped,
                result.depth == depth - 1,
                result.depth >= 1 ==> !(result.score >= MATE_THRESHOLD || result.score
                    <= -MATE_THRESHOLD),
            invariant
                self.wf(),
                mates_scored(s, result.depth as int, *limits, result.root_moves@),
                !limits.use_tt && result.depth <= 3 ==> root_scores_sound(
                    s,
                    result.depth as int,
                    limits.use_quiescence,
                    result.root_moves@,
                ),
                self.stop_explained(stop),
                self.node_limit == (match limits.max_nodes {
                    Some(n) => n,
                    None => u64::MAX,
                }),
                pos.wf(),
                same_game(*pos, start),
                start.wf(),
                s == start.snap(),
                start.halfmove() + MAX_PLY < 0xffff,
                start.fullmove() + MAX_PLY < 0xffff,
                max_depth == depth_cap(limits.max_depth),
                1 <= depth <= max_depth + 1,
                result.depth <= depth,
                result.depth <= max_depth,
                result.depth == 0 ==> result.best_move is None && result.score == 0
                    && result.root_moves@.len() == 0 && result.pv@.len() == 0,
                result.depth >= 1 ==> moves_of(result.root_moves@).to_multiset() == legal_list(
                    s,
                ).to_multiset(),
                sorted_desc(result.root_moves@),
                result.root_moves@.len() > 0 ==> result.best_move == Some(result.root_moves@[0].0)
                    && result.score == result.root_moves@[0].1 && result.pv@.len() >= 1
                    && result.pv@[0] == result.root_moves@[0].0,
                result.root_moves@.len() == 0 ==> result.best_move is None && result.pv@.len()
                    == 0,
                result.depth >= 1 && result.root_moves@.len() == 0 ==> result.score == -MATE_SCORE,
                legal_line(s, result.pv@),
                result.pv@.len() <= 16,
                result.pv@.len() <= result.depth,
                legal_list(s).len() == 0 ==> self.nodes == 0 && !self.stopped,
                legal_list(s).len() == 0 && result.depth >= 1 ==> result.depth == 1
                    && result.score == -MATE_SCORE,
            ensures
                self.wf(),
                pos.wf(),
                same_game(*pos, start),
                result.depth <= max_depth,
                !self.stopped ==> result.depth >= 1,
                !self.stopped && result.depth < max_depth ==> (result.score >= MATE_THRESHOLD
                    || result.score <= -MATE_THRESHOLD),
                result.depth == 0 ==> result.best_move is None && result.score == 0
                    && result.root_moves@.len() == 0 && result.pv@.len() == 0,
                result.depth >= 1 ==> moves_of(result.root_moves@).to_multiset() == legal_list(
                    s,
                ).to_multiset(),
                sorted_desc(result.root_moves@),
                result.root_moves@.len() > 0 ==> result.best_move == Some(result.root_moves@[0].0)
                    && result.score == result.root_moves@[0].1 && result.pv@.len() >= 1
                    && result.pv@[0] == result.root_moves@[0].0,
                result.root_moves@.len() == 0 ==> result.best_move is None && result.pv@.len()
                    == 0,
                result.depth >= 1 && result.root_moves@.len() == 0 ==> result.score == -MATE_SCORE,
                legal_line(s, result.pv@),
                result.pv@.len() <= 16,
                result.pv@.len() <= result.depth,
                legal_list(s).len() == 0 ==> result.depth == 1 && result.score == -MATE_SCORE
                    && !self.stopped && self.nodes == 0,
            decreases max_depth + 1 - depth,
        {
            let (score, root_moves) = self.search_root(pos, depth, limits, stop);
            if self.stopped {
                break;
            }
            let best = if root_moves.len() > 0 {
                Some(root_moves[0].0)
            } else {
                None
            };
            let pv = match best {
                Some(mv) => {
                    proof {
                        assert(legal_list(s).contains(root_moves@[0].0));
                    }
                    self.extract_pv(pos, mv, depth)
                },
                None => Vec::new(),
            };
            proof {
                if root_moves@.len() == 0 {
                    vstd::seq_lib::to_multiset_len(moves_of(root_moves@));
                    vstd::seq_lib::to_multiset_len(legal_list(s));
                    assert(legal_list(s).len() == 0);
                }
                if legal_list(s).len() == 0 {
                    vstd::seq_lib::to_multiset_len(legal_list(s));
                    vstd::seq_lib::to_multiset_len(moves_of(root_moves@));
                }
            }
            result.best_move = best;
            result.score = score;
            result.depth = depth as u8;
            result.root_moves = root_moves;
            result.pv = pv;
            if score >= MATE_THRESHOLD || score <= -MATE_THRESHOLD {
                break;
            }
            depth += 1;
        }
        result.nodes = self.nodes;
        result.stopped = self.stopped;
        result
    }
}

} // verus!
