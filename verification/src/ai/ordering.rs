//! Move ordering: the table move first, then captures by most valuable
//! victim and least valuable attacker, then the two killer moves, then
//! quiet moves by their history score.
use vstd::prelude::*;

use crate::mv::{Move, MoveList, mv_from, mv_to};
use crate::piece::{PieceKind, kind_of, kind_of_code};
use crate::position::{Position, Snap, legal_list};

verus! {

/// Score of the table move.
pub const SCORE_TT: i32 = 1_000_000;
/// Base score of a capture.
pub const SCORE_CAPTURE_BASE: i32 = 200_000;
/// Score of the first killer move.
pub const SCORE_KILLER_1: i32 = 150_000;
/// Score of the second killer move.
pub const SCORE_KILLER_2: i32 = 140_000;
/// History scores are halved once the largest passes this.
pub const HISTORY_LIMIT: i32 = 0x10_0000;

/// Ordering value of a piece kind.
pub open spec fn order_value_spec(k: PieceKind) -> int {
    match k {
        PieceKind::King => 10_000,
        PieceKind::Chariot => 900,
        PieceKind::Cannon => 450,
        PieceKind::Horse => 400,
        PieceKind::Advisor | PieceKind::Elephant => 200,
        PieceKind::Pawn => 100,
    }
}

/// Ordering value of a piece kind.
pub fn order_value(kind: PieceKind) -> (r: i32)
    ensures
        r == order_value_spec(kind),
{
    match kind {
        PieceKind::King => 10_000,
        PieceKind::Chariot => 900,
        PieceKind::Cannon => 450,
        PieceKind::Horse => 400,
        PieceKind::Advisor | PieceKind::Elephant => 200,
        PieceKind::Pawn => 100,
    }
}

/// History heuristic: how often each quiet move (by origin and target)
/// caused a cutoff, weighted by depth.
#[derive(Clone)]
pub struct History {
    table: Vec<i32>,
    max: i32,
}

/// Entry of a move's origin and target.
pub open spec fn history_index(from: int, to: int) -> int {
    from * 90 + to
}

/// Bonus for a cutoff at `depth`: its square, between 1 and 4096.
pub open spec fn history_gain(depth: int) -> int {
    let d = depth * depth;
    if d < 1 {
        1
    } else if d > 4096 {
        4096
    } else {
        d
    }
}

/// Every entry halved.
pub open spec fn halved(s: Seq<i32>) -> Seq<i32> {
    s.map_values(|v: i32| (v / 2) as i32)
}

impl History {
    /// The scores, indexed by `from * 90 + to`.
    pub closed spec fn scores(&self) -> Seq<i32> {
        self.table@
    }

    /// Largest score.
    pub closed spec fn max_score(&self) -> i32 {
        self.max
    }

    /// 8100 scores between 0 and the recorded maximum, itself bounded.
    pub closed spec fn wf(&self) -> bool {
        &&& self.table@.len() == 8100
        &&& 0 <= self.max <= HISTORY_LIMIT
        &&& forall|i: int| 0 <= i < 8100 ==> 0 <= #[trigger] self.table@[i] <= self.max
    }

    /// All scores zero.
    pub fn new() -> (r: History)
        ensures
            r.wf(),
            r.scores() == Seq::new(8100, |i: int| 0i32),
            r.max_score() == 0,
    {
        let mut table: Vec<i32> = Vec::new();
        let mut i: usize = 0;
        while i < 8100
            invariant
                i <= 8100,
                table@.len() == i,
                forall|j: int| 0 <= j < i ==> #[trigger] table@[j] == 0,
            decreases 8100 - i,
        {
            table.push(0);
            i += 1;
        }
        assert(table@ =~= Seq::new(8100, |i: int| 0i32));
        History { table, max: 0 }
    }

    /// Resets all scores to zero.
    pub fn clear(&mut self)
        requires
            old(self).wf(),
        ensures
            final(self).wf(),
            final(self).scores() == Seq::new(8100, |i: int| 0i32),
            final(self).max_score() == 0,
    {
        let mut i: usize = 0;
        while i < 8100
            invariant
                i <= 8100,
                self.table@.len() == 8100,
                0 <= self.max <= HISTORY_LIMIT,
                forall|j: int| 0 <= j < i ==> #[trigger] self.table@[j] == 0,
                forall|j: int| 0 <= j < 8100 ==> 0 <= #[trigger] self.table@[j] <= self.max,
            decreases 8100 - i,
        {
            self.table.set(i, 0);
            i += 1;
        }
        self.max = 0;
        assert(self.table@ =~= Seq::new(8100, |i: int| 0i32));
    }

    /// Score of the move from `from` to `to`.
    pub fn get(&self, from: u8, to: u8) -> (r: i32)
        requires
            self.wf(),
            from < 90,
            to < 90,
        ensures
            r == self.scores()[history_index(from as int, to as int)],
            r >= 0,
    {
        self.table[from as usize * 90 + to as usize]
    }

    /// Credits a cutoff at `depth` to the move from `from` to `to`; when the
    /// largest score passes [`HISTORY_LIMIT`] every score is halved.
    pub fn bump(&mut self, from: u8, to: u8, depth: i32)
        requires
            old(self).wf(),
            from < 90,
            to < 90,
            -46340 <= depth <= 46340,
        ensures
            final(self).wf(),
            ({
                let idx = history_index(from as int, to as int);
                let v = old(self).scores()[idx] + history_gain(depth as int);
                let raised = old(self).scores().update(idx, v as i32);
                let m = if v > old(self).max_score() {
                    v
                } else {
                    old(self).max_score() as int
                };
                if m > HISTORY_LIMIT {
                    final(self).scores() == halved(raised) && final(self).max_score() == m / 2
                } else {
                    final(self).scores() == raised && final(self).max_score() == m
                }
            }),
    {
        let idx = from as usize * 90 + to as usize;
        assert(depth * depth <= 2147395600) by (nonlinear_arith)
            requires
                -46340 <= depth <= 46340,
        ;
        assert(depth * depth >= 0) by (nonlinear_arith);
        let sq = depth * depth;
        let gain = if sq < 1 {
            1
        } else if sq > 4096 {
            4096
        } else {
            sq
        };
        let v = self.table[idx] + gain;
        self.table.set(idx, v);
        if v > self.max {
            self.max = v;
        }
        if self.max > HISTORY_LIMIT {
            let ghost raised = self.table@;
            let ghost m = self.max;
            let mut i: usize = 0;
            while i < 8100
                invariant
                    i <= 8100,
                    self.max == m,
                    raised.len() == 8100,
                    self.table@.len() == 8100,
                    HISTORY_LIMIT < self.max <= HISTORY_LIMIT + 4096,
                    forall|j: int| 0 <= j < 8100 ==> 0 <= #[trigger] raised[j] <= self.max,
                    forall|j: int| 0 <= j < i ==> #[trigger] self.table@[j] == raised[j] / 2,
                    forall|j: int| i <= j < 8100 ==> #[trigger] self.table@[j] == raised[j],
                decreases 8100 - i,
            {
                let x = self.table[i];
                self.table.set(i, x / 2);
                i += 1;
            }
            self.max = self.max / 2;
            assert(self.table@ =~= halved(raised));
        }
    }

    /// Ages all scores (divides them by 8) between searches.
    pub fn decay(&mut self)
        requires
            old(self).wf(),
        ensures
            final(self).wf(),
            final(self).scores() == old(self).scores().map_values(|v: i32| (v / 8) as i32),
            final(self).max_score() == old(self).max_score() / 8,
    {
        let ghost before = self.table@;
        let ghost m = self.max;
        let mut i: usize = 0;
        while i < 8100
            invariant
                i <= 8100,
                self.max == m,
                m == old(self).max,
                before == old(self).table@,
                before.len() == 8100,
                self.table@.len() == 8100,
                0 <= self.max <= HISTORY_LIMIT,
                forall|j: int| 0 <= j < 8100 ==> 0 <= #[trigger] before[j] <= self.max,
                forall|j: int| 0 <= j < i ==> #[trigger] self.table@[j] == before[j] / 8,
                forall|j: int| i <= j < 8100 ==> #[trigger] self.table@[j] == before[j],
            decreases 8100 - i,
        {
            let x = self.table[i];
            self.table.set(i, x / 8);
            i += 1;
        }
        self.max = self.max / 8;
        assert(self.table@ =~= before.map_values(|v: i32| (v / 8) as i32));
    }
}

/// Ordering score of move `m` in state `s`.
pub open spec fn score_spec(s: Snap, m: Move, tt_move: Option<Move>, killers: Seq<Move>, history: Seq<i32>) -> int {
    let target = s.0[mv_to(m)];
    if tt_move == Some(m) {
        SCORE_TT as int
    } else if target != 0 {
        let victim = match kind_of_code(target) {
            Some(k) => order_value_spec(k),
            None => 0,
        };
        let attacker = match kind_of_code(s.0[mv_from(m)]) {
            Some(k) => order_value_spec(k),
            None => 0,
        };
        SCORE_CAPTURE_BASE + victim * 16 - attacker
    } else if m == killers[0] {
        SCORE_KILLER_1 as int
    } else if m == killers[1] {
        SCORE_KILLER_2 as int
    } else {
        let h = history[history_index(mv_from(m), mv_to(m))];
        if h < 0 {
            0
        } else if h > SCORE_KILLER_2 - 1 {
            SCORE_KILLER_2 - 1
        } else {
            h as int
        }
    }
}

/// Ordering score of a move.
fn score_move(pos: &Position, mv: Move, tt_move: Option<Move>, killers: &[Move; 2], history: &History) -> (r: i32)
    requires
        pos.wf(),
        history.wf(),
        mv_from(mv) < 90,
        mv_to(mv) < 90,
    ensures
        r == score_spec(pos.snap(), mv, tt_move, killers@, history.scores()),
{
    let is_tt = match tt_move {
        Some(t) => t == mv,
        None => false,
    };
    if is_tt {
        return SCORE_TT;
    }
    let target = pos.piece_at(mv.to());
    if target != 0 {
        let victim = match kind_of(target) {
            Some(k) => order_value(k),
            None => 0,
        };
        let attacker = match kind_of(pos.piece_at(mv.from())) {
            Some(k) => order_value(k),
            None => 0,
        };
        return SCORE_CAPTURE_BASE + victim * 16 - attacker;
    }
    if mv == killers[0] {
        return SCORE_KILLER_1;
    }
    if mv == killers[1] {
        return SCORE_KILLER_2;
    }
    let h = history.get(mv.from(), mv.to());
    if h < 0 {
        0
    } else if h > SCORE_KILLER_2 - 1 {
        SCORE_KILLER_2 - 1
    } else {
        h
    }
}

/// Hands out the legal moves of a position, best-scored first.
pub struct MovePicker {
    moves: Vec<Move>,
    scores: Vec<i32>,
    cursor: usize,
}

/// Position of the first largest score in `s[lo..hi]`.
pub open spec fn best_from(s: Seq<i32>, lo: int, hi: int) -> int
    decreases hi - lo,
{
    if hi - lo <= 1 {
        lo
    } else {
        let b = best_from(s, lo + 1, hi);
        if s[b] > s[lo] {
            b
        } else {
            lo
        }
    }
}

/// The first largest score of a range is at least every score there, and
/// larger than every score before it.
pub proof fn lemma_best_from(s: Seq<i32>, lo: int, hi: int)
    requires
        0 <= lo < hi <= s.len(),
    ensures
        lo <= best_from(s, lo, hi) < hi,
        forall|j: int| lo <= j < hi ==> #[trigger] s[j] <= s[best_from(s, lo, hi)],
        forall|j: int| lo <= j < best_from(s, lo, hi) ==> #[trigger] s[j] < s[best_from(s, lo, hi)],
    decreases hi - lo,
{
    if hi - lo > 1 {
        lemma_best_from(s, lo + 1, hi);
    }
}

impl MovePicker {
    /// Moves in their current order.
    pub closed spec fn moves(&self) -> Seq<Move> {
        self.moves@
    }

    /// Scores, aligned with [`MovePicker::moves`].
    pub closed spec fn scores(&self) -> Seq<i32> {
        self.scores@
    }

    /// Number of moves already handed out.
    pub closed spec fn cursor(&self) -> int {
        self.cursor as int
    }

    /// Moves and scores are aligned and the cursor within them.
    pub closed spec fn wf(&self) -> bool {
        &&& self.moves@.len() == self.scores@.len()
        &&& self.cursor <= self.moves@.len()
    }

    /// What well-formedness says of the moves, scores and cursor.
    pub proof fn lemma_wf(&self)
        requires
            self.wf(),
        ensures
            self.moves().len() == self.scores().len(),
            0 <= self.cursor() <= self.moves().len(),
    {
    }

    /// Scores every legal move of `pos`. The position is left as it was.
    pub fn new(pos: &mut Position, tt_move: Option<Move>, killers: &[Move; 2], history: &History) -> (r: MovePicker)
        requires
            old(pos).wf(),
            history.wf(),
        ensures
            *final(pos) == *old(pos),
            r.wf(),
            r.cursor() == 0,
            r.moves() == legal_list(old(pos).snap()),
            forall|i: int|
                0 <= i < r.moves().len() ==> #[trigger] r.scores()[i] == score_spec(
                    old(pos).snap(),
                    r.moves()[i],
                    tt_move,
                    killers@,
                    history.scores(),
                ),
    {
        let mut generated = MoveList::new();
        pos.gen_legal_into(&mut generated);
        let ghost s = pos.snap();
        proof {
            crate::board::law_pseudo_moves_sound(s.0, s.1, 90);
            crate::board::lemma_sound_capped(s.0, s.1, crate::board::pseudo_moves(s.0, s.1));
        }
        let len = generated.len();
        let mut moves: Vec<Move> = Vec::new();
        let mut scores: Vec<i32> = Vec::new();
        let mut i: usize = 0;
        while i < len
            invariant
                pos.wf(),
                history.wf(),
                s == pos.snap(),
                generated@ == legal_list(s),
                len == generated@.len(),
                i <= len,
                moves@ == generated@.take(i as int),
                scores@.len() == i,
                forall|j: int|
                    0 <= j < i ==> #[trigger] scores@[j] == score_spec(
                        s,
                        moves@[j],
                        tt_move,
                        killers@,
                        history.scores(),
                    ),
            decreases len - i,
        {
            let mv = generated.get(i);
            proof {
                assert(generated@[i as int] == mv);
                assert(generated@.contains(mv));
                crate::board::law_pseudo_moves_sound(s.0, s.1, 90);
                crate::board::lemma_sound_capped(s.0, s.1, crate::board::pseudo_moves(s.0, s.1));
                crate::position::law_legal_moves_are_safe(s, mv);
                let ps = crate::mv::capped(crate::board::pseudo_moves(s.0, s.1));
                let k = choose|k: int| 0 <= k < ps.len() && ps[k] == mv;
                assert(crate::board::moves_sound(s.0, s.1, ps));
                assert(0 <= mv_from(ps[k]) < 90);
            }
            let sc = score_move(pos, mv, tt_move, killers, history);
            moves.push(mv);
            scores.push(sc);
            assert(moves@ =~= generated@.take(i as int + 1));
            i += 1;
        }
        assert(moves@ =~= generated@.take(len as int));
        assert(generated@.take(len as int) =~= generated@);
        MovePicker { moves, scores, cursor: 0 }
    }

    /// Number of moves.
    pub fn len(&self) -> (r: usize)
        ensures
            r == self.moves().len(),
    {
        self.moves.len()
    }

    /// Whether there are no moves.
    pub fn is_empty(&self) -> (r: bool)
        ensures
            r == (self.moves().len() == 0),
    {
        self.moves.len() == 0
    }

    /// Hands out the best-scored move not yet handed out (the earliest one
    /// among equal scores), or `None` when all have been.
    pub fn pick(&mut self) -> (r: Option<Move>)
        requires
            old(self).wf(),
        ensures
            final(self).wf(),
            old(self).cursor() >= old(self).moves().len() ==> {
                &&& r is None
                &&& final(self).moves() == old(self).moves()
                &&& final(self).scores() == old(self).scores()
                &&& final(self).cursor() == old(self).cursor()
            },
            old(self).cursor() < old(self).moves().len() ==> ({
                let c = old(self).cursor();
                let b = best_from(old(self).scores(), c, old(self).moves().len() as int);
                &&& r == Some(old(self).moves()[b])
                &&& final(self).cursor() == c + 1
                &&& final(self).moves() == old(self).moves().update(c, old(self).moves()[b]).update(
                    b,
                    old(self).moves()[c],
                )
                &&& final(self).scores() == old(self).scores().update(c, old(self).scores()[b]).update(
                    b,
                    old(self).scores()[c],
                )
            }),
    {
        let n = self.moves.len();
        if self.cursor >= n {
            return None;
        }
        let c = self.cursor;
        let mut best = n - 1;
        let mut i = n - 1;
        while i > c
            invariant
                c < n,
                c <= i < n,
                i <= best < n,
                n == self.scores@.len(),
                n == self.moves@.len(),
                best == best_from(self.scores@, i as int, n as int),
            decreases i,
        {
            proof {
                lemma_best_from(self.scores@, i as int, n as int);
            }
            i -= 1;
            if !(self.scores[best] > self.scores[i]) {
                best = i;
            }
        }
        let mc = self.moves[c];
        let mb = self.moves[best];
        let sc = self.scores[c];
        let sb = self.scores[best];
        proof {
            lemma_best_from(self.scores@, c as int, n as int);
        }
        self.moves.set(c, mb);
        self.moves.set(best, mc);
        self.scores.set(c, sb);
        self.scores.set(best, sc);
        self.cursor = c + 1;
        Some(mb)
    }

    /// Number of moves not yet handed out.
    pub fn remaining(&self) -> (r: usize)
        requires
            self.wf(),
        ensures
            r == self.moves().len() - self.cursor(),
    {
        self.moves.len() - self.cursor
    }
}

/// Picking exchanges two entries, so the moves of a picker stay the same
/// multiset, and the one handed out scores at least as much as every move
/// Whether the first `c` moves were handed out best first: their scores
/// never rise, and none is below a score still to come.
pub open spec fn picked_in_order(scores: Seq<i32>, c: int) -> bool {
    &&& forall|i: int, j: int| 0 <= i < j < c ==> #[trigger] scores[i] >= #[trigger] scores[j]
    &&& forall|i: int, j: int| 0 <= i < c <= j < scores.len() ==> #[trigger] scores[i] >= #[trigger] scores[j]
}

/// Each pick keeps the moves handed out so far in order: after any number of
/// picks from a new picker, the moves handed out are a rearrangement of the
/// legal moves whose scores never rise.
pub proof fn law_picks_come_best_first(moves: Seq<Move>, scores: Seq<i32>, c: int)
    requires
        moves.len() == scores.len(),
        0 <= c < moves.len(),
        picked_in_order(scores, c),
    ensures
        ({
            let b = best_from(scores, c, moves.len() as int);
            let m2 = moves.update(c, moves[b]).update(b, moves[c]);
            let s2 = scores.update(c, scores[b]).update(b, scores[c]);
            &&& m2.to_multiset() == moves.to_multiset()
            &&& picked_in_order(s2, c + 1)
        }),
{
    let n = moves.len() as int;
    law_pick_is_a_best_swap(moves, scores, c);
    lemma_best_from(scores, c, n);
    let b = best_from(scores, c, n);
    let s2 = scores.update(c, scores[b]).update(b, scores[c]);
    assert forall|i: int, j: int| 0 <= i < j < c + 1 implies #[trigger] s2[i] >= #[trigger] s2[j] by {
        assert(s2[i] == scores[i]);
        if j < c {
            assert(s2[j] == scores[j]);
        } else {
            assert(s2[j] == scores[b]);
        }
    }
    assert forall|i: int, j: int| 0 <= i < c + 1 <= j < s2.len() implies #[trigger] s2[i] >= #[trigger] s2[j] by {
        if i < c {
            assert(s2[i] == scores[i]);
            if j == b {
                assert(s2[j] == scores[c]);
            } else {
                assert(s2[j] == scores[j]);
            }
        } else {
            assert(s2[j] <= s2[c]);
        }
    }
}

/// still to come.
pub proof fn law_pick_is_a_best_swap(moves: Seq<Move>, scores: Seq<i32>, c: int)
    requires
        moves.len() == scores.len(),
        0 <= c < moves.len(),
    ensures
        ({
            let b = best_from(scores, c, moves.len() as int);
            let m2 = moves.update(c, moves[b]).update(b, moves[c]);
            let s2 = scores.update(c, scores[b]).update(b, scores[c]);
            &&& m2.to_multiset() == moves.to_multiset()
            &&& forall|j: int| c < j < moves.len() ==> #[trigger] s2[j] <= s2[c]
        }),
{
    let n = moves.len() as int;
    lemma_best_from(scores, c, n);
    let b = best_from(scores, c, n);
    let m2 = moves.update(c, moves[b]).update(b, moves[c]);
    if b != c {
        let m1 = moves.update(c, moves[b]);
        vstd::seq_lib::to_multiset_update(moves, c, moves[b]);
        vstd::seq_lib::to_multiset_update(m1, b, moves[c]);
        assert(m1[b] == moves[b]);
        broadcast use vstd::multiset::group_multiset_properties;
        broadcast use vstd::seq_lib::to_multiset_contains;
        assert(moves.to_multiset().contains(moves[c]));
        assert(m2.to_multiset() =~= moves.to_multiset());
    } else {
        assert(m2 =~= moves);
    }
}

} // verus!
