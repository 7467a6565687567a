//! End-of-game verdicts and perft node counting.
use vstd::prelude::*;

use crate::color::Color;
use crate::mv::{Move, MoveList, MAX_MOVES, mv_from, mv_to};
use crate::piece::{PieceKind, kind_of, kind_of_code};
use crate::position::{
    Position, Snap, lemma_legal_move_ok, lemma_step_ok, legal_list, move_ok, record_of,
    snap_in_check, snap_ok, step,
};
use crate::square::iccs_spec;

verus! {

/// Why a game is drawn.
#[derive(Clone, Copy, PartialEq, Eq, Structural, Debug)]
pub enum DrawReason {
    /// Sixty moves (120 halfmoves) without a capture.
    SixtyMoveRule,
    /// Neither side has a piece that can deliver mate.
    InsufficientMaterial,
}

/// Text shown for a draw reason.
pub open spec fn draw_text(r: DrawReason) -> Seq<char> {
    match r {
        DrawReason::SixtyMoveRule => "60 回合内未吃子，自然限着判和"@,
        DrawReason::InsufficientMaterial => "双方均无进攻子力，无法将死对方，判和"@,
    }
}

impl DrawReason {
    /// Text shown to players.
    pub fn description(self) -> (r: &'static str)
        ensures
            r@ == draw_text(self),
            self == DrawReason::SixtyMoveRule ==> r@ == "60 回合内未吃子，自然限着判和"@,
            self == DrawReason::InsufficientMaterial ==> r@ == "双方均无进攻子力，无法将死对方，判和"@,
    {
        match self {
            DrawReason::SixtyMoveRule => "60 回合内未吃子，自然限着判和",
            DrawReason::InsufficientMaterial => "双方均无进攻子力，无法将死对方，判和",
        }
    }
}

/// State of a game judged from its current position.
#[derive(Clone, Copy, PartialEq, Eq, Structural, Debug)]
pub enum GameStatus {
    /// The game goes on.
    Ongoing,
    /// The side to move is in check but has moves.
    Check { side: Color },
    /// The side to move is in check and has no move.
    Checkmate { loser: Color },
    /// The side to move has no move but is not in check; in xiangqi this
    /// loses, unlike chess.
    Stalemate { loser: Color },
    /// A draw.
    Draw { reason: DrawReason },
}

impl GameStatus {
    /// Whether the game has ended.
    pub fn is_over(self) -> (r: bool)
        ensures
            r == (self is Checkmate || self is Stalemate || self is Draw),
    {
        match self {
            GameStatus::Checkmate { .. } | GameStatus::Stalemate { .. } | GameStatus::Draw {
                ..
            } => true,
            _ => false,
        }
    }

    /// Text shown to players.
    pub fn description(self) -> (r: &'static str)
        ensures
            self is Ongoing ==> r@ == "对局进行中"@,
            self is Check ==> r@ == "将军"@,
            self is Checkmate ==> r@ == "将死"@,
            self is Stalemate ==> r@ == "困毙"@,
            self is Draw ==> r@ == "和棋"@,
    {
        match self {
            GameStatus::Ongoing => "对局进行中",
            GameStatus::Check { .. } => "将军",
            GameStatus::Checkmate { .. } => "将死",
            GameStatus::Stalemate { .. } => "困毙",
            GameStatus::Draw { .. } => "和棋",
        }
    }
}

/// Halfmoves without a capture after which the game is drawn (60 moves).
pub const SIXTY_MOVE_HALF_MOVES: u16 = 120;

/// Whether only kings, advisors and elephants remain on the board.
pub open spec fn insufficient_material(b: Seq<u8>) -> bool {
    forall|i: int|
        0 <= i < 90 ==> match #[trigger] kind_of_code(b[i]) {
            None => true,
            Some(k) => k == PieceKind::King || k == PieceKind::Advisor || k == PieceKind::Elephant,
        }
}

/// Status of a state. No legal move ends the game at once (checkmate when in
/// check, otherwise a stalemate, which also loses); then the sixty-move draw,
/// which waits while the side to move is in check; then insufficient
/// material; then check.
pub open spec fn status_of(s: Snap) -> GameStatus {
    let side = s.1;
    let in_check = snap_in_check(s, side);
    if legal_list(s).len() == 0 {
        if in_check {
            GameStatus::Checkmate { loser: side }
        } else {
            GameStatus::Stalemate { loser: side }
        }
    } else if s.2 >= SIXTY_MOVE_HALF_MOVES && !in_check {
        GameStatus::Draw { reason: DrawReason::SixtyMoveRule }
    } else if insufficient_material(s.0) {
        GameStatus::Draw { reason: DrawReason::InsufficientMaterial }
    } else if in_check {
        GameStatus::Check { side }
    } else {
        GameStatus::Ongoing
    }
}

/// Two positions describe the same game.
pub open spec fn same_game(a: Position, b: Position) -> bool {
    &&& a.snap() == b.snap()
    &&& a.stack() == b.stack()
    &&& a.history_seq() == b.history_seq()
    &&& a.past_states() == b.past_states()
    &&& a.hash_val() == b.hash_val()
}

/// Number of legal move sequences of length `depth` from `s`.
pub open spec fn perft_count(s: Snap, depth: nat) -> nat
    decreases depth, 0nat,
{
    if depth == 0 {
        1
    } else if depth == 1 {
        legal_list(s).len()
    } else {
        perft_sum(s, legal_list(s), (depth - 1) as nat)
    }
}

/// Sum of [`perft_count`] at `depth` over the states reached by `ms` from `s`.
pub open spec fn perft_sum(s: Snap, ms: Seq<Move>, depth: nat) -> nat
    decreases depth, ms.len(),
{
    if ms.len() == 0 {
        0
    } else {
        perft_sum(s, ms.drop_last(), depth) + perft_count(step(s, ms.last()), depth)
    }
}

/// A prefix sum is at most the whole sum, and each term is at most the sum.
proof fn lemma_perft_sum_prefix(s: Snap, ms: Seq<Move>, depth: nat, i: int)
    requires
        0 <= i < ms.len(),
    ensures
        perft_sum(s, ms.take(i), depth) + perft_count(step(s, ms[i]), depth) == perft_sum(
            s,
            ms.take(i + 1),
            depth,
        ),
        perft_sum(s, ms.take(i + 1), depth) <= perft_sum(s, ms, depth),
    decreases ms.len() - i,
{
    assert(ms.take(i + 1).drop_last() =~= ms.take(i));
    if i + 1 < ms.len() {
        lemma_perft_sum_prefix(s, ms, depth, i + 1);
    } else {
        assert(ms.take(i + 1) =~= ms);
    }
}

impl Position {
    /// Status of the position (repetition is judged separately, from the
    /// whole game).
    pub fn status(&mut self) -> (r: GameStatus)
        requires
            old(self).wf(),
        ensures
            *final(self) == *old(self),
            r == status_of(old(self).snap()),
    {
        let side = self.side_to_move();
        let in_check = self.is_in_check(side);
        if !self.has_legal_move() {
            return if in_check {
                GameStatus::Checkmate { loser: side }
            } else {
                GameStatus::Stalemate { loser: side }
            };
        }
        if self.halfmove_clock() >= SIXTY_MOVE_HALF_MOVES && !in_check {
            return GameStatus::Draw { reason: DrawReason::SixtyMoveRule };
        }
        if self.is_insufficient_material() {
            return GameStatus::Draw { reason: DrawReason::InsufficientMaterial };
        }
        if in_check {
            return GameStatus::Check { side };
        }
        GameStatus::Ongoing
    }

    /// Whether only kings, advisors and elephants remain. Any pawn, horse,
    /// chariot or cannon, of either side, keeps the game alive.
    pub fn is_insufficient_material(&self) -> (r: bool)
        ensures
            r == insufficient_material(self.board()),
    {
        let squares = self.squares();
        let mut i: usize = 0;
        while i < 90
            invariant
                i <= 90,
                squares@ == self.board(),
                forall|j: int|
                    0 <= j < i ==> match #[trigger] kind_of_code(self.board()[j]) {
                        None => true,
                        Some(k) => k == PieceKind::King || k == PieceKind::Advisor || k
                            == PieceKind::Elephant,
                    },
            decreases 90 - i,
        {
            match kind_of(squares[i]) {
                None => {},
                Some(PieceKind::King) | Some(PieceKind::Advisor) | Some(PieceKind::Elephant) => {},
                Some(_) => {
                    return false;
                },
            }
            i += 1;
        }
        true
    }

    /// Whether playing `mv` checks the opponent.
    pub fn move_gives_check(&mut self, mv: Move) -> (r: bool)
        requires
            old(self).wf(),
            move_ok(old(self).snap(), mv),
        ensures
            final(self).wf(),
            same_game(*final(self), *old(self)),
            r == snap_in_check(step(old(self).snap(), mv), crate::color::opp(old(self).side())),
    {
        let record = self.make_move_unchecked(mv);
        self.unmake_move_unchecked();
        proof {
            assert(self.stack() =~= old(self).stack());
            assert(self.history_seq() =~= old(self).history_seq());
            assert(self.past_states() =~= old(self).past_states());
        }
        record.gave_check
    }
}

/// Number of legal move sequences of length `depth` (perft). The position
/// is left as it was.
pub fn perft(pos: &mut Position, depth: u32) -> (r: u64)
    requires
        old(pos).wf(),
        old(pos).halfmove() + depth < 0xffff,
        old(pos).fullmove() + depth < 0xffff,
        perft_count(old(pos).snap(), depth as nat) <= u64::MAX,
    ensures
        final(pos).wf(),
        same_game(*final(pos), *old(pos)),
        r == perft_count(old(pos).snap(), depth as nat),
    decreases depth,
{
    if depth == 0 {
        return 1;
    }
    let mut list = MoveList::new();
    pos.gen_legal_into(&mut list);
    if depth == 1 {
        return list.len() as u64;
    }
    let ghost s = pos.snap();
    let ghost start = *pos;
    let n = list.len();
    let mut nodes: u64 = 0;
    let mut i: usize = 0;
    while i < n
        invariant
            pos.wf(),
            same_game(*pos, start),
            start.wf(),
            s == start.snap(),
            depth >= 2,
            start.halfmove() + depth < 0xffff,
            start.fullmove() + depth < 0xffff,
            list@ == legal_list(s),
            n == list@.len(),
            i <= n,
            nodes == perft_sum(s, list@.take(i as int), (depth - 1) as nat),
            perft_sum(s, list@, (depth - 1) as nat) <= u64::MAX,
        decreases n - i,
    {
        let mv = list.get(i);
        proof {
            assert(list@[i as int] == mv);
            assert(list@.contains(mv));
            lemma_legal_move_ok(s, mv);
            lemma_step_ok(s, mv);
            lemma_perft_sum_prefix(s, list@, (depth - 1) as nat, i as int);
        }
        let ghost before = *pos;
        pos.make_move_unchecked(mv);
        let sub = perft(pos, depth - 1);
        pos.unmake_move_unchecked();
        proof {
            assert(pos.stack() =~= before.stack());
            assert(pos.history_seq() =~= before.history_seq());
            assert(pos.past_states() =~= before.past_states());
        }
        nodes = nodes + sub;
        i += 1;
    }
    assert(list@.take(n as int) =~= list@);
    nodes
}


/// Label and subtree count of each root move, as text and number.
pub open spec fn pairs_view(v: Seq<(String, u64)>) -> Seq<(Seq<char>, u64)> {
    v.map_values(|p: (String, u64)| (p.0@, p.1))
}

/// Index of the first entry of `xs` (from `i` on) whose count is below `n`.
pub open spec fn first_below(xs: Seq<(Seq<char>, u64)>, n: u64, i: int) -> int
    decreases xs.len() - i,
{
    if i >= xs.len() {
        xs.len() as int
    } else if xs[i].1 < n {
        i
    } else {
        first_below(xs, n, i + 1)
    }
}

/// Stable insertion of `x` into a list kept in non-increasing count order:
/// after every entry whose count is at least `x`'s.
pub open spec fn insert_desc(xs: Seq<(Seq<char>, u64)>, x: (Seq<char>, u64)) -> Seq<(Seq<char>, u64)> {
    xs.insert(first_below(xs, x.1, 0), x)
}

/// Stable sort of `xs` by non-increasing count.
pub open spec fn sort_desc(xs: Seq<(Seq<char>, u64)>) -> Seq<(Seq<char>, u64)>
    decreases xs.len(),
{
    if xs.len() == 0 {
        Seq::empty()
    } else {
        insert_desc(sort_desc(xs.drop_last()), xs.last())
    }
}

/// Count reported by [`perft_divide`] for root move `m`.
pub open spec fn divide_count(s: Snap, m: Move, depth: nat) -> u64 {
    if depth <= 1 {
        1
    } else {
        perft_count(step(s, m), (depth - 1) as nat) as u64
    }
}

/// Entries of [`perft_divide`] in generation order.
pub open spec fn divide_entries(s: Snap, ms: Seq<Move>, depth: nat) -> Seq<(Seq<char>, u64)> {
    ms.map_values(
        |m: Move| (iccs_spec(mv_from(m)) + iccs_spec(mv_to(m)), divide_count(s, m, depth)),
    )
}

/// `first_below` stays within the list.
proof fn lemma_first_below(xs: Seq<(Seq<char>, u64)>, n: u64, i: int)
    requires
        0 <= i <= xs.len(),
    ensures
        i <= first_below(xs, n, i) <= xs.len(),
    decreases xs.len() - i,
{
    if i < xs.len() && xs[i].1 >= n {
        lemma_first_below(xs, n, i + 1);
    }
}

/// Sum of the counts of `xs`.
pub open spec fn count_sum(xs: Seq<(Seq<char>, u64)>) -> nat
    decreases xs.len(),
{
    if xs.len() == 0 {
        0
    } else {
        count_sum(xs.drop_last()) + xs.last().1 as nat
    }
}

/// Inserting an entry anywhere adds its count to the sum.
proof fn lemma_count_sum_insert(xs: Seq<(Seq<char>, u64)>, i: int, x: (Seq<char>, u64))
    requires
        0 <= i <= xs.len(),
    ensures
        count_sum(xs.insert(i, x)) == count_sum(xs) + x.1,
    decreases xs.len(),
{
    let ys = xs.insert(i, x);
    if i == xs.len() {
        assert(ys.drop_last() =~= xs);
    } else {
        assert(ys.drop_last() =~= xs.drop_last().insert(i, x));
        assert(ys.last() == xs.last());
        lemma_count_sum_insert(xs.drop_last(), i, x);
    }
}

/// Sorting keeps the length and the sum of the counts.
proof fn lemma_sort_desc_sum(xs: Seq<(Seq<char>, u64)>)
    ensures
        sort_desc(xs).len() == xs.len(),
        count_sum(sort_desc(xs)) == count_sum(xs),
    decreases xs.len(),
{
    if xs.len() > 0 {
        let r = sort_desc(xs.drop_last());
        lemma_sort_desc_sum(xs.drop_last());
        lemma_first_below(r, xs.last().1, 0);
        lemma_count_sum_insert(r, first_below(r, xs.last().1, 0), xs.last());
    }
}

/// The divide counts of `ms` sum to the perft sum below them.
proof fn lemma_divide_sum(s: Snap, ms: Seq<Move>, depth: nat)
    requires
        depth >= 1,
        forall|m: Move| ms.contains(m) && depth > 1 ==> perft_count(#[trigger] step(s, m), (depth - 1) as nat) <= u64::MAX,
    ensures
        count_sum(divide_entries(s, ms, depth)) == (if depth == 1 {
            ms.len() as nat
        } else {
            perft_sum(s, ms, (depth - 1) as nat)
        }),
    decreases ms.len(),
{
    if ms.len() > 0 {
        let ds = divide_entries(s, ms, depth);
        assert(ds.drop_last() =~= divide_entries(s, ms.drop_last(), depth));
        assert forall|m: Move| ms.drop_last().contains(m) && depth > 1 implies perft_count(
            #[trigger] step(s, m),
            (depth - 1) as nat,
        ) <= u64::MAX by {
            let k = choose|k: int| 0 <= k < ms.drop_last().len() && ms.drop_last()[k] == m;
            assert(ms[k] == m);
        }
        lemma_divide_sum(s, ms.drop_last(), depth);
        assert(ms.contains(ms.last()));
        assert(ds.last().1 == divide_count(s, ms.last(), depth));
    } else {
        assert(divide_entries(s, ms, depth) =~= Seq::<(Seq<char>, u64)>::empty());
    }
}

/// The counts [`perft_divide`] reports, one per legal move, sum to the
/// perft count of the position at that depth.
pub proof fn law_divide_sums_to_perft(s: Snap, depth: nat)
    requires
        depth >= 1,
        forall|m: Move|
            legal_list(s).contains(m) && depth > 1 ==> perft_count(#[trigger] step(s, m), (depth - 1) as nat)
                <= u64::MAX,
    ensures
        sort_desc(divide_entries(s, legal_list(s), depth)).len() == legal_list(s).len(),
        count_sum(sort_desc(divide_entries(s, legal_list(s), depth))) == perft_count(s, depth),
{
    lemma_divide_sum(s, legal_list(s), depth);
    lemma_sort_desc_sum(divide_entries(s, legal_list(s), depth));
}

/// The labels of entries, in order.
pub open spec fn labels_of(xs: Seq<(Seq<char>, u64)>) -> Seq<Seq<char>> {
    xs.map_values(|p: (Seq<char>, u64)| p.0)
}

/// Sorting keeps the entries in order of non-increasing count, and keeps
/// the labels (as a multiset).
proof fn lemma_sort_desc_sorted(xs: Seq<(Seq<char>, u64)>)
    ensures
        forall|i: int, j: int|
            0 <= i < j < sort_desc(xs).len() ==> #[trigger] sort_desc(xs)[i].1 >= #[trigger] sort_desc(xs)[j].1,
        labels_of(sort_desc(xs)).to_multiset() == labels_of(xs).to_multiset(),
    decreases xs.len(),
{
    if xs.len() > 0 {
        let r = sort_desc(xs.drop_last());
        let x = xs.last();
        lemma_sort_desc_sorted(xs.drop_last());
        lemma_sort_desc_sum(xs.drop_last());
        lemma_first_below(r, x.1, 0);
        let p = first_below(r, x.1, 0);
        lemma_first_below_split(r, x.1, 0);
        let out = r.insert(p, x);
        assert forall|i: int, j: int| 0 <= i < j < out.len() implies #[trigger] out[i].1 >= #[trigger] out[j].1 by {
            if j < p {
                assert(out[i] == r[i] && out[j] == r[j]);
            } else if j == p {
                assert(out[i] == r[i]);
            } else if i < p {
                assert(out[i] == r[i] && out[j] == r[j - 1]);
                assert(r[i].1 >= r[j - 1].1);
            } else if i == p {
                assert(out[j] == r[j - 1]);
                assert(r[p].1 < x.1);
                if j - 1 > p {
                    assert(r[p].1 >= r[j - 1].1);
                }
            } else {
                assert(out[i] == r[i - 1] && out[j] == r[j - 1]);
            }
        }
        assert(labels_of(out) =~= labels_of(r).insert(p, x.0));
        vstd::seq_lib::to_multiset_insert(labels_of(r), p, x.0);
        assert(labels_of(xs) =~= labels_of(xs.drop_last()).push(x.0));
        vstd::seq_lib::to_multiset_build(labels_of(xs.drop_last()), x.0);
        assert(sort_desc(xs) == out);
        assert(labels_of(sort_desc(xs)).to_multiset() =~= labels_of(r).to_multiset().insert(x.0));
    } else {
        assert(labels_of(sort_desc(xs)) =~= labels_of(xs));
    }
}

/// Before `first_below(xs, n, i)` every count is at least `n`, and the
/// count there (if any) is below `n`.
proof fn lemma_first_below_split(xs: Seq<(Seq<char>, u64)>, n: u64, i: int)
    requires
        0 <= i <= xs.len(),
    ensures
        forall|k: int| i <= k < first_below(xs, n, i) ==> #[trigger] xs[k].1 >= n,
        first_below(xs, n, i) < xs.len() ==> xs[first_below(xs, n, i)].1 < n,
    decreases xs.len() - i,
{
    if i < xs.len() && xs[i].1 >= n {
        lemma_first_below_split(xs, n, i + 1);
    }
}

/// The ICCS label of a move of the board names the move.
proof fn lemma_label_names_move(a: Move, b: Move)
    requires
        0 <= mv_from(a) < 90,
        0 <= mv_to(a) < 90,
        0 <= mv_from(b) < 90,
        0 <= mv_to(b) < 90,
        iccs_spec(mv_from(a)) + iccs_spec(mv_to(a)) == iccs_spec(mv_from(b)) + iccs_spec(mv_to(b)),
    ensures
        a == b,
{
    let la = iccs_spec(mv_from(a)) + iccs_spec(mv_to(a));
    let lb = iccs_spec(mv_from(b)) + iccs_spec(mv_to(b));
    assert(la.subrange(0, 2) =~= iccs_spec(mv_from(a)));
    assert(lb.subrange(0, 2) =~= iccs_spec(mv_from(b)));
    assert(la.subrange(2, 4) =~= iccs_spec(mv_to(a)));
    assert(lb.subrange(2, 4) =~= iccs_spec(mv_to(b)));
    crate::square::law_iccs_roundtrip(mv_from(a) as u8);
    crate::square::law_iccs_roundtrip(mv_from(b) as u8);
    crate::square::law_iccs_roundtrip(mv_to(a) as u8);
    crate::square::law_iccs_roundtrip(mv_to(b) as u8);
    assert(a.0 == b.0);
}

/// [`perft_divide`]'s entries come with the largest count first, and no two
/// carry the same move label.
pub proof fn law_divide_sorted_and_labelled(s: Snap, depth: nat)
    requires
        snap_ok(s),
    ensures
        forall|i: int, j: int|
            0 <= i < j < sort_desc(divide_entries(s, legal_list(s), depth)).len() ==> #[trigger] sort_desc(
                divide_entries(s, legal_list(s), depth),
            )[i].1 >= #[trigger] sort_desc(divide_entries(s, legal_list(s), depth))[j].1,
        labels_of(sort_desc(divide_entries(s, legal_list(s), depth))).no_duplicates(),
{
    let xs = divide_entries(s, legal_list(s), depth);
    lemma_sort_desc_sorted(xs);
    crate::position::law_legal_moves_distinct(s);
    let l = labels_of(xs);
    assert forall|i: int, j: int| 0 <= i < l.len() && 0 <= j < l.len() && i != j implies l[i] != l[j] by {
        let a = legal_list(s)[i];
        let b = legal_list(s)[j];
        assert(legal_list(s).contains(a));
        assert(legal_list(s).contains(b));
        crate::position::lemma_legal_on_board(s, a);
        crate::position::lemma_legal_on_board(s, b);
        if l[i] == l[j] {
            lemma_label_names_move(a, b);
        }
    }
    assert(l.no_duplicates());
    l.lemma_multiset_has_no_duplicates();
    let ls = labels_of(sort_desc(xs));
    assert forall|x: Seq<char>| ls.to_multiset().contains(x) implies ls.to_multiset().count(x) == 1 by {}
    ls.lemma_multiset_has_no_duplicates_conv();
}

/// Perft split by root move: each legal move with its ICCS text and the
/// number of sequences below it, sorted by that number (largest first,
/// ties in generation order). The position is left as it was.
pub fn perft_divide(pos: &mut Position, depth: u32) -> (r: Vec<(String, u64)>)
    requires
        old(pos).wf(),
        old(pos).halfmove() + depth < 0xffff,
        old(pos).fullmove() + depth < 0xffff,
        forall|m: Move|
            legal_list(old(pos).snap()).contains(m) && depth > 1 ==> perft_count(
                #[trigger] step(old(pos).snap(), m),
                (depth - 1) as nat,
            ) <= u64::MAX,
    ensures
        final(pos).wf(),
        same_game(*final(pos), *old(pos)),
        pairs_view(r@) == sort_desc(
            divide_entries(old(pos).snap(), legal_list(old(pos).snap()), depth as nat),
        ),
{
    let mut list = MoveList::new();
    pos.gen_legal_into(&mut list);
    let ghost s = pos.snap();
    let ghost start = *pos;
    let ghost entries = divide_entries(s, list@, depth as nat);
    let mut out: Vec<(String, u64)> = Vec::new();
    let n = list.len();
    let mut i: usize = 0;
    assert(pairs_view(out@) =~= sort_desc(entries.take(0)));
    while i < n
        invariant
            pos.wf(),
            same_game(*pos, start),
            start.wf(),
            s == start.snap(),
            start.halfmove() + depth < 0xffff,
            start.fullmove() + depth < 0xffff,
            forall|m: Move|
                legal_list(s).contains(m) && depth > 1 ==> perft_count(
                    #[trigger] step(s, m),
                    (depth - 1) as nat,
                ) <= u64::MAX,
            list@ == legal_list(s),
            entries == divide_entries(s, list@, depth as nat),
            n == list@.len(),
            i <= n,
            pairs_view(out@) == sort_desc(entries.take(i as int)),
        decreases n - i,
    {
        let mv = list.get(i);
        proof {
            assert(list@[i as int] == mv);
            assert(list@.contains(mv));
            lemma_legal_move_ok(s, mv);
            lemma_step_ok(s, mv);
        }
        let mut label = crate::square::to_iccs(mv.from());
        let to_text = crate::square::to_iccs(mv.to());
        label.append(to_text.as_str());
        let ghost before = *pos;
        pos.make_move_unchecked(mv);
        let cnt = if depth <= 1 {
            1
        } else {
            perft(pos, depth - 1)
        };
        pos.unmake_move_unchecked();
        proof {
            assert(pos.stack() =~= before.stack());
            assert(pos.history_seq() =~= before.history_seq());
            assert(pos.past_states() =~= before.past_states());
        }
        let ghost sorted = pairs_view(out@);
        let ghost x = (label@, cnt);
        assert(x == entries[i as int]);
        let mut j: usize = 0;
        while j < out.len() && out[j].1 >= cnt
            invariant
                j <= out@.len(),
                sorted == pairs_view(out@),
                first_below(sorted, cnt, 0) == first_below(sorted, cnt, j as int),
            decreases out@.len() - j,
        {
            j += 1;
        }
        proof {
            lemma_first_below(sorted, cnt, 0);
        }
        out.insert(j, (label, cnt));
        proof {
            assert(entries.take(i as int + 1).drop_last() =~= entries.take(i as int));
            assert(pairs_view(out@) =~= sorted.insert(j as int, x));
        }
        i += 1;
    }
    assert(entries.take(n as int) =~= entries);
    out
}

} // verus!
