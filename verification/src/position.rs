//! A full game position: the board, side to move, counters, incremental
//! Zobrist hash, and the history needed to take moves back.
//!
//! The model of a position is a [`Snap`]: the board, the side to move, the
//! two move counters and the two king squares. Making a move is [`step`],
//! taking it back is [`unstep`] applied to the [`MoveRecord`] that
//! [`record_of`] describes.
use vstd::prelude::*;

pub mod diagram;

use crate::board::{
    attacked, board_attacked, can_land, law_pseudo_moves_sound, lemma_sound_capped, moves_sound,
    pseudo_moves,
};
use crate::color::{Color, opp, side_zh};
use crate::mv::{Move, MoveList, MoveRecord, capped, mk_move, mv_from, mv_to};
use crate::piece::{
    EMPTY, PieceKind, color_of, color_of_code, kind_of, kind_of_code, piece_code, valid_code,
};
use crate::square::{col, iccs_spec, in_palace_spec, row, to_iccs};
use crate::text::{owned, push_str};
use crate::zobrist::{board_hash, piece_key, side_key, square_term, zobrist_hash};

verus! {

/// Mathematical state of a position: board, side to move, halfmove clock,
/// fullmove number, red king square, black king square.
pub type Snap = (Seq<u8>, Color, u16, u16, u8, u8);

/// Square code of `c`'s king.
pub open spec fn king_code(c: Color) -> u8 {
    piece_code(c, PieceKind::King)
}

/// A board of 90 valid square codes.
pub open spec fn sound_board(b: Seq<u8>) -> bool {
    b.len() == 90 && forall|i: int| 0 <= i < 90 ==> valid_code(#[trigger] b[i])
}

/// `k` is the one point of `b` that holds `c`'s king.
pub open spec fn sole_king(b: Seq<u8>, c: Color, k: u8) -> bool {
    &&& k < 90
    &&& b[k as int] == king_code(c)
    &&& forall|i: int| 0 <= i < 90 && #[trigger] b[i] == king_code(c) ==> i == k
}

/// King square of `c` in `s`.
pub open spec fn snap_king(s: Snap, c: Color) -> u8 {
    match c {
        Color::Red => s.4,
        Color::Black => s.5,
    }
}

/// A state the rules can work on: a sound board and correct king squares.
pub open spec fn snap_ok(s: Snap) -> bool {
    sound_board(s.0) && sole_king(s.0, Color::Red, s.4) && sole_king(s.0, Color::Black, s.5)
}

/// Whether `c`'s king is attacked in `s`.
pub open spec fn snap_in_check(s: Snap, c: Color) -> bool {
    attacked(s.0, snap_king(s, c) as int, opp(c))
}

/// Zobrist hash of a state.
pub open spec fn snap_hash(s: Snap) -> u64 {
    zobrist_hash(s.0, s.1)
}

/// Moves that [`step`] can apply: both points on the board, an own piece on
/// the origin, a target that is empty or an enemy piece other than the king,
/// and counters that do not overflow.
pub open spec fn move_ok(s: Snap, m: Move) -> bool {
    let f = mv_from(m);
    let t = mv_to(m);
    &&& 0 <= f < 90
    &&& 0 <= t < 90
    &&& f != t
    &&& color_of_code(s.0[f]) == Some(s.1)
    &&& can_land(s.0, t, s.1)
    &&& (s.0[t] == 0 ==> s.2 < 0xffff)
    &&& (s.1 == Color::Black ==> s.3 < 0xffff)
}

/// The state after playing `m` in `s`.
pub open spec fn step(s: Snap, m: Move) -> Snap {
    let f = mv_from(m);
    let t = mv_to(m);
    let p = s.0[f];
    let is_king = kind_of_code(p) == Some(PieceKind::King);
    (
        s.0.update(f, 0).update(t, p),
        opp(s.1),
        if s.0[t] != 0 {
            0
        } else {
            (s.2 + 1) as u16
        },
        if s.1 == Color::Black {
            (s.3 + 1) as u16
        } else {
            s.3
        },
        if is_king && s.1 == Color::Red {
            t as u8
        } else {
            s.4
        },
        if is_king && s.1 == Color::Black {
            t as u8
        } else {
            s.5
        },
    )
}

/// The record kept when `m` is played in `s`.
pub open spec fn record_of(s: Snap, m: Move) -> MoveRecord {
    MoveRecord {
        mv: m,
        captured: s.0[mv_to(m)],
        mover: s.1,
        prev_halfmove_clock: s.2,
        prev_fullmove_number: s.3,
        prev_hash: snap_hash(s),
        gave_check: snap_in_check(step(s, m), opp(s.1)),
    }
}

/// The state after taking back the move described by `rec` from `s`.
pub open spec fn unstep(s: Snap, rec: MoveRecord) -> Snap {
    let f = mv_from(rec.mv);
    let t = mv_to(rec.mv);
    let p = s.0[t];
    let is_king = kind_of_code(p) == Some(PieceKind::King);
    (
        s.0.update(f, p).update(t, rec.captured),
        rec.mover,
        rec.prev_halfmove_clock,
        rec.prev_fullmove_number,
        if is_king && rec.mover == Color::Red {
            f as u8
        } else {
            s.4
        },
        if is_king && rec.mover == Color::Black {
            f as u8
        } else {
            s.5
        },
    )
}

/// Whether `m` leaves the mover's own king unattacked.
pub open spec fn leaves_king_safe(s: Snap, m: Move) -> bool {
    !snap_in_check(step(s, m), s.1)
}


/// The test that keeps a move among the legal ones.
pub open spec fn safe_pred(s: Snap) -> spec_fn(Move) -> bool {
    |m: Move| leaves_king_safe(s, m)
}

/// Legal moves of a state, in generation order: the pseudo-legal moves
/// (at most [`crate::mv::MAX_MOVES`] of them) that leave the mover's king
/// unattacked.
pub open spec fn legal_list(s: Snap) -> Seq<Move> {
    capped(pseudo_moves(s.0, s.1)).filter(safe_pred(s))
}

/// The legal moves of a state fit in a [`crate::mv::MoveList`].
pub proof fn lemma_legal_list_len(s: Snap)
    ensures
        legal_list(s).len() <= crate::mv::MAX_MOVES,
{
    crate::mv::lemma_append_capped_len(Seq::empty(), pseudo_moves(s.0, s.1));
    capped(pseudo_moves(s.0, s.1)).lemma_filter_len(safe_pred(s));
}

/// Verdict of [`Position::make_move`] on move `m` in state `s`.
pub open spec fn move_verdict(s: Snap, m: Move) -> Result<(), IllegalMove> {
    let f = mv_from(m);
    let t = mv_to(m);
    if f == t {
        Err(IllegalMove::Null)
    } else if f >= 90 || t >= 90 {
        Err(IllegalMove::OffBoard { from: f as u8, to: t as u8 })
    } else if s.0[f] == 0 {
        Err(IllegalMove::NoPiece { from: f as u8 })
    } else if color_of_code(s.0[f]) != Some(s.1) {
        Err(IllegalMove::WrongSide { from: f as u8, expected: s.1 })
    } else if !legal_list(s).contains(m) {
        Err(IllegalMove::NotLegal { from: f as u8, to: t as u8 })
    } else {
        Ok(())
    }
}

/// Filtering a prefix one element longer.
pub proof fn lemma_filter_take<A>(s: Seq<A>, p: spec_fn(A) -> bool, i: int)
    requires
        0 <= i < s.len(),
    ensures
        s.take(i + 1).filter(p) == (if p(s[i]) {
            s.take(i).filter(p).push(s[i])
        } else {
            s.take(i).filter(p)
        }),
{
    reveal(Seq::filter);
    assert(s.take(i + 1).drop_last() =~= s.take(i));
}

/// Whether the counters have room for playing `m` in `s`: the halfmove
/// clock grows unless `m` captures, and the move number grows after a move
/// of Black.
pub open spec fn counters_fit(s: Snap, m: Move) -> bool {
    &&& (s.0[mv_to(m) as int] == 0 ==> s.2 < 0xffff)
    &&& (s.1 == Color::Black ==> s.3 < 0xffff)
}

/// Whether `m`, if legal in `s`, leaves the counters room to be played.
pub open spec fn room_to_play(s: Snap, m: Move) -> bool {
    legal_list(s).contains(m) ==> counters_fit(s, m)
}

/// Every legal move is a pseudo-legal move, so [`step`] may play it once the
/// counters have room.
pub proof fn lemma_legal_move_ok(s: Snap, m: Move)
    requires
        snap_ok(s),
        legal_list(s).contains(m),
        counters_fit(s, m),
    ensures
        move_ok(s, m),
        leaves_king_safe(s, m),
{
    law_pseudo_moves_sound(s.0, s.1, 90);
    lemma_sound_capped(s.0, s.1, pseudo_moves(s.0, s.1));
    let ps = capped(pseudo_moves(s.0, s.1));
    ps.lemma_filter_contains_rev(safe_pred(s), m);
    let i = choose|i: int| 0 <= i < ps.len() && ps[i] == m;
    assert(moves_sound(s.0, s.1, ps));
    assert(0 <= mv_from(ps[i]) < 90);
    reveal(Seq::filter);
    let j = choose|j: int| 0 <= j < legal_list(s).len() && legal_list(s)[j] == m;
    ps.lemma_filter_pred(safe_pred(s), j);
}

/// Every legal move joins two different points of the board, moves a
/// piece of the side to move and never lands on a king.
pub proof fn lemma_legal_on_board(s: Snap, m: Move)
    requires
        snap_ok(s),
        legal_list(s).contains(m),
    ensures
        mv_from(m) < 90,
        mv_to(m) < 90,
        mv_from(m) != mv_to(m),
        color_of_code(s.0[mv_from(m) as int]) == Some(s.1),
        kind_of_code(s.0[mv_to(m) as int]) != Some(PieceKind::King),
{
    law_pseudo_moves_sound(s.0, s.1, 90);
    lemma_sound_capped(s.0, s.1, pseudo_moves(s.0, s.1));
    let ps = capped(pseudo_moves(s.0, s.1));
    ps.lemma_filter_contains_rev(safe_pred(s), m);
}

/// A legal move keeps both kings in their palaces.
pub proof fn law_kings_stay_in_palace(s: Snap, m: Move)
    requires
        snap_ok(s),
        in_palace_spec(Color::Red, col(s.4 as int), row(s.4 as int)),
        in_palace_spec(Color::Black, col(s.5 as int), row(s.5 as int)),
        legal_list(s).contains(m),
    ensures
        in_palace_spec(Color::Red, col(step(s, m).4 as int), row(step(s, m).4 as int)),
        in_palace_spec(Color::Black, col(step(s, m).5 as int), row(step(s, m).5 as int)),
{
    lemma_legal_on_board(s, m);
    let pseudo = pseudo_moves(s.0, s.1);
    let ps = capped(pseudo);
    ps.lemma_filter_contains_rev(safe_pred(s), m);
    let i = choose|i: int| 0 <= i < ps.len() && ps[i] == m;
    assert(Seq::<Move>::empty() + pseudo =~= pseudo);
    assert(ps[i] == pseudo[i]);
    crate::board::law_king_moves_stay_home(s.0, s.1, 90);
    assert(crate::board::kings_kept_home(s.0, s.1, pseudo));
}

/// Keeping the elements that pass a test keeps a list free of duplicates.
proof fn lemma_filter_no_dup(ms: Seq<Move>, p: spec_fn(Move) -> bool)
    requires
        ms.no_duplicates(),
    ensures
        ms.filter(p).no_duplicates(),
    decreases ms.len(),
{
    reveal(Seq::filter);
    if ms.len() > 0 {
        let init = ms.drop_last();
        assert forall|i: int, j: int| 0 <= i < j < init.len() implies init[i] != init[j] by {
            assert(init[i] == ms[i] && init[j] == ms[j]);
        }
        lemma_filter_no_dup(init, p);
        if p(ms.last()) {
            let f = init.filter(p);
            assert forall|k: int| 0 <= k < f.len() implies f[k] != ms.last() by {
                assert(f.contains(f[k]));
                init.lemma_filter_contains_rev(p, f[k]);
                assert(init.contains(f[k]));
                let j = choose|j: int| 0 <= j < init.len() && init[j] == f[k];
                assert(ms[j] == f[k]);
            }
            assert forall|i: int, j: int| 0 <= i < j < f.push(ms.last()).len() implies f.push(ms.last())[i]
                != f.push(ms.last())[j] by {
                if j == f.len() {
                    assert(f.push(ms.last())[j] == ms.last());
                }
            }
        }
    }
}

/// No legal move is listed twice, and none lands on a king.
pub proof fn law_legal_moves_distinct(s: Snap)
    requires
        snap_ok(s),
    ensures
        legal_list(s).no_duplicates(),
        forall|i: int| 0 <= i < legal_list(s).len() ==> kind_of_code(s.0[mv_to(#[trigger] legal_list(s)[i]) as int])
            != Some(PieceKind::King),
{
    let pseudo = pseudo_moves(s.0, s.1);
    crate::board::law_pseudo_moves_distinct(s.0, s.1, 90);
    let c = capped(pseudo);
    assert(Seq::<Move>::empty() + pseudo =~= pseudo);
    assert forall|i: int, j: int| 0 <= i < j < c.len() implies c[i] != c[j] by {
        assert(c[i] == pseudo[i] && c[j] == pseudo[j]);
    }
    lemma_filter_no_dup(c, safe_pred(s));
    assert forall|i: int| 0 <= i < legal_list(s).len() implies kind_of_code(
        s.0[mv_to(#[trigger] legal_list(s)[i]) as int],
    ) != Some(PieceKind::King) by {
        assert(legal_list(s).contains(legal_list(s)[i]));
        lemma_legal_on_board(s, legal_list(s)[i]);
    }
}

/// The legal moves are exactly the pseudo-legal ones that keep the king safe.
pub proof fn law_legal_moves_are_safe(s: Snap, m: Move)
    requires
        snap_ok(s),
    ensures
        legal_list(s).contains(m) <==> (capped(pseudo_moves(s.0, s.1)).contains(m)
            && leaves_king_safe(s, m)),
{
    let ps = capped(pseudo_moves(s.0, s.1));
    if legal_list(s).contains(m) {
        ps.lemma_filter_contains_rev(safe_pred(s), m);
        let j = choose|j: int| 0 <= j < legal_list(s).len() && legal_list(s)[j] == m;
        ps.lemma_filter_pred(safe_pred(s), j);
    }
    if ps.contains(m) && leaves_king_safe(s, m) {
        let i = choose|i: int| 0 <= i < ps.len() && ps[i] == m;
        ps.lemma_filter_contains(safe_pred(s), i);
    }
}

/// Playing a move keeps the state well formed.
pub proof fn lemma_step_ok(s: Snap, m: Move)
    requires
        snap_ok(s),
        move_ok(s, m),
    ensures
        snap_ok(step(s, m)),
{
    let f = mv_from(m);
    let t = mv_to(m);
    let p = s.0[f];
    let nb = step(s, m).0;
    crate::piece::lemma_code_decompose(p);
    if s.0[t] != 0 {
        crate::piece::lemma_code_decompose(s.0[t]);
    }
    assert forall|i: int| 0 <= i < 90 implies valid_code(#[trigger] nb[i]) by {
        if i != f && i != t {
            assert(nb[i] == s.0[i]);
        }
    }
    assert forall|i: int| 0 <= i < 90 && #[trigger] nb[i] == king_code(Color::Red) implies i
        == step(s, m).4 by {
        if i != f && i != t {
            assert(nb[i] == s.0[i]);
        }
    }
    assert forall|i: int| 0 <= i < 90 && #[trigger] nb[i] == king_code(Color::Black) implies i
        == step(s, m).5 by {
        if i != f && i != t {
            assert(nb[i] == s.0[i]);
        }
    }
}

/// Whether each move of `line` may be played where it comes, from `s` on.
pub open spec fn playable(s: Snap, line: Seq<Move>) -> bool
    decreases line.len(),
{
    line.len() == 0 || (move_ok(s, line[0]) && playable(step(s, line[0]), line.drop_first()))
}

/// The state after playing `line` from `s`.
pub open spec fn play_line(s: Snap, line: Seq<Move>) -> Snap
    decreases line.len(),
{
    if line.len() == 0 {
        s
    } else {
        play_line(step(s, line[0]), line.drop_first())
    }
}

/// The records of the moves of `line` played from `s`, first move first.
pub open spec fn line_records(s: Snap, line: Seq<Move>) -> Seq<MoveRecord>
    decreases line.len(),
{
    if line.len() == 0 {
        Seq::empty()
    } else {
        seq![record_of(s, line[0])] + line_records(step(s, line[0]), line.drop_first())
    }
}

/// The state after taking back the moves of `recs` from `t`, last first.
pub open spec fn undo_records(t: Snap, recs: Seq<MoveRecord>) -> Snap
    decreases recs.len(),
{
    if recs.len() == 0 {
        t
    } else {
        undo_records(unstep(t, recs.last()), recs.drop_last())
    }
}

/// Taking back `a + b` takes back `b`, then `a`.
proof fn lemma_undo_concat(t: Snap, a: Seq<MoveRecord>, b: Seq<MoveRecord>)
    ensures
        undo_records(t, a + b) == undo_records(undo_records(t, b), a),
    decreases b.len(),
{
    if b.len() == 0 {
        assert(a + b =~= a);
    } else {
        assert((a + b).last() == b.last());
        assert((a + b).drop_last() =~= a + b.drop_last());
        lemma_undo_concat(unstep(t, b.last()), a, b.drop_last());
    }
}

/// Taking back, last first, the moves of a line played from a sound state
/// gives that state back: any number of moves made and then unmade
/// restore where they started.
pub proof fn law_undo_line(s: Snap, line: Seq<Move>)
    requires
        snap_ok(s),
        playable(s, line),
    ensures
        undo_records(play_line(s, line), line_records(s, line)) == s,
    decreases line.len(),
{
    if line.len() > 0 {
        let m = line[0];
        let s1 = step(s, m);
        lemma_step_ok(s, m);
        law_undo_line(s1, line.drop_first());
        let rest = line_records(s1, line.drop_first());
        lemma_undo_concat(play_line(s1, line.drop_first()), seq![record_of(s, m)], rest);
        law_unstep_undoes_step(s, m);
        let one = seq![record_of(s, m)];
        assert(one.drop_last() =~= Seq::<MoveRecord>::empty());
        assert(undo_records(s1, one) == undo_records(unstep(s1, record_of(s, m)), Seq::<MoveRecord>::empty()));
    }
}

/// Playing a move (as [`Position::make_move`] does) and taking it back (as
/// [`Position::unmake_move`] does) restores the whole position: the state,
/// the hash, the move stack, the history of hashes and the past states. So
/// any number of moves taken back in turn restores where they started.
pub proof fn law_make_then_unmake(p0: Position, m: Move, p1: Position, p2: Position)
    requires
        p0.wf(),
        p2.wf(),
        p1.snap() == step(p0.snap(), m),
        p1.stack() == p0.stack().push(record_of(p0.snap(), m)),
        p1.history_seq() == p0.history_seq().push(snap_hash(p1.snap())),
        p1.past_states() == p0.past_states().push(p0.snap()),
        p2.snap() == p1.past_states().last(),
        p2.stack() == p1.stack().drop_last(),
        p2.history_seq() == p1.history_seq().drop_last(),
        p2.past_states() == p1.past_states().drop_last(),
    ensures
        p2.snap() == p0.snap(),
        p2.hash_val() == p0.hash_val(),
        p2.stack() == p0.stack(),
        p2.history_seq() == p0.history_seq(),
        p2.past_states() == p0.past_states(),
{
    assert(p0.stack().push(record_of(p0.snap(), m)).drop_last() =~= p0.stack());
    assert(p0.history_seq().push(snap_hash(p1.snap())).drop_last() =~= p0.history_seq());
    assert(p0.past_states().push(p0.snap()).drop_last() =~= p0.past_states());
}

/// Taking back a move restores the state it was played from.
pub proof fn law_unstep_undoes_step(s: Snap, m: Move)
    requires
        snap_ok(s),
        move_ok(s, m),
    ensures
        unstep(step(s, m), record_of(s, m)) == s,
{
    let f = mv_from(m);
    let t = mv_to(m);
    let p = s.0[f];
    crate::piece::lemma_code_decompose(p);
    let u = unstep(step(s, m), record_of(s, m));
    assert(u.0 =~= s.0);
}

/// The Zobrist hash after a move, as the incremental update computes it:
/// remove the mover from its origin, remove the captured piece, put the
/// mover on its target, toggle the side key.
pub proof fn lemma_step_hash(s: Snap, m: Move)
    requires
        snap_ok(s),
        move_ok(s, m),
    ensures
        snap_hash(step(s, m)) == ((((snap_hash(s) ^ piece_key(s.0[mv_from(m)], mv_from(m))) as u64
            ^ square_term(s.0[mv_to(m)], mv_to(m))) as u64 ^ piece_key(
            s.0[mv_from(m)],
            mv_to(m),
        )) as u64 ^ side_key()) as u64,
{
    let f = mv_from(m);
    let t = mv_to(m);
    let p = s.0[f];
    let b1 = s.0.update(f, 0);
    crate::zobrist::lemma_hash_update(s.0, f, 0);
    crate::zobrist::lemma_hash_update(b1, t, p);
    assert(b1[t] == s.0[t]);
    let bh = board_hash(s.0, 90);
    let kf = piece_key(p, f);
    let tc = square_term(s.0[t], t);
    let kt = piece_key(p, t);
    let sk = side_key();
    assert(square_term(p, f) == kf);
    assert(square_term(p, t) == kt);
    assert(square_term(0, f) == 0);
    if s.1 == Color::Black {
        assert(((((bh ^ kf) ^ 0u64) ^ tc) ^ kt) == (((((bh ^ sk) ^ kf) ^ tc) ^ kt) ^ sk))
            by (bit_vector);
    } else {
        assert(((((bh ^ kf) ^ 0u64) ^ tc) ^ kt) ^ sk == ((((bh ^ kf) ^ tc) ^ kt) ^ sk))
            by (bit_vector);
    }
}

/// Why [`Position::from_squares`] refused a board.
#[derive(Clone, Copy, PartialEq, Eq, Structural, Debug)]
pub enum PositionError {
    /// A side has no king.
    MissingKing(Color),
    /// A side has more than one king.
    DuplicateKing(Color),
}

/// Why [`Position::make_move`] refused a move.
#[derive(Clone, Copy, PartialEq, Eq, Structural, Debug)]
pub enum IllegalMove {
    /// Origin and target are the same point.
    Null,
    /// Origin or target lies off the board.
    OffBoard { from: u8, to: u8 },
    /// No piece stands on the origin.
    NoPiece { from: u8 },
    /// The piece on the origin belongs to the other side.
    WrongSide { from: u8, expected: Color },
    /// The move would leave the mover's king attacked (facing kings included).
    LeavesKingInCheck,
    /// The piece cannot move that way (blocked path, hobbled horse, blocked
    /// elephant eye, palace or river limits).
    NotLegal { from: u8, to: u8 },
}

impl PositionError {
    /// The message shown for this error.
    pub open spec fn text(self) -> Seq<char> {
        match self {
            PositionError::MissingKing(c) => "局面缺少"@ + side_zh(c) + "方将帅"@,
            PositionError::DuplicateKing(c) => "局面出现多个"@ + side_zh(c) + "方将帅"@,
        }
    }

    /// The message shown for this error, such as `局面缺少红方将帅`.
    pub fn message(&self) -> (r: String)
        ensures
            r@ == self.text(),
    {
        match self {
            PositionError::MissingKing(c) => {
                let mut s = owned("局面缺少");
                push_str(&mut s, c.name_zh());
                push_str(&mut s, "方将帅");
                s
            },
            PositionError::DuplicateKing(c) => {
                let mut s = owned("局面出现多个");
                push_str(&mut s, c.name_zh());
                push_str(&mut s, "方将帅");
                s
            },
        }
    }
}

impl IllegalMove {
    /// The message shown for this error.
    pub open spec fn text(self) -> Seq<char> {
        match self {
            IllegalMove::Null => "起点与终点相同"@,
            IllegalMove::OffBoard { from, to } => "着法越界: "@ + iccs_spec(from as int) + " → "@
                + iccs_spec(to as int),
            IllegalMove::NoPiece { from } => "起点 "@ + iccs_spec(from as int) + " 没有棋子"@,
            IllegalMove::WrongSide { from, expected } => "起点 "@ + iccs_spec(from as int)
                + " 的棋子不属于"@ + side_zh(expected) + "方"@,
            IllegalMove::LeavesKingInCheck => "该着法会导致己方将帅被将（含白脸将）"@,
            IllegalMove::NotLegal { from, to } => iccs_spec(from as int) + " → "@ + iccs_spec(
                to as int,
            ) + " 不满足棋子走法规则（路径阻挡 / 蹩马腿 / 塞象眼 / 九宫河界限制）"@,
        }
    }

    /// The message shown for this error, such as `起点 e5 没有棋子`.
    pub fn message(&self) -> (r: String)
        ensures
            r@ == self.text(),
    {
        match self {
            IllegalMove::Null => owned("起点与终点相同"),
            IllegalMove::OffBoard { from, to } => {
                let mut s = owned("着法越界: ");
                push_str(&mut s, to_iccs(*from).as_str());
                push_str(&mut s, " → ");
                push_str(&mut s, to_iccs(*to).as_str());
                s
            },
            IllegalMove::NoPiece { from } => {
                let mut s = owned("起点 ");
                push_str(&mut s, to_iccs(*from).as_str());
                push_str(&mut s, " 没有棋子");
                s
            },
            IllegalMove::WrongSide { from, expected } => {
                let mut s = owned("起点 ");
                push_str(&mut s, to_iccs(*from).as_str());
                push_str(&mut s, " 的棋子不属于");
                push_str(&mut s, expected.name_zh());
                push_str(&mut s, "方");
                s
            },
            IllegalMove::LeavesKingInCheck => owned("该着法会导致己方将帅被将（含白脸将）"),
            IllegalMove::NotLegal { from, to } => {
                let mut s = to_iccs(*from);
                push_str(&mut s, " → ");
                push_str(&mut s, to_iccs(*to).as_str());
                push_str(&mut s, " 不满足棋子走法规则（路径阻挡 / 蹩马腿 / 塞象眼 / 九宫河界限制）");
                s
            },
        }
    }
}

/// Outcome of scanning a board for kings, as [`Position::from_squares`]
/// does: the first point that holds a second king of some side names that
/// side; otherwise a missing red king, then a missing black king.
pub open spec fn king_scan(b: Seq<u8>, i: int, red: Option<int>, black: Option<int>) -> Result<
    (int, int),
    PositionError,
>
    decreases 90 - i,
{
    if i >= 90 {
        match (red, black) {
            (Some(r), Some(k)) => Ok((r, k)),
            (None, _) => Err(PositionError::MissingKing(Color::Red)),
            (Some(_), None) => Err(PositionError::MissingKing(Color::Black)),
        }
    } else if b[i] == king_code(Color::Red) {
        if red is Some {
            Err(PositionError::DuplicateKing(Color::Red))
        } else {
            king_scan(b, i + 1, Some(i), black)
        }
    } else if b[i] == king_code(Color::Black) {
        if black is Some {
            Err(PositionError::DuplicateKing(Color::Black))
        } else {
            king_scan(b, i + 1, red, Some(i))
        }
    } else {
        king_scan(b, i + 1, red, black)
    }
}

/// Result of [`Position::from_squares`] on a board: the king squares, or why
/// the board was refused.
pub open spec fn kings_of(b: Seq<u8>) -> Result<(int, int), PositionError> {
    king_scan(b, 0, None, None)
}

/// What the scan knows once it has passed point `i`: each found king is the
/// only one so far, and an absent one has not occurred yet.
spec fn scan_state(b: Seq<u8>, i: int, c: Color, found: Option<int>) -> bool {
    match found {
        Some(k) => 0 <= k < i && b[k] == king_code(c) && forall|j: int|
            0 <= j < i && #[trigger] b[j] == king_code(c) ==> j == k,
        None => forall|j: int| 0 <= j < i ==> #[trigger] b[j] != king_code(c),
    }
}

/// A successful scan finds each king once, and nowhere else.
proof fn lemma_king_scan(b: Seq<u8>, i: int, red: Option<int>, black: Option<int>)
    requires
        b.len() == 90,
        0 <= i <= 90,
        scan_state(b, i, Color::Red, red),
        scan_state(b, i, Color::Black, black),
    ensures
        king_scan(b, i, red, black) matches Ok((r, k)) ==> (sole_king(b, Color::Red, r as u8)
            && sole_king(b, Color::Black, k as u8) && 0 <= r < 90 && 0 <= k < 90),
    decreases 90 - i,
{
    if i < 90 {
        if b[i] == king_code(Color::Red) {
            if red is None {
                assert(scan_state(b, i + 1, Color::Red, Some(i)));
                assert(scan_state(b, i + 1, Color::Black, black));
                lemma_king_scan(b, i + 1, Some(i), black);
            }
        } else if b[i] == king_code(Color::Black) {
            if black is None {
                assert(scan_state(b, i + 1, Color::Red, red));
                assert(scan_state(b, i + 1, Color::Black, Some(i)));
                lemma_king_scan(b, i + 1, red, Some(i));
            }
        } else {
            assert(scan_state(b, i + 1, Color::Red, red));
            assert(scan_state(b, i + 1, Color::Black, black));
            lemma_king_scan(b, i + 1, red, black);
        }
    }
}

/// When [`kings_of`] succeeds, each side has exactly one king, on the
/// points it names.
pub proof fn lemma_kings_found(b: Seq<u8>)
    requires
        b.len() == 90,
    ensures
        kings_of(b) matches Ok((r, k)) ==> (sole_king(b, Color::Red, r as u8) && sole_king(
            b,
            Color::Black,
            k as u8,
        ) && 0 <= r < 90 && 0 <= k < 90),
{
    lemma_king_scan(b, 0, None, None);
}

/// Code on point `i` of the standard initial board.
pub open spec fn start_code(i: int) -> u8 {
    let c = i % 9;
    let r = i / 9;
    let back: u8 = if c == 0 || c == 8 {
        5
    } else if c == 1 || c == 7 {
        4
    } else if c == 2 || c == 6 {
        3
    } else if c == 3 || c == 5 {
        2
    } else {
        1
    };
    if r == 0 {
        back
    } else if r == 9 {
        (back + 8) as u8
    } else if r == 2 && (c == 1 || c == 7) {
        6
    } else if r == 7 && (c == 1 || c == 7) {
        14
    } else if r == 3 && c % 2 == 0 {
        7
    } else if r == 6 && c % 2 == 0 {
        15
    } else {
        0
    }
}

/// The standard initial board.
pub open spec fn start_board() -> Seq<u8> {
    Seq::new(90, |i: int| start_code(i))
}

/// Boards with one king per side are accepted, with those kings.
pub proof fn lemma_kings_of_sole(b: Seq<u8>, r: u8, k: u8)
    requires
        b.len() == 90,
        sole_king(b, Color::Red, r),
        sole_king(b, Color::Black, k),
    ensures
        kings_of(b) == Ok::<(int, int), PositionError>((r as int, k as int)),
{
    lemma_king_scan_complete(b, 0, r, k);
}

/// The scan finds exactly the two sole kings.
proof fn lemma_king_scan_complete(b: Seq<u8>, i: int, r: u8, k: u8)
    requires
        b.len() == 90,
        0 <= i <= 90,
        sole_king(b, Color::Red, r),
        sole_king(b, Color::Black, k),
    ensures
        king_scan(
            b,
            i,
            if r < i {
                Some(r as int)
            } else {
                None
            },
            if k < i {
                Some(k as int)
            } else {
                None
            },
        ) == Ok::<(int, int), PositionError>((r as int, k as int)),
    decreases 90 - i,
{
    if i < 90 {
        lemma_king_scan_complete(b, i + 1, r, k);
        if b[i] == king_code(Color::Red) {
            assert(i == r);
        } else if b[i] == king_code(Color::Black) {
            assert(i == k);
        } else {
            assert(i != r);
            assert(i != k);
        }
    }
}

/// A game position.
#[derive(Clone)]
pub struct Position {
    squares: [u8; 90],
    side_to_move: Color,
    red_king: u8,
    black_king: u8,
    halfmove_clock: u16,
    fullmove_number: u16,
    hash: u64,
    history: Vec<u64>,
    move_stack: Vec<MoveRecord>,
    past: Ghost<Seq<Snap>>,
}

impl Position {
    /// The board.
    pub closed spec fn board(&self) -> Seq<u8> {
        self.squares@
    }

    /// Side to move.
    pub closed spec fn side(&self) -> Color {
        self.side_to_move
    }

    /// Halfmoves since the last capture.
    pub closed spec fn halfmove(&self) -> u16 {
        self.halfmove_clock
    }

    /// Fullmove number.
    pub closed spec fn fullmove(&self) -> u16 {
        self.fullmove_number
    }

    /// Cached king square of `c`.
    pub closed spec fn king(&self, c: Color) -> u8 {
        match c {
            Color::Red => self.red_king,
            Color::Black => self.black_king,
        }
    }

    /// Stored hash.
    pub closed spec fn hash_val(&self) -> u64 {
        self.hash
    }

    /// Hashes of every position of the game so far, the current one last.
    pub closed spec fn history_seq(&self) -> Seq<u64> {
        self.history@
    }

    /// Records of the moves played so far.
    pub closed spec fn stack(&self) -> Seq<MoveRecord> {
        self.move_stack@
    }

    /// States before each played move.
    pub closed spec fn past_states(&self) -> Seq<Snap> {
        self.past@
    }

    /// The current state.
    pub open spec fn snap(&self) -> Snap {
        (
            self.board(),
            self.side(),
            self.halfmove(),
            self.fullmove(),
            self.king(Color::Red),
            self.king(Color::Black),
        )
    }

    /// State before move `k`, or the current one for `k == ply`.
    pub open spec fn state_at(&self, k: int) -> Snap {
        if k < self.past_states().len() {
            self.past_states()[k]
        } else {
            self.snap()
        }
    }

    /// Move `k` of the game was played from state `k` and led to state `k + 1`.
    pub open spec fn chain_ok(&self, k: int) -> bool {
        let s = self.past_states()[k];
        let rec = self.stack()[k];
        &&& snap_ok(s)
        &&& move_ok(s, rec.mv)
        &&& rec == record_of(s, rec.mv)
        &&& self.state_at(k + 1) == step(s, rec.mv)
        &&& self.history_seq()[k] == snap_hash(s)
    }

    /// The position is consistent: a sound board with correct king squares,
    /// the hash of the current state, and a history in which every recorded
    /// move leads from one state to the next.
    pub open spec fn wf(&self) -> bool {
        &&& snap_ok(self.snap())
        &&& self.hash_val() == snap_hash(self.snap())
        &&& self.past_states().len() == self.stack().len()
        &&& self.history_seq().len() == self.stack().len() + 1
        &&& self.history_seq()[self.stack().len() as int] == self.hash_val()
        &&& forall|k: int| 0 <= k < self.stack().len() ==> #[trigger] self.chain_ok(k)
    }

    /// Builds a position from a board and counters, finding the kings and
    /// computing the hash. The board must hold valid codes only; this checks
    /// that each side has exactly one king.
    pub fn from_squares(
        squares: [u8; 90],
        side_to_move: Color,
        halfmove_clock: u16,
        fullmove_number: u16,
    ) -> (res: Result<Position, PositionError>)
        requires
            forall|i: int| 0 <= i < 90 ==> valid_code(#[trigger] squares@[i]),
        ensures
            match kings_of(squares@) {
                Ok((r, k)) => res matches Ok(p) && p.wf() && p.snap() == (
                    squares@,
                    side_to_move,
                    halfmove_clock,
                    fullmove_number,
                    r as u8,
                    k as u8,
                ) && p.stack().len() == 0 && p.history_seq() == seq![p.hash_val()],
                Err(e) => res == Err::<Position, PositionError>(e),
            },
    {
        let mut red_king: Option<u8> = None;
        let mut black_king: Option<u8> = None;
        let mut i: usize = 0;
        while i < 90
            invariant
                0 <= i <= 90,
                kings_of(squares@) == king_scan(
                    squares@,
                    i as int,
                    match red_king {
                        Some(r) => Some(r as int),
                        None => None,
                    },
                    match black_king {
                        Some(r) => Some(r as int),
                        None => None,
                    },
                ),
                scan_state(
                    squares@,
                    i as int,
                    Color::Red,
                    match red_king {
                        Some(r) => Some(r as int),
                        None => None,
                    },
                ),
                scan_state(
                    squares@,
                    i as int,
                    Color::Black,
                    match black_king {
                        Some(r) => Some(r as int),
                        None => None,
                    },
                ),
            decreases 90 - i,
        {
            let p = squares[i];
            if p == 1 {
                if red_king.is_some() {
                    return Err(PositionError::DuplicateKing(Color::Red));
                }
                red_king = Some(i as u8);
            } else if p == 9 {
                if black_king.is_some() {
                    return Err(PositionError::DuplicateKing(Color::Black));
                }
                black_king = Some(i as u8);
            }
            i += 1;
        }
        let rk = match red_king {
            Some(k) => k,
            None => {
                return Err(PositionError::MissingKing(Color::Red));
            },
        };
        let bk = match black_king {
            Some(k) => k,
            None => {
                return Err(PositionError::MissingKing(Color::Black));
            },
        };
        proof {
            lemma_king_scan(squares@, 90, Some(rk as int), Some(bk as int));
        }
        let hash = compute_hash(&squares, side_to_move);
        let mut history: Vec<u64> = Vec::new();
        history.push(hash);
        let p = Position {
            squares,
            side_to_move,
            red_king: rk,
            black_king: bk,
            halfmove_clock,
            fullmove_number,
            hash,
            history,
            move_stack: Vec::new(),
            past: Ghost(Seq::empty()),
        };
        assert(p.history_seq() =~= seq![p.hash_val()]);
        Ok(p)
    }

    /// The standard initial position, Red to move.
    pub fn startpos() -> (p: Position)
        ensures
            p.wf(),
            p.snap() == (start_board(), Color::Red, 0u16, 1u16, 4u8, 85u8),
            p.stack().len() == 0,
            p.history_seq() == seq![p.hash_val()],
    {
        let mut squares: [u8; 90] = [EMPTY; 90];
        let mut i: usize = 0;
        while i < 90
            invariant
                i <= 90,
                forall|j: int| 0 <= j < i ==> #[trigger] squares@[j] == start_code(j),
            decreases 90 - i,
        {
            squares[i] = start_code_of(i);
            i += 1;
        }
        assert(squares@ =~= start_board());
        proof {
            assert forall|j: int| 0 <= j < 90 && #[trigger] squares@[j] == king_code(Color::Red)
                implies j == 4 by {}
            assert forall|j: int| 0 <= j < 90 && #[trigger] squares@[j] == king_code(Color::Black)
                implies j == 85 by {}
            lemma_kings_of_sole(squares@, 4, 85);
        }
        let res = Position::from_squares(squares, Color::Red, 0, 1);
        res.unwrap()
    }

    /// An independent copy of the position, with the same state and the
    /// same game record.
    pub fn duplicate(&self) -> (r: Position)
        ensures
            r.snap() == self.snap(),
            r.stack() == self.stack(),
            r.history_seq() == self.history_seq(),
            r.past_states() == self.past_states(),
            r.hash_val() == self.hash_val(),
            self.wf() ==> r.wf(),
    {
        let mut history: Vec<u64> = Vec::new();
        let mut i: usize = 0;
        while i < self.history.len()
            invariant
                i <= self.history@.len(),
                history@ == self.history@.take(i as int),
            decreases self.history@.len() - i,
        {
            history.push(self.history[i]);
            i += 1;
            assert(history@ =~= self.history@.take(i as int));
        }
        assert(self.history@.take(i as int) =~= self.history@);
        let mut move_stack: Vec<MoveRecord> = Vec::new();
        let mut j: usize = 0;
        while j < self.move_stack.len()
            invariant
                j <= self.move_stack@.len(),
                move_stack@ == self.move_stack@.take(j as int),
            decreases self.move_stack@.len() - j,
        {
            move_stack.push(self.move_stack[j]);
            j += 1;
            assert(move_stack@ =~= self.move_stack@.take(j as int));
        }
        assert(self.move_stack@.take(j as int) =~= self.move_stack@);
        let r = Position {
            squares: self.squares,
            side_to_move: self.side_to_move,
            red_king: self.red_king,
            black_king: self.black_king,
            halfmove_clock: self.halfmove_clock,
            fullmove_number: self.fullmove_number,
            hash: self.hash,
            history,
            move_stack,
            past: Ghost(self.past@),
        };
        proof {
            if self.wf() {
                assert forall|k: int| 0 <= k < r.stack().len() implies #[trigger] r.chain_ok(k) by {
                    assert(self.chain_ok(k));
                }
            }
        }
        r
    }

    /// Side to move.
    pub fn side_to_move(&self) -> (r: Color)
        ensures
            r == self.side(),
    {
        self.side_to_move
    }

    /// Code of the piece on point `idx` (0 when empty).
    pub fn piece_at(&self, idx: u8) -> (r: u8)
        requires
            idx < 90,
        ensures
            r == self.board()[idx as int],
    {
        self.squares[idx as usize]
    }

    /// Whether point `idx` is occupied.
    pub fn is_occupied(&self, idx: u8) -> (r: bool)
        requires
            idx < 90,
        ensures
            r == (self.board()[idx as int] != 0),
    {
        self.squares[idx as usize] != EMPTY
    }

    /// Zobrist hash of the position.
    pub fn hash(&self) -> (r: u64)
        ensures
            r == self.hash_val(),
    {
        self.hash
    }

    /// Halfmoves since the last capture.
    pub fn halfmove_clock(&self) -> (r: u16)
        ensures
            r == self.halfmove(),
    {
        self.halfmove_clock
    }

    /// Fullmove number.
    pub fn fullmove_number(&self) -> (r: u16)
        ensures
            r == self.fullmove(),
    {
        self.fullmove_number
    }

    /// The whole board.
    pub fn squares(&self) -> (r: &[u8; 90])
        ensures
            r@ == self.board(),
    {
        &self.squares
    }

    /// Hashes of every position so far, the initial one first.
    pub fn history(&self) -> (r: &[u64])
        ensures
            r@ == self.history_seq(),
    {
        self.history.as_slice()
    }

    /// Records of the moves played so far.
    pub fn move_stack(&self) -> (r: &[MoveRecord])
        ensures
            r@ == self.stack(),
    {
        self.move_stack.as_slice()
    }

    /// Number of moves played.
    pub fn ply(&self) -> (r: usize)
        ensures
            r == self.stack().len(),
    {
        self.move_stack.len()
    }

    /// King square of `color`.
    pub fn king_index(&self, color: Color) -> (r: u8)
        ensures
            r == self.king(color),
    {
        match color {
            Color::Red => self.red_king,
            Color::Black => self.black_king,
        }
    }

    /// Whether `color`'s king stands inside its own palace.
    pub fn king_in_palace(&self, color: Color) -> (r: bool)
        requires
            self.wf(),
        ensures
            r == in_palace_spec(
                color,
                col(self.king(color) as int),
                row(self.king(color) as int),
            ),
    {
        let k = self.king_index(color);
        crate::square::in_palace(color, crate::square::col_of(k), crate::square::row_of(k))
    }

    /// Occupancy bitboard of `color`: bit `i` is set when point `i` holds a
    /// piece of that colour.
    pub fn occupancy(&self, color: Color) -> (r: u128)
        ensures
            forall|i: u128| i < 90 ==> (#[trigger] ((r >> i) & 1u128) == 1u128) == (color_of_code(
                self.board()[i as int],
            ) == Some(color)),
            r >> 90u128 == 0u128,
    {
        let mut occ: u128 = 0;
        let mut i: usize = 0;
        assert(0u128 >> 0u128 == 0u128) by (bit_vector);
        while i < 90
            invariant
                i <= 90,
                forall|j: u128| j < i ==> (#[trigger] ((occ >> j) & 1u128) == 1u128) == (
                color_of_code(self.squares@[j as int]) == Some(color)),
                occ >> (i as u128) == 0u128,
            decreases 90 - i,
        {
            let mine = match color_of(self.squares[i]) {
                Some(c) => c == color,
                None => false,
            };
            let ghost old_occ = occ;
            proof {
                lemma_set_bit(old_occ, i as u128);
            }
            if mine {
                occ = occ | (1u128 << (i as u128));
            }
            assert forall|j: u128| j < i + 1 implies (#[trigger] ((occ >> j) & 1u128) == 1u128) == (
            color_of_code(self.squares@[j as int]) == Some(color)) by {
                if j < i {
                    assert(((old_occ >> j) & 1u128) == 1u128 <==> color_of_code(
                        self.squares@[j as int],
                    ) == Some(color));
                }
            }
            i += 1;
        }
        occ
    }

    /// Occupancy bitboard of both sides.
    pub fn all_occupancy(&self) -> (r: u128)
        ensures
            forall|i: u128| i < 90 ==> (#[trigger] ((r >> i) & 1u128) == 1u128) == (
            self.board()[i as int] != 0),
            r >> 90u128 == 0u128,
    {
        let red = self.occupancy(Color::Red);
        let black = self.occupancy(Color::Black);
        let r = red | black;
        assert forall|i: u128| i < 90 implies (#[trigger] ((r >> i) & 1u128) == 1u128) == (
        self.board()[i as int] != 0) by {
            lemma_or_bit(red, black, i);
            assert(((red >> i) & 1u128) == 1u128 || ((red >> i) & 1u128) == 0u128) by (bit_vector);
        }
        assert((red >> 90u128) == 0u128 && (black >> 90u128) == 0u128 ==> ((red | black) >> 90u128)
            == 0u128) by (bit_vector);
        r
    }

    /// Whether point `target` is attacked by side `by`.
    pub fn is_attacked(&self, target: u8, by: Color) -> (r: bool)
        requires
            target < 90,
        ensures
            r == attacked(self.board(), target as int, by),
    {
        board_attacked(&self.squares, target, by)
    }

    /// Whether `color`'s king is attacked (facing kings included).
    pub fn is_in_check(&self, color: Color) -> (r: bool)
        requires
            self.wf(),
        ensures
            r == snap_in_check(self.snap(), color),
    {
        let k = self.king_index(color);
        board_attacked(&self.squares, k, color.opponent())
    }


    /// Whether playing `mv` would leave the mover's king unattacked.
    fn king_safe_after(&self, mv: Move) -> (r: bool)
        requires
            self.wf(),
            mv_from(mv) < 90,
            mv_to(mv) < 90,
        ensures
            r == leaves_king_safe(self.snap(), mv),
    {
        let from = mv.from();
        let to = mv.to();
        let mut b = self.squares;
        let piece = b[from as usize];
        b[from as usize] = EMPTY;
        b[to as usize] = piece;
        let us = self.side_to_move;
        let is_king = match kind_of(piece) {
            Some(k) => k == PieceKind::King,
            None => false,
        };
        let king = if is_king {
            to
        } else {
            self.king_index(us)
        };
        assert(b@ =~= step(self.snap(), mv).0);
        !board_attacked(&b, king, us.opponent())
    }

    /// All pseudo-legal moves of the side to move.
    pub fn pseudo_legal_moves(&self) -> (r: MoveList)
        requires
            self.wf(),
        ensures
            r@ == capped(pseudo_moves(self.board(), self.side())),
    {
        let mut list = MoveList::new();
        self.gen_pseudo_into(&mut list);
        list
    }

    /// Generates every legal move of the side to move into `out` (cleared
    /// first). The position is left as it was.
    pub fn gen_legal_into(&mut self, out: &mut MoveList)
        requires
            old(self).wf(),
        ensures
            *final(self) == *old(self),
            final(out)@ == legal_list(old(self).snap()),
    {
        out.clear();
        let mut pseudo = MoveList::new();
        self.gen_pseudo_into(&mut pseudo);
        let ghost s = self.snap();
        proof {
            law_pseudo_moves_sound(s.0, s.1, 90);
            lemma_sound_capped(s.0, s.1, pseudo_moves(s.0, s.1));
            reveal(Seq::filter);
            assert(pseudo@.take(0) =~= Seq::<Move>::empty());
        }
        let n = pseudo.len();
        let mut i: usize = 0;
        while i < n
            invariant
                self.wf(),
                s == self.snap(),
                n == pseudo@.len(),
                pseudo@ == capped(pseudo_moves(s.0, s.1)),
                moves_sound(s.0, s.1, pseudo@),
                n <= crate::mv::MAX_MOVES,
                i <= n,
                out@ == pseudo@.take(i as int).filter(safe_pred(s)),
            decreases n - i,
        {
            let mv = pseudo.get(i);
            proof {
                lemma_filter_take(pseudo@, safe_pred(s), i as int);
                pseudo@.take(i as int).lemma_filter_len(safe_pred(s));
            }
            if self.king_safe_after(mv) {
                out.push(mv);
            }
            i += 1;
        }
        assert(pseudo@.take(n as int) =~= pseudo@);
    }

    /// Every legal move of the side to move.
    pub fn legal_moves(&mut self) -> (r: Vec<Move>)
        requires
            old(self).wf(),
        ensures
            *final(self) == *old(self),
            r@ == legal_list(old(self).snap()),
    {
        let mut list = MoveList::new();
        self.gen_legal_into(&mut list);
        list.to_vec()
    }

    /// Whether the side to move has any legal move.
    pub fn has_legal_move(&mut self) -> (r: bool)
        requires
            old(self).wf(),
        ensures
            *final(self) == *old(self),
            r == (legal_list(old(self).snap()).len() > 0),
    {
        let mut pseudo = MoveList::new();
        self.gen_pseudo_into(&mut pseudo);
        let ghost s = self.snap();
        proof {
            law_pseudo_moves_sound(s.0, s.1, 90);
            lemma_sound_capped(s.0, s.1, pseudo_moves(s.0, s.1));
            reveal(Seq::filter);
            assert(pseudo@.take(0) =~= Seq::<Move>::empty());
        }
        let n = pseudo.len();
        let mut i: usize = 0;
        while i < n
            invariant
                self.wf(),
                s == self.snap(),
                n == pseudo@.len(),
                pseudo@ == capped(pseudo_moves(s.0, s.1)),
                moves_sound(s.0, s.1, pseudo@),
                i <= n,
                pseudo@.take(i as int).filter(safe_pred(s)).len() == 0,
            decreases n - i,
        {
            let mv = pseudo.get(i);
            proof {
                lemma_filter_take(pseudo@, safe_pred(s), i as int);
            }
            if self.king_safe_after(mv) {
                proof {
                    let a = pseudo@.take(i as int + 1);
                    let b = pseudo@.skip(i as int + 1);
                    assert(pseudo@ =~= a + b);
                    Seq::filter_distributes_over_add(a, b, safe_pred(s));
                }
                return true;
            }
            i += 1;
        }
        assert(pseudo@.take(n as int) =~= pseudo@);
        false
    }

    /// The legal move from `from` to `to`, if there is one.
    pub fn legal_move_to(&mut self, from: u8, to: u8) -> (r: Option<Move>)
        requires
            old(self).wf(),
        ensures
            *final(self) == *old(self),
            r == (if from < 90 && to < 90 && from != to && legal_list(old(self).snap()).contains(
                mk_move(from as int, to as int),
            ) {
                Some(mk_move(from as int, to as int))
            } else {
                None
            }),
    {
        if from >= 90 || to >= 90 || from == to {
            return None;
        }
        let mv = Move::new(from, to);
        let mut list = MoveList::new();
        self.gen_legal_into(&mut list);
        if list.contains(mv) {
            Some(mv)
        } else {
            None
        }
    }

    /// Whether `mv` is legal for the side to move.
    pub fn is_legal(&mut self, mv: Move) -> (r: bool)
        requires
            old(self).wf(),
        ensures
            *final(self) == *old(self),
            r == legal_list(old(self).snap()).contains(mv),
    {
        let mut list = MoveList::new();
        self.gen_legal_into(&mut list);
        list.contains(mv)
    }

    /// Plays `mv` if it is legal; otherwise reports why not and leaves the
    /// position unchanged.
    pub fn make_move(&mut self, mv: Move) -> (r: Result<(), IllegalMove>)
        requires
            old(self).wf(),
            move_verdict(old(self).snap(), mv) is Ok ==> counters_fit(old(self).snap(), mv),
        ensures
            final(self).wf(),
            r == move_verdict(old(self).snap(), mv),
            r is Ok ==> {
                &&& final(self).snap() == step(old(self).snap(), mv)
                &&& final(self).stack() == old(self).stack().push(record_of(old(self).snap(), mv))
                &&& final(self).history_seq() == old(self).history_seq().push(
                    snap_hash(final(self).snap()),
                )
                &&& final(self).past_states() == old(self).past_states().push(old(self).snap())
            },
            r is Err ==> *final(self) == *old(self),
    {
        let from = mv.from();
        let to = mv.to();
        if from == to {
            return Err(IllegalMove::Null);
        }
        if from >= 90 || to >= 90 {
            return Err(IllegalMove::OffBoard { from, to });
        }
        let piece = self.squares[from as usize];
        match color_of(piece) {
            None => {
                return Err(IllegalMove::NoPiece { from });
            },
            Some(c) => {
                if c != self.side_to_move {
                    return Err(IllegalMove::WrongSide { from, expected: self.side_to_move });
                }
            },
        }
        if !self.is_legal(mv) {
            return Err(IllegalMove::NotLegal { from, to });
        }
        proof {
            lemma_legal_move_ok(self.snap(), mv);
        }
        self.make_move_unchecked(mv);
        Ok(())
    }

    /// Takes back the last move; `None` at the start of the game.
    pub fn unmake_move(&mut self) -> (r: Option<MoveRecord>)
        requires
            old(self).wf(),
        ensures
            final(self).wf(),
            old(self).stack().len() == 0 ==> r is None && *final(self) == *old(self),
            old(self).stack().len() > 0 ==> {
                &&& r == Some(old(self).stack().last())
                &&& final(self).snap() == old(self).past_states().last()
                &&& final(self).stack() == old(self).stack().drop_last()
                &&& final(self).history_seq() == old(self).history_seq().drop_last()
                &&& final(self).past_states() == old(self).past_states().drop_last()
            },
    {
        if self.move_stack.len() == 0 {
            return None;
        }
        self.unmake_move_unchecked()
    }

    /// Checks that the stored data agree with the board: king squares, hash
    /// and history. These facts are invariants of the type, so the checks
    /// always pass.
    pub fn assert_consistent(&self)
        requires
            self.wf(),
    {
        let h = compute_hash(&self.squares, self.side_to_move);
        assert(h == self.hash);
        assert(self.squares@[self.red_king as int] == 1);
        assert(self.squares@[self.black_king as int] == 9);
        assert(self.history.len() == self.move_stack.len() + 1);
        assert(self.history@[self.history@.len() - 1] == self.hash);
    }

    /// Plays a move that the caller knows to be legal and returns the record
    /// that takes it back.
    #[verifier::spinoff_prover]
    #[verifier::rlimit(60)]
    pub fn make_move_unchecked(&mut self, mv: Move) -> (rec: MoveRecord)
        requires
            old(self).wf(),
            move_ok(old(self).snap(), mv),
        ensures
            final(self).wf(),
            rec == record_of(old(self).snap(), mv),
            final(self).snap() == step(old(self).snap(), mv),
            final(self).stack() == old(self).stack().push(rec),
            final(self).history_seq() == old(self).history_seq().push(final(self).hash_val()),
            final(self).past_states() == old(self).past_states().push(old(self).snap()),
    {
        let ghost s0 = self.snap();
        proof {
            lemma_step_ok(s0, mv);
            lemma_step_hash(s0, mv);
        }
        let from = mv.from();
        let to = mv.to();
        let us = self.side_to_move;
        let them = us.opponent();
        let piece = self.squares[from as usize];
        let captured = self.squares[to as usize];
        proof {
            crate::piece::lemma_code_decompose(piece);
        }
        let prev_halfmove_clock = self.halfmove_clock;
        let prev_fullmove_number = self.fullmove_number;
        let prev_hash = self.hash;

        if captured != EMPTY {
            self.halfmove_clock = 0;
        } else {
            self.halfmove_clock = self.halfmove_clock + 1;
        }
        self.squares[from as usize] = EMPTY;
        self.squares[to as usize] = piece;
        let is_king = match kind_of(piece) {
            Some(k) => k == PieceKind::King,
            None => false,
        };
        if is_king {
            match us {
                Color::Red => self.red_king = to,
                Color::Black => self.black_king = to,
            }
        }
        let mut h = self.hash ^ crate::zobrist::piece_key_of(piece, from as usize);
        if captured != EMPTY {
            proof {
                crate::piece::lemma_code_decompose(captured);
            }
            h = h ^ crate::zobrist::piece_key_of(captured, to as usize);
        } else {
            assert(h ^ 0u64 == h) by (bit_vector);
        }
        h = h ^ crate::zobrist::piece_key_of(piece, to as usize);
        h = h ^ crate::zobrist::side_key_of();
        self.hash = h;
        if us == Color::Black {
            self.fullmove_number = self.fullmove_number + 1;
        }
        self.side_to_move = them;
        assert(self.squares@ =~= s0.0.update(mv_from(mv), 0).update(mv_to(mv), piece));
        assert(self.snap() == step(s0, mv));
        let gave_check = board_attacked(&self.squares, self.king_index(them), us);
        let record = MoveRecord {
            mv,
            captured,
            mover: us,
            prev_halfmove_clock,
            prev_fullmove_number,
            prev_hash,
            gave_check,
        };
        self.history.push(h);
        self.move_stack.push(record);
        self.past = Ghost(self.past@.push(s0));
        proof {
            let n = self.move_stack@.len() - 1;
            assert forall|k: int| 0 <= k < self.stack().len() implies #[trigger] self.chain_ok(
                k,
            ) by {
                if k < n {
                    assert(old(self).chain_ok(k));
                    assert(self.history_seq()[k] == old(self).history_seq()[k]);
                    assert(self.stack()[k] == old(self).stack()[k]);
                    assert(self.past_states()[k] == old(self).past_states()[k]);
                    if k + 1 < n {
                        assert(self.state_at(k + 1) == old(self).state_at(k + 1));
                    } else {
                        assert(self.state_at(k + 1) == s0);
                    }
                } else {
                    assert(self.history_seq()[k] == old(self).history_seq()[k]);
                }
            }
        }
        record
    }

    /// Takes back the last move, returning its record; `None` at the start
    /// of the game.
    #[verifier::spinoff_prover]
    #[verifier::rlimit(60)]
    pub fn unmake_move_unchecked(&mut self) -> (r: Option<MoveRecord>)
        requires
            old(self).wf(),
        ensures
            final(self).wf(),
            old(self).stack().len() == 0 ==> {
                &&& r is None
                &&& final(self).snap() == old(self).snap()
                &&& final(self).stack() == old(self).stack()
                &&& final(self).history_seq() == old(self).history_seq()
                &&& final(self).past_states() == old(self).past_states()
            },
            old(self).stack().len() > 0 ==> {
                &&& r == Some(old(self).stack().last())
                &&& final(self).snap() == unstep(old(self).snap(), old(self).stack().last())
                &&& final(self).snap() == old(self).past_states().last()
                &&& final(self).stack() == old(self).stack().drop_last()
                &&& final(self).history_seq() == old(self).history_seq().drop_last()
                &&& final(self).past_states() == old(self).past_states().drop_last()
            },
    {
        if self.move_stack.len() == 0 {
            return None;
        }
        let ghost n = self.move_stack@.len() - 1;
        let ghost s = self.past@[n];
        proof {
            assert(self.chain_ok(n));
            law_unstep_undoes_step(s, self.move_stack@[n].mv);
        }
        let record = match self.move_stack.pop() {
            Some(r) => r,
            None => {
                return None;
            },
        };
        let from = record.mv.from();
        let to = record.mv.to();
        let us = record.mover;
        let piece = self.squares[to as usize];
        self.side_to_move = us;
        self.fullmove_number = record.prev_fullmove_number;
        self.halfmove_clock = record.prev_halfmove_clock;
        self.squares[from as usize] = piece;
        self.squares[to as usize] = record.captured;
        let is_king = match kind_of(piece) {
            Some(k) => k == PieceKind::King,
            None => false,
        };
        if is_king {
            match us {
                Color::Red => self.red_king = from,
                Color::Black => self.black_king = from,
            }
        }
        self.hash = record.prev_hash;
        self.history.pop();
        self.past = Ghost(self.past@.drop_last());
        proof {
            assert(self.squares@ =~= old(self).snap().0.update(mv_from(record.mv), piece).update(
                mv_to(record.mv),
                record.captured,
            ));
            assert(self.snap() == s);
            assert forall|k: int| 0 <= k < self.stack().len() implies #[trigger] self.chain_ok(
                k,
            ) by {
                assert(old(self).chain_ok(k));
                assert(self.history_seq()[k] == old(self).history_seq()[k]);
                assert(self.stack()[k] == old(self).stack()[k]);
                assert(self.past_states()[k] == old(self).past_states()[k]);
                if k + 1 < n {
                    assert(self.state_at(k + 1) == old(self).state_at(k + 1));
                } else {
                    assert(self.state_at(k + 1) == s);
                }
            }
        }
        Some(record)
    }
}

/// Code on point `i` of the standard initial board.
fn start_code_of(i: usize) -> (r: u8)
    requires
        i < 90,
    ensures
        r == start_code(i as int),
{
    let c = i % 9;
    let r = i / 9;
    let back: u8 = if c == 0 || c == 8 {
        5
    } else if c == 1 || c == 7 {
        4
    } else if c == 2 || c == 6 {
        3
    } else if c == 3 || c == 5 {
        2
    } else {
        1
    };
    if r == 0 {
        back
    } else if r == 9 {
        back + 8
    } else if r == 2 && (c == 1 || c == 7) {
        6
    } else if r == 7 && (c == 1 || c == 7) {
        14
    } else if r == 3 && c % 2 == 0 {
        7
    } else if r == 6 && c % 2 == 0 {
        15
    } else {
        0
    }
}


/// Board holding the first `n` of the given pieces on an empty board (a
/// later piece replaces an earlier one on the same point).
pub open spec fn placed(pieces: Seq<(Color, PieceKind, &str)>, n: int) -> Seq<u8>
    decreases n,
{
    if n <= 0 {
        Seq::new(90, |i: int| 0u8)
    } else {
        let (c, k, coord) = pieces[n - 1];
        placed(pieces, n - 1).update(
            crate::square::iccs_index(coord@).unwrap() as int,
            piece_code(c, k),
        )
    }
}

/// Builds a position from pieces given as `(colour, kind, ICCS point)`,
/// with clock 0 and move number 1. Every point must be valid ICCS text.
pub fn position_from_pieces(pieces: &[(Color, PieceKind, &str)], side_to_move: Color) -> (r:
    Result<Position, PositionError>)
    requires
        forall|i: int|
            0 <= i < pieces@.len() ==> (#[trigger] crate::square::iccs_index(pieces@[i].2@)) is Some,
    ensures
        match kings_of(placed(pieces@, pieces@.len() as int)) {
            Ok((rk, bk)) => r matches Ok(p) && p.wf() && p.snap() == (
                placed(pieces@, pieces@.len() as int),
                side_to_move,
                0u16,
                1u16,
                rk as u8,
                bk as u8,
            ) && p.stack().len() == 0,
            Err(e) => r == Err::<Position, PositionError>(e),
        },
{
    let mut squares: [u8; 90] = [EMPTY; 90];
    let mut i: usize = 0;
    assert(squares@ =~= placed(pieces@, 0));
    while i < pieces.len()
        invariant
            i <= pieces@.len(),
            squares@ == placed(pieces@, i as int),
            forall|j: int| 0 <= j < 90 ==> valid_code(#[trigger] squares@[j]),
            forall|j: int|
                0 <= j < pieces@.len() ==> (#[trigger] crate::square::iccs_index(pieces@[j].2@)) is Some,
        decreases pieces@.len() - i,
    {
        let (color, kind, coord) = pieces[i];
        assert(crate::square::iccs_index(pieces@[i as int].2@) is Some);
        let idx = match crate::square::from_iccs(coord) {
            Some(x) => x,
            None => 0,
        };
        let code = crate::piece::encode(color, kind);
        proof {
            crate::piece::lemma_code_roundtrip(color, kind);
        }
        squares[idx as usize] = code;
        i += 1;
    }
    Position::from_squares(squares, side_to_move, 0, 1)
}

/// Zobrist hash of a board and side, computed from scratch.
pub fn compute_hash(squares: &[u8; 90], side: Color) -> (h: u64)
    requires
        forall|i: int| 0 <= i < 90 ==> valid_code(#[trigger] squares@[i]),
    ensures
        h == zobrist_hash(squares@, side),
{
    let mut h: u64 = 0;
    let mut i: usize = 0;
    while i < 90
        invariant
            i <= 90,
            forall|j: int| 0 <= j < 90 ==> valid_code(#[trigger] squares@[j]),
            h == board_hash(squares@, i as int),
        decreases 90 - i,
    {
        let p = squares[i];
        if p != EMPTY {
            h = h ^ crate::zobrist::piece_key_of(p, i);
        } else {
            assert(h ^ 0u64 == h) by (bit_vector);
        }
        i += 1;
    }
    if side == Color::Black {
        h = h ^ crate::zobrist::side_key_of();
    }
    h
}

/// Setting bit `n` of a word whose bits from `n` up are clear.
proof fn lemma_set_bit(occ: u128, n: u128)
    requires
        n < 90,
        occ >> n == 0u128,
    ensures
        forall|j: u128| j < n ==> #[trigger] (((occ | (1u128 << n)) >> j) & 1u128) == ((occ >> j)
            & 1u128),
        ((occ | (1u128 << n)) >> n) & 1u128 == 1u128,
        (occ >> n) & 1u128 == 0u128,
        (occ | (1u128 << n)) >> (n + 1) == 0u128,
        occ >> (n + 1) == 0u128,
{
    assert forall|j: u128| j < n implies #[trigger] (((occ | (1u128 << n)) >> j) & 1u128) == ((occ
        >> j) & 1u128) by {
        assert(j < n && n < 90 ==> (((occ | (1u128 << n)) >> j) & 1u128) == ((occ >> j) & 1u128))
            by (bit_vector);
    }
    assert(n < 90 && occ >> n == 0u128 ==> (((occ | (1u128 << n)) >> n) & 1u128) == 1u128)
        by (bit_vector);
    assert(n < 90 && occ >> n == 0u128 ==> ((occ >> n) & 1u128) == 0u128) by (bit_vector);
    assert(n < 90 && occ >> n == 0u128 ==> ((occ | (1u128 << n)) >> (n + 1)) == 0u128)
        by (bit_vector);
    assert(n < 90 && occ >> n == 0u128 ==> (occ >> (n + 1)) == 0u128) by (bit_vector);
}

/// A bit of an OR is set when it is set in either operand.
proof fn lemma_or_bit(a: u128, b: u128, i: u128)
    requires
        i < 128,
    ensures
        (((a | b) >> i) & 1u128 == 1u128) == (((a >> i) & 1u128 == 1u128) || ((b >> i) & 1u128
            == 1u128)),
{
    assert(i < 128 ==> ((((a | b) >> i) & 1u128 == 1u128) == (((a >> i) & 1u128 == 1u128) || ((b
        >> i) & 1u128 == 1u128)))) by (bit_vector);
}

} // verus!
