//! Move encoding and the bounded move list.
//!
//! Xiangqi has no promotion, castling or en passant, so a move is just a
//! pair of board points: `from` in the high byte, `to` in the low byte.
use vstd::prelude::*;

use crate::color::Color;

verus! {

/// Capacity of a [`MoveList`].
pub const MAX_MOVES: usize = 256;

/// A move: bits 15..8 are `from`, bits 7..0 are `to` (flat board indices).
#[derive(Clone, Copy, PartialEq, Eq, Structural, Hash, Debug)]
pub struct Move(pub u16);

/// Origin of a move.
pub open spec fn mv_from(m: Move) -> int {
    m.0 as int / 256
}

/// Destination of a move.
pub open spec fn mv_to(m: Move) -> int {
    m.0 as int % 256
}

/// The move from `from` to `to`.
pub open spec fn mk_move(from: int, to: int) -> Move {
    Move((from * 256 + to) as u16)
}

/// Building a move and reading it back gives its endpoints.
pub proof fn lemma_move_fields(from: int, to: int)
    requires
        0 <= from < 256,
        0 <= to < 256,
    ensures
        mv_from(mk_move(from, to)) == from,
        mv_to(mk_move(from, to)) == to,
{
}

/// `s` with `m` appended, unless it is already full.
pub open spec fn capped_push(s: Seq<Move>, m: Move) -> Seq<Move> {
    if s.len() < MAX_MOVES {
        s.push(m)
    } else {
        s
    }
}

/// `s` followed by as much of `t` as fits in a [`MoveList`].
pub open spec fn append_capped(s: Seq<Move>, t: Seq<Move>) -> Seq<Move> {
    if s.len() >= MAX_MOVES {
        s
    } else if s.len() + t.len() <= MAX_MOVES {
        s + t
    } else {
        (s + t).take(MAX_MOVES as int)
    }
}

/// The first [`MAX_MOVES`] moves of `t`.
pub open spec fn capped(t: Seq<Move>) -> Seq<Move> {
    append_capped(Seq::empty(), t)
}

/// Appending one move at a time is appending the sequence.
pub proof fn lemma_append_capped_cons(s: Seq<Move>, m: Move, t: Seq<Move>)
    ensures
        append_capped(s, seq![m] + t) == append_capped(capped_push(s, m), t),
{
    if s.len() < MAX_MOVES {
        assert(s + (seq![m] + t) =~= s.push(m) + t);
        if s.len() + 1 + t.len() > MAX_MOVES && s.len() + 1 >= MAX_MOVES {
            assert((s.push(m) + t).take(MAX_MOVES as int) =~= s.push(m));
        }
    }
}

/// Appending nothing changes nothing.
pub proof fn lemma_append_capped_empty(s: Seq<Move>)
    ensures
        append_capped(s, Seq::empty()) == s,
{
    assert(s + Seq::<Move>::empty() =~= s);
}

/// Appending in two parts is appending the concatenation.
pub proof fn lemma_append_capped_assoc(s: Seq<Move>, t: Seq<Move>, u: Seq<Move>)
    ensures
        append_capped(append_capped(s, t), u) == append_capped(s, t + u),
{
    assert(s + (t + u) =~= (s + t) + u);
    if s.len() < MAX_MOVES && s.len() + t.len() > MAX_MOVES {
        assert(((s + t) + u).take(MAX_MOVES as int) =~= (s + t).take(MAX_MOVES as int));
    }
}

/// A list built by capped appends never exceeds [`MAX_MOVES`] unless it started longer.
pub proof fn lemma_append_capped_len(s: Seq<Move>, t: Seq<Move>)
    ensures
        s.len() <= MAX_MOVES ==> append_capped(s, t).len() <= MAX_MOVES,
        append_capped(s, t).len() <= s.len() + t.len(),
{
}

impl Move {
    /// The move from `from` to `to`.
    pub fn new(from: u8, to: u8) -> (r: Move)
        ensures
            r == mk_move(from as int, to as int),
            mv_from(r) == from,
            mv_to(r) == to,
    {
        Move((from as u16) * 256 + to as u16)
    }

    /// Origin index.
    pub fn from(self) -> (r: u8)
        ensures
            r == mv_from(self),
    {
        (self.0 / 256) as u8
    }

    /// Destination index.
    pub fn to(self) -> (r: u8)
        ensures
            r == mv_to(self),
    {
        (self.0 % 256) as u8
    }

    /// Whether this is the all-zero placeholder, which is never a legal move.
    pub fn is_null(self) -> (r: bool)
        ensures
            r == (self.0 == 0),
    {
        self.0 == 0
    }

    /// ICCS text of the move, such as `h2e2`.
    pub fn to_iccs_text(self) -> (r: String)
        ensures
            r@ == crate::square::iccs_spec(mv_from(self)) + crate::square::iccs_spec(mv_to(self)),
    {
        let mut s = crate::square::to_iccs(self.from());
        let t = crate::square::to_iccs(self.to());
        s.append(t.as_str());
        s
    }
}

/// A move list of bounded capacity ([`MAX_MOVES`]).
#[derive(Clone)]
pub struct MoveList {
    moves: Vec<Move>,
}

impl View for MoveList {
    type V = Seq<Move>;

    closed spec fn view(&self) -> Seq<Move> {
        self.moves@
    }
}

impl MoveList {
    /// An empty list.
    pub fn new() -> (r: MoveList)
        ensures
            r@ == Seq::<Move>::empty(),
    {
        MoveList { moves: Vec::new() }
    }

    /// Appends a move; a full list is left unchanged.
    pub fn push(&mut self, mv: Move)
        ensures
            old(self)@.len() < MAX_MOVES ==> final(self)@ == old(self)@.push(mv),
            old(self)@.len() >= MAX_MOVES ==> final(self)@ == old(self)@,
            final(self)@ == capped_push(old(self)@, mv),
    {
        if self.moves.len() < MAX_MOVES {
            self.moves.push(mv);
        }
    }

    /// Number of moves.
    pub fn len(&self) -> (r: usize)
        ensures
            r == self@.len(),
    {
        self.moves.len()
    }

    /// Whether the list is empty.
    pub fn is_empty(&self) -> (r: bool)
        ensures
            r == (self@.len() == 0),
    {
        self.moves.len() == 0
    }

    /// Removes every move.
    pub fn clear(&mut self)
        ensures
            final(self)@ == Seq::<Move>::empty(),
    {
        self.moves.clear();
    }

    /// The move at position `i`.
    pub fn get(&self, i: usize) -> (r: Move)
        requires
            i < self@.len(),
        ensures
            r == self@[i as int],
    {
        self.moves[i]
    }

    /// The moves as a slice.
    pub fn as_slice(&self) -> (r: &[Move])
        ensures
            r@ == self@,
    {
        self.moves.as_slice()
    }

    /// Iterator over the moves.
    pub fn iter(&self) -> (r: std::slice::Iter<'_, Move>)
        ensures
            vstd::std_specs::iter::IteratorSpec::remaining(&r) == self@.as_ref(),
    {
        proof {
            broadcast use vstd::std_specs::slice::axiom_spec_slice_iter;
        }
        self.moves.as_slice().iter()
    }

    /// Whether the list holds `mv`.
    pub fn contains(&self, mv: Move) -> (r: bool)
        ensures
            r == self@.contains(mv),
    {
        let mut i: usize = 0;
        while i < self.moves.len()
            invariant
                i <= self.moves@.len(),
                forall|j: int| 0 <= j < i ==> self.moves@[j] != mv,
            decreases self.moves@.len() - i,
        {
            if self.moves[i] == mv {
                return true;
            }
            i += 1;
        }
        false
    }

    /// The moves as a `Vec`.
    pub fn to_vec(&self) -> (r: Vec<Move>)
        ensures
            r@ == self@,
    {
        self.moves.clone()
    }
}

/// Record of a played move, enough to undo it exactly.
#[derive(Clone, Copy, Debug)]
pub struct MoveRecord {
    /// The move.
    pub mv: Move,
    /// The captured piece code (`0` when nothing was taken).
    pub captured: u8,
    /// The side that moved.
    pub mover: Color,
    /// Half-move clock before the move.
    pub prev_halfmove_clock: u16,
    /// Full-move number before the move.
    pub prev_fullmove_number: u16,
    /// Zobrist hash before the move.
    pub prev_hash: u64,
    /// Whether the move checked the opponent.
    pub gave_check: bool,
}

} // verus!
