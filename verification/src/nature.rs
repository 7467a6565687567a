//! What kind of move a move is: check, capture, a reply to check, or a
//! quiet move. Chasing and exchanging are named but never produced yet.
use vstd::prelude::*;

use crate::color::opp;
use crate::mv::{Move, mv_from, mv_to};
use crate::piece::{EMPTY, PieceKind, kind_of, kind_of_code};
use crate::position::{Position, Snap, move_ok, snap_in_check, step};
use crate::rules::same_game;

verus! {

/// Nature of a move.
#[derive(Clone, Copy, PartialEq, Eq, Structural, Debug)]
pub enum MoveNature {
    /// Gives check.
    Check,
    /// Captures (the mover was not in check).
    Capture,
    /// Threatens an insufficiently defended piece (not produced yet).
    Chase,
    /// Offers an even trade (not produced yet).
    Exchange,
    /// Blocks a check.
    Interpose,
    /// Moves the checked king.
    Escape,
    /// Captures the checking piece.
    CaptureAttacker,
    /// A quiet move.
    Idle,
}

/// Chinese name of a move nature.
pub open spec fn nature_name(n: MoveNature) -> Seq<char> {
    match n {
        MoveNature::Check => "将军"@,
        MoveNature::Capture => "吃子"@,
        MoveNature::Chase => "捉"@,
        MoveNature::Exchange => "兑"@,
        MoveNature::Interpose => "垫子解将"@,
        MoveNature::Escape => "避将"@,
        MoveNature::CaptureAttacker => "吃将军的子"@,
        MoveNature::Idle => "闲着"@,
    }
}

impl MoveNature {
    /// Chinese name.
    pub fn name_zh(self) -> (r: &'static str)
        ensures
            r@ == nature_name(self),
            self is Check ==> r@ == "将军"@,
            self is Capture ==> r@ == "吃子"@,
            self is Chase ==> r@ == "捉"@,
            self is Exchange ==> r@ == "兑"@,
            self is Interpose ==> r@ == "垫子解将"@,
            self is Escape ==> r@ == "避将"@,
            self is CaptureAttacker ==> r@ == "吃将军的子"@,
            self is Idle ==> r@ == "闲着"@,
    {
        match self {
            MoveNature::Check => "将军",
            MoveNature::Capture => "吃子",
            MoveNature::Chase => "捉",
            MoveNature::Exchange => "兑",
            MoveNature::Interpose => "垫子解将",
            MoveNature::Escape => "避将",
            MoveNature::CaptureAttacker => "吃将军的子",
            MoveNature::Idle => "闲着",
        }
    }

    /// Whether the opponent must answer at once.
    pub fn is_forcing(self) -> (r: bool)
        ensures
            r == (self is Check || self is CaptureAttacker || self is Escape),
    {
        match self {
            MoveNature::Check | MoveNature::CaptureAttacker | MoveNature::Escape => true,
            _ => false,
        }
    }
}

/// Nature of move `m` in state `s`: check first; then, if the mover was in
/// check, capturing the attacker, moving the king, or interposing; then a
/// capture; otherwise a quiet move.
pub open spec fn nature_spec(s: Snap, m: Move) -> MoveNature {
    let us = s.1;
    let captured = s.0[mv_to(m)];
    if snap_in_check(step(s, m), opp(us)) {
        MoveNature::Check
    } else if snap_in_check(s, us) {
        if captured != 0 {
            MoveNature::CaptureAttacker
        } else if kind_of_code(s.0[mv_from(m)]) == Some(PieceKind::King) {
            MoveNature::Escape
        } else {
            MoveNature::Interpose
        }
    } else if captured != 0 {
        MoveNature::Capture
    } else {
        MoveNature::Idle
    }
}

impl Position {
    /// Nature of a move of the side to move.
    pub fn nature_of(&mut self, mv: Move) -> (r: MoveNature)
        requires
            old(self).wf(),
            move_ok(old(self).snap(), mv),
        ensures
            final(self).wf(),
            same_game(*final(self), *old(self)),
            r == nature_spec(old(self).snap(), mv),
    {
        let us = self.side_to_move();
        let was_in_check = self.is_in_check(us);
        let moving_king = match kind_of(self.piece_at(mv.from())) {
            Some(k) => k == PieceKind::King,
            None => false,
        };
        let captured = self.piece_at(mv.to());
        let gives_check = self.move_gives_check(mv);
        if gives_check {
            return MoveNature::Check;
        }
        if was_in_check {
            if captured != EMPTY {
                return MoveNature::CaptureAttacker;
            }
            if moving_king {
                return MoveNature::Escape;
            }
            return MoveNature::Interpose;
        }
        if captured != EMPTY {
            return MoveNature::Capture;
        }
        MoveNature::Idle
    }
}

} // verus!
