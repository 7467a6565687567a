//! Pseudo-legal move generation: moves that follow each piece's own rules
//! (blocked paths, horse legs, elephant eyes, cannon screens, palace and
//! river limits), without asking whether the mover's king is left attacked.
use vstd::prelude::*;

use crate::board::{
    can_land, cannon_moves, diag, diag_dc, diag_dr, horse_step, is_dir, line_moves_upto, ortho,
    ortho_dc, ortho_dr, pawn_moves, pawn_step, piece_moves, pseudo_moves, pseudo_upto, ray_first,
    ray_first_of, ray_measure, slide_moves, step_moves_upto, step_target,
};
use crate::color::{Color, fwd};
use crate::mv::{
    Move, MoveList, append_capped, capped, capped_push, lemma_append_capped_assoc,
    lemma_append_capped_cons, lemma_append_capped_empty, mk_move,
};
use crate::piece::{PieceKind, color_of, color_of_code, kind_of, kind_of_code};
use crate::position::Position;
use crate::square::{col, in_palace, index, on_board, on_board_spec, on_own_side, row, sq};

verus! {

/// The `k`-th horse jump and its leg, as in [`horse_step`].
fn horse_step_of(k: usize) -> (r: (i8, i8, i8, i8))
    requires
        k < 8,
    ensures
        r.0 == horse_step(k as int).0,
        r.1 == horse_step(k as int).1,
        r.2 == horse_step(k as int).2,
        r.3 == horse_step(k as int).3,
{
    match k {
        0 => (1, 2, 0, 1),
        1 => (-1, 2, 0, 1),
        2 => (1, -2, 0, -1),
        3 => (-1, -2, 0, -1),
        4 => (2, 1, 1, 0),
        5 => (2, -1, 1, 0),
        6 => (-2, 1, -1, 0),
        _ => (-2, -1, -1, 0),
    }
}

impl Position {
    /// Generates every pseudo-legal move of the side to move into `out`
    /// (which is cleared first), in board order, at most
    /// [`crate::mv::MAX_MOVES`] of them.
    pub fn gen_pseudo_into(&self, out: &mut MoveList)
        requires
            self.wf(),
        ensures
            final(out)@ == capped(pseudo_moves(self.board(), self.side())),
    {
        out.clear();
        let us = self.side_to_move();
        let mut idx: u8 = 0;
        proof {
            lemma_append_capped_empty(Seq::empty());
        }
        while idx < 90
            invariant
                self.wf(),
                us == self.side(),
                idx <= 90,
                out@ == capped(pseudo_upto(self.board(), us, idx as int)),
            decreases 90 - idx,
        {
            let ghost before = out@;
            let piece = self.piece_at(idx);
            let ours = match color_of(piece) {
                Some(c) => c == us,
                None => false,
            };
            if ours {
                let col = (idx % 9) as i8;
                let row = (idx / 9) as i8;
                match kind_of(piece) {
                    Some(PieceKind::Chariot) => self.gen_chariot(out, idx, col, row, us),
                    Some(PieceKind::Cannon) => self.gen_cannon(out, idx, col, row, us),
                    Some(PieceKind::Horse) => self.gen_horse(out, idx, col, row, us),
                    Some(PieceKind::Elephant) => self.gen_elephant(out, idx, col, row, us),
                    Some(PieceKind::Advisor) => self.gen_advisor(out, idx, col, row, us),
                    Some(PieceKind::King) => self.gen_king(out, idx, col, row, us),
                    Some(PieceKind::Pawn) => self.gen_pawn(out, idx, col, row, us),
                    None => {
                        proof {
                            lemma_append_capped_empty(before);
                        }
                    },
                }
            } else {
                proof {
                    lemma_append_capped_empty(before);
                }
            }
            proof {
                assert(out@ == append_capped(before, piece_moves(self.board(), us, idx as int)));
                lemma_append_capped_assoc(
                    Seq::empty(),
                    pseudo_upto(self.board(), us, idx as int),
                    piece_moves(self.board(), us, idx as int),
                );
            }
            idx += 1;
        }
    }

    /// Whether a piece of `us` may land on `idx`: empty, or an enemy piece
    /// other than the king.
    fn can_land_on(&self, idx: u8, us: Color) -> (r: bool)
        requires
            idx < 90,
        ensures
            r == can_land(self.board(), idx as int, us),
    {
        let p = self.piece_at(idx);
        if p == 0 {
            return true;
        }
        let own = match color_of(p) {
            Some(c) => c == us,
            None => false,
        };
        if own {
            return false;
        }
        match kind_of(p) {
            Some(PieceKind::King) => false,
            _ => true,
        }
    }

    /// Chariot moves from `from` in all four directions.
    fn gen_chariot(&self, out: &mut MoveList, from: u8, col: i8, row: i8, us: Color)
        requires
            from < 90,
            col == crate::square::col(from as int),
            row == crate::square::row(from as int),
        ensures
            final(out)@ == append_capped(
                old(out)@,
                line_moves_upto(self.board(), from as int, us, false, 4),
            ),
    {
        self.gen_lines(out, from, col, row, us, false)
    }

    /// Cannon moves from `from` in all four directions.
    fn gen_cannon(&self, out: &mut MoveList, from: u8, col: i8, row: i8, us: Color)
        requires
            from < 90,
            col == crate::square::col(from as int),
            row == crate::square::row(from as int),
        ensures
            final(out)@ == append_capped(
                old(out)@,
                line_moves_upto(self.board(), from as int, us, true, 4),
            ),
    {
        self.gen_lines(out, from, col, row, us, true)
    }

    /// Chariot or cannon moves along the four orthogonal lines.
    fn gen_lines(&self, out: &mut MoveList, from: u8, col: i8, row: i8, us: Color, cannon: bool)
        requires
            from < 90,
            col == crate::square::col(from as int),
            row == crate::square::row(from as int),
        ensures
            final(out)@ == append_capped(
                old(out)@,
                line_moves_upto(self.board(), from as int, us, cannon, 4),
            ),
    {
        let ghost out0 = out@;
        let mut d: usize = 0;
        proof {
            lemma_append_capped_empty(out0);
        }
        while d < 4
            invariant
                from < 90,
                col == crate::square::col(from as int),
                row == crate::square::row(from as int),
                d <= 4,
                out@ == append_capped(
                    out0,
                    line_moves_upto(self.board(), from as int, us, cannon, d as int),
                ),
            decreases 4 - d,
        {
            let ghost before = out@;
            let (dc, dr) = ortho(d);
            if cannon {
                self.gen_cannon_ray(out, from, col + dc, row + dr, dc, dr, us);
            } else {
                self.gen_slide_ray(out, from, col + dc, row + dr, dc, dr, us);
            }
            proof {
                lemma_append_capped_assoc(
                    out0,
                    line_moves_upto(self.board(), from as int, us, cannon, d as int),
                    if cannon {
                        cannon_moves(
                            self.board(),
                            from as int,
                            col + dc,
                            row + dr,
                            dc as int,
                            dr as int,
                            us,
                        )
                    } else {
                        slide_moves(
                            self.board(),
                            from as int,
                            col + dc,
                            row + dr,
                            dc as int,
                            dr as int,
                            us,
                        )
                    },
                );
            }
            d += 1;
        }
    }

    /// A chariot's moves along one ray starting at `(c0, r0)`.
    fn gen_slide_ray(
        &self,
        out: &mut MoveList,
        from: u8,
        c0: i8,
        r0: i8,
        dc: i8,
        dr: i8,
        us: Color,
    )
        requires
            from < 90,
            is_dir(dc as int, dr as int),
            -1 <= c0 <= 9,
            -1 <= r0 <= 10,
        ensures
            final(out)@ == append_capped(
                old(out)@,
                slide_moves(self.board(), from as int, c0 as int, r0 as int, dc as int, dr as int, us),
            ),
    {
        let ghost goal = append_capped(
            out@,
            slide_moves(self.board(), from as int, c0 as int, r0 as int, dc as int, dr as int, us),
        );
        let mut c = c0;
        let mut r = r0;
        while on_board(c, r) && self.piece_at(index(c as u8, r as u8)) == 0
            invariant
                from < 90,
                is_dir(dc as int, dr as int),
                -1 <= c <= 9,
                -1 <= r <= 10,
                goal == append_capped(
                    out@,
                    slide_moves(self.board(), from as int, c as int, r as int, dc as int, dr as int, us),
                ),
            decreases ray_measure(c as int, r as int, dc as int, dr as int),
        {
            let to = index(c as u8, r as u8);
            let mv = Move::new(from, to);
            proof {
                lemma_append_capped_cons(
                    out@,
                    mv,
                    slide_moves(self.board(), from as int, c + dc, r + dr, dc as int, dr as int, us),
                );
            }
            out.push(mv);
            c = c + dc;
            r = r + dr;
        }
        let ghost before = out@;
        if on_board(c, r) {
            let to = index(c as u8, r as u8);
            if self.can_land_on(to, us) {
                let mv = Move::new(from, to);
                proof {
                    lemma_append_capped_cons(before, mv, Seq::empty());
                    assert(seq![mv] + Seq::<Move>::empty() =~= seq![mv]);
                    lemma_append_capped_empty(capped_push(before, mv));
                }
                out.push(mv);
                return ;
            }
        }
        proof {
            lemma_append_capped_empty(before);
        }
    }

    /// A cannon's moves along one ray starting at `(c0, r0)`.
    fn gen_cannon_ray(
        &self,
        out: &mut MoveList,
        from: u8,
        c0: i8,
        r0: i8,
        dc: i8,
        dr: i8,
        us: Color,
    )
        requires
            from < 90,
            is_dir(dc as int, dr as int),
            -1 <= c0 <= 9,
            -1 <= r0 <= 10,
        ensures
            final(out)@ == append_capped(
                old(out)@,
                cannon_moves(self.board(), from as int, c0 as int, r0 as int, dc as int, dr as int, us),
            ),
    {
        let ghost goal = append_capped(
            out@,
            cannon_moves(self.board(), from as int, c0 as int, r0 as int, dc as int, dr as int, us),
        );
        let mut c = c0;
        let mut r = r0;
        while on_board(c, r) && self.piece_at(index(c as u8, r as u8)) == 0
            invariant
                from < 90,
                is_dir(dc as int, dr as int),
                -1 <= c <= 9,
                -1 <= r <= 10,
                goal == append_capped(
                    out@,
                    cannon_moves(self.board(), from as int, c as int, r as int, dc as int, dr as int, us),
                ),
            decreases ray_measure(c as int, r as int, dc as int, dr as int),
        {
            let to = index(c as u8, r as u8);
            let mv = Move::new(from, to);
            proof {
                lemma_append_capped_cons(
                    out@,
                    mv,
                    cannon_moves(self.board(), from as int, c + dc, r + dr, dc as int, dr as int, us),
                );
            }
            out.push(mv);
            c = c + dc;
            r = r + dr;
        }
        let ghost before = out@;
        if on_board(c, r) {
            if let Some(j) = ray_first_of(self.squares(), c + dc, r + dr, dc, dr) {
                if self.can_land_on(j, us) {
                    let mv = Move::new(from, j);
                    proof {
                        lemma_append_capped_cons(before, mv, Seq::empty());
                        assert(seq![mv] + Seq::<Move>::empty() =~= seq![mv]);
                        lemma_append_capped_empty(capped_push(before, mv));
                    }
                    out.push(mv);
                    return ;
                }
            }
        }
        proof {
            lemma_append_capped_empty(before);
        }
    }

    /// Target of the `k`-th single step of a `kind` piece on `from`, as in
    /// [`step_target`].
    fn step_target_of(&self, from: u8, col: i8, row: i8, us: Color, kind: PieceKind, k: usize) -> (r:
        Option<u8>)
        requires
            from < 90,
            col == crate::square::col(from as int),
            row == crate::square::row(from as int),
            k < 4 || (kind == PieceKind::Horse && k < 8),
        ensures
            match r {
                Some(t) => step_target(self.board(), from as int, us, kind, k as int) == Some(
                    t as int,
                ),
                None => step_target(self.board(), from as int, us, kind, k as int) is None,
            },
    {
        let (dc, dr, lc, lr) = match kind {
            PieceKind::Horse => horse_step_of(k),
            PieceKind::Elephant => {
                let (a, b) = diag(k);
                (2 * a, 2 * b, a, b)
            },
            PieceKind::Advisor => {
                let (a, b) = diag(k);
                (a, b, 0, 0)
            },
            _ => {
                let (a, b) = ortho(k);
                (a, b, 0, 0)
            },
        };
        let tc = col + dc;
        let tr = row + dr;
        if !on_board(tc, tr) {
            return None;
        }
        let allowed = match kind {
            PieceKind::Horse => self.piece_at(index((col + lc) as u8, (row + lr) as u8)) == 0,
            PieceKind::Elephant => on_own_side(us, tr as u8) && self.piece_at(
                index((col + lc) as u8, (row + lr) as u8),
            ) == 0,
            _ => in_palace(us, tc as u8, tr as u8),
        };
        if !allowed {
            return None;
        }
        let to = index(tc as u8, tr as u8);
        if self.can_land_on(to, us) {
            Some(to)
        } else {
            None
        }
    }

    /// Moves of a `kind` piece on `from` using its first `n` single steps.
    fn gen_steps(
        &self,
        out: &mut MoveList,
        from: u8,
        col: i8,
        row: i8,
        us: Color,
        kind: PieceKind,
        n: usize,
    )
        requires
            from < 90,
            col == crate::square::col(from as int),
            row == crate::square::row(from as int),
            n <= 4 || (kind == PieceKind::Horse && n <= 8),
        ensures
            final(out)@ == append_capped(
                old(out)@,
                step_moves_upto(self.board(), from as int, us, kind, n as int),
            ),
    {
        let ghost out0 = out@;
        proof {
            lemma_append_capped_empty(out0);
        }
        let mut k: usize = 0;
        while k < n
            invariant
                from < 90,
                col == crate::square::col(from as int),
                row == crate::square::row(from as int),
                n <= 4 || (kind == PieceKind::Horse && n <= 8),
                k <= n,
                out@ == append_capped(
                    out0,
                    step_moves_upto(self.board(), from as int, us, kind, k as int),
                ),
            decreases n - k,
        {
            let ghost before = out@;
            match self.step_target_of(from, col, row, us, kind, k) {
                Some(t) => {
                    let mv = Move::new(from, t);
                    proof {
                        lemma_append_capped_cons(before, mv, Seq::empty());
                        assert(seq![mv] + Seq::<Move>::empty() =~= seq![mv]);
                        lemma_append_capped_empty(capped_push(before, mv));
                        lemma_append_capped_assoc(
                            out0,
                            step_moves_upto(self.board(), from as int, us, kind, k as int),
                            seq![mk_move(from as int, t as int)],
                        );
                    }
                    out.push(mv);
                },
                None => {
                    proof {
                        lemma_append_capped_empty(before);
                        lemma_append_capped_assoc(
                            out0,
                            step_moves_upto(self.board(), from as int, us, kind, k as int),
                            Seq::empty(),
                        );
                        assert(step_moves_upto(self.board(), from as int, us, kind, k as int)
                            + Seq::<Move>::empty() =~= step_moves_upto(
                            self.board(),
                            from as int,
                            us,
                            kind,
                            k as int,
                        ));
                    }
                },
            }
            k += 1;
        }
    }

    /// Horse moves: eight jumps, each needing a free leg point.
    fn gen_horse(&self, out: &mut MoveList, from: u8, col: i8, row: i8, us: Color)
        requires
            from < 90,
            col == crate::square::col(from as int),
            row == crate::square::row(from as int),
        ensures
            final(out)@ == append_capped(
                old(out)@,
                step_moves_upto(self.board(), from as int, us, PieceKind::Horse, 8),
            ),
    {
        self.gen_steps(out, from, col, row, us, PieceKind::Horse, 8)
    }

    /// Elephant moves: four two-point diagonal steps with a free eye, never
    /// across the river.
    fn gen_elephant(&self, out: &mut MoveList, from: u8, col: i8, row: i8, us: Color)
        requires
            from < 90,
            col == crate::square::col(from as int),
            row == crate::square::row(from as int),
        ensures
            final(out)@ == append_capped(
                old(out)@,
                step_moves_upto(self.board(), from as int, us, PieceKind::Elephant, 4),
            ),
    {
        self.gen_steps(out, from, col, row, us, PieceKind::Elephant, 4)
    }

    /// Advisor moves: one diagonal step inside the palace.
    fn gen_advisor(&self, out: &mut MoveList, from: u8, col: i8, row: i8, us: Color)
        requires
            from < 90,
            col == crate::square::col(from as int),
            row == crate::square::row(from as int),
        ensures
            final(out)@ == append_capped(
                old(out)@,
                step_moves_upto(self.board(), from as int, us, PieceKind::Advisor, 4),
            ),
    {
        self.gen_steps(out, from, col, row, us, PieceKind::Advisor, 4)
    }

    /// King moves: one orthogonal step inside the palace. Facing kings are
    /// handled by the legality filter.
    fn gen_king(&self, out: &mut MoveList, from: u8, col: i8, row: i8, us: Color)
        requires
            from < 90,
            col == crate::square::col(from as int),
            row == crate::square::row(from as int),
        ensures
            final(out)@ == append_capped(
                old(out)@,
                step_moves_upto(self.board(), from as int, us, PieceKind::King, 4),
            ),
    {
        self.gen_steps(out, from, col, row, us, PieceKind::King, 4)
    }

    /// One pawn step to `(c, r)` if allowed.
    fn gen_pawn_step(&self, out: &mut MoveList, from: u8, c: i8, r: i8, us: Color)
        requires
            from < 90,
            -1 <= c <= 9,
            -1 <= r <= 10,
        ensures
            final(out)@ == append_capped(
                old(out)@,
                pawn_step(self.board(), from as int, c as int, r as int, us),
            ),
    {
        let ghost before = out@;
        if on_board(c, r) {
            let to = index(c as u8, r as u8);
            if self.can_land_on(to, us) {
                let mv = Move::new(from, to);
                proof {
                    lemma_append_capped_cons(before, mv, Seq::empty());
                    assert(seq![mv] + Seq::<Move>::empty() =~= seq![mv]);
                    lemma_append_capped_empty(capped_push(before, mv));
                }
                out.push(mv);
                return ;
            }
        }
        proof {
            lemma_append_capped_empty(before);
        }
    }

    /// Pawn moves: forward one point; sideways too once across the river.
    fn gen_pawn(&self, out: &mut MoveList, from: u8, col: i8, row: i8, us: Color)
        requires
            from < 90,
            col == crate::square::col(from as int),
            row == crate::square::row(from as int),
        ensures
            final(out)@ == append_capped(old(out)@, pawn_moves(self.board(), from as int, us)),
    {
        let ghost out0 = out@;
        let f = us.forward();
        self.gen_pawn_step(out, from, col, row + f, us);
        let ghost out1 = out@;
        let ghost s1 = pawn_step(self.board(), from as int, col as int, row + fwd(us), us);
        if !on_own_side(us, row as u8) {
            self.gen_pawn_step(out, from, col - 1, row, us);
            self.gen_pawn_step(out, from, col + 1, row, us);
            proof {
                let s2 = pawn_step(self.board(), from as int, col - 1, row as int, us);
                let s3 = pawn_step(self.board(), from as int, col + 1, row as int, us);
                lemma_append_capped_assoc(out1, s2, s3);
                lemma_append_capped_assoc(out0, s1, s2 + s3);
            }
        } else {
            proof {
                lemma_append_capped_assoc(out0, s1, Seq::empty());
                assert(s1 + Seq::<Move>::empty() =~= s1);
                lemma_append_capped_empty(out1);
            }
        }
    }
}

} // verus!
