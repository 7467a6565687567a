//! The geometry of a board: rays, attacks, and the points each piece may
//! move to. Everything here reads a board as a sequence of 90 square codes.
use vstd::prelude::*;

use crate::color::{Color, fwd};
use crate::mv::{Move, mk_move, mv_from, mv_to};
use crate::piece::{PieceKind, color_of, color_of_code, kind_of, kind_of_code};
use crate::square::{col, in_palace_spec, index, on_board, on_board_spec, own_side_spec, row, sq};

verus! {

/// File step of orthogonal direction `d`: up, down, right, left.
pub open spec fn ortho_dc(d: int) -> int {
    if d == 2 {
        1
    } else if d == 3 {
        -1
    } else {
        0
    }
}

/// Rank step of orthogonal direction `d`: up, down, right, left.
pub open spec fn ortho_dr(d: int) -> int {
    if d == 0 {
        1
    } else if d == 1 {
        -1
    } else {
        0
    }
}

/// File step of diagonal direction `d`: (1,1), (1,-1), (-1,1), (-1,-1).
pub open spec fn diag_dc(d: int) -> int {
    if d < 2 {
        1
    } else {
        -1
    }
}

/// Rank step of diagonal direction `d`: (1,1), (1,-1), (-1,1), (-1,-1).
pub open spec fn diag_dr(d: int) -> int {
    if d == 0 || d == 2 {
        1
    } else {
        -1
    }
}

/// Whether `(dc, dr)` is one of the four orthogonal unit steps.
pub open spec fn is_dir(dc: int, dr: int) -> bool {
    (dc == 0 && (dr == 1 || dr == -1)) || (dr == 0 && (dc == 1 || dc == -1))
}

/// Number of steps left before a ray in direction `(dc, dr)` leaves the board.
pub open spec fn ray_measure(c: int, r: int, dc: int, dr: int) -> int {
    (if dc == 1 {
        9 - c
    } else if dc == -1 {
        c + 1
    } else {
        0
    }) + (if dr == 1 {
        10 - r
    } else if dr == -1 {
        r + 1
    } else {
        0
    })
}

/// First occupied point met walking from `(c, r)` (inclusive) in direction
/// `(dc, dr)`, or `None` if the walk leaves the board first.
pub open spec fn ray_first(b: Seq<u8>, c: int, r: int, dc: int, dr: int) -> Option<int>
    decreases ray_measure(c, r, dc, dr),
{
    if !is_dir(dc, dr) || !on_board_spec(c, r) {
        None
    } else if b[sq(c, r)] != 0 {
        Some(sq(c, r))
    } else {
        ray_first(b, c + dc, r + dr, dc, dr)
    }
}

/// Whether point `i` of `b` holds a piece of colour `c` and kind `k`.
pub open spec fn holds(b: Seq<u8>, i: int, c: Color, k: PieceKind) -> bool {
    color_of_code(b[i]) == Some(c) && kind_of_code(b[i]) == Some(k)
}

/// Whether a piece of `by` on the orthogonal line `d` from `(tc, tr)` attacks
/// that point: a chariot as the first piece met, or a king as the first piece
/// met on the same file (at any distance) or right next to it on the rank.
pub open spec fn line_attack(b: Seq<u8>, tc: int, tr: int, d: int, by: Color) -> bool {
    let dc = ortho_dc(d);
    let dr = ortho_dr(d);
    match ray_first(b, tc + dc, tr + dr, dc, dr) {
        Some(i) => holds(b, i, by, PieceKind::Chariot) || (holds(b, i, by, PieceKind::King) && (
        dc == 0 || i == sq(tc + dc, tr + dr))),
        None => false,
    }
}

/// Whether a cannon of `by` attacks `(tc, tr)` along line `d`: it is the
/// second piece met, with exactly one piece (the screen) in between.
pub open spec fn cannon_attack(b: Seq<u8>, tc: int, tr: int, d: int, by: Color) -> bool {
    let dc = ortho_dc(d);
    let dr = ortho_dr(d);
    match ray_first(b, tc + dc, tr + dr, dc, dr) {
        Some(i) => match ray_first(b, col(i) + dc, row(i) + dr, dc, dr) {
            Some(j) => holds(b, j, by, PieceKind::Cannon),
            None => false,
        },
        None => false,
    }
}

/// Offsets, relative to an attacked point, of the `k`-th square a horse may
/// attack it from, and of that horse's leg.
pub open spec fn horse_attacker(k: int) -> (int, int, int, int) {
    if k == 0 {
        (1, 2, 1, 1)
    } else if k == 1 {
        (1, -2, 1, -1)
    } else if k == 2 {
        (-1, 2, -1, 1)
    } else if k == 3 {
        (-1, -2, -1, -1)
    } else if k == 4 {
        (2, 1, 1, 1)
    } else if k == 5 {
        (2, -1, 1, -1)
    } else if k == 6 {
        (-2, 1, -1, 1)
    } else {
        (-2, -1, -1, -1)
    }
}

/// Whether a horse of `by` attacks `(tc, tr)` from its `k`-th source square
/// with its leg free.
pub open spec fn horse_attack(b: Seq<u8>, tc: int, tr: int, k: int, by: Color) -> bool {
    let (dc, dr, lc, lr) = horse_attacker(k);
    &&& on_board_spec(tc + dc, tr + dr)
    &&& holds(b, sq(tc + dc, tr + dr), by, PieceKind::Horse)
    &&& on_board_spec(tc + lc, tr + lr)
    &&& b[sq(tc + lc, tr + lr)] == 0
}

/// Whether a pawn of `by` sits on `(c, r)`.
pub open spec fn pawn_on(b: Seq<u8>, c: int, r: int, by: Color) -> bool {
    on_board_spec(c, r) && holds(b, sq(c, r), by, PieceKind::Pawn)
}

/// Whether a pawn of `by` attacks `(tc, tr)`: from behind, or from the side
/// once that rank lies across the river for `by`.
pub open spec fn pawn_attack(b: Seq<u8>, tc: int, tr: int, by: Color) -> bool {
    pawn_on(b, tc, tr - fwd(by), by) || (!own_side_spec(by, tr) && (pawn_on(b, tc - 1, tr, by)
        || pawn_on(b, tc + 1, tr, by)))
}

/// Whether point `t` is attacked by side `by`. Kings facing each other on an
/// open file count as attacking each other.
pub open spec fn attacked(b: Seq<u8>, t: int, by: Color) -> bool {
    let tc = col(t);
    let tr = row(t);
    ||| line_attack(b, tc, tr, 0, by)
    ||| line_attack(b, tc, tr, 1, by)
    ||| line_attack(b, tc, tr, 2, by)
    ||| line_attack(b, tc, tr, 3, by)
    ||| cannon_attack(b, tc, tr, 0, by)
    ||| cannon_attack(b, tc, tr, 1, by)
    ||| cannon_attack(b, tc, tr, 2, by)
    ||| cannon_attack(b, tc, tr, 3, by)
    ||| horse_attack(b, tc, tr, 0, by)
    ||| horse_attack(b, tc, tr, 1, by)
    ||| horse_attack(b, tc, tr, 2, by)
    ||| horse_attack(b, tc, tr, 3, by)
    ||| horse_attack(b, tc, tr, 4, by)
    ||| horse_attack(b, tc, tr, 5, by)
    ||| horse_attack(b, tc, tr, 6, by)
    ||| horse_attack(b, tc, tr, 7, by)
    ||| pawn_attack(b, tc, tr, by)
}


/// Whether a piece of `us` may land on point `i`: it is empty, or holds an
/// enemy piece other than the king (a king is never captured: the game ends
/// at checkmate).
pub open spec fn can_land(b: Seq<u8>, i: int, us: Color) -> bool {
    b[i] == 0 || (color_of_code(b[i]) != Some(us) && kind_of_code(b[i]) != Some(PieceKind::King))
}

/// Moves from `from` of a chariot sliding through `(c, r)` in direction
/// `(dc, dr)`: every empty point, then the first occupied point if it may be
/// captured.
pub open spec fn slide_moves(
    b: Seq<u8>,
    from: int,
    c: int,
    r: int,
    dc: int,
    dr: int,
    us: Color,
) -> Seq<Move>
    decreases ray_measure(c, r, dc, dr),
{
    if !is_dir(dc, dr) || !on_board_spec(c, r) {
        Seq::empty()
    } else if b[sq(c, r)] == 0 {
        seq![mk_move(from, sq(c, r))] + slide_moves(b, from, c + dc, r + dr, dc, dr, us)
    } else if can_land(b, sq(c, r), us) {
        seq![mk_move(from, sq(c, r))]
    } else {
        Seq::empty()
    }
}

/// Moves from `from` of a cannon going through `(c, r)` in direction
/// `(dc, dr)`: every empty point up to the first piece (the screen), then
/// the first piece beyond the screen if it may be captured.
pub open spec fn cannon_moves(
    b: Seq<u8>,
    from: int,
    c: int,
    r: int,
    dc: int,
    dr: int,
    us: Color,
) -> Seq<Move>
    decreases ray_measure(c, r, dc, dr),
{
    if !is_dir(dc, dr) || !on_board_spec(c, r) {
        Seq::empty()
    } else if b[sq(c, r)] == 0 {
        seq![mk_move(from, sq(c, r))] + cannon_moves(b, from, c + dc, r + dr, dc, dr, us)
    } else {
        match ray_first(b, c + dc, r + dr, dc, dr) {
            Some(j) => if can_land(b, j, us) {
                seq![mk_move(from, j)]
            } else {
                Seq::empty()
            },
            None => Seq::empty(),
        }
    }
}

/// Chariot (`cannon == false`) or cannon moves from `from` along the first
/// `n` orthogonal directions.
pub open spec fn line_moves_upto(b: Seq<u8>, from: int, us: Color, cannon: bool, n: int) -> Seq<
    Move,
>
    decreases n,
{
    if n <= 0 {
        Seq::empty()
    } else {
        let d = n - 1;
        let c = col(from) + ortho_dc(d);
        let r = row(from) + ortho_dr(d);
        line_moves_upto(b, from, us, cannon, n - 1) + if cannon {
            cannon_moves(b, from, c, r, ortho_dc(d), ortho_dr(d), us)
        } else {
            slide_moves(b, from, c, r, ortho_dc(d), ortho_dr(d), us)
        }
    }
}

/// Offsets of the `k`-th horse jump and of its leg, relative to the horse.
pub open spec fn horse_step(k: int) -> (int, int, int, int) {
    if k == 0 {
        (1, 2, 0, 1)
    } else if k == 1 {
        (-1, 2, 0, 1)
    } else if k == 2 {
        (1, -2, 0, -1)
    } else if k == 3 {
        (-1, -2, 0, -1)
    } else if k == 4 {
        (2, 1, 1, 0)
    } else if k == 5 {
        (2, -1, 1, 0)
    } else if k == 6 {
        (-2, 1, -1, 0)
    } else {
        (-2, -1, -1, 0)
    }
}

/// Target of the `k`-th single step of a piece of kind `kind` standing on
/// `from`, if that step is allowed: horse jumps need a free leg, elephant
/// steps a free eye and must stay on their own half, advisor and king steps
/// must stay inside the palace.
pub open spec fn step_target(b: Seq<u8>, from: int, us: Color, kind: PieceKind, k: int) -> Option<
    int,
> {
    let c = col(from);
    let r = row(from);
    let (dc, dr, lc, lr) = match kind {
        PieceKind::Horse => horse_step(k),
        PieceKind::Elephant => (2 * diag_dc(k), 2 * diag_dr(k), diag_dc(k), diag_dr(k)),
        PieceKind::Advisor => (diag_dc(k), diag_dr(k), 0, 0),
        _ => (ortho_dc(k), ortho_dr(k), 0, 0),
    };
    let tc = c + dc;
    let tr = r + dr;
    let allowed = match kind {
        PieceKind::Horse => b[sq(c + lc, r + lr)] == 0,
        PieceKind::Elephant => own_side_spec(us, tr) && b[sq(c + lc, r + lr)] == 0,
        _ => in_palace_spec(us, tc, tr),
    };
    if on_board_spec(tc, tr) && allowed && can_land(b, sq(tc, tr), us) {
        Some(sq(tc, tr))
    } else {
        None
    }
}

/// Moves from `from` using the first `n` single steps of `kind`.
pub open spec fn step_moves_upto(b: Seq<u8>, from: int, us: Color, kind: PieceKind, n: int) -> Seq<
    Move,
>
    decreases n,
{
    if n <= 0 {
        Seq::empty()
    } else {
        step_moves_upto(b, from, us, kind, n - 1) + match step_target(b, from, us, kind, n - 1) {
            Some(t) => seq![mk_move(from, t)],
            None => Seq::empty(),
        }
    }
}

/// One pawn step from `from` to `(c, r)`, if it is on the board and may be landed on.
pub open spec fn pawn_step(b: Seq<u8>, from: int, c: int, r: int, us: Color) -> Seq<Move> {
    if on_board_spec(c, r) && can_land(b, sq(c, r), us) {
        seq![mk_move(from, sq(c, r))]
    } else {
        Seq::empty()
    }
}

/// Pawn moves: one step forward; once across the river, also one step left
/// or right. Pawns never retreat.
pub open spec fn pawn_moves(b: Seq<u8>, from: int, us: Color) -> Seq<Move> {
    let c = col(from);
    let r = row(from);
    pawn_step(b, from, c, r + fwd(us), us) + if !own_side_spec(us, r) {
        pawn_step(b, from, c - 1, r, us) + pawn_step(b, from, c + 1, r, us)
    } else {
        Seq::empty()
    }
}

/// Pseudo-legal moves of the piece on `from` when `us` is to move (none if
/// that point holds no piece of `us`).
pub open spec fn piece_moves(b: Seq<u8>, us: Color, from: int) -> Seq<Move> {
    if color_of_code(b[from]) != Some(us) {
        Seq::empty()
    } else {
        match kind_of_code(b[from]) {
            Some(PieceKind::Chariot) => line_moves_upto(b, from, us, false, 4),
            Some(PieceKind::Cannon) => line_moves_upto(b, from, us, true, 4),
            Some(PieceKind::Horse) => step_moves_upto(b, from, us, PieceKind::Horse, 8),
            Some(PieceKind::Pawn) => pawn_moves(b, from, us),
            Some(k) => step_moves_upto(b, from, us, k, 4),
            None => Seq::empty(),
        }
    }
}

/// Pseudo-legal moves of the pieces on points `0..n`, in point order.
pub open spec fn pseudo_upto(b: Seq<u8>, us: Color, n: int) -> Seq<Move>
    decreases n,
{
    if n <= 0 {
        Seq::empty()
    } else {
        pseudo_upto(b, us, n - 1) + piece_moves(b, us, n - 1)
    }
}

/// All pseudo-legal moves of `us`: moves that obey each piece's own rules,
/// whether or not they leave the mover's king attacked.
pub open spec fn pseudo_moves(b: Seq<u8>, us: Color) -> Seq<Move> {
    pseudo_upto(b, us, 90)
}


/// Every move of `ms` leaves `from` and lands on a point of the board where
/// a piece of `us` may land.
pub open spec fn lands_from(b: Seq<u8>, us: Color, from: int, ms: Seq<Move>) -> bool {
    forall|i: int|
        0 <= i < ms.len() ==> {
            &&& mv_from(#[trigger] ms[i]) == from
            &&& 0 <= mv_to(ms[i]) < 90
            &&& can_land(b, mv_to(ms[i]), us)
        }
}

/// Every move of `ms` starts on a piece of `us` and lands on a point of the
/// board where that piece may land.
pub open spec fn moves_sound(b: Seq<u8>, us: Color, ms: Seq<Move>) -> bool {
    forall|i: int|
        0 <= i < ms.len() ==> {
            &&& 0 <= mv_from(#[trigger] ms[i]) < 90
            &&& 0 <= mv_to(ms[i]) < 90
            &&& color_of_code(b[mv_from(ms[i])]) == Some(us)
            &&& can_land(b, mv_to(ms[i]), us)
        }
}

/// A single move to an allowed point.
proof fn lemma_lands_single(b: Seq<u8>, us: Color, from: int, t: int)
    requires
        0 <= from < 90,
        0 <= t < 90,
        can_land(b, t, us),
    ensures
        lands_from(b, us, from, seq![mk_move(from, t)]),
{
    crate::mv::lemma_move_fields(from, t);
}

/// Concatenation keeps [`lands_from`].
proof fn lemma_lands_concat(b: Seq<u8>, us: Color, from: int, x: Seq<Move>, y: Seq<Move>)
    requires
        lands_from(b, us, from, x),
        lands_from(b, us, from, y),
    ensures
        lands_from(b, us, from, x + y),
{
    assert forall|i: int| 0 <= i < (x + y).len() implies {
        &&& mv_from(#[trigger] (x + y)[i]) == from
        &&& 0 <= mv_to((x + y)[i]) < 90
        &&& can_land(b, mv_to((x + y)[i]), us)
    } by {
        if i < x.len() {
            assert((x + y)[i] == x[i]);
        } else {
            assert((x + y)[i] == y[i - x.len()]);
        }
    }
}

/// Chariot rays are sound.
proof fn lemma_slide_sound(b: Seq<u8>, from: int, c: int, r: int, dc: int, dr: int, us: Color)
    requires
        0 <= from < 90,
    ensures
        lands_from(b, us, from, slide_moves(b, from, c, r, dc, dr, us)),
    decreases ray_measure(c, r, dc, dr),
{
    if is_dir(dc, dr) && on_board_spec(c, r) && can_land(b, sq(c, r), us) {
        lemma_lands_single(b, us, from, sq(c, r));
        if b[sq(c, r)] == 0 {
            lemma_slide_sound(b, from, c + dc, r + dr, dc, dr, us);
            lemma_lands_concat(
                b,
                us,
                from,
                seq![mk_move(from, sq(c, r))],
                slide_moves(b, from, c + dc, r + dr, dc, dr, us),
            );
        }
    }
}

/// A ray's first piece lies on the board.
proof fn lemma_ray_first_on_board(b: Seq<u8>, c: int, r: int, dc: int, dr: int)
    ensures
        ray_first(b, c, r, dc, dr) matches Some(j) ==> 0 <= j < 90,
    decreases ray_measure(c, r, dc, dr),
{
    if is_dir(dc, dr) && on_board_spec(c, r) && b[sq(c, r)] == 0 {
        lemma_ray_first_on_board(b, c + dc, r + dr, dc, dr);
    }
}

/// Cannon rays are sound.
proof fn lemma_cannon_sound(b: Seq<u8>, from: int, c: int, r: int, dc: int, dr: int, us: Color)
    requires
        0 <= from < 90,
    ensures
        lands_from(b, us, from, cannon_moves(b, from, c, r, dc, dr, us)),
    decreases ray_measure(c, r, dc, dr),
{
    if is_dir(dc, dr) && on_board_spec(c, r) {
        if b[sq(c, r)] == 0 {
            lemma_lands_single(b, us, from, sq(c, r));
            lemma_cannon_sound(b, from, c + dc, r + dr, dc, dr, us);
            lemma_lands_concat(
                b,
                us,
                from,
                seq![mk_move(from, sq(c, r))],
                cannon_moves(b, from, c + dc, r + dr, dc, dr, us),
            );
        } else {
            lemma_ray_first_on_board(b, c + dc, r + dr, dc, dr);
            if let Some(j) = ray_first(b, c + dc, r + dr, dc, dr) {
                if can_land(b, j, us) {
                    lemma_lands_single(b, us, from, j);
                }
            }
        }
    }
}

/// Line moves are sound.
proof fn lemma_lines_sound(b: Seq<u8>, from: int, us: Color, cannon: bool, n: int)
    requires
        0 <= from < 90,
    ensures
        lands_from(b, us, from, line_moves_upto(b, from, us, cannon, n)),
    decreases n,
{
    if n > 0 {
        let d = n - 1;
        let c = col(from) + ortho_dc(d);
        let r = row(from) + ortho_dr(d);
        lemma_lines_sound(b, from, us, cannon, n - 1);
        lemma_slide_sound(b, from, c, r, ortho_dc(d), ortho_dr(d), us);
        lemma_cannon_sound(b, from, c, r, ortho_dc(d), ortho_dr(d), us);
        lemma_lands_concat(
            b,
            us,
            from,
            line_moves_upto(b, from, us, cannon, n - 1),
            if cannon {
                cannon_moves(b, from, c, r, ortho_dc(d), ortho_dr(d), us)
            } else {
                slide_moves(b, from, c, r, ortho_dc(d), ortho_dr(d), us)
            },
        );
    }
}

/// Step moves are sound.
proof fn lemma_steps_sound(b: Seq<u8>, from: int, us: Color, kind: PieceKind, n: int)
    requires
        0 <= from < 90,
    ensures
        lands_from(b, us, from, step_moves_upto(b, from, us, kind, n)),
    decreases n,
{
    if n > 0 {
        lemma_steps_sound(b, from, us, kind, n - 1);
        let last = match step_target(b, from, us, kind, n - 1) {
            Some(t) => seq![mk_move(from, t)],
            None => Seq::empty(),
        };
        if let Some(t) = step_target(b, from, us, kind, n - 1) {
            lemma_lands_single(b, us, from, t);
        }
        lemma_lands_concat(b, us, from, step_moves_upto(b, from, us, kind, n - 1), last);
    }
}

/// Pawn moves are sound.
proof fn lemma_pawn_sound(b: Seq<u8>, from: int, us: Color)
    requires
        0 <= from < 90,
    ensures
        lands_from(b, us, from, pawn_moves(b, from, us)),
{
    let c = col(from);
    let r = row(from);
    assert forall|cc: int, rr: int| true implies lands_from(
        b,
        us,
        from,
        #[trigger] pawn_step(b, from, cc, rr, us),
    ) by {
        if on_board_spec(cc, rr) && can_land(b, sq(cc, rr), us) {
            lemma_lands_single(b, us, from, sq(cc, rr));
        }
    }
    let s1 = pawn_step(b, from, c, r + fwd(us), us);
    let s2 = pawn_step(b, from, c - 1, r, us);
    let s3 = pawn_step(b, from, c + 1, r, us);
    lemma_lands_concat(b, us, from, s2, s3);
    lemma_lands_concat(b, us, from, s1, s2 + s3);
    lemma_lands_concat(b, us, from, s1, Seq::empty());
}

/// The moves of one piece are sound.
proof fn lemma_piece_sound(b: Seq<u8>, us: Color, from: int)
    requires
        0 <= from < 90,
    ensures
        moves_sound(b, us, piece_moves(b, us, from)),
{
    let ms = piece_moves(b, us, from);
    if color_of_code(b[from]) == Some(us) {
        lemma_lines_sound(b, from, us, false, 4);
        lemma_lines_sound(b, from, us, true, 4);
        lemma_pawn_sound(b, from, us);
        match kind_of_code(b[from]) {
            Some(k) => {
                lemma_steps_sound(b, from, us, k, 4);
                lemma_steps_sound(b, from, us, k, 8);
            },
            None => {},
        }
        assert(lands_from(b, us, from, ms));
        assert forall|i: int| 0 <= i < ms.len() implies {
            &&& 0 <= mv_from(#[trigger] ms[i]) < 90
            &&& 0 <= mv_to(ms[i]) < 90
            &&& color_of_code(b[mv_from(ms[i])]) == Some(us)
            &&& can_land(b, mv_to(ms[i]), us)
        } by {
            assert(mv_from(ms[i]) == from);
        }
    }
}

/// Concatenation keeps [`moves_sound`].
proof fn lemma_sound_concat(b: Seq<u8>, us: Color, x: Seq<Move>, y: Seq<Move>)
    requires
        moves_sound(b, us, x),
        moves_sound(b, us, y),
    ensures
        moves_sound(b, us, x + y),
{
    assert forall|i: int| 0 <= i < (x + y).len() implies {
        &&& 0 <= mv_from(#[trigger] (x + y)[i]) < 90
        &&& 0 <= mv_to((x + y)[i]) < 90
        &&& color_of_code(b[mv_from((x + y)[i])]) == Some(us)
        &&& can_land(b, mv_to((x + y)[i]), us)
    } by {
        if i < x.len() {
            assert((x + y)[i] == x[i]);
        } else {
            assert((x + y)[i] == y[i - x.len()]);
        }
    }
}

/// Every pseudo-legal move starts on a piece of the side to move and lands
/// on an empty point or an enemy piece other than the king; in particular it
/// never captures a king and never stays in place.
pub proof fn law_pseudo_moves_sound(b: Seq<u8>, us: Color, n: int)
    requires
        0 <= n <= 90,
    ensures
        moves_sound(b, us, pseudo_upto(b, us, n)),
    decreases n,
{
    if n > 0 {
        law_pseudo_moves_sound(b, us, n - 1);
        lemma_piece_sound(b, us, n - 1);
        lemma_sound_concat(b, us, pseudo_upto(b, us, n - 1), piece_moves(b, us, n - 1));
    }
}

/// Whether every move of `ms` that starts on a king lands in the palace of
/// `us`.
pub open spec fn kings_kept_home(b: Seq<u8>, us: Color, ms: Seq<Move>) -> bool {
    forall|i: int|
        0 <= i < ms.len() && kind_of_code(b[mv_from(#[trigger] ms[i])]) == Some(PieceKind::King)
            ==> in_palace_spec(us, col(mv_to(ms[i])), row(mv_to(ms[i])))
}

/// Concatenation keeps [`kings_kept_home`].
proof fn lemma_home_concat(b: Seq<u8>, us: Color, x: Seq<Move>, y: Seq<Move>)
    requires
        kings_kept_home(b, us, x),
        kings_kept_home(b, us, y),
    ensures
        kings_kept_home(b, us, x + y),
{
    assert forall|i: int|
        0 <= i < (x + y).len() && kind_of_code(b[mv_from(#[trigger] (x + y)[i])]) == Some(
            PieceKind::King,
        ) implies in_palace_spec(us, col(mv_to((x + y)[i])), row(mv_to((x + y)[i]))) by {
        if i < x.len() {
            assert((x + y)[i] == x[i]);
        } else {
            assert((x + y)[i] == y[i - x.len()]);
        }
    }
}

/// King steps stay inside the palace.
proof fn lemma_king_steps_home(b: Seq<u8>, from: int, us: Color, n: int)
    requires
        0 <= from < 90,
    ensures
        kings_kept_home(b, us, step_moves_upto(b, from, us, PieceKind::King, n)),
    decreases n,
{
    if n > 0 {
        lemma_king_steps_home(b, from, us, n - 1);
        let last = match step_target(b, from, us, PieceKind::King, n - 1) {
            Some(t) => seq![mk_move(from, t)],
            None => Seq::empty(),
        };
        if let Some(t) = step_target(b, from, us, PieceKind::King, n - 1) {
            let tc = col(from) + ortho_dc(n - 1);
            let tr = row(from) + ortho_dr(n - 1);
            crate::square::lemma_sq_components(tc, tr);
            crate::mv::lemma_move_fields(from, t);
            assert(mv_to(last[0]) == t);
        }
        lemma_home_concat(b, us, step_moves_upto(b, from, us, PieceKind::King, n - 1), last);
    }
}

/// The moves of one piece keep a king in its palace.
proof fn lemma_piece_home(b: Seq<u8>, us: Color, from: int)
    requires
        0 <= from < 90,
    ensures
        kings_kept_home(b, us, piece_moves(b, us, from)),
{
    let ms = piece_moves(b, us, from);
    if color_of_code(b[from]) == Some(us) {
        if kind_of_code(b[from]) == Some(PieceKind::King) {
            lemma_king_steps_home(b, from, us, 4);
        } else {
            lemma_lines_sound(b, from, us, false, 4);
            lemma_lines_sound(b, from, us, true, 4);
            lemma_pawn_sound(b, from, us);
            match kind_of_code(b[from]) {
                Some(k) => {
                    lemma_steps_sound(b, from, us, k, 4);
                    lemma_steps_sound(b, from, us, k, 8);
                },
                None => {},
            }
            assert(lands_from(b, us, from, ms));
            assert forall|i: int| 0 <= i < ms.len() implies kind_of_code(b[mv_from(#[trigger] ms[i])])
                != Some(PieceKind::King) by {
                assert(mv_from(ms[i]) == from);
            }
        }
    }
}

/// A pseudo-legal king move stays inside its palace.
pub proof fn law_king_moves_stay_home(b: Seq<u8>, us: Color, n: int)
    requires
        0 <= n <= 90,
    ensures
        kings_kept_home(b, us, pseudo_upto(b, us, n)),
    decreases n,
{
    if n > 0 {
        law_king_moves_stay_home(b, us, n - 1);
        lemma_piece_home(b, us, n - 1);
        lemma_home_concat(b, us, pseudo_upto(b, us, n - 1), piece_moves(b, us, n - 1));
    }
}

/// Keeping a prefix keeps [`moves_sound`].
pub proof fn lemma_sound_capped(b: Seq<u8>, us: Color, ms: Seq<Move>)
    requires
        moves_sound(b, us, ms),
    ensures
        moves_sound(b, us, crate::mv::capped(ms)),
        crate::mv::capped(ms).len() <= crate::mv::MAX_MOVES,
{
    let c = crate::mv::capped(ms);
    assert(Seq::<Move>::empty() + ms =~= ms);
    assert forall|i: int| 0 <= i < c.len() implies #[trigger] c[i] == ms[i] by {}
}

/// Orthogonal direction `d` as `(dc, dr)`.
pub fn ortho(d: usize) -> (r: (i8, i8))
    requires
        d < 4,
    ensures
        r.0 == ortho_dc(d as int),
        r.1 == ortho_dr(d as int),
{
    match d {
        0 => (0, 1),
        1 => (0, -1),
        2 => (1, 0),
        _ => (-1, 0),
    }
}

/// Diagonal direction `d` as `(dc, dr)`.
pub fn diag(d: usize) -> (r: (i8, i8))
    requires
        d < 4,
    ensures
        r.0 == diag_dc(d as int),
        r.1 == diag_dr(d as int),
{
    match d {
        0 => (1, 1),
        1 => (1, -1),
        2 => (-1, 1),
        _ => (-1, -1),
    }
}

/// Whether square code `p` is a piece of colour `c` and kind `k`.
pub fn holds_piece(p: u8, c: Color, k: PieceKind) -> (r: bool)
    ensures
        r == (color_of_code(p) == Some(c) && kind_of_code(p) == Some(k)),
{
    let same_color = match color_of(p) {
        Some(x) => x == c,
        None => false,
    };
    let same_kind = match kind_of(p) {
        Some(x) => x == k,
        None => false,
    };
    same_color && same_kind
}

/// First occupied point walking from `(c0, r0)` in direction `(dc, dr)`.
pub fn ray_first_of(b: &[u8; 90], c0: i8, r0: i8, dc: i8, dr: i8) -> (res: Option<u8>)
    requires
        is_dir(dc as int, dr as int),
        -1 <= c0 <= 9,
        -1 <= r0 <= 10,
    ensures
        match res {
            Some(i) => ray_first(b@, c0 as int, r0 as int, dc as int, dr as int) == Some(i as int)
                && i < 90,
            None => ray_first(b@, c0 as int, r0 as int, dc as int, dr as int) is None,
        },
{
    let mut c = c0;
    let mut r = r0;
    while on_board(c, r)
        invariant
            is_dir(dc as int, dr as int),
            -1 <= c <= 9,
            -1 <= r <= 10,
            ray_first(b@, c0 as int, r0 as int, dc as int, dr as int) == ray_first(
                b@,
                c as int,
                r as int,
                dc as int,
                dr as int,
            ),
        decreases ray_measure(c as int, r as int, dc as int, dr as int),
    {
        let i = index(c as u8, r as u8);
        if b[i as usize] != 0 {
            return Some(i);
        }
        c = c + dc;
        r = r + dr;
    }
    None
}

/// Exec form of [`line_attack`].
fn line_attack_of(b: &[u8; 90], tc: i8, tr: i8, d: usize, by: Color) -> (res: bool)
    requires
        0 <= tc < 9,
        0 <= tr < 10,
        d < 4,
    ensures
        res == line_attack(b@, tc as int, tr as int, d as int, by),
{
    let (dc, dr) = ortho(d);
    match ray_first_of(b, tc + dc, tr + dr, dc, dr) {
        Some(i) => {
            let p = b[i as usize];
            holds_piece(p, by, PieceKind::Chariot) || (holds_piece(p, by, PieceKind::King) && (dc
                == 0 || i == index((tc + dc) as u8, (tr + dr) as u8)))
        },
        None => false,
    }
}

/// Exec form of [`cannon_attack`].
fn cannon_attack_of(b: &[u8; 90], tc: i8, tr: i8, d: usize, by: Color) -> (res: bool)
    requires
        0 <= tc < 9,
        0 <= tr < 10,
        d < 4,
    ensures
        res == cannon_attack(b@, tc as int, tr as int, d as int, by),
{
    let (dc, dr) = ortho(d);
    match ray_first_of(b, tc + dc, tr + dr, dc, dr) {
        Some(i) => {
            let ic = (i % 9) as i8;
            let ir = (i / 9) as i8;
            match ray_first_of(b, ic + dc, ir + dr, dc, dr) {
                Some(j) => holds_piece(b[j as usize], by, PieceKind::Cannon),
                None => false,
            }
        },
        None => false,
    }
}

/// The `k`-th horse source offsets, as in [`horse_attacker`].
fn horse_attacker_of(k: usize) -> (r: (i8, i8, i8, i8))
    requires
        k < 8,
    ensures
        r.0 == horse_attacker(k as int).0,
        r.1 == horse_attacker(k as int).1,
        r.2 == horse_attacker(k as int).2,
        r.3 == horse_attacker(k as int).3,
{
    match k {
        0 => (1, 2, 1, 1),
        1 => (1, -2, 1, -1),
        2 => (-1, 2, -1, 1),
        3 => (-1, -2, -1, -1),
        4 => (2, 1, 1, 1),
        5 => (2, -1, 1, -1),
        6 => (-2, 1, -1, 1),
        _ => (-2, -1, -1, -1),
    }
}

/// Exec form of [`horse_attack`].
fn horse_attack_of(b: &[u8; 90], tc: i8, tr: i8, k: usize, by: Color) -> (res: bool)
    requires
        0 <= tc < 9,
        0 <= tr < 10,
        k < 8,
    ensures
        res == horse_attack(b@, tc as int, tr as int, k as int, by),
{
    let (dc, dr, lc, lr) = horse_attacker_of(k);
    let hc = tc + dc;
    let hr = tr + dr;
    if !on_board(hc, hr) {
        return false;
    }
    if !holds_piece(b[index(hc as u8, hr as u8) as usize], by, PieceKind::Horse) {
        return false;
    }
    let blc = tc + lc;
    let blr = tr + lr;
    if !on_board(blc, blr) {
        return false;
    }
    b[index(blc as u8, blr as u8) as usize] == 0
}

/// Exec form of [`pawn_on`].
fn pawn_on_of(b: &[u8; 90], c: i8, r: i8, by: Color) -> (res: bool)
    requires
        -1 <= c <= 9,
        -1 <= r <= 10,
    ensures
        res == pawn_on(b@, c as int, r as int, by),
{
    on_board(c, r) && holds_piece(b[index(c as u8, r as u8) as usize], by, PieceKind::Pawn)
}

/// Whether point `target` of board `b` is attacked by side `by`.
pub fn board_attacked(b: &[u8; 90], target: u8, by: Color) -> (res: bool)
    requires
        target < 90,
    ensures
        res == attacked(b@, target as int, by),
{
    let tc = (target % 9) as i8;
    let tr = (target / 9) as i8;
    let mut d: usize = 0;
    while d < 4
        invariant
            0 <= tc < 9,
            0 <= tr < 10,
            tc == col(target as int),
            tr == row(target as int),
            d <= 4,
            forall|e: int| 0 <= e < d ==> !#[trigger] line_attack(b@, tc as int, tr as int, e, by),
            forall|e: int| 0 <= e < d ==> !#[trigger] cannon_attack(b@, tc as int, tr as int, e, by),
        decreases 4 - d,
    {
        let la = line_attack_of(b, tc, tr, d, by);
        let ca = cannon_attack_of(b, tc, tr, d, by);
        if la || ca {
            assert(d == 0 || d == 1 || d == 2 || d == 3);
            return true;
        }
        assert(!line_attack(b@, tc as int, tr as int, d as int, by) && !cannon_attack(
            b@,
            tc as int,
            tr as int,
            d as int,
            by,
        ));
        d += 1;
    }
    let mut k: usize = 0;
    while k < 8
        invariant
            0 <= tc < 9,
            0 <= tr < 10,
            tc == col(target as int),
            tr == row(target as int),
            k <= 8,
            forall|e: int| 0 <= e < k ==> !#[trigger] horse_attack(b@, tc as int, tr as int, e, by),
        decreases 8 - k,
    {
        if horse_attack_of(b, tc, tr, k, by) {
            assert(k == 0 || k == 1 || k == 2 || k == 3 || k == 4 || k == 5 || k == 6 || k == 7);
            return true;
        }
        k += 1;
    }
    proof {
        assert(!line_attack(b@, tc as int, tr as int, 0, by));
        assert(!line_attack(b@, tc as int, tr as int, 1, by));
        assert(!line_attack(b@, tc as int, tr as int, 2, by));
        assert(!line_attack(b@, tc as int, tr as int, 3, by));
        assert(!horse_attack(b@, tc as int, tr as int, 0, by));
        assert(!horse_attack(b@, tc as int, tr as int, 1, by));
        assert(!horse_attack(b@, tc as int, tr as int, 2, by));
        assert(!horse_attack(b@, tc as int, tr as int, 3, by));
        assert(!horse_attack(b@, tc as int, tr as int, 4, by));
        assert(!horse_attack(b@, tc as int, tr as int, 5, by));
        assert(!horse_attack(b@, tc as int, tr as int, 6, by));
        assert(!horse_attack(b@, tc as int, tr as int, 7, by));
    }
    let f: i8 = by.forward();
    if pawn_on_of(b, tc, tr - f, by) {
        return true;
    }
    if !crate::square::on_own_side(by, tr as u8) {
        if pawn_on_of(b, tc - 1, tr, by) || pawn_on_of(b, tc + 1, tr, by) {
            return true;
        }
    }
    false
}

/// Whether point `t` lies on the ray from `(c, r)` (inclusive) in
/// orthogonal direction `(dc, dr)`.
pub open spec fn on_ray(t: int, c: int, r: int, dc: int, dr: int) -> bool {
    &&& (dc == 0 ==> col(t) == c)
    &&& (dr == 0 ==> row(t) == r)
    &&& (dc == 1 ==> col(t) >= c)
    &&& (dc == -1 ==> col(t) <= c)
    &&& (dr == 1 ==> row(t) >= r)
    &&& (dr == -1 ==> row(t) <= r)
}

/// Whether the moves of `ms` all leave `from` and land on different points.
pub open spec fn distinct_from(ms: Seq<Move>, from: int) -> bool {
    &&& forall|i: int| 0 <= i < ms.len() ==> mv_from(#[trigger] ms[i]) == from && 0 <= mv_to(ms[i]) < 90
    &&& forall|i: int, j: int| 0 <= i < j < ms.len() ==> mv_to(#[trigger] ms[i]) != mv_to(#[trigger] ms[j])
}

/// Whether every target of `ms` lies on the ray from `(c, r)` in direction
/// `(dc, dr)`.
pub open spec fn along_ray(ms: Seq<Move>, c: int, r: int, dc: int, dr: int) -> bool {
    forall|i: int| 0 <= i < ms.len() ==> on_ray(mv_to(#[trigger] ms[i]), c, r, dc, dr)
}

/// Joining two lists whose targets are all different keeps
/// [`distinct_from`].
proof fn lemma_distinct_concat(x: Seq<Move>, y: Seq<Move>, from: int)
    requires
        distinct_from(x, from),
        distinct_from(y, from),
        forall|i: int, j: int| 0 <= i < x.len() && 0 <= j < y.len() ==> mv_to(#[trigger] x[i]) != mv_to(#[trigger] y[j]),
    ensures
        distinct_from(x + y, from),
{
    assert forall|i: int| 0 <= i < (x + y).len() implies mv_from(#[trigger] (x + y)[i]) == from && 0
        <= mv_to((x + y)[i]) < 90 by {
        if i < x.len() {
            assert((x + y)[i] == x[i]);
        } else {
            assert((x + y)[i] == y[i - x.len()]);
        }
    }
    assert forall|i: int, j: int| 0 <= i < j < (x + y).len() implies mv_to(#[trigger] (x + y)[i]) != mv_to(
        #[trigger] (x + y)[j],
    ) by {
        if j < x.len() {
            assert((x + y)[i] == x[i]);
            assert((x + y)[j] == x[j]);
        } else if i >= x.len() {
            assert((x + y)[i] == y[i - x.len()]);
            assert((x + y)[j] == y[j - x.len()]);
        } else {
            assert((x + y)[i] == x[i]);
            assert((x + y)[j] == y[j - x.len()]);
        }
    }
}

/// A single move from `from` to `t`.
proof fn lemma_distinct_single(from: int, t: int)
    requires
        0 <= from < 90,
        0 <= t < 90,
    ensures
        distinct_from(seq![mk_move(from, t)], from),
{
    crate::mv::lemma_move_fields(from, t);
}

/// The first piece met along a ray lies on it.
proof fn lemma_ray_first_on_ray(b: Seq<u8>, c: int, r: int, dc: int, dr: int)
    ensures
        ray_first(b, c, r, dc, dr) matches Some(j) ==> 0 <= j < 90 && on_ray(j, c, r, dc, dr),
    decreases ray_measure(c, r, dc, dr),
{
    if is_dir(dc, dr) && on_board_spec(c, r) {
        crate::square::lemma_sq_components(c, r);
        if b[sq(c, r)] == 0 {
            lemma_ray_first_on_ray(b, c + dc, r + dr, dc, dr);
        }
    }
}

/// Chariot and cannon rays land on different points of the ray.
proof fn lemma_ray_distinct(b: Seq<u8>, from: int, c: int, r: int, dc: int, dr: int, us: Color, cannon: bool)
    requires
        0 <= from < 90,
    ensures
        distinct_from(
            if cannon {
                cannon_moves(b, from, c, r, dc, dr, us)
            } else {
                slide_moves(b, from, c, r, dc, dr, us)
            },
            from,
        ),
        along_ray(
            if cannon {
                cannon_moves(b, from, c, r, dc, dr, us)
            } else {
                slide_moves(b, from, c, r, dc, dr, us)
            },
            c,
            r,
            dc,
            dr,
        ),
    decreases ray_measure(c, r, dc, dr),
{
    let ms = if cannon {
        cannon_moves(b, from, c, r, dc, dr, us)
    } else {
        slide_moves(b, from, c, r, dc, dr, us)
    };
    if is_dir(dc, dr) && on_board_spec(c, r) {
        crate::square::lemma_sq_components(c, r);
        let t = sq(c, r);
        lemma_distinct_single(from, t);
        crate::mv::lemma_move_fields(from, t);
        if b[t] == 0 {
            lemma_ray_distinct(b, from, c + dc, r + dr, dc, dr, us, cannon);
            let rest = if cannon {
                cannon_moves(b, from, c + dc, r + dr, dc, dr, us)
            } else {
                slide_moves(b, from, c + dc, r + dr, dc, dr, us)
            };
            let head = seq![mk_move(from, t)];
            assert(ms == head + rest);
            assert forall|i: int, j: int| 0 <= i < head.len() && 0 <= j < rest.len() implies mv_to(
                #[trigger] head[i],
            ) != mv_to(#[trigger] rest[j]) by {
                assert(on_ray(mv_to(rest[j]), c + dc, r + dr, dc, dr));
            }
            lemma_distinct_concat(head, rest, from);
            assert forall|i: int| 0 <= i < ms.len() implies on_ray(mv_to(#[trigger] ms[i]), c, r, dc, dr) by {
                if i > 0 {
                    assert(ms[i] == rest[i - 1]);
                    assert(on_ray(mv_to(rest[i - 1]), c + dc, r + dr, dc, dr));
                }
            }
        } else if cannon {
            lemma_ray_first_on_ray(b, c + dc, r + dr, dc, dr);
            if let Some(j) = ray_first(b, c + dc, r + dr, dc, dr) {
                if can_land(b, j, us) {
                    lemma_distinct_single(from, j);
                    crate::mv::lemma_move_fields(from, j);
                }
            }
        }
    }
}

/// Which orthogonal line from `from` point `t` lies on: up, down, right,
/// left (4 when none).
pub open spec fn line_of(t: int, from: int) -> int {
    if col(t) == col(from) && row(t) > row(from) {
        0
    } else if col(t) == col(from) && row(t) < row(from) {
        1
    } else if row(t) == row(from) && col(t) > col(from) {
        2
    } else if row(t) == row(from) && col(t) < col(from) {
        3
    } else {
        4
    }
}

/// Line moves along the first `n` directions land on different points,
/// each on the line of its direction.
proof fn lemma_lines_distinct(b: Seq<u8>, from: int, us: Color, cannon: bool, n: int)
    requires
        0 <= from < 90,
        0 <= n <= 4,
    ensures
        distinct_from(line_moves_upto(b, from, us, cannon, n), from),
        forall|i: int|
            0 <= i < line_moves_upto(b, from, us, cannon, n).len() ==> line_of(
                mv_to(#[trigger] line_moves_upto(b, from, us, cannon, n)[i]),
                from,
            ) < n,
    decreases n,
{
    if n > 0 {
        let d = n - 1;
        let c = col(from) + ortho_dc(d);
        let r = row(from) + ortho_dr(d);
        lemma_lines_distinct(b, from, us, cannon, n - 1);
        lemma_ray_distinct(b, from, c, r, ortho_dc(d), ortho_dr(d), us, cannon);
        let x = line_moves_upto(b, from, us, cannon, n - 1);
        let y = if cannon {
            cannon_moves(b, from, c, r, ortho_dc(d), ortho_dr(d), us)
        } else {
            slide_moves(b, from, c, r, ortho_dc(d), ortho_dr(d), us)
        };
        assert forall|j: int| 0 <= j < y.len() implies line_of(mv_to(#[trigger] y[j]), from) == d by {
            assert(on_ray(mv_to(y[j]), c, r, ortho_dc(d), ortho_dr(d)));
        }
        assert forall|i: int, j: int| 0 <= i < x.len() && 0 <= j < y.len() implies mv_to(#[trigger] x[i])
            != mv_to(#[trigger] y[j]) by {
            assert(line_of(mv_to(x[i]), from) < d);
            assert(line_of(mv_to(y[j]), from) == d);
        }
        lemma_distinct_concat(x, y, from);
        let ms = line_moves_upto(b, from, us, cannon, n);
        assert forall|i: int| 0 <= i < ms.len() implies line_of(mv_to(#[trigger] ms[i]), from) < n by {
            if i < x.len() {
                assert(ms[i] == x[i]);
            } else {
                assert(ms[i] == y[i - x.len()]);
            }
        }
    }
}

/// Which single step of `kind` the offset `(dc, dr)` is (8 when none).
pub open spec fn step_rank(kind: PieceKind, dc: int, dr: int) -> int {
    match kind {
        PieceKind::Horse => if dc == 1 && dr == 2 {
            0
        } else if dc == -1 && dr == 2 {
            1
        } else if dc == 1 && dr == -2 {
            2
        } else if dc == -1 && dr == -2 {
            3
        } else if dc == 2 && dr == 1 {
            4
        } else if dc == 2 && dr == -1 {
            5
        } else if dc == -2 && dr == 1 {
            6
        } else if dc == -2 && dr == -1 {
            7
        } else {
            8
        },
        PieceKind::Elephant => if dc == 2 && dr == 2 {
            0
        } else if dc == 2 && dr == -2 {
            1
        } else if dc == -2 && dr == 2 {
            2
        } else if dc == -2 && dr == -2 {
            3
        } else {
            8
        },
        PieceKind::Advisor => if dc == 1 && dr == 1 {
            0
        } else if dc == 1 && dr == -1 {
            1
        } else if dc == -1 && dr == 1 {
            2
        } else if dc == -1 && dr == -1 {
            3
        } else {
            8
        },
        _ => if dc == 0 && dr == 1 {
            0
        } else if dc == 0 && dr == -1 {
            1
        } else if dc == 1 && dr == 0 {
            2
        } else if dc == -1 && dr == 0 {
            3
        } else {
            8
        },
    }
}

/// The `k`-th step lands at offset rank `k`.
proof fn lemma_step_rank(b: Seq<u8>, from: int, us: Color, kind: PieceKind, k: int)
    requires
        0 <= from < 90,
        0 <= k < (if kind == PieceKind::Horse {
            8int
        } else {
            4int
        }),
    ensures
        step_target(b, from, us, kind, k) matches Some(t) ==> 0 <= t < 90 && step_rank(
            kind,
            col(t) - col(from),
            row(t) - row(from),
        ) == k,
{
    if let Some(t) = step_target(b, from, us, kind, k) {
        let c = col(from);
        let r = row(from);
        let (dc, dr, lc, lr) = match kind {
            PieceKind::Horse => horse_step(k),
            PieceKind::Elephant => (2 * diag_dc(k), 2 * diag_dr(k), diag_dc(k), diag_dr(k)),
            PieceKind::Advisor => (diag_dc(k), diag_dr(k), 0, 0),
            _ => (ortho_dc(k), ortho_dr(k), 0, 0),
        };
        crate::square::lemma_sq_components(c + dc, r + dr);
        assert(t == sq(c + dc, r + dr));
    }
}

/// Step moves land on different points.
proof fn lemma_steps_distinct(b: Seq<u8>, from: int, us: Color, kind: PieceKind, n: int)
    requires
        0 <= from < 90,
        0 <= n <= (if kind == PieceKind::Horse {
            8int
        } else {
            4int
        }),
    ensures
        distinct_from(step_moves_upto(b, from, us, kind, n), from),
        forall|i: int|
            0 <= i < step_moves_upto(b, from, us, kind, n).len() ==> step_rank(
                kind,
                col(mv_to(#[trigger] step_moves_upto(b, from, us, kind, n)[i])) - col(from),
                row(mv_to(step_moves_upto(b, from, us, kind, n)[i])) - row(from),
            ) < n,
    decreases n,
{
    if n > 0 {
        lemma_steps_distinct(b, from, us, kind, n - 1);
        lemma_step_rank(b, from, us, kind, n - 1);
        let x = step_moves_upto(b, from, us, kind, n - 1);
        let y = match step_target(b, from, us, kind, n - 1) {
            Some(t) => seq![mk_move(from, t)],
            None => Seq::empty(),
        };
        if let Some(t) = step_target(b, from, us, kind, n - 1) {
            lemma_distinct_single(from, t);
            crate::mv::lemma_move_fields(from, t);
            assert(mv_to(y[0]) == t);
        }
        assert forall|i: int, j: int| 0 <= i < x.len() && 0 <= j < y.len() implies mv_to(#[trigger] x[i])
            != mv_to(#[trigger] y[j]) by {}
        lemma_distinct_concat(x, y, from);
        let ms = step_moves_upto(b, from, us, kind, n);
        assert forall|i: int| 0 <= i < ms.len() implies step_rank(
            kind,
            col(mv_to(#[trigger] ms[i])) - col(from),
            row(mv_to(ms[i])) - row(from),
        ) < n by {
            if i < x.len() {
                assert(ms[i] == x[i]);
            } else {
                assert(ms[i] == y[i - x.len()]);
            }
        }
    }
}

/// Pawn moves land on different points.
proof fn lemma_pawn_distinct(b: Seq<u8>, from: int, us: Color)
    requires
        0 <= from < 90,
    ensures
        distinct_from(pawn_moves(b, from, us), from),
{
    let c = col(from);
    let r = row(from);
    assert forall|cc: int, rr: int| true implies ({
        &&& distinct_from(#[trigger] pawn_step(b, from, cc, rr, us), from)
        &&& forall|i: int| 0 <= i < pawn_step(b, from, cc, rr, us).len() ==> col(mv_to(#[trigger] pawn_step(b, from, cc, rr, us)[i])) == cc
            && row(mv_to(pawn_step(b, from, cc, rr, us)[i])) == rr
    }) by {
        if on_board_spec(cc, rr) && can_land(b, sq(cc, rr), us) {
            crate::square::lemma_sq_components(cc, rr);
            lemma_distinct_single(from, sq(cc, rr));
            crate::mv::lemma_move_fields(from, sq(cc, rr));
        }
    }
    let s1 = pawn_step(b, from, c, r + fwd(us), us);
    let s2 = pawn_step(b, from, c - 1, r, us);
    let s3 = pawn_step(b, from, c + 1, r, us);
    assert forall|i: int, j: int| 0 <= i < s2.len() && 0 <= j < s3.len() implies mv_to(#[trigger] s2[i])
        != mv_to(#[trigger] s3[j]) by {}
    lemma_distinct_concat(s2, s3, from);
    let s23 = s2 + s3;
    assert forall|i: int, j: int| 0 <= i < s1.len() && 0 <= j < s23.len() implies mv_to(#[trigger] s1[i])
        != mv_to(#[trigger] s23[j]) by {
        if j < s2.len() {
            assert(s23[j] == s2[j]);
        } else {
            assert(s23[j] == s3[j - s2.len()]);
        }
    }
    lemma_distinct_concat(s1, s23, from);
    assert(s1 + Seq::<Move>::empty() =~= s1);
}

/// The moves of one piece are different moves.
proof fn lemma_piece_distinct(b: Seq<u8>, us: Color, from: int)
    requires
        0 <= from < 90,
    ensures
        distinct_from(piece_moves(b, us, from), from),
{
    if color_of_code(b[from]) == Some(us) {
        match kind_of_code(b[from]) {
            Some(PieceKind::Chariot) => lemma_lines_distinct(b, from, us, false, 4),
            Some(PieceKind::Cannon) => lemma_lines_distinct(b, from, us, true, 4),
            Some(PieceKind::Horse) => lemma_steps_distinct(b, from, us, PieceKind::Horse, 8),
            Some(PieceKind::Pawn) => lemma_pawn_distinct(b, from, us),
            Some(k) => lemma_steps_distinct(b, from, us, k, 4),
            None => {},
        }
    }
}

/// No pseudo-legal move is listed twice, and every one leaves a point
/// below `n`.
pub proof fn law_pseudo_moves_distinct(b: Seq<u8>, us: Color, n: int)
    requires
        0 <= n <= 90,
    ensures
        pseudo_upto(b, us, n).no_duplicates(),
        forall|i: int| 0 <= i < pseudo_upto(b, us, n).len() ==> mv_from(#[trigger] pseudo_upto(b, us, n)[i]) < n,
    decreases n,
{
    if n > 0 {
        law_pseudo_moves_distinct(b, us, n - 1);
        lemma_piece_distinct(b, us, n - 1);
        let x = pseudo_upto(b, us, n - 1);
        let y = piece_moves(b, us, n - 1);
        let ms = x + y;
        assert(pseudo_upto(b, us, n) == ms);
        assert forall|i: int, j: int| 0 <= i < j < ms.len() implies ms[i] != ms[j] by {
            if j < x.len() {
                assert(ms[i] == x[i] && ms[j] == x[j]);
            } else if i >= x.len() {
                assert(ms[i] == y[i - x.len()] && ms[j] == y[j - x.len()]);
                assert(mv_to(y[i - x.len()]) != mv_to(y[j - x.len()]));
            } else {
                assert(ms[i] == x[i] && ms[j] == y[j - x.len()]);
                assert(mv_from(x[i]) < n - 1);
            }
        }
        assert forall|i: int| 0 <= i < ms.len() implies mv_from(#[trigger] ms[i]) < n by {
            if i < x.len() {
                assert(ms[i] == x[i]);
            } else {
                assert(ms[i] == y[i - x.len()]);
            }
        }
    }
}

} // verus!
