//! Recognising the tactics of a move.
//!
//! Three layers, by how reliably they can be decided: the structural layer
//! follows exactly from the rules (check, mate, capture, how a check was
//! met); the relational layer from attack relations and a one-step
//! exchange count (fork, threat, pin, skewer, discovered attack, sacrifice,
//! exchange offer, material, open lines, centre); the formation layer
//! matches declared formations, each a list of predicates on the position.
//!
//! "Which pieces attack this point" is answered by taking each candidate
//! off the board and asking the rules whether the point is still attacked,
//! so that the commentary and the rules never disagree on what an attack
//! is. Kings are never taken off.
use vstd::prelude::*;

use crate::board::{attacked, board_attacked, holds, is_dir, ray_first, ray_first_of, ray_measure};
use crate::coach::knowledge::{ConstraintDef, PatternDef};
use crate::color::{Color, opp};
use crate::mv::{Move, mv_from, mv_to};
use crate::nature::MoveNature;
use crate::piece::{PieceKind, color_of, color_of_code, kind_of, kind_of_code};
use crate::position::{Position, snap_in_check};
use crate::rules::{GameStatus, status_of};
use crate::square::{col, col_of, in_palace, in_palace_spec, index, on_board, own_side_spec, row, row_of, sq};
use crate::text::str_eq;

verus! {

/// Everything recognition needs to know about a move.
#[derive(Clone, Copy, Debug)]
pub struct MoveContext {
    /// The side that moved.
    pub side: Color,
    /// The move.
    pub mv: Move,
    /// How the rules classify the move.
    pub nature: MoveNature,
    /// Whether the mover was in check before the move.
    pub was_in_check: bool,
    /// Code of the piece captured (0 for none).
    pub captured: u8,
    /// Best score before the move (mover's view).
    pub score_best: i32,
    /// Score the move lost against the best move.
    pub score_loss: i32,
}

/// A tactic the structural, relational or opening recognisers report.
#[derive(Clone, Copy, Debug, PartialEq, Eq, Structural)]
pub enum TacticId {
    /// Mate.
    Mate,
    /// The opponent has no move and is not in check (a win in xiangqi).
    StalemateWin,
    /// Check.
    Check,
    /// Check by two pieces.
    DoubleCheck,
    /// Check by a piece other than the one moved.
    DiscoveredCheck,
    /// A capture.
    Capture,
    /// Getting out of check.
    ResolveCheck,
    /// Blocking the check.
    Interpose,
    /// Moving the king out of check.
    KingEscape,
    /// Capturing the checking piece.
    CaptureAttacker,
    /// Attacking two pieces that can be won.
    Fork,
    /// Attacking a piece.
    Threat,
    /// Pinning a piece to a more valuable one behind it.
    Pin,
    /// Attacking a valuable piece with another behind it.
    Skewer,
    /// Uncovering an attack by moving out of the line.
    DiscoveredAttack,
    /// Leaving the piece moved en prise to a cheaper attacker.
    Sacrifice,
    /// Offering a trade.
    ExchangeOffer,
    /// Winning material.
    WinMaterial,
    /// Losing material.
    LoseMaterial,
    /// Opening a line for a chariot or cannon.
    OpenFile,
    /// Occupying the central file.
    CentralControl,
    /// Central cannon opening.
    OpeningCentralCannon,
    /// Cross-palace cannon opening.
    OpeningCrossPalaceCannon,
    /// Advisor-corner cannon opening.
    OpeningAdvisorCornerCannon,
    /// Pawn-probe opening.
    OpeningPawnProbe,
    /// Elephant opening.
    OpeningElephant,
}

/// Knowledge-base id of a tactic.
pub open spec fn tactic_text(t: TacticId) -> Seq<char> {
    match t {
        TacticId::Mate => "mate"@,
        TacticId::StalemateWin => "stalemate_win"@,
        TacticId::Check => "check"@,
        TacticId::DoubleCheck => "double_check"@,
        TacticId::DiscoveredCheck => "discovered_check"@,
        TacticId::Capture => "capture"@,
        TacticId::ResolveCheck => "resolve_check"@,
        TacticId::Interpose => "interpose"@,
        TacticId::KingEscape => "king_escape"@,
        TacticId::CaptureAttacker => "capture_attacker"@,
        TacticId::Fork => "fork"@,
        TacticId::Threat => "threat"@,
        TacticId::Pin => "pin"@,
        TacticId::Skewer => "skewer"@,
        TacticId::DiscoveredAttack => "discovered_attack"@,
        TacticId::Sacrifice => "sacrifice"@,
        TacticId::ExchangeOffer => "exchange_offer"@,
        TacticId::WinMaterial => "win_material"@,
        TacticId::LoseMaterial => "lose_material"@,
        TacticId::OpenFile => "open_file"@,
        TacticId::CentralControl => "central_control"@,
        TacticId::OpeningCentralCannon => "opening_central_cannon"@,
        TacticId::OpeningCrossPalaceCannon => "opening_cross_palace_cannon"@,
        TacticId::OpeningAdvisorCornerCannon => "opening_advisor_corner_cannon"@,
        TacticId::OpeningPawnProbe => "opening_pawn_probe"@,
        TacticId::OpeningElephant => "opening_elephant"@,
    }
}

impl TacticId {
    /// Knowledge-base id.
    pub fn id(self) -> (r: &'static str)
        ensures
            r@ == tactic_text(self),
    {
        match self {
            TacticId::Mate => "mate",
            TacticId::StalemateWin => "stalemate_win",
            TacticId::Check => "check",
            TacticId::DoubleCheck => "double_check",
            TacticId::DiscoveredCheck => "discovered_check",
            TacticId::Capture => "capture",
            TacticId::ResolveCheck => "resolve_check",
            TacticId::Interpose => "interpose",
            TacticId::KingEscape => "king_escape",
            TacticId::CaptureAttacker => "capture_attacker",
            TacticId::Fork => "fork",
            TacticId::Threat => "threat",
            TacticId::Pin => "pin",
            TacticId::Skewer => "skewer",
            TacticId::DiscoveredAttack => "discovered_attack",
            TacticId::Sacrifice => "sacrifice",
            TacticId::ExchangeOffer => "exchange_offer",
            TacticId::WinMaterial => "win_material",
            TacticId::LoseMaterial => "lose_material",
            TacticId::OpenFile => "open_file",
            TacticId::CentralControl => "central_control",
            TacticId::OpeningCentralCannon => "opening_central_cannon",
            TacticId::OpeningCrossPalaceCannon => "opening_cross_palace_cannon",
            TacticId::OpeningAdvisorCornerCannon => "opening_advisor_corner_cannon",
            TacticId::OpeningPawnProbe => "opening_pawn_probe",
            TacticId::OpeningElephant => "opening_elephant",
        }
    }
}

/// How sure a recogniser is of a hit, to be multiplied with the tactic's
/// base confidence: a fixed factor in thousandths, or, for a fork, the
/// value of the two most valuable pieces attacked (the factor being that
/// over 400, kept between 0.3 and 1).
#[derive(Clone, Copy, Debug, PartialEq, Eq, Structural)]
pub enum HitScale {
    /// Factor in thousandths.
    Permille(u16),
    /// Value of the two most valuable forked pieces.
    PairValue(i32),
}

/// One recognised tactic.
#[derive(Clone, Copy, Debug, PartialEq, Eq, Structural)]
pub struct Hit {
    /// The tactic.
    pub tactic: TacticId,
    /// How sure the recogniser is.
    pub scale: HitScale,
}

/// A hit with a fixed factor.
pub open spec fn hit(t: TacticId, permille: u16) -> Hit {
    Hit { tactic: t, scale: HitScale::Permille(permille) }
}

/// Value of a piece kind for exchanges (the same scale as move ordering).
pub open spec fn value_of(k: PieceKind) -> i32 {
    match k {
        PieceKind::King => 10_000,
        PieceKind::Chariot => 900,
        PieceKind::Cannon => 450,
        PieceKind::Horse => 400,
        PieceKind::Advisor => 200,
        PieceKind::Elephant => 200,
        PieceKind::Pawn => 100,
    }
}

/// Value of the piece with code `p` (0 for an empty point).
pub open spec fn code_value(p: u8) -> i32 {
    match kind_of_code(p) {
        Some(k) => value_of(k),
        None => 0,
    }
}

/// Value of a piece kind for exchanges.
pub fn piece_value(kind: PieceKind) -> (r: i32)
    ensures
        r == value_of(kind),
{
    match kind {
        PieceKind::King => 10_000,
        PieceKind::Chariot => 900,
        PieceKind::Cannon => 450,
        PieceKind::Horse => 400,
        PieceKind::Advisor | PieceKind::Elephant => 200,
        PieceKind::Pawn => 100,
    }
}

/// Value of the piece with code `p` (0 for an empty point).
fn value_of_code(p: u8) -> (r: i32)
    ensures
        r == code_value(p),
{
    match kind_of(p) {
        Some(k) => piece_value(k),
        None => 0,
    }
}

/// Whether the piece on `s` may be taken off to test attacks: not empty
/// and not a king.
pub open spec fn removable(b: Seq<u8>, s: int) -> bool {
    b[s] != 0 && kind_of_code(b[s]) != Some(PieceKind::King)
}

/// Whether the piece on `from` attacks `to` for `color`: `to` is attacked,
/// and no longer once that piece is taken off (a king, which is never taken
/// off, counts when it is of `color`).
pub open spec fn attacks_from(b: Seq<u8>, from: int, to: int, color: Color) -> bool {
    attacked(b, to, color) && if removable(b, from) {
        !attacked(b.update(from, 0), to, color)
    } else {
        color_of_code(b[from]) == Some(color)
    }
}

/// Whether the piece on `s` is one of `by`'s attackers of `target` (kings
/// not counted).
pub open spec fn is_attacker(b: Seq<u8>, target: int, by: Color, s: int) -> bool {
    &&& color_of_code(b[s]) == Some(by)
    &&& kind_of_code(b[s]) != Some(PieceKind::King)
    &&& !attacked(b.update(s, 0), target, by)
}

/// `by`'s attackers of `target` among the first `n` points, in order.
pub open spec fn attackers_upto(b: Seq<u8>, target: int, by: Color, n: int) -> Seq<u8>
    decreases n,
{
    if n <= 0 {
        Seq::empty()
    } else {
        let p = attackers_upto(b, target, by, n - 1);
        if is_attacker(b, target, by, n - 1) {
            p.push((n - 1) as u8)
        } else {
            p
        }
    }
}

/// `by`'s attackers of `target` (kings not counted), in board order.
pub open spec fn attackers(b: Seq<u8>, target: int, by: Color) -> Seq<u8> {
    if attacked(b, target, by) {
        attackers_upto(b, target, by, 90)
    } else {
        Seq::empty()
    }
}

/// The attackers found are points of the board.
proof fn lemma_attackers_upto_bound(b: Seq<u8>, target: int, by: Color, n: int)
    requires
        0 <= n <= 90,
    ensures
        attackers_upto(b, target, by, n).len() <= n,
        forall|i: int|
            0 <= i < attackers_upto(b, target, by, n).len() ==> #[trigger] attackers_upto(
                b,
                target,
                by,
                n,
            )[i] < n,
    decreases n,
{
    if n > 0 {
        lemma_attackers_upto_bound(b, target, by, n - 1);
    }
}

/// Whether the piece on `from` attacks `to` for `color`.
fn piece_attacks(pos: &Position, from: u8, to: u8, color: Color) -> (r: bool)
    requires
        from < 90,
        to < 90,
    ensures
        r == attacks_from(pos.board(), from as int, to as int, color),
{
    let b = pos.squares();
    if !board_attacked(b, to, color) {
        return false;
    }
    let piece = b[from as usize];
    if piece != 0 && kind_of(piece) != Some(PieceKind::King) {
        let mut reduced = *b;
        reduced[from as usize] = 0;
        proof {
            assert(reduced@ =~= pos.board().update(from as int, 0));
        }
        !board_attacked(&reduced, to, color)
    } else {
        color_of(piece) == Some(color)
    }
}

/// `by`'s attackers of `target` (kings not counted), in board order.
fn attackers_of(pos: &Position, target: u8, by: Color) -> (r: Vec<u8>)
    requires
        target < 90,
    ensures
        r@ == attackers(pos.board(), target as int, by),
        forall|i: int| 0 <= i < r@.len() ==> #[trigger] r@[i] < 90,
{
    let mut out: Vec<u8> = Vec::new();
    let b = pos.squares();
    if !board_attacked(b, target, by) {
        return out;
    }
    let mut s: u8 = 0;
    while s < 90
        invariant
            s <= 90,
            target < 90,
            b@ == pos.board(),
            attacked(b@, target as int, by),
            out@ == attackers_upto(b@, target as int, by, s as int),
        decreases 90 - s,
    {
        let piece = b[s as usize];
        if color_of(piece) == Some(by) && kind_of(piece) != Some(PieceKind::King) {
            let mut reduced = *b;
            reduced[s as usize] = 0;
            proof {
                assert(reduced@ =~= b@.update(s as int, 0));
            }
            if !board_attacked(&reduced, target, by) {
                out.push(s);
            }
        }
        s += 1;
    }
    proof {
        lemma_attackers_upto_bound(b@, target as int, by, 90);
    }
    out
}

/// Whether `color` guards the point `s` (one of its pieces, not a king,
/// attacks it).
fn is_defended(pos: &Position, s: u8, color: Color) -> (r: bool)
    requires
        s < 90,
    ensures
        r == (attackers(pos.board(), s as int, color).len() > 0),
{
    attackers_of(pos, s, color).len() > 0
}

/// Whether `m` lies strictly between `a` and `b` on the straight line
/// through them.
pub open spec fn lies_between_spec(a: int, b: int, m: int) -> bool {
    let ac = col(a);
    let ar = row(a);
    let bc = col(b);
    let br = row(b);
    let mc = col(m);
    let mr = row(m);
    &&& (bc - ac) * (mr - ar) - (br - ar) * (mc - ac) == 0
    &&& (((ac < bc && ac < mc < bc) || (bc <= ac && bc < mc < ac)) || ((ar < br && ar < mr < br) || (
    br <= ar && br < mr < ar)))
}

/// Whether `m` lies strictly between `a` and `b` on the straight line
/// through them.
fn lies_between(a: u8, b: u8, m: u8) -> (r: bool)
    requires
        a < 90,
        b < 90,
        m < 90,
    ensures
        r == lies_between_spec(a as int, b as int, m as int),
{
    let ac = col_of(a) as i32;
    let ar = row_of(a) as i32;
    let bc = col_of(b) as i32;
    let br = row_of(b) as i32;
    let mc = col_of(m) as i32;
    let mr = row_of(m) as i32;
    let x = bc - ac;
    let y = mr - ar;
    let z = br - ar;
    let w = mc - ac;
    assert(-90 <= x * y <= 90) by (nonlinear_arith)
        requires
            -9 <= x <= 9,
            -10 <= y <= 10,
    ;
    assert(-90 <= z * w <= 90) by (nonlinear_arith)
        requires
            -10 <= z <= 10,
            -9 <= w <= 9,
    ;
    let cross = x * y - z * w;
    if cross != 0 {
        return false;
    }
    let (clo, chi) = if ac < bc {
        (ac, bc)
    } else {
        (bc, ac)
    };
    let (rlo, rhi) = if ar < br {
        (ar, br)
    } else {
        (br, ar)
    };
    (mc > clo && mc < chi) || (mr > rlo && mr < rhi)
}

/// The first piece met going from `(c, r)` in direction `(dc, dr)`, if it
/// belongs to `by`.
pub open spec fn first_of_color(b: Seq<u8>, c: int, r: int, dc: int, dr: int, by: Color) -> Option<int> {
    match ray_first(b, c, r, dc, dr) {
        Some(i) => if color_of_code(b[i]) == Some(by) {
            Some(i)
        } else {
            None
        },
        None => None,
    }
}

/// On a rank or file through `attacker` and `target`, the first piece
/// behind `target` (seen from `attacker`), if it belongs to `by`.
pub open spec fn behind_spec(b: Seq<u8>, attacker: int, target: int, by: Color) -> Option<int> {
    let ac = col(attacker);
    let ar = row(attacker);
    let tc = col(target);
    let tr = row(target);
    if ac == tc && ar == tr {
        None
    } else if tc == ac {
        let dr = if tr > ar {
            1int
        } else {
            -1int
        };
        first_of_color(b, tc, tr + dr, 0, dr, by)
    } else if tr == ar {
        let dc = if tc > ac {
            1int
        } else {
            -1int
        };
        first_of_color(b, tc + dc, tr, dc, 0, by)
    } else {
        None
    }
}

/// On a rank or file through `attacker` and `target`, the first piece
/// behind `target`, if it belongs to `by`.
fn piece_behind_on_line(pos: &Position, attacker: u8, target: u8, by: Color) -> (r: Option<u8>)
    requires
        attacker < 90,
        target < 90,
    ensures
        match r {
            Some(i) => behind_spec(pos.board(), attacker as int, target as int, by) == Some(
                i as int,
            ) && i < 90,
            None => behind_spec(pos.board(), attacker as int, target as int, by) is None,
        },
{
    let ac = col_of(attacker) as i8;
    let ar = row_of(attacker) as i8;
    let tc = col_of(target) as i8;
    let tr = row_of(target) as i8;
    let (dc, dr): (i8, i8) = if ac == tc && ar == tr {
        return None;
    } else if tc == ac {
        (
            0,
            if tr > ar {
                1
            } else {
                -1
            },
        )
    } else if tr == ar {
        (
            if tc > ac {
                1
            } else {
                -1
            },
            0,
        )
    } else {
        return None;
    };
    let b = pos.squares();
    match ray_first_of(b, tc + dc, tr + dr, dc, dr) {
        Some(i) => {
            if color_of(b[i as usize]) == Some(by) {
                Some(i)
            } else {
                None
            }
        },
        None => None,
    }
}

/// Length of the run from `(c, r)` in direction `(dc, dr)`: the empty
/// points, plus one if the first piece met is not `color`'s.
pub open spec fn run_length(b: Seq<u8>, c: int, r: int, dc: int, dr: int, color: Color) -> int
    decreases ray_measure(c, r, dc, dr),
{
    if !is_dir(dc, dr) || !(0 <= c < 9 && 0 <= r < 10) {
        0
    } else if b[sq(c, r)] != 0 {
        if color_of_code(b[sq(c, r)]) != Some(color) {
            1
        } else {
            0
        }
    } else {
        1 + run_length(b, c + dc, r + dr, dc, dr, color)
    }
}

/// 1 when the run from point `s` in direction `(dc, dr)` is at least 3 long.
pub open spec fn open_dir(b: Seq<u8>, s: int, dc: int, dr: int, color: Color) -> int {
    if run_length(b, col(s) + dc, row(s) + dr, dc, dr, color) >= 3 {
        1
    } else {
        0
    }
}

/// Number of the four directions from point `s` with a run of at least 3
/// (how many open lines a chariot or cannon there has).
pub open spec fn open_lines_spec(b: Seq<u8>, s: int, color: Color) -> int {
    open_dir(b, s, 0, 1, color) + open_dir(b, s, 0, -1, color) + open_dir(b, s, 1, 0, color)
        + open_dir(b, s, -1, 0, color)
}

/// Length of the run from `(c0, r0)` in direction `(dc, dr)`.
fn run_length_of(b: &[u8; 90], c0: i8, r0: i8, dc: i8, dr: i8, color: Color) -> (n: u32)
    requires
        is_dir(dc as int, dr as int),
        -1 <= c0 <= 9,
        -1 <= r0 <= 10,
    ensures
        n == run_length(b@, c0 as int, r0 as int, dc as int, dr as int, color),
        n <= 11,
{
    let mut c = c0;
    let mut r = r0;
    let mut n: u32 = 0;
    while on_board(c, r)
        invariant
            is_dir(dc as int, dr as int),
            -1 <= c <= 9,
            -1 <= r <= 10,
            n + ray_measure(c as int, r as int, dc as int, dr as int) <= 11,
            n + run_length(b@, c as int, r as int, dc as int, dr as int, color) == run_length(
                b@,
                c0 as int,
                r0 as int,
                dc as int,
                dr as int,
                color,
            ),
        decreases ray_measure(c as int, r as int, dc as int, dr as int),
    {
        let i = index(c as u8, r as u8);
        let piece = b[i as usize];
        if piece != 0 {
            if color_of(piece) != Some(color) {
                n += 1;
            }
            return n;
        }
        n += 1;
        c = c + dc;
        r = r + dr;
    }
    n
}

/// Number of open lines of a chariot or cannon of `color` on point `s`.
fn open_lines(pos: &Position, s: u8, color: Color) -> (r: u32)
    requires
        s < 90,
    ensures
        r == open_lines_spec(pos.board(), s as int, color),
{
    let b = pos.squares();
    let c = col_of(s) as i8;
    let rr = row_of(s) as i8;
    let mut count: u32 = 0;
    if run_length_of(b, c, rr + 1, 0, 1, color) >= 3 {
        count += 1;
    }
    if run_length_of(b, c, rr - 1, 0, -1, color) >= 3 {
        count += 1;
    }
    if run_length_of(b, c + 1, rr, 1, 0, color) >= 3 {
        count += 1;
    }
    if run_length_of(b, c - 1, rr, -1, 0, color) >= 3 {
        count += 1;
    }
    count
}

/// Whether `v` holds `x`.
fn contains_u8(v: &Vec<u8>, x: u8) -> (r: bool)
    ensures
        r == v@.contains(x),
{
    let mut i: usize = 0;
    while i < v.len()
        invariant
            i <= v@.len(),
            forall|k: int| 0 <= k < i ==> v@[k] != x,
        decreases v@.len() - i,
    {
        if v[i] == x {
            return true;
        }
        i += 1;
    }
    false
}

// ------------------------------------------------------------ structure

/// Mate or stalemate hit of a move leading to `p`.
pub open spec fn l1_end(p: Position) -> Seq<Hit> {
    match status_of(p.snap()) {
        GameStatus::Checkmate { .. } => seq![hit(TacticId::Mate, 1000)],
        GameStatus::Stalemate { .. } => seq![hit(TacticId::StalemateWin, 1000)],
        _ => Seq::<Hit>::empty(),
    }
}

/// Check hits of a move leading to `p`: check, double check (two
/// attackers), discovered check (the moved piece is not an attacker).
pub open spec fn l1_checks(p: Position, ctx: MoveContext) -> Seq<Hit> {
    let enemy = opp(ctx.side);
    if snap_in_check(p.snap(), enemy) {
        let atk = attackers(p.board(), p.king(enemy) as int, ctx.side);
        seq![hit(TacticId::Check, 1000)] + (if atk.len() >= 2 {
            seq![hit(TacticId::DoubleCheck, 1000)]
        } else {
            Seq::<Hit>::empty()
        }) + (if atk.len() > 0 && !atk.contains(mv_to(ctx.mv) as u8) {
            seq![hit(TacticId::DiscoveredCheck, 950)]
        } else {
            Seq::<Hit>::empty()
        })
    } else {
        Seq::<Hit>::empty()
    }
}

/// Capture hit.
pub open spec fn l1_capture(ctx: MoveContext) -> Seq<Hit> {
    if ctx.captured != 0 {
        seq![hit(TacticId::Capture, 1000)]
    } else {
        Seq::<Hit>::empty()
    }
}

/// Hits for getting out of check, with how.
pub open spec fn l1_resolve(ctx: MoveContext) -> Seq<Hit> {
    if ctx.was_in_check {
        seq![hit(TacticId::ResolveCheck, 1000)] + match ctx.nature {
            MoveNature::Interpose => seq![hit(TacticId::Interpose, 1000)],
            MoveNature::Escape => seq![hit(TacticId::KingEscape, 1000)],
            MoveNature::CaptureAttacker => seq![hit(TacticId::CaptureAttacker, 1000)],
            _ => Seq::<Hit>::empty(),
        }
    } else {
        Seq::<Hit>::empty()
    }
}

/// Hits of the structural layer for a move leading to `p`: mate or
/// stalemate, check (double, discovered), capture, and getting out of
/// check (with how).
pub open spec fn l1_hits(p: Position, ctx: MoveContext) -> Seq<Hit> {
    l1_end(p) + l1_checks(p, ctx) + l1_capture(ctx) + l1_resolve(ctx)
}

/// Structural hits of a move leading to `pos_after` (the position is left
/// as it was).
pub fn detect_structure(pos_after: &mut Position, ctx: &MoveContext) -> (r: Vec<Hit>)
    requires
        old(pos_after).wf(),
    ensures
        *final(pos_after) == *old(pos_after),
        r@ == l1_hits(*old(pos_after), *ctx),
{
    let ghost p = *pos_after;
    let enemy = ctx.side.opponent();
    let enemy_king = pos_after.king_index(enemy);
    let in_check = pos_after.is_in_check(enemy);
    let mut hits: Vec<Hit> = Vec::new();
    let status = pos_after.status();
    match status {
        GameStatus::Checkmate { .. } => hits.push(Hit { tactic: TacticId::Mate, scale: HitScale::Permille(1000) }),
        GameStatus::Stalemate { .. } => hits.push(Hit { tactic: TacticId::StalemateWin, scale: HitScale::Permille(1000) }),
        _ => {},
    }
    proof {
        assert(hits@ =~= l1_end(p));
    }
    let ghost h1 = hits@;
    let mut checks: Vec<Hit> = Vec::new();
    if in_check {
        checks.push(Hit { tactic: TacticId::Check, scale: HitScale::Permille(1000) });
        let atk = attackers_of(pos_after, enemy_king, ctx.side);
        if atk.len() >= 2 {
            checks.push(Hit { tactic: TacticId::DoubleCheck, scale: HitScale::Permille(1000) });
        }
        if atk.len() > 0 && !contains_u8(&atk, ctx.mv.to()) {
            checks.push(Hit { tactic: TacticId::DiscoveredCheck, scale: HitScale::Permille(950) });
        }
    }
    proof {
        assert(checks@ =~= l1_checks(p, *ctx));
    }
    hits.append(&mut checks);
    if ctx.captured != 0 {
        hits.push(Hit { tactic: TacticId::Capture, scale: HitScale::Permille(1000) });
    }
    proof {
        assert(hits@ =~= l1_end(p) + l1_checks(p, *ctx) + l1_capture(*ctx));
    }
    let mut resolve: Vec<Hit> = Vec::new();
    if ctx.was_in_check {
        resolve.push(Hit { tactic: TacticId::ResolveCheck, scale: HitScale::Permille(1000) });
        match ctx.nature {
            MoveNature::Interpose => resolve.push(Hit { tactic: TacticId::Interpose, scale: HitScale::Permille(1000) }),
            MoveNature::Escape => resolve.push(Hit { tactic: TacticId::KingEscape, scale: HitScale::Permille(1000) }),
            MoveNature::CaptureAttacker => resolve.push(Hit { tactic: TacticId::CaptureAttacker, scale: HitScale::Permille(1000) }),
            _ => {},
        }
    }
    proof {
        assert(resolve@ =~= l1_resolve(*ctx));
    }
    hits.append(&mut resolve);
    hits
}

// ------------------------------------------------------------ openings

/// The opening a move itself names, from the piece now on the target and
/// the files it moved between.
pub open spec fn opening_hit(b: Seq<u8>, ctx: MoveContext) -> Option<Hit> {
    let from_col = col(mv_from(ctx.mv));
    let to_col = col(mv_to(ctx.mv));
    match kind_of_code(b[mv_to(ctx.mv)]) {
        Some(PieceKind::Cannon) => if (from_col == 1 || from_col == 7) && to_col == 4 {
            Some(hit(TacticId::OpeningCentralCannon, 1000))
        } else if to_col != 4 && from_col != to_col && (from_col < 4) != (to_col < 4) {
            Some(hit(TacticId::OpeningCrossPalaceCannon, 850))
        } else if to_col == 3 || to_col == 5 {
            Some(hit(TacticId::OpeningAdvisorCornerCannon, 800))
        } else {
            None
        },
        Some(PieceKind::Pawn) => if (from_col == 2 || from_col == 6) && ctx.captured == 0 {
            Some(hit(TacticId::OpeningPawnProbe, 900))
        } else {
            None
        },
        Some(PieceKind::Elephant) => Some(hit(TacticId::OpeningElephant, 800)),
        _ => None,
    }
}

/// The opening the move itself names, if any (central cannon, cross-palace
/// cannon, advisor-corner cannon, pawn probe, elephant opening).
pub fn detect_opening_move(pos_after: &Position, ctx: &MoveContext) -> (r: Option<Hit>)
    requires
        mv_from(ctx.mv) < 90,
        mv_to(ctx.mv) < 90,
    ensures
        r == opening_hit(pos_after.board(), *ctx),
{
    let kind = match kind_of(pos_after.piece_at(ctx.mv.to())) {
        Some(k) => k,
        None => {
            return None;
        },
    };
    let from_col = col_of(ctx.mv.from());
    let to_col = col_of(ctx.mv.to());
    match kind {
        PieceKind::Cannon => {
            if (from_col == 1 || from_col == 7) && to_col == 4 {
                Some(Hit { tactic: TacticId::OpeningCentralCannon, scale: HitScale::Permille(1000) })
            } else if to_col != 4 && from_col != to_col && (from_col < 4) != (to_col < 4) {
                Some(Hit { tactic: TacticId::OpeningCrossPalaceCannon, scale: HitScale::Permille(850) })
            } else if to_col == 3 || to_col == 5 {
                Some(Hit { tactic: TacticId::OpeningAdvisorCornerCannon, scale: HitScale::Permille(800) })
            } else {
                None
            }
        },
        PieceKind::Pawn => {
            if (from_col == 2 || from_col == 6) && ctx.captured == 0 {
                Some(Hit { tactic: TacticId::OpeningPawnProbe, scale: HitScale::Permille(900) })
            } else {
                None
            }
        },
        PieceKind::Elephant => Some(Hit { tactic: TacticId::OpeningElephant, scale: HitScale::Permille(800) }),
        _ => None,
    }
}

// ------------------------------------------------------------ relations

/// Whether `s` holds an enemy piece (not the king) that the piece on `a`
/// attacks for `us`.
pub open spec fn is_victim(b: Seq<u8>, a: int, us: Color, s: int) -> bool {
    &&& b[s] != 0
    &&& color_of_code(b[s]) == Some(opp(us))
    &&& kind_of_code(b[s]) != Some(PieceKind::King)
    &&& attacks_from(b, a, s, us)
}

/// Whether taking the victim on `s` with the piece on `a` wins material
/// after one recapture: its value exceeds what a guarded victim costs back
/// (the mover's value).
pub open spec fn is_profitable(b: Seq<u8>, a: int, us: Color, s: int) -> bool {
    &&& is_victim(b, a, us, s)
    &&& code_value(b[s]) - (if attackers(b, s, opp(us)).len() > 0 {
        code_value(b[a])
    } else {
        0
    }) > 0
}

/// Victims of the piece on `a` among the first `n` points, in order.
pub open spec fn victims_upto(b: Seq<u8>, a: int, us: Color, n: int) -> Seq<u8>
    decreases n,
{
    if n <= 0 {
        Seq::empty()
    } else if is_victim(b, a, us, n - 1) {
        victims_upto(b, a, us, n - 1).push((n - 1) as u8)
    } else {
        victims_upto(b, a, us, n - 1)
    }
}

/// Profitable victims of the piece on `a` among the first `n` points.
pub open spec fn profitable_upto(b: Seq<u8>, a: int, us: Color, n: int) -> Seq<u8>
    decreases n,
{
    if n <= 0 {
        Seq::empty()
    } else if is_profitable(b, a, us, n - 1) {
        profitable_upto(b, a, us, n - 1).push((n - 1) as u8)
    } else {
        profitable_upto(b, a, us, n - 1)
    }
}

/// The two largest piece values on the points of `list` (0 where fewer).
pub open spec fn top_two(b: Seq<u8>, list: Seq<u8>) -> (int, int)
    decreases list.len(),
{
    if list.len() == 0 {
        (0, 0)
    } else {
        let (m1, m2) = top_two(b, list.drop_last());
        let v = code_value(b[list.last() as int]) as int;
        if v > m1 {
            (v, m1)
        } else if v > m2 {
            (m1, v)
        } else {
            (m1, m2)
        }
    }
}

/// Fork or threat hit of the piece moved to `a`.
pub open spec fn fork_part(b: Seq<u8>, a: int, us: Color) -> Seq<Hit> {
    let pv = profitable_upto(b, a, us, 90);
    let all = victims_upto(b, a, us, 90);
    if pv.len() >= 2 {
        let (m1, m2) = top_two(b, pv);
        seq![Hit { tactic: TacticId::Fork, scale: HitScale::PairValue((m1 + m2) as i32) }]
    } else if pv.len() > 0 {
        seq![hit(TacticId::Threat, 850)]
    } else if all.len() > 0 {
        seq![hit(TacticId::Threat, 600)]
    } else {
        Seq::<Hit>::empty()
    }
}

/// Pin and skewer hits of a chariot on `a` against the enemy piece on `s`.
pub open spec fn pin_hits_at(b: Seq<u8>, a: int, us: Color, s: int) -> Seq<Hit> {
    let enemy = opp(us);
    if b[s] != 0 && color_of_code(b[s]) == Some(enemy) && kind_of_code(b[s]) is Some
        && attacks_from(b, a, s, us) {
        match behind_spec(b, a, s, enemy) {
            Some(i) => match kind_of_code(b[i]) {
                Some(bk) => {
                    let bv = value_of(bk);
                    let tv = code_value(b[s]);
                    (if bv > tv && bv >= 900 {
                        seq![hit(TacticId::Pin, 800)]
                    } else {
                        Seq::<Hit>::empty()
                    }) + (if tv > bv && tv >= 900 {
                        seq![hit(TacticId::Skewer, 750)]
                    } else {
                        Seq::<Hit>::empty()
                    })
                },
                None => Seq::<Hit>::empty(),
            },
            None => Seq::<Hit>::empty(),
        }
    } else {
        Seq::<Hit>::empty()
    }
}

/// Pin and skewer hits against the first `n` points.
pub open spec fn pins_upto(b: Seq<u8>, a: int, us: Color, n: int) -> Seq<Hit>
    decreases n,
{
    if n <= 0 {
        Seq::empty()
    } else {
        pins_upto(b, a, us, n - 1) + pin_hits_at(b, a, us, n - 1)
    }
}

/// Pin and skewer hits (a chariot only: a cannon's screen may move away).
pub open spec fn pins_part(b: Seq<u8>, a: int, us: Color) -> Seq<Hit> {
    if kind_of_code(b[a]) == Some(PieceKind::Chariot) {
        pins_upto(b, a, us, 90)
    } else {
        Seq::empty()
    }
}

/// Whether moving from `from` to `a` uncovered an attack of the piece on
/// `o` on the enemy piece (not the king) on `s`: the attack exists now and
/// did not before, and `from` lies between `o` and `s`.
pub open spec fn uncovers(before: Seq<u8>, after: Seq<u8>, a: int, from: int, us: Color, s: int, o: int) -> bool {
    &&& after[s] != 0
    &&& color_of_code(after[s]) == Some(opp(us))
    &&& kind_of_code(after[s]) != Some(PieceKind::King)
    &&& o != a
    &&& color_of_code(after[o]) == Some(us)
    &&& attacks_from(after, o, s, us)
    &&& !attacks_from(before, o, s, us)
    &&& lies_between_spec(o, s, from)
}

/// Whether the move uncovered an attack.
pub open spec fn discovered(before: Seq<u8>, after: Seq<u8>, a: int, from: int, us: Color) -> bool {
    exists|s: int, o: int| 0 <= s < 90 && 0 <= o < 90 && #[trigger] uncovers(before, after, a, from, us, s, o)
}

/// Value of the cheapest piece on the points of `list` (10000 for none).
pub open spec fn cheapest(b: Seq<u8>, list: Seq<u8>) -> int
    decreases list.len(),
{
    if list.len() == 0 {
        10_000
    } else {
        let m = cheapest(b, list.drop_last());
        let v = code_value(b[list.last() as int]) as int;
        if v < m {
            v
        } else {
            m
        }
    }
}

/// Sacrifice or exchange-offer hit for the piece moved to `a`: attacked and
/// unguarded, it is a sacrifice when its cheapest attacker is worth no more
/// than it, an exchange offer otherwise; attacked, guarded and having
/// captured, an exchange offer.
pub open spec fn exchange_part(b: Seq<u8>, a: int, us: Color, captured: u8) -> Seq<Hit> {
    let enemy = opp(us);
    let hit_by = attackers(b, a, enemy);
    let attacked_a = hit_by.len() > 0;
    let defended_a = attackers(b, a, us).len() > 0;
    if attacked_a && !defended_a {
        match kind_of_code(b[a]) {
            Some(k) => if cheapest(b, hit_by) <= value_of(k) {
                seq![hit(TacticId::Sacrifice, 700)]
            } else {
                seq![hit(TacticId::ExchangeOffer, 650)]
            },
            None => Seq::<Hit>::empty(),
        }
    } else if attacked_a && defended_a && captured != 0 {
        seq![hit(TacticId::ExchangeOffer, 600)]
    } else {
        Seq::<Hit>::empty()
    }
}

/// Material hits: winning at least 200 on a capture; losing at least the
/// dubious threshold against the best move.
pub open spec fn material_part(b: Seq<u8>, a: int, ctx: MoveContext) -> Seq<Hit> {
    (if ctx.captured != 0 && code_value(ctx.captured) - code_value(b[a]) >= 200 {
        seq![hit(TacticId::WinMaterial, 900)]
    } else {
        Seq::<Hit>::empty()
    }) + (if ctx.score_loss >= crate::coach::assess::THRESHOLD_DUBIOUS {
        seq![hit(TacticId::LoseMaterial, 600)]
    } else {
        Seq::<Hit>::empty()
    })
}

/// Open-line hit: a chariot or cannon with more open lines than before.
pub open spec fn open_part(before: Seq<u8>, after: Seq<u8>, a: int, from: int, us: Color) -> Seq<Hit> {
    let k = kind_of_code(after[a]);
    if (k == Some(PieceKind::Chariot) || k == Some(PieceKind::Cannon)) && open_lines_spec(
        after,
        a,
        us,
    ) > open_lines_spec(before, from, us) {
        seq![hit(TacticId::OpenFile, 700)]
    } else {
        Seq::<Hit>::empty()
    }
}

/// Centre hit: a piece arriving on the central file.
pub open spec fn central_part(after: Seq<u8>, a: int) -> Seq<Hit> {
    if kind_of_code(after[a]) is Some && col(a) == 4 {
        seq![hit(TacticId::CentralControl, 700)]
    } else {
        Seq::<Hit>::empty()
    }
}

/// Hits of the relational layer for a move from `before` to `after`.
pub open spec fn l2_hits(before: Seq<u8>, after: Seq<u8>, ctx: MoveContext) -> Seq<Hit> {
    let a = mv_to(ctx.mv);
    let from = mv_from(ctx.mv);
    let us = ctx.side;
    fork_part(after, a, us) + pins_part(after, a, us) + (if discovered(before, after, a, from, us) {
        seq![hit(TacticId::DiscoveredAttack, 820)]
    } else {
        Seq::<Hit>::empty()
    }) + exchange_part(after, a, us, ctx.captured) + material_part(after, a, ctx) + open_part(
        before,
        after,
        a,
        from,
        us,
    ) + central_part(after, a)
}

/// Fork or threat hit of the piece moved to `a`.
fn fork_hits(pos_after: &Position, a: u8, us: Color) -> (r: Vec<Hit>)
    requires
        a < 90,
    ensures
        r@ == fork_part(pos_after.board(), a as int, us),
{
    let ghost b = pos_after.board();
    let enemy = us.opponent();
    let mover_value = value_of_code(pos_after.piece_at(a));
    let mut n_all: usize = 0;
    let mut n_prof: usize = 0;
    let mut m1: i32 = 0;
    let mut m2: i32 = 0;
    let mut s: u8 = 0;
    while s < 90
        invariant
            a < 90,
            s <= 90,
            b == pos_after.board(),
            mover_value == code_value(b[a as int]),
            enemy == opp(us),
            n_all == victims_upto(b, a as int, us, s as int).len(),
            n_prof == profitable_upto(b, a as int, us, s as int).len(),
            n_all <= s,
            n_prof <= s,
            (m1 as int, m2 as int) == top_two(b, profitable_upto(b, a as int, us, s as int)),
            0 <= m2 <= m1 <= 10_000,
        decreases 90 - s,
    {
        let piece = pos_after.piece_at(s);
        let victim = piece != 0 && color_of(piece) == Some(enemy) && kind_of(piece) != Some(
            PieceKind::King,
        ) && piece_attacks(pos_after, a, s, us);
        proof {
            assert(victim == is_victim(b, a as int, us, s as int));
            assert(victims_upto(b, a as int, us, s + 1) == (if is_victim(b, a as int, us, s as int) {
                victims_upto(b, a as int, us, s as int).push(s)
            } else {
                victims_upto(b, a as int, us, s as int)
            }));
        }
        let mut profitable = false;
        if victim {
            n_all += 1;
            let victim_value = value_of_code(piece);
            let recapture_cost = if is_defended(pos_after, s, enemy) {
                mover_value
            } else {
                0
            };
            profitable = victim_value - recapture_cost > 0;
            if profitable {
                n_prof += 1;
                if victim_value > m1 {
                    m2 = m1;
                    m1 = victim_value;
                } else if victim_value > m2 {
                    m2 = victim_value;
                }
            }
        }
        proof {
            assert(profitable == is_profitable(b, a as int, us, s as int));
            let p1 = profitable_upto(b, a as int, us, s + 1);
            let p0 = profitable_upto(b, a as int, us, s as int);
            assert(p1 == (if is_profitable(b, a as int, us, s as int) {
                p0.push(s)
            } else {
                p0
            }));
            if profitable {
                assert(p1.drop_last() =~= p0);
            }
        }
        s += 1;
    }
    let mut out: Vec<Hit> = Vec::new();
    if n_prof >= 2 {
        out.push(Hit { tactic: TacticId::Fork, scale: HitScale::PairValue(m1 + m2) });
    } else if n_prof > 0 {
        out.push(Hit { tactic: TacticId::Threat, scale: HitScale::Permille(850) });
    } else if n_all > 0 {
        out.push(Hit { tactic: TacticId::Threat, scale: HitScale::Permille(600) });
    }
    out
}

/// Pin and skewer hits of a chariot moved to `a`.
fn pin_hits(pos_after: &Position, a: u8, us: Color) -> (r: Vec<Hit>)
    requires
        a < 90,
    ensures
        r@ == pins_part(pos_after.board(), a as int, us),
{
    let ghost b = pos_after.board();
    let mut out: Vec<Hit> = Vec::new();
    if kind_of(pos_after.piece_at(a)) != Some(PieceKind::Chariot) {
        return out;
    }
    let enemy = us.opponent();
    let mut s: u8 = 0;
    while s < 90
        invariant
            a < 90,
            s <= 90,
            b == pos_after.board(),
            enemy == opp(us),
            out@ == pins_upto(b, a as int, us, s as int),
        decreases 90 - s,
    {
        let ghost before = out@;
        let target = pos_after.piece_at(s);
        if target != 0 && color_of(target) == Some(enemy) {
            match kind_of(target) {
                Some(target_kind) => {
                    if piece_attacks(pos_after, a, s, us) {
                        match piece_behind_on_line(pos_after, a, s, enemy) {
                            Some(behind) => {
                                match kind_of(pos_after.piece_at(behind)) {
                                    Some(behind_kind) => {
                                        let behind_value = piece_value(behind_kind);
                                        let target_value = piece_value(target_kind);
                                        if behind_value > target_value && behind_value >= 900 {
                                            out.push(Hit { tactic: TacticId::Pin, scale: HitScale::Permille(800) });
                                        }
                                        if target_value > behind_value && target_value >= 900 {
                                            out.push(Hit { tactic: TacticId::Skewer, scale: HitScale::Permille(750) });
                                        }
                                    },
                                    None => {},
                                }
                            },
                            None => {},
                        }
                    }
                },
                None => {},
            }
        }
        proof {
            assert(out@ =~= before + pin_hits_at(b, a as int, us, s as int));
        }
        s += 1;
    }
    out
}

/// Whether the move from `from` to `a` uncovered an attack.
fn uncovered_attack(pos_before: &Position, pos_after: &Position, a: u8, from: u8, us: Color) -> (r: bool)
    requires
        a < 90,
        from < 90,
    ensures
        r == discovered(pos_before.board(), pos_after.board(), a as int, from as int, us),
{
    let ghost bb = pos_before.board();
    let ghost ab = pos_after.board();
    let enemy = us.opponent();
    let mut s: u8 = 0;
    while s < 90
        invariant
            a < 90,
            from < 90,
            s <= 90,
            bb == pos_before.board(),
            ab == pos_after.board(),
            enemy == opp(us),
            forall|s2: int, o: int|
                0 <= s2 < s && 0 <= o < 90 ==> !#[trigger] uncovers(bb, ab, a as int, from as int, us, s2, o),
        decreases 90 - s,
    {
        let piece = pos_after.piece_at(s);
        if piece != 0 && color_of(piece) == Some(enemy) && kind_of(piece) != Some(PieceKind::King) {
            let mut o: u8 = 0;
            while o < 90
                invariant
                    a < 90,
                    from < 90,
                    s < 90,
                    o <= 90,
                    bb == pos_before.board(),
                    ab == pos_after.board(),
                    enemy == opp(us),
                    ab[s as int] != 0,
                    color_of_code(ab[s as int]) == Some(enemy),
                    kind_of_code(ab[s as int]) != Some(PieceKind::King),
                    forall|o2: int| 0 <= o2 < o ==> !#[trigger] uncovers(bb, ab, a as int, from as int, us, s as int, o2),
                decreases 90 - o,
            {
                if o != a && color_of(pos_after.piece_at(o)) == Some(us) && piece_attacks(
                    pos_after,
                    o,
                    s,
                    us,
                ) && !piece_attacks(pos_before, o, s, us) && lies_between(o, s, from) {
                    proof {
                        assert(uncovers(bb, ab, a as int, from as int, us, s as int, o as int));
                    }
                    return true;
                }
                o += 1;
            }
        }
        s += 1;
    }
    false
}

/// Value of the cheapest piece on the points of `list`.
fn cheapest_of(pos: &Position, list: &Vec<u8>) -> (r: i32)
    requires
        forall|i: int| 0 <= i < list@.len() ==> #[trigger] list@[i] < 90,
    ensures
        r == cheapest(pos.board(), list@),
{
    let mut m: i32 = 10_000;
    let mut i: usize = 0;
    while i < list.len()
        invariant
            i <= list@.len(),
            forall|k: int| 0 <= k < list@.len() ==> #[trigger] list@[k] < 90,
            m == cheapest(pos.board(), list@.take(i as int)),
            0 <= m <= 10_000,
        decreases list@.len() - i,
    {
        let v = value_of_code(pos.piece_at(list[i]));
        proof {
            assert(list@.take(i + 1).drop_last() =~= list@.take(i as int));
        }
        if v < m {
            m = v;
        }
        i += 1;
    }
    proof {
        assert(list@.take(list@.len() as int) =~= list@);
    }
    m
}

/// Sacrifice or exchange-offer hit for the piece moved to `a`.
fn exchange_hits(pos_after: &Position, a: u8, us: Color, captured: u8) -> (r: Vec<Hit>)
    requires
        a < 90,
    ensures
        r@ == exchange_part(pos_after.board(), a as int, us, captured),
{
    let enemy = us.opponent();
    let mut out: Vec<Hit> = Vec::new();
    let hit_by = attackers_of(pos_after, a, enemy);
    let attacked_a = hit_by.len() > 0;
    let defended_a = is_defended(pos_after, a, us);
    if attacked_a && !defended_a {
        match kind_of(pos_after.piece_at(a)) {
            Some(kind) => {
                if cheapest_of(pos_after, &hit_by) <= piece_value(kind) {
                    out.push(Hit { tactic: TacticId::Sacrifice, scale: HitScale::Permille(700) });
                } else {
                    out.push(Hit { tactic: TacticId::ExchangeOffer, scale: HitScale::Permille(650) });
                }
            },
            None => {},
        }
    } else if attacked_a && defended_a && captured != 0 {
        out.push(Hit { tactic: TacticId::ExchangeOffer, scale: HitScale::Permille(600) });
    }
    proof {
        assert(out@ =~= exchange_part(pos_after.board(), a as int, us, captured));
    }
    out
}

/// Material hits of a move to `a`.
fn material_hits(pos_after: &Position, a: u8, ctx: &MoveContext) -> (r: Vec<Hit>)
    requires
        a < 90,
    ensures
        r@ == material_part(pos_after.board(), a as int, *ctx),
{
    let mut hits: Vec<Hit> = Vec::new();
    if ctx.captured != 0 {
        let victim_value = value_of_code(ctx.captured);
        let attacker_value = value_of_code(pos_after.piece_at(a));
        if victim_value - attacker_value >= 200 {
            hits.push(Hit { tactic: TacticId::WinMaterial, scale: HitScale::Permille(900) });
        }
    }
    let ghost h = hits@;
    if ctx.score_loss >= crate::coach::assess::THRESHOLD_DUBIOUS {
        hits.push(Hit { tactic: TacticId::LoseMaterial, scale: HitScale::Permille(600) });
    }
    proof {
        assert(hits@ =~= material_part(pos_after.board(), a as int, *ctx));
    }
    hits
}

/// Open-line hit of a move from `from` to `a`.
fn open_hits(pos_before: &Position, pos_after: &Position, a: u8, from: u8, us: Color) -> (r: Vec<Hit>)
    requires
        a < 90,
        from < 90,
    ensures
        r@ == open_part(pos_before.board(), pos_after.board(), a as int, from as int, us),
{
    let mut hits: Vec<Hit> = Vec::new();
    match kind_of(pos_after.piece_at(a)) {
        Some(kind) => {
            if kind == PieceKind::Chariot || kind == PieceKind::Cannon {
                let lines_before = open_lines(pos_before, from, us);
                let lines_after = open_lines(pos_after, a, us);
                if lines_after > lines_before {
                    hits.push(Hit { tactic: TacticId::OpenFile, scale: HitScale::Permille(700) });
                }
            }
        },
        None => {},
    }
    proof {
        assert(hits@ =~= open_part(pos_before.board(), pos_after.board(), a as int, from as int, us));
    }
    hits
}

/// Centre hit of a move to `a`.
fn central_hits(pos_after: &Position, a: u8) -> (r: Vec<Hit>)
    requires
        a < 90,
    ensures
        r@ == central_part(pos_after.board(), a as int),
{
    let mut hits: Vec<Hit> = Vec::new();
    if kind_of(pos_after.piece_at(a)).is_some() && col_of(a) == 4 {
        hits.push(Hit { tactic: TacticId::CentralControl, scale: HitScale::Permille(700) });
    }
    proof {
        assert(hits@ =~= central_part(pos_after.board(), a as int));
    }
    hits
}

/// Hits of the relational layer for a move from `pos_before` to
/// `pos_after`: fork or threat, pin and skewer, discovered attack,
/// sacrifice or exchange offer, material won or lost, open lines, centre.
pub fn detect_relations(pos_before: &Position, pos_after: &Position, ctx: &MoveContext) -> (r: Vec<Hit>)
    requires
        mv_from(ctx.mv) < 90,
        mv_to(ctx.mv) < 90,
    ensures
        r@ == l2_hits(pos_before.board(), pos_after.board(), *ctx),
{
    let us = ctx.side;
    let a = ctx.mv.to();
    let from = ctx.mv.from();
    let mut hits = fork_hits(pos_after, a, us);
    let mut pins = pin_hits(pos_after, a, us);
    hits.append(&mut pins);
    let mut disc: Vec<Hit> = Vec::new();
    if uncovered_attack(pos_before, pos_after, a, from, us) {
        disc.push(Hit { tactic: TacticId::DiscoveredAttack, scale: HitScale::Permille(820) });
    }
    hits.append(&mut disc);
    let mut exchange = exchange_hits(pos_after, a, us, ctx.captured);
    hits.append(&mut exchange);
    let mut material = material_hits(pos_after, a, ctx);
    hits.append(&mut material);
    let mut open = open_hits(pos_before, pos_after, a, from, us);
    hits.append(&mut open);
    let mut central = central_hits(pos_after, a);
    hits.append(&mut central);
    hits
}

// ------------------------------------------------------------ formations

/// The piece kind named `t` in the knowledge base.
pub open spec fn kind_of_name(t: Seq<char>) -> Option<PieceKind> {
    if t == "king"@ {
        Some(PieceKind::King)
    } else if t == "advisor"@ {
        Some(PieceKind::Advisor)
    } else if t == "elephant"@ {
        Some(PieceKind::Elephant)
    } else if t == "horse"@ {
        Some(PieceKind::Horse)
    } else if t == "chariot"@ {
        Some(PieceKind::Chariot)
    } else if t == "cannon"@ {
        Some(PieceKind::Cannon)
    } else if t == "pawn"@ {
        Some(PieceKind::Pawn)
    } else {
        None
    }
}

/// The piece kind named `name`, if any.
pub fn parse_kind(name: &str) -> (r: Option<PieceKind>)
    ensures
        r == kind_of_name(name@),
{
    if str_eq(name, "king") {
        Some(PieceKind::King)
    } else if str_eq(name, "advisor") {
        Some(PieceKind::Advisor)
    } else if str_eq(name, "elephant") {
        Some(PieceKind::Elephant)
    } else if str_eq(name, "horse") {
        Some(PieceKind::Horse)
    } else if str_eq(name, "chariot") {
        Some(PieceKind::Chariot)
    } else if str_eq(name, "cannon") {
        Some(PieceKind::Cannon)
    } else if str_eq(name, "pawn") {
        Some(PieceKind::Pawn)
    } else {
        None
    }
}

/// Whether a formation's attacker kind name `t` admits `kind` (an unknown
/// name admits every kind).
pub open spec fn kind_name_admits(t: Seq<char>, kind: PieceKind) -> bool {
    match kind_of_name(t) {
        Some(k) => k == kind,
        None => true,
    }
}

/// Whether a formation's attacker kind name admits `kind`.
pub fn kind_matches(name: &str, kind: PieceKind) -> (r: bool)
    ensures
        r == kind_name_admits(name@, kind),
{
    match parse_kind(name) {
        Some(k) => k == kind,
        None => true,
    }
}

/// What the formation predicates look at: the position after the move, the
/// point the piece moved to, the two sides and the piece captured.
#[derive(Clone, Copy, Debug)]
pub struct PredicateCtx {
    /// Point the piece moved to.
    pub to: u8,
    /// The side that moved.
    pub us: Color,
    /// The other side.
    pub enemy: Color,
    /// Code of the piece captured (0 for none).
    pub captured: u8,
}

/// Base rank of `enemy`.
pub open spec fn base_row(enemy: Color) -> int {
    match enemy {
        Color::Red => 0,
        Color::Black => 9,
    }
}

/// King (Chebyshev) distance between two points.
pub open spec fn chebyshev_spec(a: int, b: int) -> int {
    let dc = if col(a) >= col(b) {
        col(a) - col(b)
    } else {
        col(b) - col(a)
    };
    let dr = if row(a) >= row(b) {
        row(a) - row(b)
    } else {
        row(b) - row(a)
    };
    if dc >= dr {
        dc
    } else {
        dr
    }
}

/// King distance between two points.
fn chebyshev(a: u8, b: u8) -> (r: u8)
    requires
        a < 90,
        b < 90,
    ensures
        r == chebyshev_spec(a as int, b as int),
{
    let (ac, ar, bc, br) = (col_of(a), row_of(a), col_of(b), row_of(b));
    let dc = if ac >= bc {
        ac - bc
    } else {
        bc - ac
    };
    let dr = if ar >= br {
        ar - br
    } else {
        br - ar
    };
    if dc >= dr {
        dc
    } else {
        dr
    }
}

/// Whether point `s` is within `d` (king distance) of a corner of `enemy`'s palace.
pub open spec fn near_corner(enemy: Color, s: int, d: int) -> bool {
    let lo = if enemy == Color::Red {
        0int
    } else {
        7int
    };
    let hi = if enemy == Color::Red {
        2int
    } else {
        9int
    };
    ||| chebyshev_spec(s, sq(3, lo)) <= d
    ||| chebyshev_spec(s, sq(5, lo)) <= d
    ||| chebyshev_spec(s, sq(3, hi)) <= d
    ||| chebyshev_spec(s, sq(5, hi)) <= d
}

/// Whether point `s` is within `d` of a corner of `enemy`'s palace.
fn near_palace_corner(enemy: Color, s: u8, d: u8) -> (r: bool)
    requires
        s < 90,
    ensures
        r == near_corner(enemy, s as int, d as int),
{
    let (lo, hi) = enemy.palace_rows();
    let corners = [index(3, lo), index(5, lo), index(3, hi), index(5, hi)];
    chebyshev(s, corners[0]) <= d || chebyshev(s, corners[1]) <= d || chebyshev(s, corners[2]) <= d
        || chebyshev(s, corners[3]) <= d
}

/// Files between column `c` and the palace files 3..=5.
pub open spec fn palace_gap(c: int) -> int {
    if c > 5 {
        c - 5
    } else if c < 3 {
        3 - c
    } else {
        0
    }
}

/// Files between column `c` and the palace files.
fn horizontal_distance_to_palace(c: u8) -> (r: u8)
    ensures
        r == palace_gap(c as int),
{
    let right = if c > 5 {
        c - 5
    } else {
        0
    };
    let left = if c < 3 {
        3 - c
    } else {
        0
    };
    if right >= left {
        right
    } else {
        left
    }
}

/// Pieces met walking from `(c, r)` in direction `(dc, dr)` until the
/// point `(kc, kr)` or the edge, in order.
pub open spec fn occupied_until(b: Seq<u8>, c: int, r: int, dc: int, dr: int, kc: int, kr: int) -> Seq<u8>
    decreases ray_measure(c, r, dc, dr),
{
    if !is_dir(dc, dr) || !(0 <= c < 9 && 0 <= r < 10) || (c == kc && r == kr) {
        Seq::empty()
    } else {
        (if b[sq(c, r)] != 0 {
            seq![sq(c, r) as u8]
        } else {
            Seq::<u8>::empty()
        }) + occupied_until(b, c + dc, r + dr, dc, dr, kc, kr)
    }
}

/// Pieces between the point `a` and the king on `k` along their file or
/// rank (none when they share neither).
pub open spec fn between_spec(b: Seq<u8>, a: int, k: int) -> Seq<u8> {
    let ac = col(a);
    let ar = row(a);
    let kc = col(k);
    let kr = row(k);
    if kc == ac {
        let dr = if kr > ar {
            1int
        } else {
            -1int
        };
        occupied_until(b, ac, ar + dr, 0, dr, kc, kr)
    } else if kr == ar {
        let dc = if kc > ac {
            1int
        } else {
            -1int
        };
        occupied_until(b, ac + dc, ar, dc, 0, kc, kr)
    } else {
        Seq::empty()
    }
}

/// Pieces met from `(c0, r0)` in direction `(dc, dr)` until `(kc, kr)`.
fn occupied_on_ray(b: &[u8; 90], c0: i8, r0: i8, dc: i8, dr: i8, kc: i8, kr: i8) -> (out: Vec<u8>)
    requires
        is_dir(dc as int, dr as int),
        -1 <= c0 <= 9,
        -1 <= r0 <= 10,
    ensures
        out@ == occupied_until(b@, c0 as int, r0 as int, dc as int, dr as int, kc as int, kr as int),
{
    let mut out: Vec<u8> = Vec::new();
    let mut c = c0;
    let mut r = r0;
    while on_board(c, r) && !(c == kc && r == kr)
        invariant
            is_dir(dc as int, dr as int),
            -1 <= c <= 9,
            -1 <= r <= 10,
            out@ + occupied_until(b@, c as int, r as int, dc as int, dr as int, kc as int, kr as int)
                == occupied_until(b@, c0 as int, r0 as int, dc as int, dr as int, kc as int, kr as int),
        decreases ray_measure(c as int, r as int, dc as int, dr as int),
    {
        let i = index(c as u8, r as u8);
        let ghost before = out@;
        if b[i as usize] != 0 {
            out.push(i);
        }
        proof {
            let rest = occupied_until(b@, c + dc, r + dr, dc as int, dr as int, kc as int, kr as int);
            assert(before + occupied_until(b@, c as int, r as int, dc as int, dr as int, kc as int, kr as int)
                =~= out@ + rest);
        }
        c = c + dc;
        r = r + dr;
    }
    proof {
        assert(out@ + Seq::<u8>::empty() =~= out@);
    }
    out
}

/// Pieces between the point `a` and the king on `k` along their line.
fn pieces_between(pos: &Position, a: u8, k: u8) -> (r: Vec<u8>)
    requires
        a < 90,
        k < 90,
    ensures
        r@ == between_spec(pos.board(), a as int, k as int),
{
    let ac = col_of(a) as i8;
    let ar = row_of(a) as i8;
    let kc = col_of(k) as i8;
    let kr = row_of(k) as i8;
    if kc == ac {
        let dr: i8 = if kr > ar {
            1
        } else {
            -1
        };
        occupied_on_ray(pos.squares(), ac, ar + dr, 0, dr, kc, kr)
    } else if kr == ar {
        let dc: i8 = if kc > ac {
            1
        } else {
            -1
        };
        occupied_on_ray(pos.squares(), ac + dc, ar, dc, 0, kc, kr)
    } else {
        Vec::new()
    }
}

/// Whether the king on `k` may step in direction `(dc, dr)` within its palace.
pub open spec fn escape_ok(enemy: Color, k: int, dc: int, dr: int) -> bool {
    let nc = col(k) + dc;
    let nr = row(k) + dr;
    0 <= nc < 9 && 0 <= nr < 10 && in_palace_spec(enemy, nc, nr)
}

/// Number of the king's palace steps whose point satisfies `f`.
pub open spec fn escapes_where(enemy: Color, k: int, f: spec_fn(int) -> bool) -> int {
    (if escape_ok(enemy, k, 0, 1) && f(k + 9) {
        1int
    } else {
        0
    }) + (if escape_ok(enemy, k, 0, -1) && f(k - 9) {
        1int
    } else {
        0
    }) + (if escape_ok(enemy, k, 1, 0) && f(k + 1) {
        1int
    } else {
        0
    }) + (if escape_ok(enemy, k, -1, 0) && f(k - 1) {
        1int
    } else {
        0
    })
}

/// The king's palace steps (up to four points), in a fixed order.
fn king_escape_squares(enemy: Color, k: u8) -> (r: Vec<u8>)
    requires
        k < 90,
    ensures
        r@.len() <= 4,
        forall|i: int| 0 <= i < r@.len() ==> #[trigger] r@[i] < 90,
        forall|f: spec_fn(int) -> bool|
            #![trigger escapes_where(enemy, k as int, f)]
            escapes_where(enemy, k as int, f) == count_in(r@, f),
{
    let c = col_of(k) as i8;
    let rr = row_of(k) as i8;
    let mut out: Vec<u8> = Vec::new();
    let dirs: [(i8, i8); 4] = [(0, 1), (0, -1), (1, 0), (-1, 0)];
    let mut d: usize = 0;
    while d < 4
        invariant
            d <= 4,
            k < 90,
            c == col(k as int),
            rr == row(k as int),
            dirs@ == seq![(0i8, 1i8), (0i8, -1i8), (1i8, 0i8), (-1i8, 0i8)],
            out@.len() <= d,
            forall|i: int| 0 <= i < out@.len() ==> #[trigger] out@[i] < 90,
            forall|f: spec_fn(int) -> bool|
                #![trigger count_in(out@, f)]
                count_in(out@, f) == escapes_prefix(enemy, k as int, f, d as int),
        decreases 4 - d,
    {
        let (dc, dr) = dirs[d];
        let nc = c + dc;
        let nr = rr + dr;
        let ghost before = out@;
        if on_board(nc, nr) && in_palace(enemy, nc as u8, nr as u8) {
            out.push(index(nc as u8, nr as u8));
        }
        proof {
            assert forall|f: spec_fn(int) -> bool| #[trigger] count_in(out@, f) == escapes_prefix(enemy, k as int, f, d + 1) by {
                lemma_count_in_push(before, f);
                if out@.len() > before.len() {
                    assert(out@ =~= before.push(out@.last()));
                }
            }
        }
        d += 1;
    }
    proof {
        assert forall|f: spec_fn(int) -> bool| #![trigger escapes_where(enemy, k as int, f)] escapes_where(enemy, k as int, f) == count_in(out@, f) by {
            assert(escapes_prefix(enemy, k as int, f, 4) == escapes_where(enemy, k as int, f));
        }
    }
    out
}

/// Number of entries of `list` whose point satisfies `f`.
pub open spec fn count_in(list: Seq<u8>, f: spec_fn(int) -> bool) -> int
    decreases list.len(),
{
    if list.len() == 0 {
        0
    } else {
        count_in(list.drop_last(), f) + if f(list.last() as int) {
            1int
        } else {
            0
        }
    }
}

/// [`escapes_where`] over the first `d` directions.
pub open spec fn escapes_prefix(enemy: Color, k: int, f: spec_fn(int) -> bool, d: int) -> int {
    (if d > 0 && escape_ok(enemy, k, 0, 1) && f(k + 9) {
        1int
    } else {
        0
    }) + (if d > 1 && escape_ok(enemy, k, 0, -1) && f(k - 9) {
        1int
    } else {
        0
    }) + (if d > 2 && escape_ok(enemy, k, 1, 0) && f(k + 1) {
        1int
    } else {
        0
    }) + (if d > 3 && escape_ok(enemy, k, -1, 0) && f(k - 1) {
        1int
    } else {
        0
    })
}

/// Counting over a list one entry longer.
proof fn lemma_count_in_push(list: Seq<u8>, f: spec_fn(int) -> bool)
    ensures
        forall|x: u8| #[trigger] count_in(list.push(x), f) == count_in(list, f) + if f(x as int) {
            1int
        } else {
            0
        },
{
    assert forall|x: u8| #[trigger] count_in(list.push(x), f) == count_in(list, f) + if f(x as int) {
        1int
    } else {
        0
    } by {
        assert(list.push(x).drop_last() =~= list);
    }
}

/// Number of points below `n` holding `us`'s piece of kind `k`.
pub open spec fn own_count_upto(b: Seq<u8>, us: Color, k: PieceKind, n: int) -> int
    decreases n,
{
    if n <= 0 {
        0
    } else {
        own_count_upto(b, us, k, n - 1) + if holds(b, n - 1, us, k) {
            1int
        } else {
            0
        }
    }
}

/// Number of files below `n` on rank `r` holding `us`'s piece of kind `k`.
pub open spec fn row_count_upto(b: Seq<u8>, r: int, us: Color, k: PieceKind, n: int) -> int
    decreases n,
{
    if n <= 0 {
        0
    } else {
        row_count_upto(b, r, us, k, n - 1) + if holds(b, sq(n - 1, r), us, k) {
            1int
        } else {
            0
        }
    }
}

/// Number of ranks below `n` on file `c` holding `us`'s piece of kind `k`.
pub open spec fn col_count_upto(b: Seq<u8>, c: int, us: Color, k: PieceKind, n: int) -> int
    decreases n,
{
    if n <= 0 {
        0
    } else {
        col_count_upto(b, c, us, k, n - 1) + if holds(b, sq(c, n - 1), us, k) {
            1int
        } else {
            0
        }
    }
}

/// Number of ranks below `n` on file `c` holding any piece of `us`.
pub open spec fn side_col_count_upto(b: Seq<u8>, c: int, us: Color, n: int) -> int
    decreases n,
{
    if n <= 0 {
        0
    } else {
        side_col_count_upto(b, c, us, n - 1) + if color_of_code(b[sq(c, n - 1)]) == Some(us) {
            1int
        } else {
            0
        }
    }
}

/// Number of points below `n` holding a piece of `us` within `d` of a
/// corner of `enemy`'s palace.
pub open spec fn corner_count_upto(b: Seq<u8>, us: Color, enemy: Color, d: int, n: int) -> int
    decreases n,
{
    if n <= 0 {
        0
    } else {
        corner_count_upto(b, us, enemy, d, n - 1) + if color_of_code(b[n - 1]) == Some(us)
            && near_corner(enemy, n - 1, d) {
            1int
        } else {
            0
        }
    }
}

/// Number of `us`'s pieces of kind `k` on the board.
fn count_own_pieces(pos: &Position, us: Color, k: PieceKind) -> (r: u32)
    ensures
        r == own_count_upto(pos.board(), us, k, 90),
{
    let mut n: u32 = 0;
    let mut s: u8 = 0;
    while s < 90
        invariant
            s <= 90,
            n == own_count_upto(pos.board(), us, k, s as int),
            n <= s,
        decreases 90 - s,
    {
        let piece = pos.piece_at(s);
        if color_of(piece) == Some(us) && kind_of(piece) == Some(k) {
            n += 1;
        }
        s += 1;
    }
    n
}

/// Number of `us`'s pieces of kind `k` on rank `r`.
fn count_on_row(pos: &Position, r: u8, us: Color, k: PieceKind) -> (n: u32)
    requires
        r < 10,
    ensures
        n == row_count_upto(pos.board(), r as int, us, k, 9),
        n <= 9,
{
    let mut n: u32 = 0;
    let mut c: u8 = 0;
    while c < 9
        invariant
            c <= 9,
            r < 10,
            n == row_count_upto(pos.board(), r as int, us, k, c as int),
            n <= c,
        decreases 9 - c,
    {
        let piece = pos.piece_at(index(c, r));
        if color_of(piece) == Some(us) && kind_of(piece) == Some(k) {
            n += 1;
        }
        c += 1;
    }
    n
}

/// Number of `us`'s pieces of kind `k` on file `c`.
fn count_on_col(pos: &Position, c: u8, us: Color, k: PieceKind) -> (n: u32)
    requires
        c < 9,
    ensures
        n == col_count_upto(pos.board(), c as int, us, k, 10),
        n <= 10,
{
    let mut n: u32 = 0;
    let mut r: u8 = 0;
    while r < 10
        invariant
            r <= 10,
            c < 9,
            n == col_count_upto(pos.board(), c as int, us, k, r as int),
            n <= r,
        decreases 10 - r,
    {
        let piece = pos.piece_at(index(c, r));
        if color_of(piece) == Some(us) && kind_of(piece) == Some(k) {
            n += 1;
        }
        r += 1;
    }
    n
}

/// Number of `us`'s pieces on file `c`.
fn count_side_on_col(pos: &Position, c: u8, us: Color) -> (n: u32)
    requires
        c < 9,
    ensures
        n == side_col_count_upto(pos.board(), c as int, us, 10),
{
    let mut n: u32 = 0;
    let mut r: u8 = 0;
    while r < 10
        invariant
            r <= 10,
            c < 9,
            n == side_col_count_upto(pos.board(), c as int, us, r as int),
            n <= r,
        decreases 10 - r,
    {
        if color_of(pos.piece_at(index(c, r))) == Some(us) {
            n += 1;
        }
        r += 1;
    }
    n
}

/// Number of `us`'s pieces within `d` of a corner of `enemy`'s palace.
fn count_near_corners(pos: &Position, us: Color, enemy: Color, d: u8) -> (n: u32)
    ensures
        n == corner_count_upto(pos.board(), us, enemy, d as int, 90),
{
    let mut n: u32 = 0;
    let mut s: u8 = 0;
    while s < 90
        invariant
            s <= 90,
            n == corner_count_upto(pos.board(), us, enemy, d as int, s as int),
            n <= s,
        decreases 90 - s,
    {
        if color_of(pos.piece_at(s)) == Some(us) && near_palace_corner(enemy, s, d) {
            n += 1;
        }
        s += 1;
    }
    n
}

/// Whether some piece of `us` of kind `k` stands within `d` of point `king`.
pub open spec fn near_king(b: Seq<u8>, us: Color, k: PieceKind, king: int, d: int) -> bool {
    exists|s: int| 0 <= s < 90 && #[trigger] holds(b, s, us, k) && chebyshev_spec(s, king) <= d
}

/// Whether some piece of `us` of kind `k` stands within `d` of point `king`.
fn piece_near_king(pos: &Position, us: Color, k: PieceKind, king: u8, d: u8) -> (r: bool)
    requires
        king < 90,
    ensures
        r == near_king(pos.board(), us, k, king as int, d as int),
{
    let mut s: u8 = 0;
    while s < 90
        invariant
            s <= 90,
            king < 90,
            forall|t: int|
                0 <= t < s ==> !(#[trigger] holds(pos.board(), t, us, k) && chebyshev_spec(t, king as int)
                    <= d),
        decreases 90 - s,
    {
        let piece = pos.piece_at(s);
        if color_of(piece) == Some(us) && kind_of(piece) == Some(k) && chebyshev(s, king) <= d {
            proof {
                assert(holds(pos.board(), s as int, us, k) && chebyshev_spec(s as int, king as int) <= d);
            }
            return true;
        }
        s += 1;
    }
    false
}

/// Number of the king's palace steps whose point holds a piece.
fn escapes_occupied(pos: &Position, esc: &Vec<u8>) -> (n: usize)
    requires
        forall|i: int| 0 <= i < esc@.len() ==> #[trigger] esc@[i] < 90,
    ensures
        n == count_in(esc@, |t: int| pos.board()[t] != 0),
{
    let ghost f = |t: int| pos.board()[t] != 0;
    let mut n: usize = 0;
    let mut i: usize = 0;
    while i < esc.len()
        invariant
            i <= esc@.len(),
            forall|k: int| 0 <= k < esc@.len() ==> #[trigger] esc@[k] < 90,
            n == count_in(esc@.take(i as int), f),
            n <= i,
            forall|t: int| #[trigger] f(t) == (pos.board()[t] != 0),
        decreases esc@.len() - i,
    {
        proof {
            assert(esc@.take(i + 1).drop_last() =~= esc@.take(i as int));
        }
        if pos.piece_at(esc[i]) != 0 {
            n += 1;
        }
        i += 1;
    }
    proof {
        assert(esc@.take(esc@.len() as int) =~= esc@);
        assert(f =~= (|t: int| pos.board()[t] != 0));
    }
    n
}

/// Number of the king's palace steps whose point holds a piece of `enemy`.
fn escapes_own(pos: &Position, esc: &Vec<u8>, enemy: Color) -> (n: usize)
    requires
        forall|i: int| 0 <= i < esc@.len() ==> #[trigger] esc@[i] < 90,
    ensures
        n == count_in(esc@, |t: int| color_of_code(pos.board()[t]) == Some(enemy)),
{
    let ghost f = |t: int| color_of_code(pos.board()[t]) == Some(enemy);
    let mut n: usize = 0;
    let mut i: usize = 0;
    while i < esc.len()
        invariant
            i <= esc@.len(),
            forall|k: int| 0 <= k < esc@.len() ==> #[trigger] esc@[k] < 90,
            n == count_in(esc@.take(i as int), f),
            n <= i,
            forall|t: int| #[trigger] f(t) == (color_of_code(pos.board()[t]) == Some(enemy)),
        decreases esc@.len() - i,
    {
        proof {
            assert(esc@.take(i + 1).drop_last() =~= esc@.take(i as int));
        }
        if color_of(pos.piece_at(esc[i])) == Some(enemy) {
            n += 1;
        }
        i += 1;
    }
    proof {
        assert(esc@.take(esc@.len() as int) =~= esc@);
        assert(f =~= (|t: int| color_of_code(pos.board()[t]) == Some(enemy)));
    }
    n
}

/// Number of the king's palace steps that are neither occupied by its own
/// side nor attacked by `us`.
fn escapes_free(pos: &Position, esc: &Vec<u8>, us: Color, enemy: Color) -> (n: usize)
    requires
        forall|i: int| 0 <= i < esc@.len() ==> #[trigger] esc@[i] < 90,
    ensures
        n == count_in(
            esc@,
            |t: int| !(color_of_code(pos.board()[t]) == Some(enemy) || attacked(pos.board(), t, us)),
        ),
{
    let ghost f = |t: int| !(color_of_code(pos.board()[t]) == Some(enemy) || attacked(pos.board(), t, us));
    let mut n: usize = 0;
    let mut i: usize = 0;
    while i < esc.len()
        invariant
            i <= esc@.len(),
            forall|k: int| 0 <= k < esc@.len() ==> #[trigger] esc@[k] < 90,
            n == count_in(esc@.take(i as int), f),
            n <= i,
            forall|t: int| #[trigger] f(t) == (!(color_of_code(pos.board()[t]) == Some(enemy) || attacked(pos.board(), t, us))),
        decreases esc@.len() - i,
    {
        proof {
            assert(esc@.take(i + 1).drop_last() =~= esc@.take(i as int));
        }
        let t = esc[i];
        if !(color_of(pos.piece_at(t)) == Some(enemy) || pos.is_attacked(t, us)) {
            n += 1;
        }
        i += 1;
    }
    proof {
        assert(esc@.take(esc@.len() as int) =~= esc@);
        assert(f =~= (|t: int| !(color_of_code(pos.board()[t]) == Some(enemy) || attacked(pos.board(), t, us))));
    }
    n
}

/// The `kind` parameter of a constraint, as a piece kind.
pub open spec fn con_kind(con: ConstraintDef) -> Option<PieceKind> {
    match con.kind {
        Some(t) => kind_of_name(t@),
        None => None,
    }
}

/// Rank `offset` ranks from `enemy`'s base rank towards the mover.
pub open spec fn rank_from_base(enemy: Color, offset: u8) -> int {
    base_row(enemy) + (if enemy == Color::Black {
        -1int
    } else {
        1int
    }) * (offset as i8 as int)
}

/// Predicates on the line between the piece moved and the enemy king, and
/// on attacks (`None` for another predicate name).
pub open spec fn line_group(p: Position, pc: PredicateCtx, con: ConstraintDef) -> Option<bool> {
    let b = p.board();
    let to = pc.to as int;
    let ek = p.king(pc.enemy) as int;
    let same_line = col(to) == col(ek) || row(to) == row(ek);
    let between = between_spec(b, to, ek);
    let name = con.predicate@;
    if name == "attacker_checks_king"@ {
        Some(snap_in_check(p.snap(), pc.enemy) && attacks_from(b, to, ek, pc.us))
    } else if name == "has_own_piece_as_screen"@ {
        Some(
            same_line && between.len() == 1 && match (con_kind(con), kind_of_code(b[between[0] as int])) {
                (Some(want), Some(actual)) => actual == want,
                _ => false,
            },
        )
    } else if name == "screen_piece_adjacent_to_king"@ {
        Some(
            match con.distance {
                Some(d) => between.len() == 1 && chebyshev_spec(between[0] as int, ek) <= d,
                None => false,
            },
        )
    } else if name == "attacker_same_file_or_rank_as_king"@ {
        Some(same_line)
    } else if name == "attacker_same_file_as_king"@ || name == "attacker_on_king_file"@ {
        Some(col(to) == col(ek))
    } else if name == "no_piece_between_attacker_and_king"@ {
        Some(same_line && between.len() == 0)
    } else if name == "attacker_checks_king_within_n_plies"@ {
        Some(
            (match con.plies {
                Some(n) => n >= 1,
                None => true,
            }) && snap_in_check(p.snap(), pc.enemy),
        )
    } else if name == "attacker_is_sacrificed"@ {
        Some(attackers(b, to, pc.enemy).len() > 0 && attackers(b, to, pc.us).len() == 0)
    } else {
        None
    }
}

/// Predicates on where the piece moved to and on the piece captured
/// (`None` for another predicate name).
pub open spec fn place_group(pc: PredicateCtx, con: ConstraintDef) -> Option<bool> {
    let to = pc.to as int;
    let tc = col(to);
    let tr = row(to);
    let name = con.predicate@;
    if name == "attacker_in_enemy_half"@ {
        Some(!own_side_spec(pc.us, tr))
    } else if name == "attacker_outside_palace"@ {
        Some(!in_palace_spec(pc.enemy, tc, tr))
    } else if name == "attacker_on_central_file"@ {
        Some(tc == 4)
    } else if name == "attacker_on_enemy_base_rank"@ {
        Some(tr == base_row(pc.enemy))
    } else if name == "attacker_on_rank"@ {
        Some(
            match con.row_offset_from_enemy_base {
                Some(o) => {
                    let want = rank_from_base(pc.enemy, o);
                    0 <= want < 10 && tr == want
                },
                None => false,
            },
        )
    } else if name == "attacker_adjacent_to_palace_corner"@ {
        Some(
            match con.distance {
                Some(d) => near_corner(pc.enemy, to, d as int),
                None => false,
            },
        )
    } else if name == "attacker_horizontal_distance_to_palace"@ {
        Some(
            match (con.min, con.max) {
                (Some(lo), Some(hi)) => lo <= palace_gap(tc) <= hi,
                _ => false,
            },
        )
    } else if name == "attacker_on_flank_rank"@ {
        Some(!own_side_spec(pc.us, tr) && tc != 4 && palace_gap(tc) <= 3)
    } else if name == "captured_piece_kind"@ {
        Some(
            pc.captured != 0 && match (con_kind(con), kind_of_code(pc.captured)) {
                (Some(want), Some(actual)) => want == actual,
                _ => false,
            },
        )
    } else if name == "captured_piece_in_enemy_palace"@ {
        Some(pc.captured != 0 && in_palace_spec(pc.enemy, tc, tr))
    } else {
        None
    }
}

/// Predicates counting the mover's pieces (`None` for another predicate name).
pub open spec fn count_group(p: Position, pc: PredicateCtx, con: ConstraintDef) -> Option<bool> {
    let b = p.board();
    let to = pc.to as int;
    let ek = p.king(pc.enemy) as int;
    let tc = col(to);
    let tr = row(to);
    let name = con.predicate@;
    if name == "own_piece_count_on_board"@ {
        Some(
            match (con_kind(con), con.min) {
                (Some(k), Some(m)) => own_count_upto(b, pc.us, k, 90) >= m,
                _ => false,
            },
        )
    } else if name == "own_piece_count_on_line"@ {
        Some(
            match (con_kind(con), con.min) {
                (Some(k), Some(m)) => row_count_upto(b, tr, pc.us, k, 9) + col_count_upto(
                    b,
                    tc,
                    pc.us,
                    k,
                    10,
                ) >= m,
                _ => false,
            },
        )
    } else if name == "own_piece_count_on_file"@ {
        Some(
            match (con_kind(con), con.min) {
                (Some(k), Some(m)) => {
                    let c = match con.col {
                        Some(c) => c as int,
                        None => tc,
                    };
                    c < 9 && col_count_upto(b, c, pc.us, k, 10) >= m
                },
                _ => false,
            },
        )
    } else if name == "own_piece_on_enemy_base_rank"@ {
        Some(
            match (con_kind(con), con.min) {
                (Some(k), Some(m)) => row_count_upto(b, base_row(pc.enemy), pc.us, k, 9) >= m,
                _ => false,
            },
        )
    } else if name == "own_piece_on_king_file"@ {
        Some(
            match con.min {
                Some(m) => side_col_count_upto(b, col(ek), pc.us, 10) >= m,
                None => false,
            },
        )
    } else if name == "own_piece_near_king"@ {
        Some(
            match (con_kind(con), con.distance) {
                (Some(k), Some(d)) => near_king(b, pc.us, k, ek, d as int),
                _ => false,
            },
        )
    } else if name == "own_pieces_adjacent_to_palace"@ {
        Some(
            match (con.min, con.distance) {
                (Some(m), Some(d)) => corner_count_upto(b, pc.us, pc.enemy, d as int, 90) >= m,
                _ => false,
            },
        )
    } else {
        None
    }
}

/// Predicates on the enemy king's palace steps (`None` for another name).
pub open spec fn king_group(p: Position, pc: PredicateCtx, con: ConstraintDef) -> Option<bool> {
    let b = p.board();
    let ek = p.king(pc.enemy) as int;
    let name = con.predicate@;
    if name == "enemy_king_escape_blocked"@ {
        Some(
            match con.min {
                Some(m) => escapes_where(pc.enemy, ek, |t: int| b[t] != 0) >= m,
                None => false,
            },
        )
    } else if name == "enemy_king_escape_blocked_by_own_pieces"@ {
        Some(
            match con.min {
                Some(m) => escapes_where(pc.enemy, ek, |t: int| color_of_code(b[t]) == Some(pc.enemy))
                    >= m,
                None => false,
            },
        )
    } else if name == "enemy_king_has_no_legal_move"@ {
        Some(
            escapes_where(
                pc.enemy,
                ek,
                |t: int| !(color_of_code(b[t]) == Some(pc.enemy) || attacked(b, t, pc.us)),
            ) == 0,
        )
    } else {
        None
    }
}

/// Whether constraint `con` holds after a move to `pc.to` leading to `p`
/// (an unknown predicate, or a missing parameter, never holds).
pub open spec fn predicate_holds(p: Position, pc: PredicateCtx, con: ConstraintDef) -> bool {
    match line_group(p, pc, con) {
        Some(v) => v,
        None => match place_group(pc, con) {
            Some(v) => v,
            None => match count_group(p, pc, con) {
                Some(v) => v,
                None => match king_group(p, pc, con) {
                    Some(v) => v,
                    None => false,
                },
            },
        },
    }
}

/// The predicate ids that the recogniser knows.
pub open spec fn known_predicate(t: Seq<char>) -> bool {
    ||| t == "attacker_checks_king"@
    ||| t == "has_own_piece_as_screen"@
    ||| t == "screen_piece_adjacent_to_king"@
    ||| t == "attacker_same_file_or_rank_as_king"@
    ||| t == "attacker_same_file_as_king"@
    ||| t == "attacker_on_king_file"@
    ||| t == "no_piece_between_attacker_and_king"@
    ||| t == "attacker_checks_king_within_n_plies"@
    ||| t == "attacker_is_sacrificed"@
    ||| t == "attacker_in_enemy_half"@
    ||| t == "attacker_outside_palace"@
    ||| t == "attacker_on_central_file"@
    ||| t == "attacker_on_enemy_base_rank"@
    ||| t == "attacker_on_rank"@
    ||| t == "attacker_adjacent_to_palace_corner"@
    ||| t == "attacker_horizontal_distance_to_palace"@
    ||| t == "attacker_on_flank_rank"@
    ||| t == "captured_piece_kind"@
    ||| t == "captured_piece_in_enemy_palace"@
    ||| t == "own_piece_count_on_board"@
    ||| t == "own_piece_count_on_line"@
    ||| t == "own_piece_count_on_file"@
    ||| t == "own_piece_on_enemy_base_rank"@
    ||| t == "own_piece_on_king_file"@
    ||| t == "own_piece_near_king"@
    ||| t == "own_pieces_adjacent_to_palace"@
    ||| t == "enemy_king_escape_blocked"@
    ||| t == "enemy_king_escape_blocked_by_own_pieces"@
    ||| t == "enemy_king_has_no_legal_move"@
}

/// A constraint whose predicate id is unknown never matches.
pub proof fn law_unknown_predicate_never_matches(p: Position, pc: PredicateCtx, con: ConstraintDef)
    requires
        !known_predicate(con.predicate@),
    ensures
        !predicate_holds(p, pc, con),
{
}

/// A known predicate that lacks what it needs never matches: a rank
/// without its offset, a nearby piece without its kind or distance, a
/// captured kind when nothing was captured.
pub proof fn law_underspecified_predicate_never_matches(p: Position, pc: PredicateCtx, con: ConstraintDef)
    requires
        (con.predicate@ == "attacker_on_rank"@ && con.row_offset_from_enemy_base is None)
            || (con.predicate@ == "own_piece_near_king"@ && (con_kind(con) is None || con.distance is None))
            || (con.predicate@ == "captured_piece_kind"@ && pc.captured == 0),
    ensures
        !predicate_holds(p, pc, con),
{
    if con.predicate@ == "attacker_on_rank"@ {
        reveal_strlit("attacker_on_rank");
        reveal_strlit("own_piece_near_king");
        reveal_strlit("captured_piece_kind");
        assert("attacker_on_rank"@.len() != "own_piece_near_king"@.len());
        assert("attacker_on_rank"@.len() != "captured_piece_kind"@.len());
        reveal_strlit("attacker_on_rank");
        reveal_strlit("attacker_checks_king");
        reveal_strlit("has_own_piece_as_screen");
        reveal_strlit("screen_piece_adjacent_to_king");
        reveal_strlit("attacker_same_file_or_rank_as_king");
        reveal_strlit("attacker_same_file_as_king");
        reveal_strlit("attacker_on_king_file");
        reveal_strlit("no_piece_between_attacker_and_king");
        reveal_strlit("attacker_checks_king_within_n_plies");
        reveal_strlit("attacker_is_sacrificed");
        reveal_strlit("attacker_in_enemy_half");
        reveal_strlit("attacker_outside_palace");
        reveal_strlit("attacker_on_central_file");
        reveal_strlit("attacker_on_enemy_base_rank");
        assert("attacker_on_rank"@.len() != "attacker_checks_king"@.len());
        assert("attacker_on_rank"@.len() != "has_own_piece_as_screen"@.len());
        assert("attacker_on_rank"@.len() != "screen_piece_adjacent_to_king"@.len());
        assert("attacker_on_rank"@.len() != "attacker_same_file_or_rank_as_king"@.len());
        assert("attacker_on_rank"@.len() != "attacker_same_file_as_king"@.len());
        assert("attacker_on_rank"@.len() != "attacker_on_king_file"@.len());
        assert("attacker_on_rank"@.len() != "no_piece_between_attacker_and_king"@.len());
        assert("attacker_on_rank"@.len() != "attacker_checks_king_within_n_plies"@.len());
        assert("attacker_on_rank"@.len() != "attacker_is_sacrificed"@.len());
        assert("attacker_on_rank"@.len() != "attacker_in_enemy_half"@.len());
        assert("attacker_on_rank"@.len() != "attacker_outside_palace"@.len());
        assert("attacker_on_rank"@.len() != "attacker_on_central_file"@.len());
        assert("attacker_on_rank"@.len() != "attacker_on_enemy_base_rank"@.len());
        assert(line_group(p, pc, con) is None);
        assert(place_group(pc, con) == Some(false));
    } else if con.predicate@ == "captured_piece_kind"@ {
        reveal_strlit("captured_piece_kind");
        reveal_strlit("own_piece_near_king");
        assert("captured_piece_kind"@[0] != "own_piece_near_king"@[0]);
        reveal_strlit("captured_piece_kind");
        reveal_strlit("attacker_checks_king");
        reveal_strlit("has_own_piece_as_screen");
        reveal_strlit("screen_piece_adjacent_to_king");
        reveal_strlit("attacker_same_file_or_rank_as_king");
        reveal_strlit("attacker_same_file_as_king");
        reveal_strlit("attacker_on_king_file");
        reveal_strlit("no_piece_between_attacker_and_king");
        reveal_strlit("attacker_checks_king_within_n_plies");
        reveal_strlit("attacker_is_sacrificed");
        reveal_strlit("attacker_in_enemy_half");
        reveal_strlit("attacker_outside_palace");
        reveal_strlit("attacker_on_central_file");
        reveal_strlit("attacker_on_enemy_base_rank");
        reveal_strlit("attacker_on_rank");
        reveal_strlit("attacker_adjacent_to_palace_corner");
        reveal_strlit("attacker_horizontal_distance_to_palace");
        reveal_strlit("attacker_on_flank_rank");
        assert("captured_piece_kind"@.len() != "attacker_checks_king"@.len());
        assert("captured_piece_kind"@.len() != "has_own_piece_as_screen"@.len());
        assert("captured_piece_kind"@.len() != "screen_piece_adjacent_to_king"@.len());
        assert("captured_piece_kind"@.len() != "attacker_same_file_or_rank_as_king"@.len());
        assert("captured_piece_kind"@.len() != "attacker_same_file_as_king"@.len());
        assert("captured_piece_kind"@.len() != "attacker_on_king_file"@.len());
        assert("captured_piece_kind"@.len() != "no_piece_between_attacker_and_king"@.len());
        assert("captured_piece_kind"@.len() != "attacker_checks_king_within_n_plies"@.len());
        assert("captured_piece_kind"@.len() != "attacker_is_sacrificed"@.len());
        assert("captured_piece_kind"@.len() != "attacker_in_enemy_half"@.len());
        assert("captured_piece_kind"@.len() != "attacker_outside_palace"@.len());
        assert("captured_piece_kind"@.len() != "attacker_on_central_file"@.len());
        assert("captured_piece_kind"@.len() != "attacker_on_enemy_base_rank"@.len());
        assert("captured_piece_kind"@.len() != "attacker_on_rank"@.len());
        assert("captured_piece_kind"@.len() != "attacker_adjacent_to_palace_corner"@.len());
        assert("captured_piece_kind"@.len() != "attacker_horizontal_distance_to_palace"@.len());
        assert("captured_piece_kind"@.len() != "attacker_on_flank_rank"@.len());
        assert(line_group(p, pc, con) is None);
        assert(place_group(pc, con) == Some(false));
    } else {
        reveal_strlit("own_piece_near_king");
        reveal_strlit("attacker_checks_king");
        reveal_strlit("has_own_piece_as_screen");
        reveal_strlit("screen_piece_adjacent_to_king");
        reveal_strlit("attacker_same_file_or_rank_as_king");
        reveal_strlit("attacker_same_file_as_king");
        reveal_strlit("attacker_on_king_file");
        reveal_strlit("no_piece_between_attacker_and_king");
        reveal_strlit("attacker_checks_king_within_n_plies");
        reveal_strlit("attacker_is_sacrificed");
        reveal_strlit("attacker_in_enemy_half");
        reveal_strlit("attacker_outside_palace");
        reveal_strlit("attacker_on_central_file");
        reveal_strlit("attacker_on_enemy_base_rank");
        reveal_strlit("attacker_on_rank");
        reveal_strlit("attacker_adjacent_to_palace_corner");
        reveal_strlit("attacker_horizontal_distance_to_palace");
        reveal_strlit("attacker_on_flank_rank");
        reveal_strlit("captured_piece_kind");
        reveal_strlit("captured_piece_in_enemy_palace");
        reveal_strlit("own_piece_count_on_board");
        reveal_strlit("own_piece_count_on_line");
        reveal_strlit("own_piece_count_on_file");
        reveal_strlit("own_piece_on_enemy_base_rank");
        reveal_strlit("own_piece_on_king_file");
        assert("own_piece_near_king"@.len() != "attacker_checks_king"@.len());
        assert("own_piece_near_king"@.len() != "has_own_piece_as_screen"@.len());
        assert("own_piece_near_king"@.len() != "screen_piece_adjacent_to_king"@.len());
        assert("own_piece_near_king"@.len() != "attacker_same_file_or_rank_as_king"@.len());
        assert("own_piece_near_king"@.len() != "attacker_same_file_as_king"@.len());
        assert("own_piece_near_king"@.len() != "attacker_on_king_file"@.len());
        assert("own_piece_near_king"@.len() != "no_piece_between_attacker_and_king"@.len());
        assert("own_piece_near_king"@.len() != "attacker_checks_king_within_n_plies"@.len());
        assert("own_piece_near_king"@.len() != "attacker_is_sacrificed"@.len());
        assert("own_piece_near_king"@.len() != "attacker_in_enemy_half"@.len());
        assert("own_piece_near_king"@.len() != "attacker_outside_palace"@.len());
        assert("own_piece_near_king"@.len() != "attacker_on_central_file"@.len());
        assert("own_piece_near_king"@.len() != "attacker_on_enemy_base_rank"@.len());
        assert("own_piece_near_king"@.len() != "attacker_on_rank"@.len());
        assert("own_piece_near_king"@.len() != "attacker_adjacent_to_palace_corner"@.len());
        assert("own_piece_near_king"@.len() != "attacker_horizontal_distance_to_palace"@.len());
        assert("own_piece_near_king"@.len() != "attacker_on_flank_rank"@.len());
        assert("own_piece_near_king"@[0] != "captured_piece_kind"@[0]);
        assert("own_piece_near_king"@.len() != "captured_piece_in_enemy_palace"@.len());
        assert("own_piece_near_king"@.len() != "own_piece_count_on_board"@.len());
        assert("own_piece_near_king"@.len() != "own_piece_count_on_line"@.len());
        assert("own_piece_near_king"@.len() != "own_piece_count_on_file"@.len());
        assert("own_piece_near_king"@.len() != "own_piece_on_enemy_base_rank"@.len());
        assert("own_piece_near_king"@.len() != "own_piece_on_king_file"@.len());
        assert(line_group(p, pc, con) is None);
        assert(place_group(pc, con) is None);
        assert(count_group(p, pc, con) == Some(false));
    }
}

/// The line and attack predicates.
fn eval_line(pos: &Position, pc: &PredicateCtx, con: &ConstraintDef, kind: Option<PieceKind>) -> (r: Option<bool>)
    requires
        pos.wf(),
        pc.to < 90,
        kind == con_kind(*con),
    ensures
        r == line_group(*pos, *pc, *con),
{
    proof {
        assert(pos.king(pc.enemy) < 90);
    }
    let name = con.predicate.as_str();
    let to = pc.to;
    let ek = pos.king_index(pc.enemy);
    let same_line = col_of(to) == col_of(ek) || row_of(to) == row_of(ek);
    if str_eq(name, "attacker_checks_king") {
        Some(pos.is_in_check(pc.enemy) && piece_attacks(pos, to, ek, pc.us))
    } else if str_eq(name, "has_own_piece_as_screen") {
        let between = pieces_between(pos, to, ek);
        if !same_line || between.len() != 1 {
            return Some(false);
        }
        proof {
            lemma_between_on_board(pos.board(), to as int, ek as int);
            assert(between@[0] < 90);
        }
        Some(
            match (kind, kind_of(pos.piece_at(between[0]))) {
                (Some(want), Some(actual)) => actual == want,
                _ => false,
            },
        )
    } else if str_eq(name, "screen_piece_adjacent_to_king") {
        match con.distance {
            Some(d) => {
                let between = pieces_between(pos, to, ek);
                if between.len() != 1 {
                    return Some(false);
                }
                proof {
                    lemma_between_on_board(pos.board(), to as int, ek as int);
                    assert(between@[0] < 90);
                }
                Some(chebyshev(between[0], ek) <= d)
            },
            None => Some(false),
        }
    } else if str_eq(name, "attacker_same_file_or_rank_as_king") {
        Some(same_line)
    } else if str_eq(name, "attacker_same_file_as_king") || str_eq(name, "attacker_on_king_file") {
        Some(col_of(to) == col_of(ek))
    } else if str_eq(name, "no_piece_between_attacker_and_king") {
        Some(same_line && pieces_between(pos, to, ek).len() == 0)
    } else if str_eq(name, "attacker_checks_king_within_n_plies") {
        let plies = match con.plies {
            Some(n) => n,
            None => 1,
        };
        Some(plies >= 1 && pos.is_in_check(pc.enemy))
    } else if str_eq(name, "attacker_is_sacrificed") {
        let attacked_here = attackers_of(pos, to, pc.enemy).len() > 0;
        let defended = is_defended(pos, to, pc.us);
        Some(attacked_here && !defended)
    } else {
        None
    }
}

/// The placement and capture predicates.
fn eval_place(pc: &PredicateCtx, con: &ConstraintDef, kind: Option<PieceKind>) -> (r: Option<bool>)
    requires
        pc.to < 90,
        kind == con_kind(*con),
    ensures
        r == place_group(*pc, *con),
{
    let name = con.predicate.as_str();
    let tc = col_of(pc.to);
    let tr = row_of(pc.to);
    if str_eq(name, "attacker_in_enemy_half") {
        Some(crate::square::has_crossed_river(pc.us, tr))
    } else if str_eq(name, "attacker_outside_palace") {
        Some(!in_palace(pc.enemy, tc, tr))
    } else if str_eq(name, "attacker_on_central_file") {
        Some(tc == 4)
    } else if str_eq(name, "attacker_on_enemy_base_rank") {
        Some(tr == enemy_base_row(pc.enemy))
    } else if str_eq(name, "attacker_on_rank") {
        match con.row_offset_from_enemy_base {
            Some(offset) => {
                let base = enemy_base_row(pc.enemy) as i32;
                let step: i32 = if pc.enemy == Color::Black {
                    -1
                } else {
                    1
                };
                let want = base + step * (offset as i8 as i32);
                Some(0 <= want && want < 10 && tr as i32 == want)
            },
            None => Some(false),
        }
    } else if str_eq(name, "attacker_adjacent_to_palace_corner") {
        match con.distance {
            Some(d) => Some(near_palace_corner(pc.enemy, pc.to, d)),
            None => Some(false),
        }
    } else if str_eq(name, "attacker_horizontal_distance_to_palace") {
        match (con.min, con.max) {
            (Some(lo), Some(hi)) => {
                let d = horizontal_distance_to_palace(tc);
                Some(lo <= d && d <= hi)
            },
            _ => Some(false),
        }
    } else if str_eq(name, "attacker_on_flank_rank") {
        Some(
            crate::square::has_crossed_river(pc.us, tr) && tc != 4 && horizontal_distance_to_palace(
                tc,
            ) <= 3,
        )
    } else if str_eq(name, "captured_piece_kind") {
        if pc.captured == 0 {
            return Some(false);
        }
        Some(
            match (kind, kind_of(pc.captured)) {
                (Some(want), Some(actual)) => want == actual,
                _ => false,
            },
        )
    } else if str_eq(name, "captured_piece_in_enemy_palace") {
        Some(pc.captured != 0 && in_palace(pc.enemy, tc, tr))
    } else {
        None
    }
}

/// The counting predicates.
fn eval_count(pos: &Position, pc: &PredicateCtx, con: &ConstraintDef, kind: Option<PieceKind>) -> (r: Option<bool>)
    requires
        pos.wf(),
        pc.to < 90,
        kind == con_kind(*con),
    ensures
        r == count_group(*pos, *pc, *con),
{
    proof {
        assert(pos.king(pc.enemy) < 90);
    }
    let name = con.predicate.as_str();
    let ek = pos.king_index(pc.enemy);
    let tc = col_of(pc.to);
    let tr = row_of(pc.to);
    if str_eq(name, "own_piece_count_on_board") {
        Some(
            match (kind, con.min) {
                (Some(k), Some(m)) => count_own_pieces(pos, pc.us, k) >= m as u32,
                _ => false,
            },
        )
    } else if str_eq(name, "own_piece_count_on_line") {
        Some(
            match (kind, con.min) {
                (Some(k), Some(m)) => count_on_row(pos, tr, pc.us, k) + count_on_col(pos, tc, pc.us, k)
                    >= m as u32,
                _ => false,
            },
        )
    } else if str_eq(name, "own_piece_count_on_file") {
        match (kind, con.min) {
            (Some(k), Some(m)) => {
                let c = match con.col {
                    Some(c) => c,
                    None => tc,
                };
                if c >= 9 {
                    return Some(false);
                }
                Some(count_on_col(pos, c, pc.us, k) >= m as u32)
            },
            _ => Some(false),
        }
    } else if str_eq(name, "own_piece_on_enemy_base_rank") {
        Some(
            match (kind, con.min) {
                (Some(k), Some(m)) => count_on_row(pos, enemy_base_row(pc.enemy), pc.us, k)
                    >= m as u32,
                _ => false,
            },
        )
    } else if str_eq(name, "own_piece_on_king_file") {
        Some(
            match con.min {
                Some(m) => count_side_on_col(pos, col_of(ek), pc.us) >= m as u32,
                None => false,
            },
        )
    } else if str_eq(name, "own_piece_near_king") {
        Some(
            match (kind, con.distance) {
                (Some(k), Some(d)) => piece_near_king(pos, pc.us, k, ek, d),
                _ => false,
            },
        )
    } else if str_eq(name, "own_pieces_adjacent_to_palace") {
        Some(
            match (con.min, con.distance) {
                (Some(m), Some(d)) => count_near_corners(pos, pc.us, pc.enemy, d) >= m as u32,
                _ => false,
            },
        )
    } else {
        None
    }
}

/// The enemy king's palace-step predicates.
fn eval_king(pos: &Position, pc: &PredicateCtx, con: &ConstraintDef) -> (r: Option<bool>)
    requires
        pos.wf(),
        pc.to < 90,
    ensures
        r == king_group(*pos, *pc, *con),
{
    proof {
        assert(pos.king(pc.enemy) < 90);
    }
    let ghost b = pos.board();
    let name = con.predicate.as_str();
    let ek = pos.king_index(pc.enemy);
    let e = pc.enemy;
    let u = pc.us;
    if str_eq(name, "enemy_king_escape_blocked") {
        match con.min {
            Some(m) => {
                let esc = king_escape_squares(e, ek);
                let n = escapes_occupied(pos, &esc);
                proof {
                    assert(escapes_where(e, ek as int, |t: int| b[t] != 0) == count_in(esc@, |t: int| b[t] != 0));
                }
                Some(n >= m as usize)
            },
            None => Some(false),
        }
    } else if str_eq(name, "enemy_king_escape_blocked_by_own_pieces") {
        match con.min {
            Some(m) => {
                let esc = king_escape_squares(e, ek);
                let n = escapes_own(pos, &esc, e);
                proof {
                    assert(escapes_where(e, ek as int, |t: int| color_of_code(b[t]) == Some(e))
                        == count_in(esc@, |t: int| color_of_code(b[t]) == Some(e)));
                }
                Some(n >= m as usize)
            },
            None => Some(false),
        }
    } else if str_eq(name, "enemy_king_has_no_legal_move") {
        let esc = king_escape_squares(e, ek);
        let n = escapes_free(pos, &esc, u, e);
        proof {
            assert(escapes_where(e, ek as int, |t: int| !(color_of_code(b[t]) == Some(e) || attacked(b, t, u)))
                == count_in(esc@, |t: int| !(color_of_code(b[t]) == Some(e) || attacked(b, t, u))));
        }
        Some(n == 0)
    } else {
        None
    }
}

/// Whether constraint `con` holds after the move described by `pc` leading
/// to `pos`. Every predicate errs on the side of not holding: a missed
/// formation costs a line of commentary, a wrong one its credibility.
pub fn eval_predicate(pos: &Position, pc: &PredicateCtx, con: &ConstraintDef) -> (r: bool)
    requires
        pos.wf(),
        pc.to < 90,
    ensures
        r == predicate_holds(*pos, *pc, *con),
{
    let kind = match &con.kind {
        Some(t) => parse_kind(t.as_str()),
        None => None,
    };
    match eval_line(pos, pc, con, kind) {
        Some(v) => v,
        None => match eval_place(pc, con, kind) {
            Some(v) => v,
            None => match eval_count(pos, pc, con, kind) {
                Some(v) => v,
                None => match eval_king(pos, pc, con) {
                    Some(v) => v,
                    None => false,
                },
            },
        },
    }
}

/// Base rank of `enemy`.
fn enemy_base_row(enemy: Color) -> (r: u8)
    ensures
        r == base_row(enemy),
{
    match enemy {
        Color::Red => 0,
        Color::Black => 9,
    }
}

/// The pieces between a point and the king are points of the board.
proof fn lemma_between_on_board(b: Seq<u8>, a: int, k: int)
    requires
        0 <= a < 90,
        0 <= k < 90,
    ensures
        forall|i: int| 0 <= i < between_spec(b, a, k).len() ==> #[trigger] between_spec(b, a, k)[i] < 90,
{
    let ac = col(a);
    let ar = row(a);
    let kc = col(k);
    let kr = row(k);
    if kc == ac {
        let dr = if kr > ar {
            1int
        } else {
            -1int
        };
        lemma_occupied_on_board(b, ac, ar + dr, 0, dr, kc, kr);
    } else if kr == ar {
        let dc = if kc > ac {
            1int
        } else {
            -1int
        };
        lemma_occupied_on_board(b, ac + dc, ar, dc, 0, kc, kr);
    }
}

/// The points met along a ray are points of the board.
proof fn lemma_occupied_on_board(b: Seq<u8>, c: int, r: int, dc: int, dr: int, kc: int, kr: int)
    ensures
        forall|i: int|
            0 <= i < occupied_until(b, c, r, dc, dr, kc, kr).len() ==> #[trigger] occupied_until(
                b,
                c,
                r,
                dc,
                dr,
                kc,
                kr,
            )[i] < 90,
    decreases ray_measure(c, r, dc, dr),
{
    if is_dir(dc, dr) && 0 <= c < 9 && 0 <= r < 10 && !(c == kc && r == kr) {
        lemma_occupied_on_board(b, c + dc, r + dr, dc, dr, kc, kr);
        let head = if b[sq(c, r)] != 0 {
            seq![sq(c, r) as u8]
        } else {
            Seq::<u8>::empty()
        };
        let rest = occupied_until(b, c + dc, r + dr, dc, dr, kc, kr);
        assert(occupied_until(b, c, r, dc, dr, kc, kr) == head + rest);
        assert forall|i: int| 0 <= i < (head + rest).len() implies #[trigger] (head + rest)[i] < 90 by {
            if i >= head.len() {
                assert((head + rest)[i] == rest[i - head.len()]);
            }
        }
    }
}

/// Whether a formation holds for the piece of kind `attacker_kind` just
/// moved: its attacker kind name admits that kind (or is `any`) and every
/// constraint holds.
pub open spec fn formation_holds(p: Position, pc: PredicateCtx, pattern: PatternDef, attacker_kind: PieceKind) -> bool {
    &&& (pattern.attacker.kind@ == "any"@ || kind_name_admits(pattern.attacker.kind@, attacker_kind))
    &&& forall|i: int|
        0 <= i < pattern.constraints@.len() ==> predicate_holds(p, pc, #[trigger] pattern.constraints@[i])
}

/// Whether `pattern` matches the move described by `pc` of a piece of kind
/// `attacker_kind`, leading to `pos`.
pub fn formation_matches(pos: &Position, pc: &PredicateCtx, pattern: &PatternDef, attacker_kind: PieceKind) -> (r: bool)
    requires
        pos.wf(),
        pc.to < 90,
    ensures
        r == formation_holds(*pos, *pc, *pattern, attacker_kind),
{
    let wanted = pattern.attacker.kind.as_str();
    if !str_eq(wanted, "any") && !kind_matches(wanted, attacker_kind) {
        return false;
    }
    let mut i: usize = 0;
    while i < pattern.constraints.len()
        invariant
            i <= pattern.constraints@.len(),
            pos.wf(),
            pc.to < 90,
            forall|k: int| 0 <= k < i ==> predicate_holds(*pos, *pc, #[trigger] pattern.constraints@[k]),
        decreases pattern.constraints@.len() - i,
    {
        if !eval_predicate(pos, pc, &pattern.constraints[i]) {
            return false;
        }
        i += 1;
    }
    true
}

/// The profitable victims among the first `n1` points are among those of
/// the first `n2 >= n1`, and a profitable point adds one.
proof fn lemma_profitable_count(b: Seq<u8>, a: int, us: Color, n1: int, n2: int)
    requires
        0 <= n1 <= n2,
    ensures
        profitable_upto(b, a, us, n1).len() <= profitable_upto(b, a, us, n2).len(),
        n1 < n2 && is_profitable(b, a, us, n1) ==> profitable_upto(b, a, us, n1).len() + 1 <= profitable_upto(
            b,
            a,
            us,
            n2,
        ).len(),
    decreases n2 - n1,
{
    if n1 < n2 {
        lemma_profitable_count(b, a, us, n1, n2 - 1);
        if n1 == n2 - 1 {
        } else {
            lemma_profitable_count(b, a, us, n1 + 1, n2 - 1);
            lemma_profitable_count(b, a, us, n1 + 1, n2);
        }
    }
}

/// A moved piece that attacks two enemy pieces (not the king) each worth
/// more than what taking it costs back forks them: the first hit of the
/// relational layer is a fork. With fewer than two such victims there is
/// no fork hit.
pub proof fn law_two_profitable_victims_fork(before: Seq<u8>, after: Seq<u8>, ctx: MoveContext, s1: int, s2: int)
    ensures
        0 <= s1 < s2 < 90 && is_profitable(after, mv_to(ctx.mv) as int, ctx.side, s1) && is_profitable(
            after,
            mv_to(ctx.mv) as int,
            ctx.side,
            s2,
        ) ==> l2_hits(before, after, ctx).len() > 0 && l2_hits(before, after, ctx)[0].tactic == TacticId::Fork,
        (forall|x: int, y: int|
            0 <= x < y < 90 ==> !(#[trigger] is_profitable(after, mv_to(ctx.mv) as int, ctx.side, x)
                && #[trigger] is_profitable(after, mv_to(ctx.mv) as int, ctx.side, y))) ==> forall|i: int|
            0 <= i < fork_part(after, mv_to(ctx.mv) as int, ctx.side).len() ==> #[trigger] fork_part(
                after,
                mv_to(ctx.mv) as int,
                ctx.side,
            )[i].tactic != TacticId::Fork,
{
    let a = mv_to(ctx.mv) as int;
    let us = ctx.side;
    if 0 <= s1 < s2 < 90 && is_profitable(after, a, us, s1) && is_profitable(after, a, us, s2) {
        lemma_profitable_count(after, a, us, 0, s1);
        lemma_profitable_count(after, a, us, s1, s1 + 1);
        lemma_profitable_count(after, a, us, s1 + 1, s2);
        lemma_profitable_count(after, a, us, s2, 90);
        assert(profitable_upto(after, a, us, 90).len() >= 2);
        let f = fork_part(after, a, us);
        assert(f.len() == 1 && f[0].tactic == TacticId::Fork);
    }
    if forall|x: int, y: int|
        0 <= x < y < 90 ==> !(#[trigger] is_profitable(after, a, us, x) && #[trigger] is_profitable(after, a, us, y)) {
        lemma_at_most_one_profitable(after, a, us, 90);
    }
}

/// With no two profitable points among the first `n`, at most one is listed.
proof fn lemma_at_most_one_profitable(b: Seq<u8>, a: int, us: Color, n: int)
    requires
        n <= 90,
        forall|x: int, y: int|
            0 <= x < y < 90 ==> !(#[trigger] is_profitable(b, a, us, x) && #[trigger] is_profitable(b, a, us, y)),
    ensures
        profitable_upto(b, a, us, n).len() <= 1,
        profitable_upto(b, a, us, n).len() == 1 ==> exists|x: int| 0 <= x < n && is_profitable(b, a, us, x),
    decreases n,
{
    if n > 0 {
        lemma_at_most_one_profitable(b, a, us, n - 1);
        if is_profitable(b, a, us, n - 1) && profitable_upto(b, a, us, n - 1).len() == 1 {
            let x = choose|x: int| 0 <= x < n - 1 && is_profitable(b, a, us, x);
            assert(is_profitable(b, a, us, x) && is_profitable(b, a, us, n - 1));
        }
    }
}

} // verus!
