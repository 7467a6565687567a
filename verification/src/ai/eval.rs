//! Static evaluation, in centipawns from Red's point of view.
//!
//! The score adds, for each side: material (cannons lose and horses gain
//! value as pieces come off, following a game phase from 256 at the start
//! to 0 with no attacking pieces left), piece-square bonuses (black pieces
//! read the tables upside down), a king-safety term for the defenders
//! left, and a bonus for chariots on files without own pawns.
use vstd::prelude::*;

pub mod mirror;

use crate::board::holds;
use crate::color::Color;
use crate::piece::{PieceKind, color_of, color_of_code, kind_of, kind_of_code};
use crate::position::Position;
use crate::square::{col, row};

verus! {

/// Value of a chariot.
pub const VALUE_CHARIOT: i32 = 900;
/// Value of a cannon at the start of the game.
pub const VALUE_CANNON_OPENING: i32 = 450;
/// Value of a cannon in the endgame.
pub const VALUE_CANNON_ENDGAME: i32 = 380;
/// Value of a horse at the start of the game.
pub const VALUE_HORSE_OPENING: i32 = 400;
/// Value of a horse in the endgame.
pub const VALUE_HORSE_ENDGAME: i32 = 480;
/// Value of an advisor.
pub const VALUE_ADVISOR: i32 = 200;
/// Value of an elephant.
pub const VALUE_ELEPHANT: i32 = 200;
/// Value of a pawn.
pub const VALUE_PAWN: i32 = 100;
/// Phase weight of the initial position.
pub const FULL_PHASE_WEIGHT: i32 = 76;
/// Phase of the initial position (the scale of phase values).
pub const PHASE_SCALE: i32 = 256;

/// Contribution of a piece kind to the game phase.
pub open spec fn phase_weight_spec(k: PieceKind) -> int {
    match k {
        PieceKind::Chariot => 6,
        PieceKind::Cannon | PieceKind::Horse => 4,
        PieceKind::Pawn => 2,
        _ => 0,
    }
}

/// Contribution of a piece kind to the game phase.
pub fn phase_weight(kind: PieceKind) -> (r: i32)
    ensures
        r == phase_weight_spec(kind),
{
    match kind {
        PieceKind::Chariot => 6,
        PieceKind::Cannon | PieceKind::Horse => 4,
        PieceKind::Pawn => 2,
        PieceKind::Advisor | PieceKind::Elephant | PieceKind::King => 0,
    }
}

/// Phase weight of the pieces on points `0..n`.
pub open spec fn weight_upto(b: Seq<u8>, n: int) -> int
    decreases n,
{
    if n <= 0 {
        0
    } else {
        weight_upto(b, n - 1) + match kind_of_code(b[n - 1]) {
            Some(k) => phase_weight_spec(k),
            None => 0,
        }
    }
}

/// Game phase of a weight: scaled to `0..=256`.
pub open spec fn phase_of_weight(w: int) -> int {
    let p = w * 256 / 76;
    if p < 0 {
        0
    } else if p > 256 {
        256
    } else {
        p
    }
}

/// Game phase of a board.
pub open spec fn phase_spec(b: Seq<u8>) -> int {
    phase_of_weight(weight_upto(b, 90))
}

/// Phase weight never goes below zero nor above six per point.
proof fn lemma_weight_bounds(b: Seq<u8>, n: int)
    requires
        0 <= n <= 90,
    ensures
        0 <= weight_upto(b, n) <= 6 * n,
    decreases n,
{
    if n > 0 {
        lemma_weight_bounds(b, n - 1);
    }
}

/// Game phase of a position: 256 with all attacking pieces on the board,
/// falling towards 0 as they are exchanged.
pub fn phase_factor(pos: &Position) -> (r: i32)
    ensures
        r == phase_spec(pos.board()),
{
    let mut weight: i32 = 0;
    let mut idx: u8 = 0;
    while idx < 90
        invariant
            idx <= 90,
            weight == weight_upto(pos.board(), idx as int),
            0 <= weight <= 6 * idx,
        decreases 90 - idx,
    {
        let piece = pos.piece_at(idx);
        if let Some(kind) = kind_of(piece) {
            weight = weight + phase_weight(kind);
        }
        idx += 1;
    }
    let p = weight * PHASE_SCALE / FULL_PHASE_WEIGHT;
    if p < 0 {
        0
    } else if p > PHASE_SCALE {
        PHASE_SCALE
    } else {
        p
    }
}

/// Material value of a piece kind at game phase `phase`.
pub open spec fn material_spec(k: PieceKind, phase: int) -> int {
    match k {
        PieceKind::Chariot => 900,
        PieceKind::Cannon => 380 + 70 * phase / 256,
        PieceKind::Horse => 400 + 80 * (256 - phase) / 256,
        PieceKind::Advisor => 200,
        PieceKind::Elephant => 200,
        PieceKind::Pawn => 100,
        PieceKind::King => 0,
    }
}

/// Material value of a piece kind at game phase `phase` (`0..=256`).
pub fn material_value(kind: PieceKind, phase: i32) -> (r: i32)
    requires
        0 <= phase <= 256,
    ensures
        r == material_spec(kind, phase as int),
        0 <= r <= 900,
{
    match kind {
        PieceKind::Chariot => VALUE_CHARIOT,
        PieceKind::Cannon => {
            let d: i32 = VALUE_CANNON_OPENING - VALUE_CANNON_ENDGAME;
            assert(0 <= d * phase <= 70 * 256) by (nonlinear_arith)
                requires
                    d == 70,
                    0 <= phase <= 256,
            ;
            let swing: i32 = d * phase;
            VALUE_CANNON_ENDGAME + swing / PHASE_SCALE
        },
        PieceKind::Horse => {
            let swing: i32 = (VALUE_HORSE_ENDGAME - VALUE_HORSE_OPENING) * (PHASE_SCALE - phase);
            VALUE_HORSE_OPENING + swing / PHASE_SCALE
        },
        PieceKind::Advisor => VALUE_ADVISOR,
        PieceKind::Elephant => VALUE_ELEPHANT,
        PieceKind::Pawn => VALUE_PAWN,
        PieceKind::King => 0,
    }
}

/// Pawn bonus: rising as it advances past the river (falling again near
/// and on the last rank), more on the central file, less on the edges.
pub open spec fn pawn_pst_spec(c: int, r: int) -> int {
    let base = if r <= 4 {
        0
    } else if r == 5 {
        20
    } else if r == 6 {
        40
    } else if r == 7 {
        55
    } else if r == 8 {
        35
    } else {
        -50
    };
    base + (if c == 4 {
        15int
    } else {
        0
    }) - (if c == 0 || c == 8 {
        10int
    } else {
        0
    })
}

/// Horse bonus: centre good, edges and back ranks poor, near the river good.
pub open spec fn horse_pst_spec(c: int, r: int) -> int {
    (if 3 <= c <= 5 && 3 <= r <= 6 {
        25int
    } else {
        0
    }) - (if c == 0 || c == 8 {
        20int
    } else {
        0
    }) - (if r == 0 || r == 9 {
        15int
    } else {
        0
    }) + (if r == 4 || r == 5 {
        10int
    } else {
        0
    })
}

/// Piece-square bonus of a kind on `(c, r)` from Red's side of the board.
pub open spec fn pst_spec(k: PieceKind, c: int, r: int) -> int {
    match k {
        PieceKind::Pawn => pawn_pst_spec(c, r),
        PieceKind::Horse => horse_pst_spec(c, r),
        PieceKind::Cannon => if c == 4 {
            20
        } else {
            0
        },
        PieceKind::Chariot => (if r >= 5 {
            15int
        } else {
            0
        }) + (if c == 4 {
            10int
        } else {
            0
        }),
        PieceKind::Advisor => if r == 0 && (c == 3 || c == 5) {
            10
        } else {
            -5
        },
        PieceKind::Elephant => if r == 0 && (c == 2 || c == 6) {
            10
        } else {
            -5
        },
        PieceKind::King => 0,
    }
}

/// Pawn bonus on file `col`, rank `row` (from Red's side).
pub fn pawn_pst(col: usize, row: usize) -> (r: i16)
    ensures
        r == pawn_pst_spec(col as int, row as int),
{
    let mut v: i16 = if row <= 4 {
        0
    } else if row == 5 {
        20
    } else if row == 6 {
        40
    } else if row == 7 {
        55
    } else if row == 8 {
        35
    } else {
        -50
    };
    if col == 4 {
        v += 15;
    }
    if col == 0 || col == 8 {
        v -= 10;
    }
    v
}

/// Horse bonus on file `col`, rank `row` (from Red's side).
pub fn horse_pst(col: usize, row: usize) -> (r: i16)
    ensures
        r == horse_pst_spec(col as int, row as int),
{
    let mut v: i16 = 0;
    if col >= 3 && col <= 5 && row >= 3 && row <= 6 {
        v += 25;
    }
    if col == 0 || col == 8 {
        v -= 20;
    }
    if row == 0 || row == 9 {
        v -= 15;
    }
    if row == 4 || row == 5 {
        v += 10;
    }
    v
}

/// Chariot bonus on file `col`, rank `row` (from Red's side).
pub fn chariot_pst(col: usize, row: usize) -> (r: i16)
    ensures
        r == pst_spec(PieceKind::Chariot, col as int, row as int),
{
    let mut v: i16 = 0;
    if row >= 5 {
        v += 15;
    }
    if col == 4 {
        v += 10;
    }
    v
}

/// Piece-square bonus of `kind` on file `col`, rank `row` (from Red's side).
pub fn pst_square(kind: PieceKind, col: usize, row: usize) -> (r: i16)
    ensures
        r == pst_spec(kind, col as int, row as int),
        -60 <= r <= 70,
{
    match kind {
        PieceKind::Pawn => pawn_pst(col, row),
        PieceKind::Horse => horse_pst(col, row),
        PieceKind::Cannon => if col == 4 {
            20
        } else {
            0
        },
        PieceKind::Chariot => chariot_pst(col, row),
        PieceKind::Advisor => if row == 0 && (col == 3 || col == 5) {
            10
        } else {
            -5
        },
        PieceKind::Elephant => if row == 0 && (col == 2 || col == 6) {
            10
        } else {
            -5
        },
        PieceKind::King => 0,
    }
}

/// Piece-square table of `kind`, indexed by point (from Red's side).
pub fn pst(kind: PieceKind) -> (r: [i16; 90])
    ensures
        forall|i: int| 0 <= i < 90 ==> #[trigger] r@[i] == pst_spec(kind, col(i), row(i)),
{
    let mut table: [i16; 90] = [0; 90];
    let mut i: usize = 0;
    while i < 90
        invariant
            i <= 90,
            forall|j: int| 0 <= j < i ==> #[trigger] table@[j] == pst_spec(kind, col(j), row(j)),
        decreases 90 - i,
    {
        table[i] = pst_square(kind, i % 9, i / 9);
        i += 1;
    }
    table
}

/// The point reflected across the river (same file, rank `9 - row`).
pub open spec fn mirror_spec(idx: int) -> int {
    (9 - row(idx)) * 9 + col(idx)
}

/// The point reflected across the river.
pub fn mirror_index(idx: u8) -> (r: u8)
    requires
        idx < 90,
    ensures
        r == mirror_spec(idx as int),
        r < 90,
{
    let c = idx % 9;
    let r = idx / 9;
    (9 - r) * 9 + c
}

/// Reflecting twice gives the point back.
pub proof fn law_mirror_involution(idx: int)
    requires
        0 <= idx < 90,
    ensures
        0 <= mirror_spec(idx) < 90,
        mirror_spec(mirror_spec(idx)) == idx,
{
}

/// Piece-square bonus of piece code `p` on point `i`: black pieces read
/// the table reflected across the river.
pub open spec fn square_bonus(p: u8, i: int) -> int {
    match (color_of_code(p), kind_of_code(p)) {
        (Some(Color::Red), Some(k)) => pst_spec(k, col(i), row(i)),
        (Some(Color::Black), Some(k)) => pst_spec(k, col(mirror_spec(i)), row(mirror_spec(i))),
        _ => 0,
    }
}

/// Number of `c` `k` pieces on points `0..n`.
pub open spec fn count_upto(b: Seq<u8>, c: Color, k: PieceKind, n: int) -> int
    decreases n,
{
    if n <= 0 {
        0
    } else {
        count_upto(b, c, k, n - 1) + if holds(b, n - 1, c, k) {
            1int
        } else {
            0int
        }
    }
}

/// Sum of the piece-square bonuses of `c`'s pieces on points `0..n`.
pub open spec fn bonus_upto(b: Seq<u8>, c: Color, n: int) -> int
    decreases n,
{
    if n <= 0 {
        0
    } else {
        bonus_upto(b, c, n - 1) + if color_of_code(b[n - 1]) == Some(c) {
            square_bonus(b[n - 1], n - 1)
        } else {
            0
        }
    }
}

/// Points of `c`'s first four chariots among points `0..n`.
pub open spec fn rooks_upto(b: Seq<u8>, c: Color, n: int) -> Seq<int>
    decreases n,
{
    if n <= 0 {
        Seq::empty()
    } else {
        let r = rooks_upto(b, c, n - 1);
        if holds(b, n - 1, c, PieceKind::Chariot) && r.len() < 4 {
            r.push(n - 1)
        } else {
            r
        }
    }
}

/// Whether a pawn of `c` stands on file `f` among points `0..n`.
pub open spec fn pawn_file_upto(b: Seq<u8>, c: Color, f: int, n: int) -> bool {
    exists|j: int| 0 <= j < n && col(j) == f && #[trigger] holds(b, j, c, PieceKind::Pawn)
}

/// King-safety term: a bonus for a full set of defenders, a penalty for
/// each missing advisor or elephant.
pub open spec fn king_safety_spec(advisors: int, elephants: int) -> int {
    let a = if advisors < 2 {
        advisors
    } else {
        2
    };
    let e = if elephants < 2 {
        elephants
    } else {
        2
    };
    (if advisors == 2 && elephants == 2 {
        30int
    } else {
        0
    }) - (2 - a) * 25 - (2 - e) * 25
}

/// Bonus of a chariot on file `f`: 20 with no pawns on it, 10 with only
/// enemy pawns, otherwise nothing.
pub open spec fn file_bonus(own_pawn: bool, enemy_pawn: bool) -> int {
    if !own_pawn && !enemy_pawn {
        20
    } else if !own_pawn && enemy_pawn {
        10
    } else {
        0
    }
}

/// Open-file bonus of the chariots on points `rooks[0..n]` for side `c`.
pub open spec fn rook_bonus_upto(b: Seq<u8>, c: Color, rooks: Seq<int>, n: int) -> int
    decreases n,
{
    if n <= 0 {
        0
    } else {
        rook_bonus_upto(b, c, rooks, n - 1) + file_bonus(
            pawn_file_upto(b, c, col(rooks[n - 1]), 90),
            pawn_file_upto(b, crate::color::opp(c), col(rooks[n - 1]), 90),
        )
    }
}

/// Total of side `c` at phase `phase`.
pub open spec fn side_total(b: Seq<u8>, c: Color, phase: int) -> int {
    let rooks = rooks_upto(b, c, 90);
    count_upto(b, c, PieceKind::Chariot, 90) * 900 + count_upto(b, c, PieceKind::Cannon, 90)
        * material_spec(PieceKind::Cannon, phase) + count_upto(b, c, PieceKind::Horse, 90)
        * material_spec(PieceKind::Horse, phase) + count_upto(b, c, PieceKind::Advisor, 90) * 200
        + count_upto(b, c, PieceKind::Elephant, 90) * 200 + count_upto(b, c, PieceKind::Pawn, 90)
        * 100 + bonus_upto(b, c, 90) + king_safety_spec(
        count_upto(b, c, PieceKind::Advisor, 90),
        count_upto(b, c, PieceKind::Elephant, 90),
    ) + rook_bonus_upto(b, c, rooks, rooks.len() as int)
}

/// Evaluation of a board from Red's point of view.
pub open spec fn eval_spec(b: Seq<u8>) -> int {
    let phase = phase_spec(b);
    side_total(b, Color::Red, phase) - side_total(b, Color::Black, phase)
}

/// Piece counts of one side during the scan.
#[derive(Clone, Copy)]
struct SideStat {
    chariots: i32,
    horses: i32,
    cannons: i32,
    advisors: i32,
    elephants: i32,
    pawns: i32,
    pst_sum: i32,
    rook_squares: [u8; 4],
    rook_count: usize,
}

impl SideStat {
    /// Counts describe side `c` on points `0..n`.
    spec fn counts(&self, b: Seq<u8>, c: Color, n: int) -> bool {
        &&& self.chariots == count_upto(b, c, PieceKind::Chariot, n)
        &&& self.horses == count_upto(b, c, PieceKind::Horse, n)
        &&& self.cannons == count_upto(b, c, PieceKind::Cannon, n)
        &&& self.advisors == count_upto(b, c, PieceKind::Advisor, n)
        &&& self.elephants == count_upto(b, c, PieceKind::Elephant, n)
        &&& self.pawns == count_upto(b, c, PieceKind::Pawn, n)
        &&& self.pst_sum == bonus_upto(b, c, n)
        &&& self.rook_count == rooks_upto(b, c, n).len()
        &&& self.rook_count <= 4
        &&& forall|i: int| 0 <= i < self.rook_count ==> #[trigger] self.rook_squares@[i] < 90
        &&& forall|i: int|
            0 <= i < self.rook_count ==> #[trigger] self.rook_squares@[i] == rooks_upto(
                b,
                c,
                n,
            )[i]
        &&& 0 <= self.chariots <= n && 0 <= self.horses <= n && 0 <= self.cannons <= n
        &&& 0 <= self.advisors <= n && 0 <= self.elephants <= n && 0 <= self.pawns <= n
        &&& -60 * n <= self.pst_sum <= 70 * n
    }

    /// An empty tally.
    fn new() -> (r: SideStat)
        ensures
            forall|b: Seq<u8>, c: Color| r.counts(b, c, 0),
            r.chariots == 0 && r.horses == 0 && r.cannons == 0,
            r.advisors == 0 && r.elephants == 0 && r.pawns == 0,
            r.pst_sum == 0 && r.rook_count == 0,
            r.rook_squares@ == seq![0u8, 0u8, 0u8, 0u8],
    {
        SideStat {
            chariots: 0,
            horses: 0,
            cannons: 0,
            advisors: 0,
            elephants: 0,
            pawns: 0,
            pst_sum: 0,
            rook_squares: [0; 4],
            rook_count: 0,
        }
    }

    /// Material of the side at phase `phase`.
    fn material(&self, phase: i32) -> (r: i32)
        requires
            0 <= phase <= 256,
            0 <= self.chariots <= 90 && 0 <= self.horses <= 90 && 0 <= self.cannons <= 90,
            0 <= self.advisors <= 90 && 0 <= self.elephants <= 90 && 0 <= self.pawns <= 90,
        ensures
            r == self.chariots * 900 + self.cannons * material_spec(PieceKind::Cannon, phase as int)
                + self.horses * material_spec(PieceKind::Horse, phase as int) + self.advisors * 200
                + self.elephants * 200 + self.pawns * 100,
            0 <= r <= 6 * 90 * 900,
    {
        let cv = material_value(PieceKind::Cannon, phase);
        let hv = material_value(PieceKind::Horse, phase);
        proof {
            assert(0 <= self.cannons * cv <= 90 * 900) by (nonlinear_arith)
                requires
                    0 <= self.cannons <= 90,
                    0 <= cv <= 900,
            ;
            assert(0 <= self.horses * hv <= 90 * 900) by (nonlinear_arith)
                requires
                    0 <= self.horses <= 90,
                    0 <= hv <= 900,
            ;
        }
        self.chariots * VALUE_CHARIOT + self.cannons * cv + self.horses * hv + self.advisors
            * VALUE_ADVISOR + self.elephants * VALUE_ELEPHANT + self.pawns * VALUE_PAWN
    }

    /// King-safety term of the side.
    fn king_safety(&self) -> (r: i32)
        requires
            0 <= self.advisors <= 90 && 0 <= self.elephants <= 90,
        ensures
            r == king_safety_spec(self.advisors as int, self.elephants as int),
            -100 <= r <= 30,
    {
        let mut score: i32 = 0;
        if self.advisors == 2 && self.elephants == 2 {
            score += 30;
        }
        let a = if self.advisors < 2 {
            self.advisors
        } else {
            2
        };
        let e = if self.elephants < 2 {
            self.elephants
        } else {
            2
        };
        score - (2 - a) * 25 - (2 - e) * 25
    }

    /// Open-file bonus of the side's chariots.
    fn rook_file_bonus(&self, b: Ghost<Seq<u8>>, c: Ghost<Color>, own: &[bool; 9], enemy: &[bool; 9]) -> (r: i32)
        requires
            self.rook_count <= 4,
            forall|i: int| 0 <= i < self.rook_count ==> #[trigger] self.rook_squares@[i] < 90,
            forall|f: int| 0 <= f < 9 ==> #[trigger] own@[f] == pawn_file_upto(b@, c@, f, 90),
            forall|f: int|
                0 <= f < 9 ==> #[trigger] enemy@[f] == pawn_file_upto(
                    b@,
                    crate::color::opp(c@),
                    f,
                    90,
                ),
        ensures
            r == rook_bonus_upto(
                b@,
                c@,
                self.rook_squares@.map_values(|x: u8| x as int).take(self.rook_count as int),
                self.rook_count as int,
            ),
            0 <= r <= 80,
    {
        let ghost rooks = self.rook_squares@.map_values(|x: u8| x as int).take(
            self.rook_count as int,
        );
        let mut sum: i32 = 0;
        let mut i: usize = 0;
        while i < self.rook_count
            invariant
                i <= self.rook_count,
                self.rook_count <= 4,
                rooks == self.rook_squares@.map_values(|x: u8| x as int).take(
                    self.rook_count as int,
                ),
                forall|k: int| 0 <= k < self.rook_count ==> #[trigger] self.rook_squares@[k] < 90,
                forall|f: int| 0 <= f < 9 ==> #[trigger] own@[f] == pawn_file_upto(b@, c@, f, 90),
                forall|f: int|
                    0 <= f < 9 ==> #[trigger] enemy@[f] == pawn_file_upto(
                        b@,
                        crate::color::opp(c@),
                        f,
                        90,
                    ),
                sum == rook_bonus_upto(b@, c@, rooks, i as int),
                0 <= sum <= 20 * i,
            decreases self.rook_count - i,
        {
            let f = (self.rook_squares[i] % 9) as usize;
            assert(rooks[i as int] == self.rook_squares@[i as int] as int);
            let add: i32 = if !own[f] && !enemy[f] {
                20
            } else if !own[f] && enemy[f] {
                10
            } else {
                0
            };
            sum = sum + add;
            i += 1;
        }
        sum
    }
}

/// Evaluation of a position from Red's point of view.
pub fn evaluate(pos: &Position) -> (r: i32)
    requires
        pos.wf(),
    ensures
        r == eval_spec(pos.board()),
        -1_000_000 <= r <= 1_000_000,
{
    let ghost b = pos.board();
    let mut weight: i32 = 0;
    let mut red = SideStat::new();
    let mut black = SideStat::new();
    let mut red_pawn_cols: [bool; 9] = [false; 9];
    let mut black_pawn_cols: [bool; 9] = [false; 9];
    let mut idx: u8 = 0;
    while idx < 90
        invariant
            b == pos.board(),
            idx <= 90,
            weight == weight_upto(b, idx as int),
            0 <= weight <= 6 * idx,
            red.counts(b, Color::Red, idx as int),
            black.counts(b, Color::Black, idx as int),
            forall|f: int|
                0 <= f < 9 ==> #[trigger] red_pawn_cols@[f] == pawn_file_upto(
                    b,
                    Color::Red,
                    f,
                    idx as int,
                ),
            forall|f: int|
                0 <= f < 9 ==> #[trigger] black_pawn_cols@[f] == pawn_file_upto(
                    b,
                    Color::Black,
                    f,
                    idx as int,
                ),
        decreases 90 - idx,
    {
        let piece = pos.piece_at(idx);
        let ghost n = idx as int;
        match (color_of(piece), kind_of(piece)) {
            (Some(color), Some(kind)) => {
                weight = weight + phase_weight(kind);
                let is_red = match color {
                    Color::Red => true,
                    Color::Black => false,
                };
                let table_idx = if is_red {
                    idx
                } else {
                    mirror_index(idx)
                };
                let bonus = pst_square(kind, (table_idx % 9) as usize, (table_idx / 9) as usize)
                    as i32;
                let f = (idx % 9) as usize;
                let mut stat = if is_red {
                    red
                } else {
                    black
                };
                stat.pst_sum = stat.pst_sum + bonus;
                match kind {
                    PieceKind::Chariot => {
                        stat.chariots = stat.chariots + 1;
                        if stat.rook_count < 4 {
                            stat.rook_squares[stat.rook_count] = idx;
                            stat.rook_count = stat.rook_count + 1;
                        }
                    },
                    PieceKind::Cannon => {
                        stat.cannons = stat.cannons + 1;
                    },
                    PieceKind::Horse => {
                        stat.horses = stat.horses + 1;
                    },
                    PieceKind::Advisor => {
                        stat.advisors = stat.advisors + 1;
                    },
                    PieceKind::Elephant => {
                        stat.elephants = stat.elephants + 1;
                    },
                    PieceKind::Pawn => {
                        stat.pawns = stat.pawns + 1;
                        if is_red {
                            red_pawn_cols[f] = true;
                        } else {
                            black_pawn_cols[f] = true;
                        }
                    },
                    PieceKind::King => {},
                }
                if is_red {
                    red = stat;
                } else {
                    black = stat;
                }
            },
            _ => {},
        }
        proof {
            assert forall|f: int| 0 <= f < 9 implies #[trigger] red_pawn_cols@[f]
                == pawn_file_upto(b, Color::Red, f, n + 1) by {
                if holds(b, n, Color::Red, PieceKind::Pawn) && col(n) == f {
                    assert(holds(b, n, Color::Red, PieceKind::Pawn));
                }
                if pawn_file_upto(b, Color::Red, f, n + 1) && !pawn_file_upto(b, Color::Red, f, n) {
                    let j = choose|j: int|
                        0 <= j < n + 1 && col(j) == f && #[trigger] holds(
                            b,
                            j,
                            Color::Red,
                            PieceKind::Pawn,
                        );
                    assert(j == n);
                }
            }
            assert forall|f: int| 0 <= f < 9 implies #[trigger] black_pawn_cols@[f]
                == pawn_file_upto(b, Color::Black, f, n + 1) by {
                if holds(b, n, Color::Black, PieceKind::Pawn) && col(n) == f {
                    assert(holds(b, n, Color::Black, PieceKind::Pawn));
                }
                if pawn_file_upto(b, Color::Black, f, n + 1) && !pawn_file_upto(
                    b,
                    Color::Black,
                    f,
                    n,
                ) {
                    let j = choose|j: int|
                        0 <= j < n + 1 && col(j) == f && #[trigger] holds(
                            b,
                            j,
                            Color::Black,
                            PieceKind::Pawn,
                        );
                    assert(j == n);
                }
            }
        }
        idx += 1;
    }
    let p = weight * PHASE_SCALE / FULL_PHASE_WEIGHT;
    let phase = if p < 0 {
        0
    } else if p > PHASE_SCALE {
        PHASE_SCALE
    } else {
        p
    };
    let red_rooks = red.rook_file_bonus(Ghost(b), Ghost(Color::Red), &red_pawn_cols, &black_pawn_cols);
    let black_rooks = black.rook_file_bonus(Ghost(b), Ghost(Color::Black), &black_pawn_cols, &red_pawn_cols);
    proof {
        assert(red.rook_squares@.map_values(|x: u8| x as int).take(red.rook_count as int) =~= rooks_upto(b, Color::Red, 90));
        assert(black.rook_squares@.map_values(|x: u8| x as int).take(black.rook_count as int) =~= rooks_upto(b, Color::Black, 90));
    }
    let red_total = red.material(phase) + red.pst_sum + red.king_safety() + red_rooks;
    let black_total = black.material(phase) + black.pst_sum + black.king_safety() + black_rooks;
    red_total - black_total
}

/// Evaluation from `color`'s point of view.
pub fn evaluate_for(pos: &Position, color: Color) -> (r: i32)
    requires
        pos.wf(),
    ensures
        r == (match color {
            Color::Red => eval_spec(pos.board()),
            Color::Black => -eval_spec(pos.board()),
        }),
        -1_000_000 <= r <= 1_000_000,
{
    let red_view = evaluate(pos);
    match color {
        Color::Red => red_view,
        Color::Black => -red_view,
    }
}

/// Evaluation from the side to move's point of view.
pub fn evaluate_side_to_move(pos: &Position) -> (r: i32)
    requires
        pos.wf(),
    ensures
        r == (match pos.side() {
            Color::Red => eval_spec(pos.board()),
            Color::Black => -eval_spec(pos.board()),
        }),
        -1_000_000 <= r <= 1_000_000,
{
    evaluate_for(pos, pos.side_to_move())
}

} // verus!
