//! Evaluation of the board seen from the other side.
use vstd::prelude::*;

use crate::ai::eval::{
    bonus_upto, count_upto, eval_spec, file_bonus, law_mirror_involution, mirror_spec,
    pawn_file_upto, phase_spec, rook_bonus_upto, rooks_upto, side_total, square_bonus, weight_upto,
    phase_weight_spec,
};
use crate::board::holds;
use crate::color::{Color, opp};
use crate::piece::{PieceKind, color_of_code, kind_of_code, valid_code};
use crate::position::sound_board;
use crate::square::{col, row};

verus! {

/// Sum of `f` over the points `0..n`.
pub open spec fn sum_upto(f: spec_fn(int) -> int, n: int) -> int
    decreases n,
{
    if n <= 0 {
        0
    } else {
        sum_upto(f, n - 1) + f(n - 1)
    }
}

/// Summing over the points reflected across the river sums the same terms.
proof fn lemma_sum_mirrored(f: spec_fn(int) -> int, g: spec_fn(int) -> int)
    requires
        forall|i: int| 0 <= i < 90 ==> #[trigger] g(i) == f(mirror_spec(i)),
    ensures
        sum_upto(g, 90) == sum_upto(f, 90),
{
    let h = |i: int| f(mirror_spec(i));
    lemma_sum_ext(g, h, 90);
    lemma_sum_composed(f);
}

/// Summing `f` over the reflected points sums the same terms.
proof fn lemma_sum_composed(f: spec_fn(int) -> int)
    ensures
        sum_upto(|i: int| f(mirror_spec(i)), 90) == sum_upto(f, 90),
{
    let h = |i: int| f(mirror_spec(i));
    reveal_with_fuel(sum_upto, 91);
    assert(sum_upto(h, 90) == sum_upto(f, 90));
}

/// Sums of functions that agree on `0..n` agree.
proof fn lemma_sum_ext(f: spec_fn(int) -> int, g: spec_fn(int) -> int, n: int)
    requires
        forall|i: int| 0 <= i < n ==> #[trigger] f(i) == g(i),
    ensures
        sum_upto(f, n) == sum_upto(g, n),
    decreases n,
{
    if n > 0 {
        lemma_sum_ext(f, g, n - 1);
    }
}

/// The code of the same piece played by the other side.
pub open spec fn swap_side(p: u8) -> u8 {
    if p == 0 {
        0
    } else if p < 8 {
        (p + 8) as u8
    } else {
        (p - 8) as u8
    }
}

/// The board seen from the other side: reflected across the river, with
/// the colours swapped.
pub open spec fn mirrored_board(b: Seq<u8>) -> Seq<u8> {
    Seq::new(90, |i: int| swap_side(b[mirror_spec(i)]))
}

/// Swapping sides keeps the kind and flips the colour of a piece.
proof fn lemma_swap_side(p: u8)
    requires
        valid_code(p),
    ensures
        kind_of_code(swap_side(p)) == kind_of_code(p),
        p == 0 ==> color_of_code(swap_side(p)) is None,
        p != 0 ==> color_of_code(swap_side(p)) == Some(opp(color_of_code(p).unwrap())),
        color_of_code(p) is Some ==> p != 0,
{
}

/// Facts about the point of the mirrored board at `i`.
proof fn lemma_mirrored_point(b: Seq<u8>, i: int)
    requires
        sound_board(b),
        0 <= i < 90,
    ensures
        0 <= mirror_spec(i) < 90,
        mirror_spec(mirror_spec(i)) == i,
        col(mirror_spec(i)) == col(i),
        mirrored_board(b)[i] == swap_side(b[mirror_spec(i)]),
        kind_of_code(mirrored_board(b)[i]) == kind_of_code(b[mirror_spec(i)]),
        forall|c: Color, k: PieceKind| #[trigger] holds(mirrored_board(b), i, c, k) == holds(b, mirror_spec(i), opp(c), k),
        forall|c: Color| (color_of_code(mirrored_board(b)[i]) == Some(c)) == (color_of_code(b[mirror_spec(i)]) == Some(#[trigger] opp(c))),
{
    law_mirror_involution(i);
    assert(valid_code(b[mirror_spec(i)]));
    lemma_swap_side(b[mirror_spec(i)]);
}

/// Piece counts as sums over the points.
proof fn lemma_count_sum(b: Seq<u8>, c: Color, k: PieceKind, n: int)
    ensures
        count_upto(b, c, k, n) == sum_upto(|i: int| if holds(b, i, c, k) { 1int } else { 0int }, n),
    decreases n,
{
    if n > 0 {
        lemma_count_sum(b, c, k, n - 1);
    }
}

/// The mirrored board has the other side's pieces.
proof fn lemma_count_mirrored(b: Seq<u8>, c: Color, k: PieceKind)
    requires
        sound_board(b),
    ensures
        count_upto(mirrored_board(b), c, k, 90) == count_upto(b, opp(c), k, 90),
{
    let mb = mirrored_board(b);
    lemma_count_sum(mb, c, k, 90);
    lemma_count_sum(b, opp(c), k, 90);
    let f = |i: int| if holds(b, i, opp(c), k) { 1int } else { 0int };
    let g = |i: int| if holds(mb, i, c, k) { 1int } else { 0int };
    assert forall|i: int| 0 <= i < 90 implies #[trigger] g(i) == f(mirror_spec(i)) by {
        lemma_mirrored_point(b, i);
    }
    lemma_sum_mirrored(f, g);
}

/// Phase weight as a sum over the points.
proof fn lemma_weight_sum(b: Seq<u8>, n: int)
    ensures
        weight_upto(b, n) == sum_upto(
            |i: int| match kind_of_code(b[i]) {
                Some(k) => phase_weight_spec(k),
                None => 0,
            },
            n,
        ),
    decreases n,
{
    if n > 0 {
        lemma_weight_sum(b, n - 1);
    }
}

/// The mirrored board is in the same phase.
proof fn lemma_phase_mirrored(b: Seq<u8>)
    requires
        sound_board(b),
    ensures
        phase_spec(mirrored_board(b)) == phase_spec(b),
{
    let mb = mirrored_board(b);
    lemma_weight_sum(mb, 90);
    lemma_weight_sum(b, 90);
    let f = |i: int| match kind_of_code(b[i]) {
        Some(k) => phase_weight_spec(k),
        None => 0,
    };
    let g = |i: int| match kind_of_code(mb[i]) {
        Some(k) => phase_weight_spec(k),
        None => 0,
    };
    assert forall|i: int| 0 <= i < 90 implies #[trigger] g(i) == f(mirror_spec(i)) by {
        lemma_mirrored_point(b, i);
    }
    lemma_sum_mirrored(f, g);
}

/// Piece-square bonuses as sums over the points.
proof fn lemma_bonus_sum(b: Seq<u8>, c: Color, n: int)
    ensures
        bonus_upto(b, c, n) == sum_upto(
            |i: int| if color_of_code(b[i]) == Some(c) { square_bonus(b[i], i) } else { 0 },
            n,
        ),
    decreases n,
{
    if n > 0 {
        lemma_bonus_sum(b, c, n - 1);
    }
}

/// The mirrored board has the other side's piece-square bonuses.
proof fn lemma_bonus_mirrored(b: Seq<u8>, c: Color)
    requires
        sound_board(b),
    ensures
        bonus_upto(mirrored_board(b), c, 90) == bonus_upto(b, opp(c), 90),
{
    let mb = mirrored_board(b);
    lemma_bonus_sum(mb, c, 90);
    lemma_bonus_sum(b, opp(c), 90);
    let f = |i: int| if color_of_code(b[i]) == Some(opp(c)) { square_bonus(b[i], i) } else { 0 };
    let g = |i: int| if color_of_code(mb[i]) == Some(c) { square_bonus(mb[i], i) } else { 0 };
    assert forall|i: int| 0 <= i < 90 implies #[trigger] g(i) == f(mirror_spec(i)) by {
        lemma_mirrored_point(b, i);
        lemma_swap_side(b[mirror_spec(i)]);
    }
    lemma_sum_mirrored(f, g);
}

/// Pawn files of the mirrored board are the other side's.
proof fn lemma_pawn_file_mirrored(b: Seq<u8>, c: Color, f: int)
    requires
        sound_board(b),
    ensures
        pawn_file_upto(mirrored_board(b), c, f, 90) == pawn_file_upto(b, opp(c), f, 90),
{
    let mb = mirrored_board(b);
    if pawn_file_upto(mb, c, f, 90) {
        let j = choose|j: int| 0 <= j < 90 && col(j) == f && #[trigger] holds(mb, j, c, PieceKind::Pawn);
        lemma_mirrored_point(b, j);
        assert(holds(b, mirror_spec(j), opp(c), PieceKind::Pawn));
    }
    if pawn_file_upto(b, opp(c), f, 90) {
        let j = choose|j: int| 0 <= j < 90 && col(j) == f && #[trigger] holds(b, j, opp(c), PieceKind::Pawn);
        let m = mirror_spec(j);
        lemma_mirrored_point(b, j);
        lemma_mirrored_point(b, m);
        assert(holds(mb, m, c, PieceKind::Pawn));
    }
}

/// The open-file bonus of a chariot standing on point `i`.
pub open spec fn chariot_file_bonus(b: Seq<u8>, c: Color, i: int) -> int {
    file_bonus(pawn_file_upto(b, c, col(i), 90), pawn_file_upto(b, opp(c), col(i), 90))
}

/// Open-file bonuses read only the first `n` chariots of the list.
proof fn lemma_rook_bonus_prefix(b: Seq<u8>, c: Color, r1: Seq<int>, r2: Seq<int>, n: int)
    requires
        0 <= n <= r1.len(),
        n <= r2.len(),
        forall|k: int| 0 <= k < n ==> r1[k] == r2[k],
    ensures
        rook_bonus_upto(b, c, r1, n) == rook_bonus_upto(b, c, r2, n),
    decreases n,
{
    if n > 0 {
        lemma_rook_bonus_prefix(b, c, r1, r2, n - 1);
    }
}

/// With at most four chariots, their open-file bonuses are a sum over the
/// points.
proof fn lemma_rook_sum(b: Seq<u8>, c: Color, n: int)
    requires
        0 <= n <= 90,
        count_upto(b, c, PieceKind::Chariot, n) <= 4,
    ensures
        rooks_upto(b, c, n).len() == count_upto(b, c, PieceKind::Chariot, n),
        rook_bonus_upto(b, c, rooks_upto(b, c, n), rooks_upto(b, c, n).len() as int) == sum_upto(
            |i: int| if holds(b, i, c, PieceKind::Chariot) { chariot_file_bonus(b, c, i) } else { 0 },
            n,
        ),
    decreases n,
{
    if n > 0 {
        lemma_count_nonneg(b, c, PieceKind::Chariot, n - 1);
        lemma_rook_sum(b, c, n - 1);
        let r = rooks_upto(b, c, n - 1);
        if holds(b, n - 1, c, PieceKind::Chariot) {
            let r2 = r.push(n - 1);
            lemma_rook_bonus_prefix(b, c, r2, r, r.len() as int);
        }
    }
}

/// Piece counts are never negative.
proof fn lemma_count_nonneg(b: Seq<u8>, c: Color, k: PieceKind, n: int)
    ensures
        count_upto(b, c, k, n) >= 0,
    decreases n,
{
    if n > 0 {
        lemma_count_nonneg(b, c, k, n - 1);
    }
}

/// The mirrored board has the other side's open-file bonuses.
proof fn lemma_rooks_mirrored(b: Seq<u8>, c: Color)
    requires
        sound_board(b),
        count_upto(b, opp(c), PieceKind::Chariot, 90) <= 4,
    ensures
        rook_bonus_upto(
            mirrored_board(b),
            c,
            rooks_upto(mirrored_board(b), c, 90),
            rooks_upto(mirrored_board(b), c, 90).len() as int,
        ) == rook_bonus_upto(b, opp(c), rooks_upto(b, opp(c), 90), rooks_upto(b, opp(c), 90).len() as int),
{
    let mb = mirrored_board(b);
    lemma_count_mirrored(b, c, PieceKind::Chariot);
    lemma_rook_sum(mb, c, 90);
    lemma_rook_sum(b, opp(c), 90);
    let f = |i: int| if holds(b, i, opp(c), PieceKind::Chariot) { chariot_file_bonus(b, opp(c), i) } else { 0 };
    let g = |i: int| if holds(mb, i, c, PieceKind::Chariot) { chariot_file_bonus(mb, c, i) } else { 0 };
    assert forall|i: int| 0 <= i < 90 implies #[trigger] g(i) == f(mirror_spec(i)) by {
        lemma_mirrored_point(b, i);
        lemma_pawn_file_mirrored(b, c, col(i));
        lemma_pawn_file_mirrored(b, opp(c), col(i));
        assert(opp(opp(c)) == c);
    }
    lemma_sum_mirrored(f, g);
}

/// Open-file bonus of the chariots listed in `rooks`, for side `c`.
pub open spec fn rook_total(b: Seq<u8>, c: Color, rooks: Seq<int>) -> int {
    rook_bonus_upto(b, c, rooks, rooks.len() as int)
}

/// The points of the chariots side `c` is given open-file bonuses for (its
/// first four in point order), reflected across the river.
pub open spec fn counted_chariots_reflected(b: Seq<u8>, c: Color) -> vstd::multiset::Multiset<int> {
    rooks_upto(b, c, 90).map_values(|i: int| mirror_spec(i)).to_multiset()
}

/// The listed chariots lie on points `0..n`.
proof fn lemma_rooks_in_range(b: Seq<u8>, c: Color, n: int)
    ensures
        forall|k: int| 0 <= k < rooks_upto(b, c, n).len() ==> 0 <= #[trigger] rooks_upto(b, c, n)[k] < n,
    decreases n,
{
    if n > 0 {
        lemma_rooks_in_range(b, c, n - 1);
        let r = rooks_upto(b, c, n - 1);
        assert forall|k: int| 0 <= k < rooks_upto(b, c, n).len() implies 0 <= #[trigger] rooks_upto(b, c, n)[k] < n by {
            if k < r.len() {
                assert(rooks_upto(b, c, n)[k] == r[k]);
            }
        }
    }
}

/// Two lists whose chariots earn the same bonuses one by one earn the same
/// total.
proof fn lemma_rook_bonus_pointwise(b1: Seq<u8>, c1: Color, r1: Seq<int>, b2: Seq<u8>, c2: Color, r2: Seq<int>, n: int)
    requires
        0 <= n <= r1.len(),
        n <= r2.len(),
        forall|k: int| 0 <= k < n ==> chariot_file_bonus(b1, c1, #[trigger] r1[k]) == chariot_file_bonus(b2, c2, r2[k]),
    ensures
        rook_bonus_upto(b1, c1, r1, n) == rook_bonus_upto(b2, c2, r2, n),
    decreases n,
{
    if n > 0 {
        lemma_rook_bonus_pointwise(b1, c1, r1, b2, c2, r2, n - 1);
    }
}

/// Taking the chariot at `j` out of a list takes its bonus out of the total.
proof fn lemma_rook_total_remove(b: Seq<u8>, c: Color, s: Seq<int>, j: int)
    requires
        0 <= j < s.len(),
    ensures
        rook_total(b, c, s) == rook_total(b, c, s.remove(j)) + chariot_file_bonus(b, c, s[j]),
    decreases s.len(),
{
    let n = s.len() - 1;
    lemma_rook_bonus_prefix(b, c, s, s.drop_last(), n);
    if j == n {
        assert(s.remove(j) =~= s.drop_last());
    } else {
        let d = s.drop_last();
        lemma_rook_total_remove(b, c, d, j);
        let sr = s.remove(j);
        assert(sr.drop_last() =~= d.remove(j));
        assert(sr[sr.len() - 1] == s[n]);
        lemma_rook_bonus_prefix(b, c, sr, sr.drop_last(), sr.len() - 1);
    }
}

/// The total does not depend on the order of the list.
proof fn lemma_rook_total_permuted(b: Seq<u8>, c: Color, s1: Seq<int>, s2: Seq<int>)
    requires
        s1.to_multiset() == s2.to_multiset(),
    ensures
        rook_total(b, c, s1) == rook_total(b, c, s2),
    decreases s1.len(),
{
    broadcast use vstd::seq_lib::group_to_multiset_ensures;

    vstd::seq_lib::to_multiset_len(s1);
    vstd::seq_lib::to_multiset_len(s2);
    if s1.len() > 0 {
        let n = s1.len() - 1;
        let x = s1[n];
        assert(s1.to_multiset().count(x) > 0);
        assert(s2.contains(x));
        let j = choose|j: int| 0 <= j < s2.len() && s2[j] == x;
        let d = s1.drop_last();
        vstd::seq_lib::to_multiset_remove(s1, n);
        vstd::seq_lib::to_multiset_remove(s2, j);
        assert(s1.remove(n) =~= d);
        lemma_rook_total_permuted(b, c, d, s2.remove(j));
        lemma_rook_total_remove(b, c, s1, n);
        lemma_rook_total_remove(b, c, s2, j);
    }
}

/// The mirrored board gives side `c` the open-file bonuses the board gives
/// the other side, when the chariots counted for them are reflections of
/// each other.
proof fn lemma_rooks_mirrored_counted(b: Seq<u8>, c: Color)
    requires
        sound_board(b),
        counted_chariots_reflected(mirrored_board(b), c) == rooks_upto(b, opp(c), 90).to_multiset(),
    ensures
        rook_total(mirrored_board(b), c, rooks_upto(mirrored_board(b), c, 90)) == rook_total(
            b,
            opp(c),
            rooks_upto(b, opp(c), 90),
        ),
{
    let mb = mirrored_board(b);
    let r1 = rooks_upto(mb, c, 90);
    let m = r1.map_values(|i: int| mirror_spec(i));
    lemma_rooks_in_range(mb, c, 90);
    assert forall|k: int| 0 <= k < r1.len() implies chariot_file_bonus(mb, c, #[trigger] r1[k]) == chariot_file_bonus(
        b,
        opp(c),
        m[k],
    ) by {
        let i = r1[k];
        lemma_mirrored_point(b, i);
        lemma_pawn_file_mirrored(b, c, col(i));
        lemma_pawn_file_mirrored(b, opp(c), col(i));
        assert(opp(opp(c)) == c);
    }
    lemma_rook_bonus_pointwise(mb, c, r1, b, opp(c), m, r1.len() as int);
    lemma_rook_total_permuted(b, opp(c), m, rooks_upto(b, opp(c), 90));
}

/// The mirrored board totals for one side what the board totals for the
/// other, given that it gives that side the other side's open-file bonuses.
proof fn lemma_side_total_mirrored(b: Seq<u8>, c: Color, phase: int)
    requires
        sound_board(b),
        rook_total(mirrored_board(b), c, rooks_upto(mirrored_board(b), c, 90)) == rook_total(
            b,
            opp(c),
            rooks_upto(b, opp(c), 90),
        ),
    ensures
        side_total(mirrored_board(b), c, phase) == side_total(b, opp(c), phase),
{
    lemma_count_mirrored(b, c, PieceKind::Chariot);
    lemma_count_mirrored(b, c, PieceKind::Cannon);
    lemma_count_mirrored(b, c, PieceKind::Horse);
    lemma_count_mirrored(b, c, PieceKind::Advisor);
    lemma_count_mirrored(b, c, PieceKind::Elephant);
    lemma_count_mirrored(b, c, PieceKind::Pawn);
    lemma_bonus_mirrored(b, c);
}

/// Seen from the other side (reflected across the river, colours swapped),
/// a board evaluates to the negation, as long as neither side has more
/// than four chariots (only the first four are given open-file bonuses).
pub proof fn law_mirrored_board_negates_evaluation(b: Seq<u8>)
    requires
        sound_board(b),
        count_upto(b, Color::Red, PieceKind::Chariot, 90) <= 4,
        count_upto(b, Color::Black, PieceKind::Chariot, 90) <= 4,
    ensures
        eval_spec(mirrored_board(b)) == -eval_spec(b),
{
    lemma_phase_mirrored(b);
    let phase = phase_spec(b);
    lemma_rooks_mirrored(b, Color::Red);
    lemma_rooks_mirrored(b, Color::Black);
    lemma_side_total_mirrored(b, Color::Red, phase);
    lemma_side_total_mirrored(b, Color::Black, phase);
}

/// Seen from the other side (reflected across the river, colours swapped),
/// a board evaluates to the negation whenever the chariots each side is
/// given open-file bonuses for on the mirrored board are the reflections of
/// those the other side is given them for on the board.
pub proof fn law_mirrored_board_negates_evaluation_with_counted_chariots(b: Seq<u8>)
    requires
        sound_board(b),
        counted_chariots_reflected(mirrored_board(b), Color::Red) == rooks_upto(b, Color::Black, 90).to_multiset(),
        counted_chariots_reflected(mirrored_board(b), Color::Black) == rooks_upto(b, Color::Red, 90).to_multiset(),
    ensures
        eval_spec(mirrored_board(b)) == -eval_spec(b),
{
    lemma_phase_mirrored(b);
    let phase = phase_spec(b);
    assert(opp(Color::Red) == Color::Black);
    assert(opp(Color::Black) == Color::Red);
    lemma_rooks_mirrored_counted(b, Color::Red);
    lemma_rooks_mirrored_counted(b, Color::Black);
    lemma_side_total_mirrored(b, Color::Red, phase);
    lemma_side_total_mirrored(b, Color::Black, phase);
}

} // verus!
