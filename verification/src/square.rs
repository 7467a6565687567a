//! Coordinates: `(col, row)` ↔ flat index ↔ ICCS text ↔ Chinese route numbers.
//!
//! `row 0` is Red's back rank, `row 9` Black's; the flat index is
//! `row * 9 + col`.
use vstd::prelude::*;

use crate::color::Color;
use crate::text::{chars_of, push_char};

verus! {

/// Number of files.
pub const COLS: u8 = 9;
/// Number of ranks.
pub const ROWS: u8 = 10;
/// Number of points on the board.
pub const BOARD_SIZE: usize = 90;

/// Flat index of `(c, r)`.
pub open spec fn sq(c: int, r: int) -> int {
    r * 9 + c
}

/// File of a flat index.
pub open spec fn col(i: int) -> int {
    i % 9
}

/// Rank of a flat index.
pub open spec fn row(i: int) -> int {
    i / 9
}

/// Whether `(c, r)` lies on the board.
pub open spec fn on_board_spec(c: int, r: int) -> bool {
    0 <= c < 9 && 0 <= r < 10
}

/// Whether `(c, r)` lies in the palace of `color`.
pub open spec fn in_palace_spec(color: Color, c: int, r: int) -> bool {
    3 <= c <= 5 && match color {
        Color::Red => 0 <= r <= 2,
        Color::Black => 7 <= r <= 9,
    }
}

/// Whether rank `r` is on `color`'s own half.
pub open spec fn own_side_spec(color: Color, r: int) -> bool {
    match color {
        Color::Red => r <= 4,
        Color::Black => r >= 5,
    }
}

/// Route number of file `c` as seen by `color`.
pub open spec fn route_spec(color: Color, c: int) -> int {
    match color {
        Color::Red => 9 - c,
        Color::Black => c + 1,
    }
}

/// A flat index decomposes into its file and rank.
pub proof fn lemma_index_decompose(i: int)
    requires
        0 <= i < 90,
    ensures
        0 <= col(i) < 9,
        0 <= row(i) < 10,
        sq(col(i), row(i)) == i,
{
}

/// File and rank are recovered from a flat index.
pub proof fn lemma_sq_components(c: int, r: int)
    requires
        on_board_spec(c, r),
    ensures
        col(sq(c, r)) == c,
        row(sq(c, r)) == r,
        0 <= sq(c, r) < 90,
{
    assert((r * 9 + c) / 9 == r) by (nonlinear_arith)
        requires
            0 <= c < 9,
            0 <= r < 10,
    ;
    assert((r * 9 + c) % 9 == c) by (nonlinear_arith)
        requires
            0 <= c < 9,
            0 <= r < 10,
    ;
}

/// Flat index of `(col, row)`.
pub fn index(col: u8, row: u8) -> (r: u8)
    requires
        row * 9 + col < 256,
    ensures
        r == sq(col as int, row as int),
{
    row * COLS + col
}

/// File of a flat index.
pub fn col_of(idx: u8) -> (r: u8)
    ensures
        r == col(idx as int),
{
    idx % COLS
}

/// Rank of a flat index.
pub fn row_of(idx: u8) -> (r: u8)
    ensures
        r == row(idx as int),
{
    idx / COLS
}

/// Whether `(col, row)` lies on the board.
pub fn on_board(col: i8, row: i8) -> (r: bool)
    ensures
        r == on_board_spec(col as int, row as int),
{
    col >= 0 && col < 9 && row >= 0 && row < 10
}

/// Whether a flat index names a point of the board.
pub fn is_valid_index(idx: u8) -> (r: bool)
    ensures
        r == (idx < 90),
{
    (idx as usize) < BOARD_SIZE
}

/// Whether `(col, row)` lies in `color`'s palace.
pub fn in_palace(color: Color, col: u8, row: u8) -> (r: bool)
    ensures
        r == in_palace_spec(color, col as int, row as int),
{
    if col < 3 || col > 5 {
        return false;
    }
    let (lo, hi) = color.palace_rows();
    row >= lo && row <= hi
}

/// Whether rank `row` belongs to `color`'s own half (where elephants must stay).
pub fn on_own_side(color: Color, row: u8) -> (r: bool)
    ensures
        r == own_side_spec(color, row as int),
{
    match color {
        Color::Red => row <= 4,
        Color::Black => row >= 5,
    }
}

/// Whether rank `row` lies across the river for `color` (on the opponent's half).
pub fn has_crossed_river(color: Color, row: u8) -> (r: bool)
    ensures
        r == !own_side_spec(color, row as int),
{
    !on_own_side(color, row)
}

/// Route number used by Chinese notation; each side counts 1..9 from its own right.
pub fn route_number(color: Color, col: u8) -> (r: u8)
    requires
        col < 9,
    ensures
        r == route_spec(color, col as int),
        1 <= r <= 9,
{
    match color {
        Color::Red => 9 - col,
        Color::Black => col + 1,
    }
}

/// Inverse of [`route_number`]: the file named by a route, if the route is 1..=9.
pub fn col_from_route(color: Color, route: u8) -> (r: Option<u8>)
    ensures
        (1 <= route <= 9) <==> r.is_some(),
        r matches Some(c) ==> c < 9 && route_spec(color, c as int) == route,
{
    if route < 1 || route > 9 {
        return None;
    }
    Some(
        match color {
            Color::Red => 9 - route,
            Color::Black => route - 1,
        },
    )
}

/// ICCS text of a flat index: file letter then rank digit.
pub open spec fn iccs_spec(idx: int) -> Seq<char> {
    seq![(97 + col(idx)) as char, (48 + row(idx)) as char]
}

/// ICCS text of a flat index, such as `"h2"` for `index(7, 2)`.
pub fn to_iccs(idx: u8) -> (r: String)
    ensures
        r@ == iccs_spec(idx as int),
{
    let c = col_of(idx);
    let rw = row_of(idx);
    let mut s = String::new();
    push_char(&mut s, (97u8 + c) as char);
    push_char(&mut s, (48u8 + rw) as char);
    s
}

/// The flat index named by ICCS text, if the text is a file `a`..`i` followed by a digit.
pub open spec fn iccs_index(t: Seq<char>) -> Option<u8> {
    if t.len() == 2 && 'a' <= t[0] <= 'i' && '0' <= t[1] <= '9' {
        Some(sq(t[0] as int - 97, t[1] as int - 48) as u8)
    } else {
        None
    }
}

/// Parses ICCS text such as `"h2"` into a flat index.
pub fn from_iccs(s: &str) -> (r: Option<u8>)
    ensures
        r == iccs_index(s@),
{
    let cs = chars_of(s);
    iccs_of_chars(&cs)
}

/// [`from_iccs`] on a character vector.
pub fn iccs_of_chars(cs: &Vec<char>) -> (r: Option<u8>)
    ensures
        r == iccs_index(cs@),
{
    if cs.len() != 2 {
        return None;
    }
    let c = cs[0];
    let d = cs[1];
    if !('a' <= c && c <= 'i') || !('0' <= d && d <= '9') {
        return None;
    }
    let cc = (c as u32 - 97) as u8;
    let rr = (d as u32 - 48) as u8;
    Some(index(cc, rr))
}

/// Every flat index is rebuilt by `index(col_of, row_of)`.
pub proof fn law_index_roundtrip(idx: u8)
    requires
        idx < 90,
    ensures
        sq(col(idx as int), row(idx as int)) == idx,
{
}

/// ICCS text of a board point parses back to the same point.
pub proof fn law_iccs_roundtrip(idx: u8)
    requires
        idx < 90,
    ensures
        iccs_index(iccs_spec(idx as int)) == Some(idx),
{
    lemma_index_decompose(idx as int);
    let t = iccs_spec(idx as int);
    assert(t[0] as int - 97 == col(idx as int));
    assert(t[1] as int - 48 == row(idx as int));
}

/// A route number maps back to its file.
pub proof fn law_route_roundtrip(color: Color, c: u8)
    requires
        c < 9,
    ensures
        1 <= route_spec(color, c as int) <= 9,
        (match color {
            Color::Red => 9 - route_spec(color, c as int),
            Color::Black => route_spec(color, c as int) - 1,
        }) == c,
{
}

} // verus!
