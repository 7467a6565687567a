//! The two sides of a game.
use vstd::prelude::*;

verus! {

/// The two players. Red sits on `row 0` and moves first.
#[derive(Clone, Copy, PartialEq, Eq, Structural, PartialOrd, Ord, Hash, Debug)]
pub enum Color {
    /// Red, bottom side (`row 0`), moves first.
    Red,
    /// Black, top side (`row 9`).
    Black,
}

/// The other side.
pub open spec fn opp(c: Color) -> Color {
    match c {
        Color::Red => Color::Black,
        Color::Black => Color::Red,
    }
}

/// Row increment of a forward step for `c`.
pub open spec fn fwd(c: Color) -> int {
    match c {
        Color::Red => 1,
        Color::Black => -1,
    }
}

/// Offset of the colour inside a square code (red 0, black 8).
pub open spec fn color_bit(c: Color) -> u8 {
    match c {
        Color::Red => 0,
        Color::Black => 8,
    }
}

/// Chinese name of a side: 红 for Red, 黑 for Black.
pub open spec fn side_zh(c: Color) -> Seq<char> {
    if c == Color::Red {
        "红"@
    } else {
        "黑"@
    }
}

impl Color {
    /// Offset of this colour inside a square code (red 0, black 8).
    pub fn bit(self) -> (r: u8)
        ensures
            r == color_bit(self),
    {
        match self {
            Color::Red => 0,
            Color::Black => 8,
        }
    }

    /// The other side.
    pub fn opponent(self) -> (r: Color)
        ensures
            r == opp(self),
    {
        match self {
            Color::Red => Color::Black,
            Color::Black => Color::Red,
        }
    }

    /// Row increment of a forward step: red +1, black -1.
    pub fn forward(self) -> (r: i8)
        ensures
            r == fwd(self),
    {
        match self {
            Color::Red => 1,
            Color::Black => -1,
        }
    }

    /// Inclusive row range of this side's palace.
    pub fn palace_rows(self) -> (r: (u8, u8))
        ensures
            self == Color::Red ==> r == (0u8, 2u8),
            self == Color::Black ==> r == (7u8, 9u8),
    {
        match self {
            Color::Red => (0, 2),
            Color::Black => (7, 9),
        }
    }

    /// Chinese name of the side.
    pub fn name_zh(self) -> (r: &'static str)
        ensures
            r@ == side_zh(self),
            self == Color::Red ==> r@ == "红"@,
            self == Color::Black ==> r@ == "黑"@,
    {
        match self {
            Color::Red => "红",
            Color::Black => "黑",
        }
    }

    /// Side-to-move marker used in FEN.
    pub fn fen_char(self) -> (r: char)
        ensures
            self == Color::Red ==> r == 'w',
            self == Color::Black ==> r == 'b',
    {
        match self {
            Color::Red => 'w',
            Color::Black => 'b',
        }
    }

    /// Parses a FEN side-to-move marker (`w`/`W`/`r`/`R` red, `b`/`B` black).
    pub fn from_fen_char(ch: char) -> (r: Option<Color>)
        ensures
            r == side_of_fen_char(ch),
            r == Some(Color::Red) <==> (ch == 'w' || ch == 'W' || ch == 'r' || ch == 'R'),
            r == Some(Color::Black) <==> (ch == 'b' || ch == 'B'),
    {
        match ch {
            'w' | 'W' | 'r' | 'R' => Some(Color::Red),
            'b' | 'B' => Some(Color::Black),
            _ => None,
        }
    }
}

/// The side named by a FEN side-to-move marker.
pub open spec fn side_of_fen_char(ch: char) -> Option<Color> {
    if ch == 'w' || ch == 'W' || ch == 'r' || ch == 'R' {
        Some(Color::Red)
    } else if ch == 'b' || ch == 'B' {
        Some(Color::Black)
    } else {
        None
    }
}

/// The FEN side-to-move markers: `w`, `W`, `r` and `R` name Red, `b` and
/// `B` name Black, no other character names a side, and the marker each
/// side writes names that side.
pub proof fn law_fen_side_markers(ch: char, c: Color)
    ensures
        side_of_fen_char('w') == Some(Color::Red),
        side_of_fen_char('W') == Some(Color::Red),
        side_of_fen_char('r') == Some(Color::Red),
        side_of_fen_char('R') == Some(Color::Red),
        side_of_fen_char('b') == Some(Color::Black),
        side_of_fen_char('B') == Some(Color::Black),
        ch != 'w' && ch != 'W' && ch != 'r' && ch != 'R' && ch != 'b' && ch != 'B' ==> side_of_fen_char(ch)
            is None,
        side_of_fen_char(if c == Color::Red {
            'w'
        } else {
            'b'
        }) == Some(c),
{
}

} // verus!
