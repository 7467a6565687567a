//! Piece kinds and the one-byte square code.
//!
//! A square holds `0` when empty, `kind` (1..=7) for a red piece and
//! `kind | 8` (9..=15) for a black piece.
use vstd::prelude::*;

use crate::color::{Color, color_bit};

verus! {

/// An empty square.
pub const EMPTY: u8 = 0;

/// Piece kinds; the numeric code of each is the low three bits of a square code.
#[derive(Clone, Copy, PartialEq, Eq, Structural, PartialOrd, Ord, Hash, Debug)]
pub enum PieceKind {
    /// King / general (code 1).
    King,
    /// Advisor (code 2).
    Advisor,
    /// Elephant (code 3).
    Elephant,
    /// Horse (code 4).
    Horse,
    /// Chariot (code 5).
    Chariot,
    /// Cannon (code 6).
    Cannon,
    /// Pawn (code 7).
    Pawn,
}

/// Numeric code of a kind.
pub open spec fn kind_code(k: PieceKind) -> u8 {
    match k {
        PieceKind::King => 1,
        PieceKind::Advisor => 2,
        PieceKind::Elephant => 3,
        PieceKind::Horse => 4,
        PieceKind::Chariot => 5,
        PieceKind::Cannon => 6,
        PieceKind::Pawn => 7,
    }
}

/// Kind named by the low three bits of a code.
pub open spec fn kind_of_code(code: u8) -> Option<PieceKind> {
    let low = code % 8;
    if low == 1 {
        Some(PieceKind::King)
    } else if low == 2 {
        Some(PieceKind::Advisor)
    } else if low == 3 {
        Some(PieceKind::Elephant)
    } else if low == 4 {
        Some(PieceKind::Horse)
    } else if low == 5 {
        Some(PieceKind::Chariot)
    } else if low == 6 {
        Some(PieceKind::Cannon)
    } else if low == 7 {
        Some(PieceKind::Pawn)
    } else {
        None
    }
}

/// Square code of a piece.
pub open spec fn piece_code(c: Color, k: PieceKind) -> u8 {
    (kind_code(k) + color_bit(c)) as u8
}

/// Colour of a square code (`None` for an empty square).
pub open spec fn color_of_code(p: u8) -> Option<Color> {
    if p == 0 {
        None
    } else if (p / 8) % 2 == 1 {
        Some(Color::Black)
    } else {
        Some(Color::Red)
    }
}

/// Whether `p` is a code that a board may hold: empty, red 1..=7 or black 9..=15.
pub open spec fn valid_code(p: u8) -> bool {
    p == 0 || (1 <= p <= 7) || (9 <= p <= 15)
}

/// Whether square code `p` is a piece of colour `c` and kind `k`.
pub open spec fn is_piece(p: u8, c: Color, k: PieceKind) -> bool {
    p == piece_code(c, k)
}

/// Zobrist table row of a piece code: red 0..7, black 7..14.
pub open spec fn zobrist_row(p: u8) -> int {
    (p % 8) - 1 + (p / 8) * 7
}

/// Decoding an encoded piece gives back its colour and kind.
pub proof fn lemma_code_roundtrip(c: Color, k: PieceKind)
    ensures
        color_of_code(piece_code(c, k)) == Some(c),
        kind_of_code(piece_code(c, k)) == Some(k),
        valid_code(piece_code(c, k)),
        piece_code(c, k) != 0,
        0 <= zobrist_row(piece_code(c, k)) < 14,
{
}

/// A valid non-empty code is the code of its own colour and kind.
pub proof fn lemma_code_decompose(p: u8)
    requires
        valid_code(p),
        p != 0,
    ensures
        color_of_code(p) is Some,
        kind_of_code(p) is Some,
        p == piece_code(color_of_code(p).unwrap(), kind_of_code(p).unwrap()),
        0 <= zobrist_row(p) < 14,
{
}

impl PieceKind {
    /// Recovers a kind from the low three bits of a code.
    pub fn from_code(code: u8) -> (r: Option<PieceKind>)
        ensures
            r == kind_of_code(code),
    {
        match code % 8 {
            1 => Some(PieceKind::King),
            2 => Some(PieceKind::Advisor),
            3 => Some(PieceKind::Elephant),
            4 => Some(PieceKind::Horse),
            5 => Some(PieceKind::Chariot),
            6 => Some(PieceKind::Cannon),
            7 => Some(PieceKind::Pawn),
            _ => None,
        }
    }

    /// FEN letter: upper case for red, lower case for black.
    pub fn fen_char(self, color: Color) -> (r: char)
        ensures
            r == fen_letter(self, color),
    {
        match (self, color) {
            (PieceKind::King, Color::Red) => 'K',
            (PieceKind::King, Color::Black) => 'k',
            (PieceKind::Advisor, Color::Red) => 'A',
            (PieceKind::Advisor, Color::Black) => 'a',
            (PieceKind::Elephant, Color::Red) => 'B',
            (PieceKind::Elephant, Color::Black) => 'b',
            (PieceKind::Horse, Color::Red) => 'N',
            (PieceKind::Horse, Color::Black) => 'n',
            (PieceKind::Chariot, Color::Red) => 'R',
            (PieceKind::Chariot, Color::Black) => 'r',
            (PieceKind::Cannon, Color::Red) => 'C',
            (PieceKind::Cannon, Color::Black) => 'c',
            (PieceKind::Pawn, Color::Red) => 'P',
            (PieceKind::Pawn, Color::Black) => 'p',
        }
    }

    /// Kind and colour named by a FEN letter.
    pub fn from_fen_char(ch: char) -> (r: Option<(PieceKind, Color)>)
        ensures
            r == piece_of_fen_letter(ch),
            r matches Some((k, c)) ==> fen_letter(k, c) == ch,
    {
        let (kind, color) = match ch {
            'K' => (PieceKind::King, Color::Red),
            'k' => (PieceKind::King, Color::Black),
            'A' => (PieceKind::Advisor, Color::Red),
            'a' => (PieceKind::Advisor, Color::Black),
            'B' => (PieceKind::Elephant, Color::Red),
            'b' => (PieceKind::Elephant, Color::Black),
            'N' => (PieceKind::Horse, Color::Red),
            'n' => (PieceKind::Horse, Color::Black),
            'R' => (PieceKind::Chariot, Color::Red),
            'r' => (PieceKind::Chariot, Color::Black),
            'C' => (PieceKind::Cannon, Color::Red),
            'c' => (PieceKind::Cannon, Color::Black),
            'P' => (PieceKind::Pawn, Color::Red),
            'p' => (PieceKind::Pawn, Color::Black),
            _ => return None,
        };
        Some((kind, color))
    }

    /// Chinese glyph of a piece; the two sides use different glyphs for
    /// king, advisor, elephant and pawn.
    pub fn name_zh(self, color: Color) -> (r: char)
        ensures
            r == glyph_of(self, color),
    {
        match (self, color) {
            (PieceKind::King, Color::Red) => '帅',
            (PieceKind::King, Color::Black) => '将',
            (PieceKind::Advisor, Color::Red) => '仕',
            (PieceKind::Advisor, Color::Black) => '士',
            (PieceKind::Elephant, Color::Red) => '相',
            (PieceKind::Elephant, Color::Black) => '象',
            (PieceKind::Horse, _) => '马',
            (PieceKind::Chariot, _) => '车',
            (PieceKind::Cannon, _) => '炮',
            (PieceKind::Pawn, Color::Red) => '兵',
            (PieceKind::Pawn, Color::Black) => '卒',
        }
    }

    /// Kind and colour named by a Chinese glyph. Traditional variants
    /// (`車 馬 砲 帥 將`) are accepted too. Horse, chariot and cannon use the same
    /// glyph for both sides and report red.
    pub fn from_name_zh(ch: char) -> (r: Option<(PieceKind, Color)>)
        ensures
            r == piece_of_glyph(ch),
    {
        let r = match ch {
            '帅' | '帥' => (PieceKind::King, Color::Red),
            '将' | '將' => (PieceKind::King, Color::Black),
            '仕' => (PieceKind::Advisor, Color::Red),
            '士' => (PieceKind::Advisor, Color::Black),
            '相' => (PieceKind::Elephant, Color::Red),
            '象' => (PieceKind::Elephant, Color::Black),
            '马' | '馬' => (PieceKind::Horse, Color::Red),
            '车' | '車' => (PieceKind::Chariot, Color::Red),
            '炮' | '砲' => (PieceKind::Cannon, Color::Red),
            '兵' => (PieceKind::Pawn, Color::Red),
            '卒' => (PieceKind::Pawn, Color::Black),
            _ => return None,
        };
        Some(r)
    }

    /// Whether both sides write this kind with the same glyph (horse, chariot, cannon).
    pub fn is_color_agnostic_glyph(self) -> (r: bool)
        ensures
            r == agnostic_glyph(self),
    {
        match self {
            PieceKind::Horse | PieceKind::Chariot | PieceKind::Cannon => true,
            _ => false,
        }
    }

    /// Whether the kind moves diagonally (horse, elephant, advisor); in Chinese
    /// notation these are followed by a target route rather than a step count.
    pub fn moves_diagonally(self) -> (r: bool)
        ensures
            r == diagonal_mover(self),
    {
        match self {
            PieceKind::Horse | PieceKind::Elephant | PieceKind::Advisor => true,
            _ => false,
        }
    }
}

/// Whether both sides share the glyph of `k`.
pub open spec fn agnostic_glyph(k: PieceKind) -> bool {
    k == PieceKind::Horse || k == PieceKind::Chariot || k == PieceKind::Cannon
}

/// Whether `k` moves diagonally.
pub open spec fn diagonal_mover(k: PieceKind) -> bool {
    k == PieceKind::Horse || k == PieceKind::Elephant || k == PieceKind::Advisor
}

/// FEN letter of a piece.
pub open spec fn fen_letter(k: PieceKind, c: Color) -> char {
    match (k, c) {
        (PieceKind::King, Color::Red) => 'K',
        (PieceKind::King, Color::Black) => 'k',
        (PieceKind::Advisor, Color::Red) => 'A',
        (PieceKind::Advisor, Color::Black) => 'a',
        (PieceKind::Elephant, Color::Red) => 'B',
        (PieceKind::Elephant, Color::Black) => 'b',
        (PieceKind::Horse, Color::Red) => 'N',
        (PieceKind::Horse, Color::Black) => 'n',
        (PieceKind::Chariot, Color::Red) => 'R',
        (PieceKind::Chariot, Color::Black) => 'r',
        (PieceKind::Cannon, Color::Red) => 'C',
        (PieceKind::Cannon, Color::Black) => 'c',
        (PieceKind::Pawn, Color::Red) => 'P',
        (PieceKind::Pawn, Color::Black) => 'p',
    }
}

/// Piece named by a FEN letter.
pub open spec fn piece_of_fen_letter(ch: char) -> Option<(PieceKind, Color)> {
    if ch == 'K' {
        Some((PieceKind::King, Color::Red))
    } else if ch == 'k' {
        Some((PieceKind::King, Color::Black))
    } else if ch == 'A' {
        Some((PieceKind::Advisor, Color::Red))
    } else if ch == 'a' {
        Some((PieceKind::Advisor, Color::Black))
    } else if ch == 'B' {
        Some((PieceKind::Elephant, Color::Red))
    } else if ch == 'b' {
        Some((PieceKind::Elephant, Color::Black))
    } else if ch == 'N' {
        Some((PieceKind::Horse, Color::Red))
    } else if ch == 'n' {
        Some((PieceKind::Horse, Color::Black))
    } else if ch == 'R' {
        Some((PieceKind::Chariot, Color::Red))
    } else if ch == 'r' {
        Some((PieceKind::Chariot, Color::Black))
    } else if ch == 'C' {
        Some((PieceKind::Cannon, Color::Red))
    } else if ch == 'c' {
        Some((PieceKind::Cannon, Color::Black))
    } else if ch == 'P' {
        Some((PieceKind::Pawn, Color::Red))
    } else if ch == 'p' {
        Some((PieceKind::Pawn, Color::Black))
    } else {
        None
    }
}

/// Chinese glyph of a piece.
pub open spec fn glyph_of(k: PieceKind, c: Color) -> char {
    match (k, c) {
        (PieceKind::King, Color::Red) => '帅',
        (PieceKind::King, Color::Black) => '将',
        (PieceKind::Advisor, Color::Red) => '仕',
        (PieceKind::Advisor, Color::Black) => '士',
        (PieceKind::Elephant, Color::Red) => '相',
        (PieceKind::Elephant, Color::Black) => '象',
        (PieceKind::Horse, _) => '马',
        (PieceKind::Chariot, _) => '车',
        (PieceKind::Cannon, _) => '炮',
        (PieceKind::Pawn, Color::Red) => '兵',
        (PieceKind::Pawn, Color::Black) => '卒',
    }
}

/// Piece named by a Chinese glyph (horse, chariot and cannon report red).
pub open spec fn piece_of_glyph(ch: char) -> Option<(PieceKind, Color)> {
    if ch == '帅' || ch == '帥' {
        Some((PieceKind::King, Color::Red))
    } else if ch == '将' || ch == '將' {
        Some((PieceKind::King, Color::Black))
    } else if ch == '仕' {
        Some((PieceKind::Advisor, Color::Red))
    } else if ch == '士' {
        Some((PieceKind::Advisor, Color::Black))
    } else if ch == '相' {
        Some((PieceKind::Elephant, Color::Red))
    } else if ch == '象' {
        Some((PieceKind::Elephant, Color::Black))
    } else if ch == '马' || ch == '馬' {
        Some((PieceKind::Horse, Color::Red))
    } else if ch == '车' || ch == '車' {
        Some((PieceKind::Chariot, Color::Red))
    } else if ch == '炮' || ch == '砲' {
        Some((PieceKind::Cannon, Color::Red))
    } else if ch == '兵' {
        Some((PieceKind::Pawn, Color::Red))
    } else if ch == '卒' {
        Some((PieceKind::Pawn, Color::Black))
    } else {
        None
    }
}

/// Square code of a piece of `color` and `kind`.
pub fn encode(color: Color, kind: PieceKind) -> (r: u8)
    ensures
        r == piece_code(color, kind),
{
    let code: u8 = match kind {
        PieceKind::King => 1,
        PieceKind::Advisor => 2,
        PieceKind::Elephant => 3,
        PieceKind::Horse => 4,
        PieceKind::Chariot => 5,
        PieceKind::Cannon => 6,
        PieceKind::Pawn => 7,
    };
    code + color.bit()
}

/// Whether a square code is empty.
pub fn is_empty(piece: u8) -> (r: bool)
    ensures
        r == (piece == 0),
{
    piece == EMPTY
}

/// Colour of a square code; `None` for an empty square.
pub fn color_of(piece: u8) -> (r: Option<Color>)
    ensures
        r == color_of_code(piece),
{
    if piece == EMPTY {
        None
    } else if (piece / 8) % 2 == 1 {
        Some(Color::Black)
    } else {
        Some(Color::Red)
    }
}

/// Kind of a square code; `None` for an empty square.
pub fn kind_of(piece: u8) -> (r: Option<PieceKind>)
    ensures
        r == kind_of_code(piece),
{
    PieceKind::from_code(piece)
}

/// Zobrist table row of a non-empty valid code: red 0..7, black 7..14.
pub fn zobrist_index(piece: u8) -> (r: usize)
    requires
        valid_code(piece),
        piece != 0,
    ensures
        r == zobrist_row(piece),
        r < 14,
{
    ((piece % 8) - 1) as usize + ((piece / 8) as usize) * 7
}

} // verus!
