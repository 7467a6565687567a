//! FEN text: `<board> <side> - - <halfmove clock> <fullmove number>`.
//!
//! The board lists ranks from `row 9` (Black's back rank) down to `row 0`,
//! separated by `/`; a digit stands for that many empty points. Upper-case
//! letters are red pieces, lower-case black ones. Only the first two fields
//! are required: the clock defaults to 0 and the move number to 1.
use vstd::prelude::*;

pub mod roundtrip;

use crate::color::{Color, side_of_fen_char, side_zh};
use crate::piece::{EMPTY, PieceKind, color_of, color_of_code, fen_letter, kind_of, kind_of_code, piece_code, piece_of_fen_letter, valid_code};
use crate::position::{Position, PositionError, Snap, kings_of, snap_hash};
use crate::square::{in_palace_spec, col, row, sq};
use crate::text::{
    all_digits, chars_of, decimal, digit_value, fields, is_digit, parse_u16, push_char,
    owned, push_decimal, push_number, push_str, split_at_char, split_fields, split_on, string_of, texts, u16_of,
};

verus! {

/// FEN of the standard initial position.
pub const STARTPOS_FEN: &'static str = "rnbakabnr/9/1c5c1/p1p1p1p1p/9/9/P1P1P1P1P/1C5C1/9/RNBAKABNR w - - 0 1";

/// Why a FEN text was refused.
#[derive(Debug, Clone, PartialEq, Eq)]
pub enum FenError {
    /// Fewer than two fields (board and side to move are required).
    TooFewFields(usize),
    /// The board does not have ten ranks.
    RowCount(usize),
    /// A rank does not describe exactly nine points.
    RowWidth { row: u8, width: usize },
    /// A character that is neither a digit nor a piece letter.
    BadChar { ch: char, row: u8 },
    /// An empty-run digit outside `1..=9`.
    BadGapDigit { ch: char, row: u8 },
    /// The side-to-move field is not recognised.
    BadSideToMove(String),
    /// The halfmove clock or move number is not a number in range.
    BadNumber(String),
    /// The board is not a position (a king missing or doubled).
    BadPosition(PositionError),
    /// A king stands outside its palace.
    KingOutsidePalace(Color),
}

impl FenError {
    /// The message shown for this error.
    pub open spec fn text(self) -> Seq<char> {
        match self {
            FenError::TooFewFields(n) => "FEN 字段数不足（"@ + decimal(n as nat) + " 个，至少需要 2 个）"@,
            FenError::RowCount(n) => "FEN 棋盘段数应为 10，实际 "@ + decimal(n as nat),
            FenError::RowWidth { row, width } => "FEN 第 "@ + decimal(row as nat) + " 行宽度应为 9，实际 "@
                + decimal(width as nat),
            FenError::BadChar { ch, row } => "FEN 第 "@ + decimal(row as nat) + " 行出现非法字符 '"@
                + seq![ch] + "'"@,
            FenError::BadGapDigit { ch, row } => "FEN 第 "@ + decimal(row as nat) + " 行的空格数字 '"@
                + seq![ch] + "' 非法（应为 1..=9）"@,
            FenError::BadSideToMove(t) => "FEN 走子方字段非法: '"@ + t@ + "'"@,
            FenError::BadNumber(t) => "FEN 元信息字段不是合法整数: '"@ + t@ + "'"@,
            FenError::BadPosition(e) => "FEN 描述的局面非法: "@ + e.text(),
            FenError::KingOutsidePalace(c) => side_zh(c) + "方将帅不在九宫内"@,
        }
    }

    /// The message shown for this error, such as `FEN 棋盘段数应为 10，实际 9`.
    pub fn message(&self) -> (r: String)
        ensures
            r@ == self.text(),
    {
        match self {
            FenError::TooFewFields(n) => {
                let mut s = owned("FEN 字段数不足（");
                push_number(&mut s, *n as u64);
                push_str(&mut s, " 个，至少需要 2 个）");
                s
            },
            FenError::RowCount(n) => {
                let mut s = owned("FEN 棋盘段数应为 10，实际 ");
                push_number(&mut s, *n as u64);
                s
            },
            FenError::RowWidth { row, width } => {
                let mut s = owned("FEN 第 ");
                push_number(&mut s, *row as u64);
                push_str(&mut s, " 行宽度应为 9，实际 ");
                push_number(&mut s, *width as u64);
                s
            },
            FenError::BadChar { ch, row } => {
                let mut s = owned("FEN 第 ");
                push_number(&mut s, *row as u64);
                push_str(&mut s, " 行出现非法字符 '");
                push_char(&mut s, *ch);
                push_str(&mut s, "'");
                s
            },
            FenError::BadGapDigit { ch, row } => {
                let mut s = owned("FEN 第 ");
                push_number(&mut s, *row as u64);
                push_str(&mut s, " 行的空格数字 '");
                push_char(&mut s, *ch);
                push_str(&mut s, "' 非法（应为 1..=9）");
                s
            },
            FenError::BadSideToMove(t) => {
                let mut s = owned("FEN 走子方字段非法: '");
                push_str(&mut s, t.as_str());
                push_str(&mut s, "'");
                s
            },
            FenError::BadNumber(t) => {
                let mut s = owned("FEN 元信息字段不是合法整数: '");
                push_str(&mut s, t.as_str());
                push_str(&mut s, "'");
                s
            },
            FenError::BadPosition(e) => {
                let mut s = owned("FEN 描述的局面非法: ");
                push_str(&mut s, e.message().as_str());
                s
            },
            FenError::KingOutsidePalace(c) => {
                let mut s = owned(c.name_zh());
                push_str(&mut s, "方将帅不在九宫内");
                s
            },
        }
    }
}

/// A board with every point empty.
pub open spec fn empty_board() -> Seq<u8> {
    Seq::new(90, |i: int| 0u8)
}

/// Expected outcome of parsing one rank: the board with that rank filled
/// in, or the error. `j` is the next character, `c` the next file.
pub open spec fn parse_rank(seg: Seq<char>, r: int, j: int, c: int, b: Seq<u8>) -> Result<
    Seq<u8>,
    FenError,
>
    decreases seg.len() - j,
{
    if j >= seg.len() {
        if c != 9 {
            Err(FenError::RowWidth { row: r as u8, width: c as usize })
        } else {
            Ok(b)
        }
    } else {
        let ch = seg[j];
        if is_digit(ch) {
            let d = digit_value(ch);
            if d == 0 {
                Err(FenError::BadGapDigit { ch, row: r as u8 })
            } else if c + d > 9 {
                Err(FenError::RowWidth { row: r as u8, width: (c + d) as usize })
            } else {
                parse_rank(seg, r, j + 1, c + d, b)
            }
        } else {
            match piece_of_fen_letter(ch) {
                None => Err(FenError::BadChar { ch, row: r as u8 }),
                Some((k, color)) => if c >= 9 {
                    Err(FenError::RowWidth { row: r as u8, width: (c + 1) as usize })
                } else {
                    parse_rank(seg, r, j + 1, c + 1, b.update(sq(c, r), piece_code(color, k)))
                },
            }
        }
    }
}

/// Expected outcome of parsing ranks `i..10` (rank `i` of the text is board
/// row `9 - i`) onto `b`.
pub open spec fn parse_ranks(rows: Seq<Seq<char>>, i: int, b: Seq<u8>) -> Result<Seq<u8>, FenError>
    decreases 10 - i,
{
    if i >= 10 {
        Ok(b)
    } else {
        match parse_rank(rows[i], 9 - i, 0, 0, b) {
            Ok(b2) => parse_ranks(rows, i + 1, b2),
            Err(e) => Err(e),
        }
    }
}

/// Outcome of reading the fields of a FEN text, before the kings are
/// checked: the board, side, clock and move number, or the error together
/// with the text that a string-carrying error quotes.
pub open spec fn fen_fields(s: Seq<char>) -> Result<(Seq<u8>, Color, u16, u16), (FenError, Seq<char>)> {
    let fs = fields(s);
    if fs.len() < 2 {
        Err((FenError::TooFewFields(fs.len() as usize), Seq::empty()))
    } else {
        let side = if fs[1].len() > 0 {
            side_of_fen_char(fs[1][0])
        } else {
            None
        };
        let hm = if fs.len() > 4 {
            u16_of(fs[4])
        } else {
            Some(0u16)
        };
        let fm = if fs.len() > 5 {
            u16_of(fs[5])
        } else {
            Some(1u16)
        };
        let rows = split_on(fs[0], '/');
        if side is None {
            Err((FenError::BadSideToMove(arbitrary()), fs[1]))
        } else if hm is None {
            Err((FenError::BadNumber(arbitrary()), fs[4]))
        } else if fm is None {
            Err((FenError::BadNumber(arbitrary()), fs[5]))
        } else if rows.len() != 10 {
            Err((FenError::RowCount(rows.len() as usize), Seq::empty()))
        } else {
            match parse_ranks(rows, 0, empty_board()) {
                Ok(b) => Ok((b, side.unwrap(), hm.unwrap(), fm.unwrap())),
                Err(e) => Err((e, Seq::empty())),
            }
        }
    }
}

/// Whether a returned error is the expected one; errors that quote a field
/// quote exactly that field.
pub open spec fn error_matches(e: FenError, expected: (FenError, Seq<char>)) -> bool {
    match e {
        FenError::BadSideToMove(x) => expected.0 is BadSideToMove && x@ == expected.1,
        FenError::BadNumber(x) => expected.0 is BadNumber && x@ == expected.1,
        _ => e == expected.0,
    }
}

/// What [`from_fen`] returns for the text `s`.
pub open spec fn fen_outcome_ok(s: Seq<char>, r: Result<Position, FenError>) -> bool {
    match fen_fields(s) {
        Err(e) => r matches Err(x) && error_matches(x, e),
        Ok((b, side, hm, fm)) => match kings_of(b) {
            Err(pe) => r matches Err(x) && x == FenError::BadPosition(pe),
            Ok((rk, bk)) => if !in_palace_spec(Color::Red, col(rk), row(rk)) {
                r matches Err(x) && x == FenError::KingOutsidePalace(Color::Red)
            } else if !in_palace_spec(Color::Black, col(bk), row(bk)) {
                r matches Err(x) && x == FenError::KingOutsidePalace(Color::Black)
            } else {
                r matches Ok(p) && p.wf() && p.snap() == (b, side, hm, fm, rk as u8, bk as u8)
                    && p.stack().len() == 0 && p.history_seq() == seq![p.hash_val()]
            },
        },
    }
}

/// What reading the FEN text `s` gives: the state it describes, or the
/// message of the error that refuses it.
pub open spec fn fen_reading(s: Seq<char>) -> Result<Snap, Seq<char>> {
    match fen_fields(s) {
        Err((e, t)) => Err(
            match e {
                FenError::BadSideToMove(_) => "FEN 走子方字段非法: '"@ + t + "'"@,
                FenError::BadNumber(_) => "FEN 元信息字段不是合法整数: '"@ + t + "'"@,
                _ => e.text(),
            },
        ),
        Ok((b, side, hm, fm)) => match kings_of(b) {
            Err(pe) => Err(FenError::BadPosition(pe).text()),
            Ok((rk, bk)) => if !in_palace_spec(Color::Red, col(rk), row(rk)) {
                Err(FenError::KingOutsidePalace(Color::Red).text())
            } else if !in_palace_spec(Color::Black, col(bk), row(bk)) {
                Err(FenError::KingOutsidePalace(Color::Black).text())
            } else {
                Ok((b, side, hm, fm, rk as u8, bk as u8))
            },
        },
    }
}

/// Parsing a rank writes only valid codes.
proof fn lemma_parse_rank_valid(seg: Seq<char>, r: int, j: int, c: int, b: Seq<u8>)
    requires
        b.len() == 90,
        0 <= r < 10,
        0 <= c,
        forall|i: int| 0 <= i < 90 ==> valid_code(#[trigger] b[i]),
    ensures
        parse_rank(seg, r, j, c, b) matches Ok(b2) ==> b2.len() == 90 && forall|i: int|
            0 <= i < 90 ==> valid_code(#[trigger] b2[i]),
    decreases seg.len() - j,
{
    if j < seg.len() {
        let ch = seg[j];
        if is_digit(ch) {
            lemma_parse_rank_valid(seg, r, j + 1, c + digit_value(ch), b);
        } else if let Some((k, color)) = piece_of_fen_letter(ch) {
            if c < 9 {
                crate::piece::lemma_code_roundtrip(color, k);
                let b2 = b.update(sq(c, r), piece_code(color, k));
                assert forall|i: int| 0 <= i < 90 implies valid_code(#[trigger] b2[i]) by {}
                lemma_parse_rank_valid(seg, r, j + 1, c + 1, b2);
            }
        }
    }
}

/// Rank errors never quote a field.
proof fn lemma_parse_rank_errs(seg: Seq<char>, r: int, j: int, c: int, b: Seq<u8>)
    ensures
        parse_rank(seg, r, j, c, b) matches Err(e) ==> !(e is BadSideToMove) && !(e is BadNumber),
    decreases seg.len() - j,
{
    if j < seg.len() {
        let ch = seg[j];
        if is_digit(ch) {
            lemma_parse_rank_errs(seg, r, j + 1, c + digit_value(ch), b);
        } else if let Some((k, color)) = piece_of_fen_letter(ch) {
            if c < 9 {
                lemma_parse_rank_errs(seg, r, j + 1, c + 1, b.update(sq(c, r), piece_code(color, k)));
            }
        }
    }
}

/// Parsing ranks writes only valid codes.
proof fn lemma_parse_ranks_valid(rows: Seq<Seq<char>>, i: int, b: Seq<u8>)
    requires
        b.len() == 90,
        0 <= i,
        forall|k: int| 0 <= k < 90 ==> valid_code(#[trigger] b[k]),
    ensures
        parse_ranks(rows, i, b) matches Ok(b2) ==> b2.len() == 90 && forall|k: int|
            0 <= k < 90 ==> valid_code(#[trigger] b2[k]),
    decreases 10 - i,
{
    if i < 10 {
        lemma_parse_rank_valid(rows[i], 9 - i, 0, 0, b);
        if let Ok(b2) = parse_rank(rows[i], 9 - i, 0, 0, b) {
            lemma_parse_ranks_valid(rows, i + 1, b2);
        }
    }
}

/// Fills one rank of `squares` from its FEN text.
fn parse_rank_into(seg: &Vec<char>, r: u8, start: [u8; 90]) -> (res: Result<[u8; 90], FenError>)
    requires
        r < 10,
    ensures
        match parse_rank(seg@, r as int, 0, 0, start@) {
            Ok(b) => res matches Ok(s2) && s2@ == b,
            Err(e) => res == Err::<[u8; 90], FenError>(e),
        },
{
    let mut squares = start;
    let ghost goal = parse_rank(seg@, r as int, 0, 0, start@);
    let mut c: u8 = 0;
    let mut j: usize = 0;
    while j < seg.len()
        invariant
            r < 10,
            j <= seg.len(),
            c <= 9,
            goal == parse_rank(seg@, r as int, 0, 0, start@),
            goal == parse_rank(seg@, r as int, j as int, c as int, squares@),
        decreases seg.len() - j,
    {
        let ch = seg[j];
        let digit = crate::text::digit_of(ch);
        if let Some(d) = digit {
            if d == 0 {
                return Err(FenError::BadGapDigit { ch, row: r });
            }
            let nc = c + d;
            if nc > 9 {
                return Err(FenError::RowWidth { row: r, width: nc as usize });
            }
            c = nc;
        } else {
            match PieceKind::from_fen_char(ch) {
                None => {
                    return Err(FenError::BadChar { ch, row: r });
                },
                Some((kind, color)) => {
                    if c >= 9 {
                        return Err(FenError::RowWidth { row: r, width: c as usize + 1 });
                    }
                    let idx = crate::square::index(c, r);
                    squares[idx as usize] = crate::piece::encode(color, kind);
                    c += 1;
                },
            }
        }
        j += 1;
    }
    if c != 9 {
        return Err(FenError::RowWidth { row: r, width: c as usize });
    }
    Ok(squares)
}

/// Reads the fields of a FEN text into a board, side, clock and move number.
#[verifier::loop_isolation(false)]
fn read_fields(fen: &str) -> (r: Result<([u8; 90], Color, u16, u16), FenError>)
    ensures
        match fen_fields(fen@) {
            Ok((b, side, hm, fm)) => r matches Ok(t) && t.0@ == b && t.1 == side && t.2 == hm
                && t.3 == fm,
            Err(e) => r matches Err(x) && error_matches(x, e),
        },
{
    let cs = chars_of(fen);
    let fs = split_fields(&cs);
    if fs.len() < 2 {
        return Err(FenError::TooFewFields(fs.len()));
    }
    proof {
        assert(texts(fs@)[1] == fs@[1]@);
        assert(texts(fs@)[0] == fs@[0]@);
    }
    let side_field = &fs[1];
    let side_opt = if side_field.len() > 0 {
        Color::from_fen_char(side_field[0])
    } else {
        None
    };
    let side = match side_opt {
        Some(c) => c,
        None => {
            return Err(FenError::BadSideToMove(string_of(side_field)));
        },
    };
    let halfmove_clock: u16 = if fs.len() > 4 {
        proof {
            assert(texts(fs@)[4] == fs@[4]@);
        }
        match parse_u16(&fs[4]) {
            Some(v) => v,
            None => {
                return Err(FenError::BadNumber(string_of(&fs[4])));
            },
        }
    } else {
        0
    };
    let fullmove_number: u16 = if fs.len() > 5 {
        proof {
            assert(texts(fs@)[5] == fs@[5]@);
        }
        match parse_u16(&fs[5]) {
            Some(v) => v,
            None => {
                return Err(FenError::BadNumber(string_of(&fs[5])));
            },
        }
    } else {
        1
    };
    let rows = split_at_char(&fs[0], '/');
    if rows.len() != 10 {
        return Err(FenError::RowCount(rows.len()));
    }
    let mut squares: [u8; 90] = [EMPTY; 90];
    let ghost rows_v = texts(rows@);
    proof {
        assert(squares@ =~= empty_board());
    }
    let ghost start = squares@;
    let mut i: usize = 0;
    while i < 10
        invariant
            i <= 10,
            rows@.len() == 10,
            rows_v == texts(rows@),
            parse_ranks(rows_v, 0, start) == parse_ranks(rows_v, i as int, squares@),
        decreases 10 - i,
    {
        assert(rows_v[i as int] == rows@[i as int]@);
        match parse_rank_into(&rows[i], (9 - i) as u8, squares) {
            Ok(s2) => {
                squares = s2;
            },
            Err(e) => {
                proof {
                    lemma_parse_rank_errs(rows_v[i as int], 9 - i, 0, 0, squares@);
                }
                return Err(e);
            },
        }
        i += 1;
    }
    Ok((squares, side, halfmove_clock, fullmove_number))
}

/// Parses a FEN text.
pub fn from_fen(fen: &str) -> (r: Result<Position, FenError>)
    ensures
        fen_outcome_ok(fen@, r),
{
    let (squares, side, halfmove_clock, fullmove_number) = match read_fields(fen) {
        Ok(t) => t,
        Err(e) => {
            return Err(e);
        },
    };
    proof {
        lemma_parse_ranks_valid(split_on(fields(fen@)[0], '/'), 0, empty_board());
        crate::position::lemma_kings_found(squares@);
    }
    let pos = match Position::from_squares(squares, side, halfmove_clock, fullmove_number) {
        Ok(p) => p,
        Err(e) => {
            return Err(FenError::BadPosition(e));
        },
    };
    if !pos.king_in_palace(Color::Red) {
        return Err(FenError::KingOutsidePalace(Color::Red));
    }
    if !pos.king_in_palace(Color::Black) {
        return Err(FenError::KingOutsidePalace(Color::Black));
    }
    Ok(pos)
}

/// FEN text of files `c..9` of row `r`, with `gap` empty points pending.
pub open spec fn rank_text(b: Seq<u8>, r: int, c: int, gap: int) -> Seq<char>
    decreases 9 - c,
{
    let pending = if gap > 0 {
        seq![(gap + 48) as char]
    } else {
        Seq::empty()
    };
    if c >= 9 {
        pending
    } else if b[sq(c, r)] == 0 {
        rank_text(b, r, c + 1, gap + 1)
    } else {
        pending + seq![
            fen_letter(kind_of_code(b[sq(c, r)]).unwrap(), color_of_code(b[sq(c, r)]).unwrap()),
        ] + rank_text(b, r, c + 1, 0)
    }
}

/// FEN board text of text ranks `i..10` (text rank `i` is row `9 - i`).
pub open spec fn board_text(b: Seq<u8>, i: int) -> Seq<char>
    decreases 10 - i,
{
    if i >= 10 {
        Seq::empty()
    } else {
        rank_text(b, 9 - i, 0, 0) + (if i + 1 < 10 {
            seq!['/']
        } else {
            Seq::empty()
        }) + board_text(b, i + 1)
    }
}

/// FEN text of a state.
pub open spec fn fen_text(s: Snap) -> Seq<char> {
    board_text(s.0, 0) + seq![' ', if s.1 == Color::Red {
        'w'
    } else {
        'b'
    }, ' ', '-', ' ', '-', ' '] + decimal(s.2 as nat) + seq![' '] + decimal(s.3 as nat)
}

/// Appends the FEN text of row `r`.
fn push_rank(s: &mut String, pos: &Position, r: u8)
    requires
        pos.wf(),
        r < 10,
    ensures
        final(s)@ == old(s)@ + rank_text(pos.board(), r as int, 0, 0),
{
    let ghost goal = old(s)@ + rank_text(pos.board(), r as int, 0, 0);
    let mut gap: u8 = 0;
    let mut c: u8 = 0;
    proof {
        assert(s@ + rank_text(pos.board(), r as int, 0, 0) =~= goal);
    }
    while c < 9
        invariant
            pos.wf(),
            r < 10,
            c <= 9,
            gap <= c,
            goal == s@ + rank_text(pos.board(), r as int, c as int, gap as int),
        decreases 9 - c,
    {
        let p = pos.piece_at(crate::square::index(c, r));
        if p == EMPTY {
            gap += 1;
        } else {
            let ghost s0 = s@;
            if gap > 0 {
                push_char(s, (gap + 48) as char);
                gap = 0;
            }
            proof {
                crate::piece::lemma_code_decompose(p);
                assert(valid_code(pos.board()[sq(c as int, r as int)]));
            }
            let k = match kind_of(p) {
                Some(k) => k,
                None => PieceKind::King,
            };
            let col = match color_of(p) {
                Some(x) => x,
                None => Color::Red,
            };
            push_char(s, k.fen_char(col));
            assert(s@ + rank_text(pos.board(), r as int, c as int + 1, 0) =~= goal);
        }
        c += 1;
    }
    if gap > 0 {
        push_char(s, (gap + 48) as char);
    }
    assert(s@ =~= goal);
}

/// FEN text of a position.
pub fn to_fen(pos: &Position) -> (r: String)
    requires
        pos.wf(),
    ensures
        r@ == fen_text(pos.snap()),
{
    let mut s = String::new();
    let mut i: u8 = 0;
    while i < 10
        invariant
            pos.wf(),
            i <= 10,
            board_text(pos.board(), 0) == s@ + board_text(pos.board(), i as int),
        decreases 10 - i,
    {
        let ghost s0 = s@;
        push_rank(&mut s, pos, 9 - i);
        if i + 1 < 10 {
            push_char(&mut s, '/');
        }
        proof {
            assert(s@ + board_text(pos.board(), i as int + 1) =~= s0 + board_text(
                pos.board(),
                i as int,
            ));
        }
        i += 1;
    }
    let ghost b = s@;
    push_char(&mut s, ' ');
    push_char(&mut s, pos.side_to_move().fen_char());
    push_char(&mut s, ' ');
    push_char(&mut s, '-');
    push_char(&mut s, ' ');
    push_char(&mut s, '-');
    push_char(&mut s, ' ');
    push_decimal(&mut s, pos.halfmove_clock());
    push_char(&mut s, ' ');
    push_decimal(&mut s, pos.fullmove_number());
    assert(board_text(pos.board(), 10) =~= Seq::<char>::empty());
    assert(s@ =~= fen_text(pos.snap()));
    s
}

impl Position {
    /// Parses a FEN text.
    pub fn from_fen(fen: &str) -> (r: Result<Position, FenError>)
        ensures
            fen_outcome_ok(fen@, r),
    {
        from_fen(fen)
    }

    /// FEN text of this position.
    pub fn to_fen(&self) -> (r: String)
        requires
            self.wf(),
        ensures
            r@ == fen_text(self.snap()),
    {
        to_fen(self)
    }
}

} // verus!
