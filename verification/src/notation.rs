//! Chinese move notation, such as `炮二平五` or `前车进一`.
//!
//! A move is written as the piece glyph and its file (route number), or a
//! position word (前 / 中 / 后 / an ordinal) and the glyph when several such
//! pieces share a file; then the action (进 advance, 退 retreat, 平 sideways)
//! and a number. After 进/退 the number counts steps for chariot, cannon,
//! pawn and king, and names the target route for horse, elephant and
//! advisor; after 平 it names the target route. Red writes numbers in
//! Chinese numerals, Black in Arabic digits; both are read.
use vstd::prelude::*;

pub mod roundtrip;

use crate::board::holds;
use crate::color::{Color, fwd};
use crate::mv::{Move, MoveList, mv_from, mv_to};
use crate::piece::{
    PieceKind, agnostic_glyph, color_of, color_of_code, diagonal_mover, glyph_of, kind_of,
    kind_of_code, piece_of_glyph,
};
use crate::position::{Position, Snap, legal_list, lemma_filter_take, lemma_legal_move_ok};
use crate::square::{col, iccs_spec, route_spec, row, sq};
use crate::text::{decimal, is_ws, is_ws_char, owned, push_char, push_number, push_str};

verus! {

/// Action of a move in notation.
#[derive(Clone, Copy, PartialEq, Eq, Structural, Debug)]
pub enum Action {
    /// 进: towards the opponent.
    Advance,
    /// 退: towards the own side.
    Retreat,
    /// 平: along the rank.
    Traverse,
}

/// Character of an action.
pub open spec fn action_char(a: Action) -> char {
    match a {
        Action::Advance => '进',
        Action::Retreat => '退',
        Action::Traverse => '平',
    }
}

/// Action named by a character.
pub open spec fn action_of_char(ch: char) -> Option<Action> {
    if ch == '进' {
        Some(Action::Advance)
    } else if ch == '退' {
        Some(Action::Retreat)
    } else if ch == '平' {
        Some(Action::Traverse)
    } else {
        None
    }
}

impl Action {
    /// Character of the action.
    pub fn char(self) -> (r: char)
        ensures
            r == action_char(self),
    {
        match self {
            Action::Advance => '进',
            Action::Retreat => '退',
            Action::Traverse => '平',
        }
    }

    /// Action named by a character.
    pub fn from_char(ch: char) -> (r: Option<Action>)
        ensures
            r == action_of_char(ch),
    {
        if ch == '进' {
            Some(Action::Advance)
        } else if ch == '退' {
            Some(Action::Retreat)
        } else if ch == '平' {
            Some(Action::Traverse)
        } else {
            None
        }
    }
}

/// How the moving piece is named.
#[derive(Clone, Copy, PartialEq, Eq, Structural, Debug)]
pub enum Subject {
    /// By its route number (1..=9).
    Route(u8),
    /// 前: the foremost of several on one file.
    Front,
    /// 后: the hindmost.
    Back,
    /// 中: the middle one of three.
    Middle,
    /// An ordinal (二, 三, ...) among four or more, counted from the front.
    Nth(u8),
}

/// The parts of a move in notation.
#[derive(Clone, Copy, PartialEq, Eq, Structural, Debug)]
pub struct MoveDesc {
    /// Side that moves.
    pub color: Color,
    /// Kind of the moving piece.
    pub kind: PieceKind,
    /// How the piece is named.
    pub subject: Subject,
    /// The action.
    pub action: Action,
    /// Number after the action (steps or target route).
    pub value: u8,
}

/// Why a notation could not be produced or read.
#[derive(Clone, Copy, PartialEq, Eq, Structural, Debug)]
pub enum NotationError {
    /// Empty text.
    Empty,
    /// A character that is not a piece glyph (or the other side's glyph).
    UnknownPieceChar(char),
    /// No piece glyph after a position word.
    MissingPieceChar,
    /// No route number after the glyph.
    MissingRoute,
    /// No action character.
    MissingAction,
    /// An unknown action character.
    UnknownAction(char),
    /// No number after the action.
    MissingValue,
    /// A number outside `1..=9`.
    ValueOutOfRange(u8),
    /// The move's origin holds no piece.
    NoPieceAtFrom,
    /// No legal move matches the text.
    NoMatch,
    /// Several legal moves match the text.
    Ambiguous,
}

impl NotationError {
    /// The message shown for this error.
    pub open spec fn text(self) -> Seq<char> {
        match self {
            NotationError::Empty => "记谱为空"@,
            NotationError::UnknownPieceChar(c) => "无法识别的棋子字: "@ + seq![c],
            NotationError::MissingPieceChar => "缺少棋子字"@,
            NotationError::MissingRoute => "缺少起点路数"@,
            NotationError::MissingAction => "缺少动作字（进/退/平）"@,
            NotationError::UnknownAction(c) => "无法识别的动作字: "@ + seq![c],
            NotationError::MissingValue => "缺少动作后的数字"@,
            NotationError::ValueOutOfRange(n) => "路数或格数超出 1..=9: "@ + decimal(n as nat),
            NotationError::NoPieceAtFrom => "着法起点没有棋子"@,
            NotationError::NoMatch => "当前局面下没有合法着法匹配该记谱"@,
            NotationError::Ambiguous => "该记谱在当前局面下匹配到多个合法着法"@,
        }
    }

    /// The message shown for this error, such as `记谱为空`.
    pub fn message(&self) -> (r: String)
        ensures
            r@ == self.text(),
    {
        match self {
            NotationError::Empty => owned("记谱为空"),
            NotationError::UnknownPieceChar(c) => {
                let mut s = owned("无法识别的棋子字: ");
                push_char(&mut s, *c);
                s
            },
            NotationError::MissingPieceChar => owned("缺少棋子字"),
            NotationError::MissingRoute => owned("缺少起点路数"),
            NotationError::MissingAction => owned("缺少动作字（进/退/平）"),
            NotationError::UnknownAction(c) => {
                let mut s = owned("无法识别的动作字: ");
                push_char(&mut s, *c);
                s
            },
            NotationError::MissingValue => owned("缺少动作后的数字"),
            NotationError::ValueOutOfRange(n) => {
                let mut s = owned("路数或格数超出 1..=9: ");
                push_number(&mut s, *n as u64);
                s
            },
            NotationError::NoPieceAtFrom => owned("着法起点没有棋子"),
            NotationError::NoMatch => owned("当前局面下没有合法着法匹配该记谱"),
            NotationError::Ambiguous => owned("该记谱在当前局面下匹配到多个合法着法"),
        }
    }
}

/// Chinese numeral for `n` in `1..=9`.
pub open spec fn cn_digit(n: int) -> char {
    if n == 1 {
        '一'
    } else if n == 2 {
        '二'
    } else if n == 3 {
        '三'
    } else if n == 4 {
        '四'
    } else if n == 5 {
        '五'
    } else if n == 6 {
        '六'
    } else if n == 7 {
        '七'
    } else if n == 8 {
        '八'
    } else {
        '九'
    }
}

/// Number written in a numeral character, Chinese or Arabic (1..=9).
pub open spec fn numeral_of(ch: char) -> Option<u8> {
    if ch == '一' {
        Some(1u8)
    } else if ch == '二' {
        Some(2u8)
    } else if ch == '三' {
        Some(3u8)
    } else if ch == '四' {
        Some(4u8)
    } else if ch == '五' {
        Some(5u8)
    } else if ch == '六' {
        Some(6u8)
    } else if ch == '七' {
        Some(7u8)
    } else if ch == '八' {
        Some(8u8)
    } else if ch == '九' {
        Some(9u8)
    } else if '1' <= ch <= '9' {
        Some((ch as int - 48) as u8)
    } else {
        None
    }
}

/// Numeral text of `n` for `color`: Chinese for red, Arabic for black.
pub open spec fn numeral_text(color: Color, n: u8) -> Option<Seq<char>> {
    if 1 <= n <= 9 {
        Some(
            match color {
                Color::Red => seq![cn_digit(n as int)],
                Color::Black => seq![(n + 48) as char],
            },
        )
    } else {
        None
    }
}

/// Position word read from a leading character.
pub open spec fn disambig_of(ch: char) -> Option<Subject> {
    if ch == '前' {
        Some(Subject::Front)
    } else if ch == '后' {
        Some(Subject::Back)
    } else if ch == '中' {
        Some(Subject::Middle)
    } else {
        match numeral_of(ch) {
            Some(n) => if n >= 2 {
                Some(Subject::Nth(n))
            } else {
                None
            },
            None => None,
        }
    }
}

/// Points of file `c` in rows `0..n` holding a `color` `kind`, rows ascending.
pub open spec fn column_upto(b: Seq<u8>, c: int, color: Color, kind: PieceKind, n: int) -> Seq<int>
    decreases n,
{
    if n <= 0 {
        Seq::empty()
    } else {
        column_upto(b, c, color, kind, n - 1) + if holds(b, sq(c, n - 1), color, kind) {
            seq![sq(c, n - 1)]
        } else {
            Seq::empty()
        }
    }
}

/// Points of file `c` holding a `color` `kind`, from front to back (red's
/// front is the higher row, black's the lower).
pub open spec fn column_ordered(b: Seq<u8>, c: int, color: Color, kind: PieceKind) -> Seq<int> {
    let v = column_upto(b, c, color, kind, 10);
    if color == Color::Red {
        v.reverse()
    } else {
        v
    }
}

/// Position of the first `x` in `v` from `i` on (`v.len()` if absent).
pub open spec fn first_pos(v: Seq<int>, x: int, i: int) -> int
    decreases v.len() - i,
{
    if i >= v.len() {
        v.len() as int
    } else if v[i] == x {
        i
    } else {
        first_pos(v, x, i + 1)
    }
}

/// Notation parts of move `m` in state `s`.
pub open spec fn desc_of(s: Snap, m: Move) -> Result<MoveDesc, NotationError> {
    let from = mv_from(m);
    let to = mv_to(m);
    let p = s.0[from];
    match (color_of_code(p), kind_of_code(p)) {
        (Some(color), Some(kind)) => {
            let c = col(from);
            let line = column_ordered(s.0, c, color, kind);
            let i = first_pos(line, from, 0);
            let n = line.len();
            if n > 1 && i >= n {
                Err(NotationError::NoPieceAtFrom)
            } else {
                let subject = if n <= 1 {
                    Subject::Route(route_spec(color, c) as u8)
                } else if i == 0 {
                    Subject::Front
                } else if i == n - 1 {
                    Subject::Back
                } else if n == 3 {
                    Subject::Middle
                } else {
                    Subject::Nth((i + 1) as u8)
                };
                let delta = row(to) - row(from);
                let (action, value) = if delta == 0 {
                    (Action::Traverse, route_spec(color, col(to)) as u8)
                } else {
                    (
                        if delta * fwd(color) > 0 {
                            Action::Advance
                        } else {
                            Action::Retreat
                        },
                        if diagonal_mover(kind) {
                            route_spec(color, col(to)) as u8
                        } else if delta < 0 {
                            (-delta) as u8
                        } else {
                            delta as u8
                        },
                    )
                };
                Ok(MoveDesc { color, kind, subject, action, value })
            }
        },
        _ => Err(NotationError::NoPieceAtFrom),
    }
}

/// Text of notation parts, or the number that is out of range.
pub open spec fn render_spec(d: MoveDesc) -> Result<Seq<char>, NotationError> {
    let glyph = glyph_of(d.kind, d.color);
    let head: Result<Seq<char>, NotationError> = match d.subject {
        Subject::Route(r) => match numeral_text(d.color, r) {
            Some(t) => Ok(seq![glyph] + t),
            None => Err(NotationError::ValueOutOfRange(r)),
        },
        Subject::Front => Ok(seq!['前', glyph]),
        Subject::Back => Ok(seq!['后', glyph]),
        Subject::Middle => Ok(seq!['中', glyph]),
        Subject::Nth(n) => match numeral_text(d.color, n) {
            Some(t) => Ok(t + seq![glyph]),
            None => Err(NotationError::ValueOutOfRange(n)),
        },
    };
    match head {
        Err(e) => Err(e),
        Ok(h) => match numeral_text(d.color, d.value) {
            Some(t) => Ok(h + seq![action_char(d.action)] + t),
            None => Err(NotationError::ValueOutOfRange(d.value)),
        },
    }
}

/// The action and number part of a notation starting at `cs[i]`.
pub open spec fn parse_tail(cs: Seq<char>, i: int, side: Color, subject: Subject, kind: PieceKind) -> Result<
    MoveDesc,
    NotationError,
> {
    if cs.len() <= i {
        Err(NotationError::MissingAction)
    } else {
        match action_of_char(cs[i]) {
            None => Err(NotationError::UnknownAction(cs[i])),
            Some(action) => match if cs.len() > i + 1 {
                numeral_of(cs[i + 1])
            } else {
                None
            } {
                None => Err(NotationError::MissingValue),
                Some(value) => Ok(MoveDesc { color: side, kind, subject, action, value }),
            },
        }
    }
}

/// Whether a glyph may be used by `side`: shared glyphs always, own glyphs
/// only by their own side.
pub open spec fn glyph_allowed(kind: PieceKind, glyph_color: Color, side: Color) -> bool {
    agnostic_glyph(kind) || glyph_color == side
}

/// Notation parts read from the characters `cs` (white space removed) for
/// `side` to move.
pub open spec fn parse_spec(cs: Seq<char>, side: Color) -> Result<MoveDesc, NotationError> {
    if cs.len() == 0 {
        Err(NotationError::Empty)
    } else {
        match disambig_of(cs[0]) {
            Some(sub) => if cs.len() < 2 {
                Err(NotationError::MissingPieceChar)
            } else {
                match piece_of_glyph(cs[1]) {
                    None => Err(NotationError::UnknownPieceChar(cs[1])),
                    Some((kind, gc)) => if !glyph_allowed(kind, gc, side) {
                        Err(NotationError::UnknownPieceChar(cs[1]))
                    } else {
                        parse_tail(cs, 2, side, sub, kind)
                    },
                }
            },
            None => match piece_of_glyph(cs[0]) {
                None => Err(NotationError::UnknownPieceChar(cs[0])),
                Some((kind, gc)) => if !glyph_allowed(kind, gc, side) {
                    Err(NotationError::UnknownPieceChar(cs[0]))
                } else {
                    match if cs.len() > 1 {
                        numeral_of(cs[1])
                    } else {
                        None
                    } {
                        None => Err(NotationError::MissingRoute),
                        Some(route) => parse_tail(cs, 2, side, Subject::Route(route), kind),
                    }
                },
            },
        }
    }
}

/// The test that keeps a character: it is not white space.
pub open spec fn not_ws() -> spec_fn(char) -> bool {
    |c: char| !is_ws(c)
}

/// The test that keeps a move whose notation parts are `want`.
pub open spec fn desc_is(s: Snap, want: MoveDesc) -> spec_fn(Move) -> bool {
    |m: Move| desc_of(s, m) == Ok::<MoveDesc, NotationError>(want)
}

/// Outcome of reading notation `text` in state `s`: the one legal move
/// whose notation parts are the ones written.
pub open spec fn from_notation_spec(s: Snap, text: Seq<char>) -> Result<Move, NotationError> {
    match parse_spec(text.filter(not_ws()), s.1) {
        Err(e) => Err(e),
        Ok(want) => {
            let found = legal_list(s).filter(desc_is(s, want));
            if found.len() == 0 {
                Err(NotationError::NoMatch)
            } else if found.len() > 1 {
                Err(NotationError::Ambiguous)
            } else {
                Ok(found[0])
            }
        },
    }
}

/// Chinese notation of a move in state `s`, or its ICCS text where no
/// notation can be written.
pub open spec fn notation_or_iccs(s: Snap, mv: Move) -> Seq<char> {
    match desc_of(s, mv) {
        Ok(d) => match render_spec(d) {
            Ok(t) => t,
            Err(_) => iccs_spec(mv_from(mv)) + iccs_spec(mv_to(mv)),
        },
        Err(_) => iccs_spec(mv_from(mv)) + iccs_spec(mv_to(mv)),
    }
}

/// Chinese numeral character for `n` in `1..=9`.
fn cn_digit_of(n: u8) -> (r: char)
    requires
        1 <= n <= 9,
    ensures
        r == cn_digit(n as int),
{
    match n {
        1 => '一',
        2 => '二',
        3 => '三',
        4 => '四',
        5 => '五',
        6 => '六',
        7 => '七',
        8 => '八',
        _ => '九',
    }
}

/// Appends the numeral of `n` for `color`; refuses numbers outside `1..=9`.
fn push_numeral(s: &mut String, color: Color, n: u8) -> (r: Result<(), NotationError>)
    ensures
        match numeral_text(color, n) {
            Some(t) => r is Ok && final(s)@ == old(s)@ + t,
            None => r == Err::<(), NotationError>(NotationError::ValueOutOfRange(n)),
        },
{
    if n < 1 || n > 9 {
        return Err(NotationError::ValueOutOfRange(n));
    }
    let ch = match color {
        Color::Red => cn_digit_of(n),
        Color::Black => (n + 48) as char,
    };
    push_char(s, ch);
    proof {
        assert(old(s)@.push(ch) =~= old(s)@ + seq![ch]);
    }
    Ok(())
}

/// Number written in a numeral character, Chinese or Arabic.
fn parse_numeral(ch: char) -> (r: Option<u8>)
    ensures
        r == numeral_of(ch),
{
    if ch == '一' {
        Some(1)
    } else if ch == '二' {
        Some(2)
    } else if ch == '三' {
        Some(3)
    } else if ch == '四' {
        Some(4)
    } else if ch == '五' {
        Some(5)
    } else if ch == '六' {
        Some(6)
    } else if ch == '七' {
        Some(7)
    } else if ch == '八' {
        Some(8)
    } else if ch == '九' {
        Some(9)
    } else {
        match crate::text::digit_of(ch) {
            Some(d) => if d >= 1 {
                Some(d)
            } else {
                None
            },
            None => None,
        }
    }
}

/// Position word read from a leading character.
fn parse_disambig(ch: char) -> (r: Option<Subject>)
    ensures
        r == disambig_of(ch),
{
    if ch == '前' {
        Some(Subject::Front)
    } else if ch == '后' {
        Some(Subject::Back)
    } else if ch == '中' {
        Some(Subject::Middle)
    } else {
        match parse_numeral(ch) {
            Some(n) => if n >= 2 {
                Some(Subject::Nth(n))
            } else {
                None
            },
            None => None,
        }
    }
}

/// Reads the action and number starting at `cs[i]`.
fn parse_tail_of(cs: &Vec<char>, i: usize, side: Color, subject: Subject, kind: PieceKind) -> (r:
    Result<MoveDesc, NotationError>)
    requires
        i <= cs.len(),
    ensures
        r == parse_tail(cs@, i as int, side, subject, kind),
{
    if cs.len() <= i {
        return Err(NotationError::MissingAction);
    }
    let action = match Action::from_char(cs[i]) {
        Some(a) => a,
        None => {
            return Err(NotationError::UnknownAction(cs[i]));
        },
    };
    let value = if cs.len() > i + 1 {
        parse_numeral(cs[i + 1])
    } else {
        None
    };
    match value {
        None => Err(NotationError::MissingValue),
        Some(value) => Ok(MoveDesc { color: side, kind, subject, action, value }),
    }
}

/// Reads notation parts from a text, for `side` to move.
pub fn parse_desc(text: &str, side: Color) -> (r: Result<MoveDesc, NotationError>)
    ensures
        r == parse_spec(text@.filter(not_ws()), side),
{
    let all = crate::text::chars_of(text);
    let mut cs: Vec<char> = Vec::new();
    let mut i: usize = 0;
    proof {
        reveal(Seq::filter);
        assert(all@.take(0) =~= Seq::<char>::empty());
    }
    while i < all.len()
        invariant
            i <= all@.len(),
            all@ == text@,
            cs@ == all@.take(i as int).filter(not_ws()),
        decreases all@.len() - i,
    {
        proof {
            lemma_filter_take(all@, not_ws(), i as int);
        }
        if !is_ws_char(all[i]) {
            cs.push(all[i]);
        }
        i += 1;
    }
    assert(all@.take(i as int) =~= all@);
    if cs.len() == 0 {
        return Err(NotationError::Empty);
    }
    match parse_disambig(cs[0]) {
        Some(sub) => {
            if cs.len() < 2 {
                return Err(NotationError::MissingPieceChar);
            }
            let ch = cs[1];
            match PieceKind::from_name_zh(ch) {
                None => Err(NotationError::UnknownPieceChar(ch)),
                Some((kind, gc)) => {
                    if !(kind.is_color_agnostic_glyph() || gc == side) {
                        return Err(NotationError::UnknownPieceChar(ch));
                    }
                    parse_tail_of(&cs, 2, side, sub, kind)
                },
            }
        },
        None => {
            let ch = cs[0];
            match PieceKind::from_name_zh(ch) {
                None => Err(NotationError::UnknownPieceChar(ch)),
                Some((kind, gc)) => {
                    if !(kind.is_color_agnostic_glyph() || gc == side) {
                        return Err(NotationError::UnknownPieceChar(ch));
                    }
                    let route = if cs.len() > 1 {
                        parse_numeral(cs[1])
                    } else {
                        None
                    };
                    match route {
                        None => Err(NotationError::MissingRoute),
                        Some(route) => parse_tail_of(&cs, 2, side, Subject::Route(route), kind),
                    }
                },
            }
        },
    }
}

impl Position {
    /// Points of file `col` holding a `color` `kind`, from front to back.
    fn column_pieces_ordered(&self, col: u8, color: Color, kind: PieceKind) -> (r: Vec<u8>)
        requires
            col < 9,
        ensures
            r@.map_values(|x: u8| x as int) == column_ordered(self.board(), col as int, color, kind),
    {
        let mut v: Vec<u8> = Vec::new();
        let mut row: u8 = 0;
        while row < 10
            invariant
                col < 9,
                row <= 10,
                v@.map_values(|x: u8| x as int) == column_upto(
                    self.board(),
                    col as int,
                    color,
                    kind,
                    row as int,
                ),
            decreases 10 - row,
        {
            let idx = crate::square::index(col, row);
            let ghost before = v@;
            if crate::board::holds_piece(self.piece_at(idx), color, kind) {
                v.push(idx);
            }
            assert(v@.map_values(|x: u8| x as int) =~= column_upto(
                self.board(),
                col as int,
                color,
                kind,
                row as int + 1,
            ));
            row += 1;
        }
        if color == Color::Red {
            let mut w: Vec<u8> = Vec::new();
            let n = v.len();
            let mut k: usize = 0;
            while k < n
                invariant
                    n == v@.len(),
                    k <= n,
                    w@.len() == k,
                    forall|j: int| 0 <= j < k ==> #[trigger] w@[j] == v@[n - 1 - j],
                decreases n - k,
            {
                w.push(v[n - 1 - k]);
                k += 1;
            }
            assert(w@.map_values(|x: u8| x as int) =~= v@.map_values(|x: u8| x as int).reverse());
            w
        } else {
            v
        }
    }

    /// Splits a move into its notation parts. The move need not be legal;
    /// its origin must hold a piece.
    pub fn describe(&self, mv: Move) -> (r: Result<MoveDesc, NotationError>)
        requires
            self.wf(),
            mv_from(mv) < 90,
            mv_to(mv) < 90,
        ensures
            r == desc_of(self.snap(), mv),
    {
        let from = mv.from();
        let to = mv.to();
        let piece = self.piece_at(from);
        let (color, kind) = match (color_of(piece), kind_of(piece)) {
            (Some(c), Some(k)) => (c, k),
            _ => {
                return Err(NotationError::NoPieceAtFrom);
            },
        };
        let col = crate::square::col_of(from);
        let same_line = self.column_pieces_ordered(col, color, kind);
        let ghost line = column_ordered(self.board(), col as int, color, kind);
        let n = same_line.len();
        let mut i: usize = 0;
        while i < n && same_line[i] != from
            invariant
                n == same_line@.len(),
                i <= n,
                same_line@.map_values(|x: u8| x as int) == line,
                first_pos(line, from as int, 0) == first_pos(line, from as int, i as int),
            decreases n - i,
        {
            assert(line[i as int] == same_line@[i as int] as int);
            i += 1;
        }
        proof {
            if i < n {
                assert(line[i as int] == same_line@[i as int] as int);
            }
        }
        if n > 1 && i >= n {
            return Err(NotationError::NoPieceAtFrom);
        }
        let subject = if n <= 1 {
            Subject::Route(crate::square::route_number(color, col))
        } else if i == 0 {
            Subject::Front
        } else if i == n - 1 {
            Subject::Back
        } else if n == 3 {
            Subject::Middle
        } else {
            Subject::Nth((i + 1) as u8)
        };
        let from_row = crate::square::row_of(from);
        let to_row = crate::square::row_of(to);
        let to_col = crate::square::col_of(to);
        let (action, value) = if from_row == to_row {
            (Action::Traverse, crate::square::route_number(color, to_col))
        } else {
            let delta: i8 = to_row as i8 - from_row as i8;
            let forward = match color {
                Color::Red => delta > 0,
                Color::Black => delta < 0,
            };
            let action = if forward {
                Action::Advance
            } else {
                Action::Retreat
            };
            let value: u8 = if kind.moves_diagonally() {
                crate::square::route_number(color, to_col)
            } else if delta < 0 {
                (-delta) as u8
            } else {
                delta as u8
            };
            (action, value)
        };
        Ok(MoveDesc { color, kind, subject, action, value })
    }

    /// Text of notation parts.
    fn render_desc(&self, d: MoveDesc) -> (r: Result<String, NotationError>)
        ensures
            match render_spec(d) {
                Ok(t) => r matches Ok(x) && x@ == t,
                Err(e) => r matches Err(x) && x == e,
            },
    {
        let mut s = String::new();
        let glyph = d.kind.name_zh(d.color);
        match d.subject {
            Subject::Route(route) => {
                push_char(&mut s, glyph);
                match push_numeral(&mut s, d.color, route) {
                    Ok(()) => {},
                    Err(e) => {
                        return Err(e);
                    },
                }
            },
            Subject::Front => {
                push_char(&mut s, '前');
                push_char(&mut s, glyph);
            },
            Subject::Back => {
                push_char(&mut s, '后');
                push_char(&mut s, glyph);
            },
            Subject::Middle => {
                push_char(&mut s, '中');
                push_char(&mut s, glyph);
            },
            Subject::Nth(n) => {
                match push_numeral(&mut s, d.color, n) {
                    Ok(()) => {},
                    Err(e) => {
                        return Err(e);
                    },
                }
                push_char(&mut s, glyph);
            },
        }
        let ghost head = s@;
        push_char(&mut s, d.action.char());
        match push_numeral(&mut s, d.color, d.value) {
            Ok(()) => {},
            Err(e) => {
                return Err(e);
            },
        }
        proof {
            assert(s@ =~= render_spec(d)->Ok_0);
        }
        Ok(s)
    }

    /// Chinese notation of a move whose origin holds a piece.
    pub fn to_chinese_notation(&self, mv: Move) -> (r: Result<String, NotationError>)
        requires
            self.wf(),
            mv_from(mv) < 90,
            mv_to(mv) < 90,
        ensures
            match desc_of(self.snap(), mv) {
                Err(e) => r matches Err(x) && x == e,
                Ok(d) => match render_spec(d) {
                    Ok(t) => r matches Ok(x) && x@ == t,
                    Err(e) => r matches Err(x) && x == e,
                },
            },
    {
        let desc = match self.describe(mv) {
            Ok(d) => d,
            Err(e) => {
                return Err(e);
            },
        };
        self.render_desc(desc)
    }

    /// ICCS text of a move, such as `h2e2`.
    pub fn to_iccs_string(&self, mv: Move) -> (r: String)
        ensures
            r@ == iccs_spec(mv_from(mv)) + iccs_spec(mv_to(mv)),
    {
        mv.to_iccs_text()
    }

    /// The legal move written as `text`.
    #[verifier::spinoff_prover]
    #[verifier::rlimit(40)]
    pub fn from_chinese_notation(&mut self, text: &str) -> (r: Result<Move, NotationError>)
        requires
            old(self).wf(),
        ensures
            *final(self) == *old(self),
            r == from_notation_spec(old(self).snap(), text@),
    {
        let want = match parse_desc(text, self.side_to_move()) {
            Ok(w) => w,
            Err(e) => {
                return Err(e);
            },
        };
        let mut list = MoveList::new();
        self.gen_legal_into(&mut list);
        let ghost s = self.snap();
        let ghost p = desc_is(s, want);
        let n = list.len();
        let mut found: Option<Move> = None;
        let mut ambiguous = false;
        let mut i: usize = 0;
        proof {
            reveal(Seq::filter);
            assert(list@.take(0) =~= Seq::<Move>::empty());
        }
        while i < n && !ambiguous
            invariant
                self.wf(),
                s == self.snap(),
                list@ == legal_list(s),
                n == list@.len(),
                i <= n,
                p == desc_is(s, want),
                ambiguous ==> list@.filter(p).len() > 1,
                !ambiguous ==> list@.take(i as int).filter(p).len() <= 1,
                !ambiguous ==> found == (if list@.take(i as int).filter(p).len() == 0 {
                    None
                } else {
                    Some(list@.take(i as int).filter(p)[0])
                }),
            decreases n - i,
        {
            let mv = list.get(i);
            proof {
                assert(list@[i as int] == mv);
                assert(list@.contains(mv));
                crate::position::law_legal_moves_are_safe(s, mv);
                crate::board::law_pseudo_moves_sound(s.0, s.1, 90);
                crate::board::lemma_sound_capped(s.0, s.1, crate::board::pseudo_moves(s.0, s.1));
                let ps = crate::mv::capped(crate::board::pseudo_moves(s.0, s.1));
                let k = choose|k: int| 0 <= k < ps.len() && ps[k] == mv;
                assert(crate::board::moves_sound(s.0, s.1, ps));
                assert(0 <= mv_from(ps[k]) < 90);
                lemma_filter_take(list@, p, i as int);
            }
            let matches = match self.describe(mv) {
                Ok(d) => d == want,
                Err(_) => false,
            };
            if matches {
                if found.is_some() {
                    proof {
                        let a = list@.take(i as int + 1);
                        let b = list@.skip(i as int + 1);
                        assert(list@ =~= a + b);
                        Seq::filter_distributes_over_add(a, b, p);
                    }
                    ambiguous = true;
                } else {
                    found = Some(mv);
                }
            }
            i += 1;
        }
        if ambiguous {
            return Err(NotationError::Ambiguous);
        }
        assert(list@.take(n as int) =~= list@);
        match found {
            Some(mv) => Ok(mv),
            None => Err(NotationError::NoMatch),
        }
    }
}

/// The points of file `c` in rows `0..n` holding a `color` `kind` are
/// listed once each, on that file, rows strictly ascending.
proof fn lemma_column_upto(b: Seq<u8>, c: int, color: Color, kind: PieceKind, n: int)
    requires
        0 <= c < 9,
        0 <= n <= 10,
    ensures
        forall|i: int|
            0 <= i < column_upto(b, c, color, kind, n).len() ==> {
                let x = #[trigger] column_upto(b, c, color, kind, n)[i];
                &&& 0 <= x < 90
                &&& col(x) == c
                &&& 0 <= row(x) < n
                &&& holds(b, x, color, kind)
            },
        forall|i: int, j: int|
            0 <= i < j < column_upto(b, c, color, kind, n).len() ==> row(
                #[trigger] column_upto(b, c, color, kind, n)[i],
            ) < row(#[trigger] column_upto(b, c, color, kind, n)[j]),
        forall|r: int|
            0 <= r < n && #[trigger] holds(b, sq(c, r), color, kind) ==> column_upto(b, c, color, kind, n).contains(
                sq(c, r),
            ),
    decreases n,
{
    if n > 0 {
        lemma_column_upto(b, c, color, kind, n - 1);
        crate::square::lemma_sq_components(c, n - 1);
        let v0 = column_upto(b, c, color, kind, n - 1);
        let v = column_upto(b, c, color, kind, n);
        assert forall|i: int| 0 <= i < v0.len() implies #[trigger] v[i] == v0[i] by {}
        assert forall|r: int| 0 <= r < n && #[trigger] holds(b, sq(c, r), color, kind) implies v.contains(sq(c, r)) by {
            if r < n - 1 {
                let k = choose|k: int| 0 <= k < v0.len() && v0[k] == sq(c, r);
                assert(v[k] == sq(c, r));
            } else {
                assert(v[v0.len() as int] == sq(c, r));
            }
        }
    }
}

/// The pieces of one kind and colour on a file, front to back: every one of
/// them once, the front one nearest the opponent (the highest row for Red,
/// the lowest for Black), rows strictly moving away from the opponent.
pub proof fn law_column_front_to_back(b: Seq<u8>, c: int, color: Color, kind: PieceKind)
    requires
        0 <= c < 9,
    ensures
        forall|i: int|
            0 <= i < column_ordered(b, c, color, kind).len() ==> {
                let x = #[trigger] column_ordered(b, c, color, kind)[i];
                &&& 0 <= x < 90
                &&& col(x) == c
                &&& holds(b, x, color, kind)
            },
        forall|x: int|
            0 <= x < 90 && col(x) == c && #[trigger] holds(b, x, color, kind) ==> column_ordered(
                b,
                c,
                color,
                kind,
            ).contains(x),
        forall|i: int, j: int|
            0 <= i < j < column_ordered(b, c, color, kind).len() ==> (if color == Color::Red {
                row(#[trigger] column_ordered(b, c, color, kind)[i]) > row(
                    #[trigger] column_ordered(b, c, color, kind)[j],
                )
            } else {
                row(column_ordered(b, c, color, kind)[i]) < row(column_ordered(b, c, color, kind)[j])
            }),
{
    lemma_column_upto(b, c, color, kind, 10);
    let v = column_upto(b, c, color, kind, 10);
    let line = column_ordered(b, c, color, kind);
    assert forall|x: int| 0 <= x < 90 && col(x) == c && #[trigger] holds(b, x, color, kind) implies line.contains(x) by {
        crate::square::lemma_index_decompose(x);
        assert(holds(b, sq(c, row(x)), color, kind));
        assert(v.contains(x));
        let k = choose|k: int| 0 <= k < v.len() && v[k] == x;
        if color == Color::Red {
            assert(line[v.len() - 1 - k] == x);
        }
    }
    if color == Color::Red {
        assert forall|i: int| 0 <= i < line.len() implies #[trigger] line[i] == v[v.len() - 1 - i] by {}
    }
}

/// Where a file holds two or more pieces of the moving piece's kind and
/// colour, the notation names the moving piece 前 (front) exactly when it is
/// nearer the opponent than every other one (a higher row for Red, a lower
/// one for Black) and 后 (back) exactly when it is farther than every other.
pub proof fn law_front_piece_is_nearest_the_opponent(s: Snap, m: Move, other: int)
    requires
        mv_from(m) < 90,
        color_of_code(s.0[mv_from(m) as int]) is Some,
        kind_of_code(s.0[mv_from(m) as int]) is Some,
        0 <= other < 90,
        other != mv_from(m),
        col(other) == col(mv_from(m) as int),
        holds(
            s.0,
            other,
            color_of_code(s.0[mv_from(m) as int])->0,
            kind_of_code(s.0[mv_from(m) as int])->0,
        ),
    ensures
        ({
            let from = mv_from(m) as int;
            let color = color_of_code(s.0[from])->0;
            let kind = kind_of_code(s.0[from])->0;
            let nearer = |x: int| if color == Color::Red {
                row(from) > row(x)
            } else {
                row(from) < row(x)
            };
            let farther = |x: int| if color == Color::Red {
                row(from) < row(x)
            } else {
                row(from) > row(x)
            };
            &&& desc_of(s, m) is Ok
            &&& (desc_of(s, m)->Ok_0.subject == Subject::Front) == (forall|x: int|
                0 <= x < 90 && x != from && col(x) == col(from) && #[trigger] holds(s.0, x, color, kind)
                    ==> nearer(x))
            &&& (desc_of(s, m)->Ok_0.subject == Subject::Back) == (forall|x: int|
                0 <= x < 90 && x != from && col(x) == col(from) && #[trigger] holds(s.0, x, color, kind)
                    ==> farther(x))
        }),
{
    let from = mv_from(m) as int;
    let color = color_of_code(s.0[from])->0;
    let kind = kind_of_code(s.0[from])->0;
    let c = col(from);
    crate::square::lemma_index_decompose(from);
    law_column_front_to_back(s.0, c, color, kind);
    let line = column_ordered(s.0, c, color, kind);
    assert(holds(s.0, from, color, kind));
    assert(line.contains(from));
    assert(line.contains(other));
    let k = choose|k: int| 0 <= k < line.len() && line[k] == from;
    let ko = choose|k: int| 0 <= k < line.len() && line[k] == other;
    assert(k != ko);
    let n = line.len();
    assert(n >= 2);
    assert forall|j: int| 0 <= j < n && j != k implies #[trigger] line[j] != from by {
        if j < k {
            assert(row(line[j]) != row(line[k]));
        } else {
            assert(row(line[k]) != row(line[j]));
        }
    }
    lemma_first_pos_at(line, from, 0, k);
    let nearer = |x: int| if color == Color::Red {
        row(from) > row(x)
    } else {
        row(from) < row(x)
    };
    let farther = |x: int| if color == Color::Red {
        row(from) < row(x)
    } else {
        row(from) > row(x)
    };
    if k == 0 {
        assert forall|x: int|
            0 <= x < 90 && x != from && col(x) == c && #[trigger] holds(s.0, x, color, kind) implies nearer(x) by {
            assert(line.contains(x));
            let j = choose|j: int| 0 <= j < n && line[j] == x;
            assert(j != 0);
        }
    } else {
        let x = line[0];
        assert(x != from);
        assert(!nearer(x));
    }
    if k == n - 1 {
        assert forall|x: int|
            0 <= x < 90 && x != from && col(x) == c && #[trigger] holds(s.0, x, color, kind) implies farther(x) by {
            assert(line.contains(x));
            let j = choose|j: int| 0 <= j < n && line[j] == x;
            assert(j != n - 1);
        }
    } else {
        let x = line[n - 1];
        assert(x != from);
        assert(!farther(x));
    }
}

/// The first position of `x` from `i` on is `k` when `x` sits at `k` and
/// nowhere between `i` and `k`.
proof fn lemma_first_pos_at(v: Seq<int>, x: int, i: int, k: int)
    requires
        0 <= i <= k < v.len(),
        v[k] == x,
        forall|j: int| i <= j < k ==> v[j] != x,
    ensures
        first_pos(v, x, i) == k,
    decreases k - i,
{
    if i < k {
        lemma_first_pos_at(v, x, i + 1, k);
    }
}

} // verus!
