//! What the front end is sent: the board, the moves on offer, the game
//! status, the moves played and the engine's reports.
//!
//! The front end places pieces by file and rank while the core works with
//! flat indices; the conversion happens here only.
use vstd::prelude::*;

use crate::ai::difficulty::{Difficulty, level_id, level_label};
use crate::ai::search::{MATE_SCORE, MATE_THRESHOLD, SearchResult};
use crate::color::{Color, opp, side_zh};
use crate::mv::{Move, mv_from, mv_to};
use crate::nature::{MoveNature, nature_name, nature_spec};
use crate::notation::notation_or_iccs;
use crate::piece::{PieceKind, color_of_code, glyph_of, kind_of_code};
use crate::position::{Position, Snap};
use crate::rules::{GameStatus, draw_text, insufficient_material};
use crate::session::clock::ClockSnapshot;
use crate::square::{col, iccs_spec, row};
use crate::text::{owned, push_str};

verus! {

/// English word of a side, as the front end names it.
pub open spec fn word_of_color(c: Color) -> Seq<char> {
    if c == Color::Red {
        "red"@
    } else {
        "black"@
    }
}

/// English word of a side: `red` or `black`.
pub fn color_word(color: Color) -> (r: &'static str)
    ensures
        r@ == word_of_color(color),
{
    match color {
        Color::Red => "red",
        Color::Black => "black",
    }
}

/// English word of a piece kind.
pub open spec fn word_of_kind(k: PieceKind) -> Seq<char> {
    match k {
        PieceKind::King => "king"@,
        PieceKind::Advisor => "advisor"@,
        PieceKind::Elephant => "elephant"@,
        PieceKind::Horse => "horse"@,
        PieceKind::Chariot => "chariot"@,
        PieceKind::Cannon => "cannon"@,
        PieceKind::Pawn => "pawn"@,
    }
}

/// English word of a piece kind, such as `chariot`.
pub fn kind_word(kind: PieceKind) -> (r: &'static str)
    ensures
        r@ == word_of_kind(kind),
{
    match kind {
        PieceKind::King => "king",
        PieceKind::Advisor => "advisor",
        PieceKind::Elephant => "elephant",
        PieceKind::Horse => "horse",
        PieceKind::Chariot => "chariot",
        PieceKind::Cannon => "cannon",
        PieceKind::Pawn => "pawn",
    }
}

/// Second part of a sprite name: the kind's word, except that Black's king
/// is the `general`.
pub open spec fn sprite_suffix(c: Color, k: PieceKind) -> Seq<char> {
    if k == PieceKind::King && c == Color::Black {
        "general"@
    } else {
        word_of_kind(k)
    }
}

/// Sprite name of a piece: side word, `_`, then the kind's word.
pub open spec fn sprite_of(c: Color, k: PieceKind) -> Seq<char> {
    word_of_color(c) + "_"@ + sprite_suffix(c, k)
}

/// Stem of the sprite file of a piece, such as `red_king` or
/// `black_general`.
pub fn sprite_name(color: Color, kind: PieceKind) -> (r: String)
    ensures
        r@ == sprite_of(color, kind),
{
    let suffix = match (color, kind) {
        (Color::Red, PieceKind::King) => "king",
        (Color::Black, PieceKind::King) => "general",
        (_, k) => kind_word(k),
    };
    let mut s = owned(color_word(color));
    push_str(&mut s, "_");
    push_str(&mut s, suffix);
    s
}

/// English word of a move nature.
pub open spec fn word_of_nature(n: MoveNature) -> Seq<char> {
    match n {
        MoveNature::Check => "check"@,
        MoveNature::Capture => "capture"@,
        MoveNature::Chase => "chase"@,
        MoveNature::Exchange => "exchange"@,
        MoveNature::Interpose => "interpose"@,
        MoveNature::Escape => "escape"@,
        MoveNature::CaptureAttacker => "capture_attacker"@,
        MoveNature::Idle => "idle"@,
    }
}

/// English word of a move nature, such as `capture_attacker`.
pub fn nature_word(nature: MoveNature) -> (r: &'static str)
    ensures
        r@ == word_of_nature(nature),
{
    match nature {
        MoveNature::Check => "check",
        MoveNature::Capture => "capture",
        MoveNature::Chase => "chase",
        MoveNature::Exchange => "exchange",
        MoveNature::Interpose => "interpose",
        MoveNature::Escape => "escape",
        MoveNature::CaptureAttacker => "capture_attacker",
        MoveNature::Idle => "idle",
    }
}

/// Notation of a move in the position, or its ICCS text where no notation
/// can be written.
pub fn notation_text(pos: &Position, mv: Move) -> (r: String)
    requires
        pos.wf(),
        mv_from(mv) < 90,
        mv_to(mv) < 90,
    ensures
        r@ == notation_or_iccs(pos.snap(), mv),
{
    match pos.to_chinese_notation(mv) {
        Ok(t) => t,
        Err(_) => pos.to_iccs_string(mv),
    }
}

/// Game status as the front end shows it.
#[derive(Debug)]
pub struct StatusDto {
    /// `ongoing`, `check`, `checkmate`, `stalemate`, `draw` or `timeout`.
    pub kind: String,
    /// Text for players.
    pub text: String,
    /// Whether the game has ended.
    pub over: bool,
    /// The losing side's word, after a mate, stalemate or timeout.
    pub loser: Option<String>,
}

/// Kind word of a status.
pub open spec fn status_kind(st: GameStatus) -> Seq<char> {
    match st {
        GameStatus::Ongoing => "ongoing"@,
        GameStatus::Check { .. } => "check"@,
        GameStatus::Checkmate { .. } => "checkmate"@,
        GameStatus::Stalemate { .. } => "stalemate"@,
        GameStatus::Draw { .. } => "draw"@,
    }
}

/// Text of a status on board `b`; a draw by either rule notes when neither
/// side has attacking material left.
pub open spec fn status_text(st: GameStatus, b: Seq<u8>) -> Seq<char> {
    match st {
        GameStatus::Ongoing => "进行中"@,
        GameStatus::Check { side } => side_zh(side) + "方被将军，必须应将"@,
        GameStatus::Checkmate { loser } => "将死！"@ + side_zh(loser) + "方负，"@ + side_zh(opp(loser))
            + "方胜"@,
        GameStatus::Stalemate { loser } => "困毙！"@ + side_zh(loser) + "方无着可走（且未被将军）。中国象棋判困毙方负"@,
        GameStatus::Draw { reason } => "和棋 · "@ + draw_text(reason) + if insufficient_material(b) {
            "（双方均无进攻子力）"@
        } else {
            Seq::empty()
        },
    }
}

/// The side that lost, for a mate or stalemate.
pub open spec fn status_loser(st: GameStatus) -> Option<Color> {
    match st {
        GameStatus::Checkmate { loser } => Some(loser),
        GameStatus::Stalemate { loser } => Some(loser),
        _ => None,
    }
}

/// `w` names side `c` by its word, or is absent when `c` is.
pub open spec fn names_side(w: Option<String>, c: Option<Color>) -> bool {
    match c {
        None => w is None,
        Some(side) => w matches Some(x) && x@ == word_of_color(side),
    }
}

/// `d` shows status `st` of a game on board `b`.
pub open spec fn status_ok(d: StatusDto, st: GameStatus, b: Seq<u8>) -> bool {
    &&& d.kind@ == status_kind(st)
    &&& d.text@ == status_text(st, b)
    &&& d.over == (st is Checkmate || st is Stalemate || st is Draw)
    &&& names_side(d.loser, status_loser(st))
}

/// `d` shows a loss on time of `loser`.
pub open spec fn timeout_ok(d: StatusDto, loser: Color) -> bool {
    &&& d.kind@ == "timeout"@
    &&& d.text@ == side_zh(loser) + "方超时，判负"@
    &&& d.over
    &&& names_side(d.loser, Some(loser))
}

fn side_word(c: Option<Color>) -> (r: Option<String>)
    ensures
        names_side(r, c),
{
    match c {
        None => None,
        Some(side) => Some(owned(color_word(side))),
    }
}

impl StatusDto {
    /// A loss on time. Nothing on the board shows it, so only the session
    /// can report it.
    pub fn timeout(loser: Color) -> (r: StatusDto)
        ensures
            timeout_ok(r, loser),
    {
        let mut text = owned(loser.name_zh());
        push_str(&mut text, "方超时，判负");
        StatusDto { kind: owned("timeout"), text, over: true, loser: side_word(Some(loser)) }
    }

    /// The status shown for `status`, judged in `pos`.
    pub fn from(status: GameStatus, pos: &Position) -> (r: StatusDto)
        ensures
            status_ok(r, status, pos.board()),
    {
        let (kind, text, loser) = match status {
            GameStatus::Ongoing => ("ongoing", owned("进行中"), None),
            GameStatus::Check { side } => {
                let mut t = owned(side.name_zh());
                push_str(&mut t, "方被将军，必须应将");
                ("check", t, None)
            },
            GameStatus::Checkmate { loser } => {
                let mut t = owned("将死！");
                push_str(&mut t, loser.name_zh());
                push_str(&mut t, "方负，");
                push_str(&mut t, loser.opponent().name_zh());
                push_str(&mut t, "方胜");
                ("checkmate", t, Some(loser))
            },
            GameStatus::Stalemate { loser } => {
                let mut t = owned("困毙！");
                push_str(&mut t, loser.name_zh());
                push_str(&mut t, "方无着可走（且未被将军）。中国象棋判困毙方负");
                ("stalemate", t, Some(loser))
            },
            GameStatus::Draw { reason } => {
                let mut t = owned("和棋 · ");
                push_str(&mut t, reason.description());
                if pos.is_insufficient_material() {
                    push_str(&mut t, "（双方均无进攻子力）");
                } else {
                    assert(t@ + Seq::<char>::empty() =~= t@);
                }
                ("draw", t, None)
            },
        };
        StatusDto { kind: owned(kind), text, over: status.is_over(), loser: side_word(loser) }
    }
}

/// A piece on the board.
#[derive(Debug)]
pub struct PieceDto {
    /// ICCS name of its point.
    pub sq: String,
    /// File, 0..=8.
    pub col: u8,
    /// Rank, 0..=9.
    pub row: u8,
    /// Side word.
    pub color: String,
    /// Kind word.
    pub kind: String,
    /// Stem of the sprite file.
    pub sprite: String,
    /// Chinese glyph, for reading aloud and plain text.
    pub glyph: String,
}

/// `d` shows the piece with code `code` standing on point `idx`.
pub open spec fn piece_ok(d: PieceDto, idx: int, code: u8) -> bool {
    &&& d.sq@ == iccs_spec(idx)
    &&& d.col == col(idx)
    &&& d.row == row(idx)
    &&& color_of_code(code) is Some
    &&& kind_of_code(code) is Some
    &&& d.color@ == word_of_color(color_of_code(code).unwrap())
    &&& d.kind@ == word_of_kind(kind_of_code(code).unwrap())
    &&& d.sprite@ == sprite_of(color_of_code(code).unwrap(), kind_of_code(code).unwrap())
    &&& d.glyph@ == seq![glyph_of(kind_of_code(code).unwrap(), color_of_code(code).unwrap())]
}

/// A move on offer in the current position.
#[derive(Debug)]
pub struct MoveOption {
    /// ICCS name of the origin.
    pub from: String,
    /// ICCS name of the target.
    pub to: String,
    /// ICCS text of the move.
    pub iccs: String,
    /// Chinese notation (ICCS text where none can be written).
    pub notation: String,
    /// Whether the move takes a piece.
    pub capture: bool,
}

/// A move that was played.
#[derive(Clone, Debug)]
pub struct PlayedMove {
    /// ICCS name of the origin.
    pub from: String,
    /// ICCS name of the target.
    pub to: String,
    /// ICCS text of the move.
    pub iccs: String,
    /// Chinese notation, written before the move was made.
    pub notation: String,
    /// Whether the move took a piece.
    pub capture: bool,
    /// Nature word, such as `check` or `capture`.
    pub nature: String,
    /// Chinese name of the nature.
    pub nature_text: String,
    /// Word of the side that moved.
    pub side: String,
}

impl PlayedMove {
    /// A copy of the record.
    pub fn duplicate(&self) -> (r: PlayedMove)
        ensures
            r == *self,
    {
        PlayedMove {
            from: self.from.clone(),
            to: self.to.clone(),
            iccs: self.iccs.clone(),
            notation: self.notation.clone(),
            capture: self.capture,
            nature: self.nature.clone(),
            nature_text: self.nature_text.clone(),
            side: self.side.clone(),
        }
    }
}

/// `p` records move `mv` played from state `s`.
pub open spec fn played_ok(p: PlayedMove, s: Snap, mv: Move) -> bool {
    &&& p.from@ == iccs_spec(mv_from(mv))
    &&& p.to@ == iccs_spec(mv_to(mv))
    &&& p.iccs@ == iccs_spec(mv_from(mv)) + iccs_spec(mv_to(mv))
    &&& p.notation@ == notation_or_iccs(s, mv)
    &&& p.capture == (s.0[mv_to(mv)] != 0)
    &&& p.nature@ == word_of_nature(nature_spec(s, mv))
    &&& p.nature_text@ == nature_name(nature_spec(s, mv))
    &&& p.side@ == word_of_color(s.1)
}

/// `o` offers move `mv` in state `s`.
pub open spec fn option_ok(o: MoveOption, s: Snap, mv: Move) -> bool {
    &&& o.from@ == iccs_spec(mv_from(mv))
    &&& o.to@ == iccs_spec(mv_to(mv))
    &&& o.iccs@ == iccs_spec(mv_from(mv)) + iccs_spec(mv_to(mv))
    &&& o.notation@ == notation_or_iccs(s, mv)
    &&& o.capture == (s.0[mv_to(mv)] != 0)
}

/// Full state of the game for the front end.
#[derive(Debug)]
pub struct StateDto {
    /// FEN of the position.
    pub fen: String,
    /// Word of the side to move.
    pub side: String,
    /// Whether the side to move is in check.
    pub in_check: bool,
    /// Game status.
    pub status: StatusDto,
    /// Pieces on the board, by point.
    pub pieces: Vec<PieceDto>,
    /// Legal moves.
    pub legal: Vec<MoveOption>,
    /// The last move played.
    pub last_move: Option<PlayedMove>,
    /// Every move played, in order.
    pub history: Vec<PlayedMove>,
    /// Halfmoves since the last capture.
    pub halfmove_clock: u16,
    /// Fullmove number.
    pub fullmove_number: u16,
    /// The clock; absent in an untimed game.
    pub clock: Option<ClockSnapshot>,
}

/// Answer to a move.
#[derive(Debug)]
pub struct MoveResponse {
    /// Always true.
    pub ok: bool,
    /// The move played.
    pub played: PlayedMove,
    /// The state after it.
    pub state: StateDto,
}

/// What a search reports, shown as what the engine is thinking.
#[derive(Debug)]
pub struct EngineInfo {
    /// Level id, such as `l3`.
    pub level: String,
    /// Level name, such as 中级.
    pub level_label: String,
    /// Depth reached.
    pub depth: u8,
    /// Score in centipawns, from the side to move's point of view.
    pub score: i32,
    /// Nodes searched.
    pub nodes: u64,
    /// Plies to mate, if the score announces one.
    pub mate_in: Option<i32>,
    /// Whether the search ran out of time.
    pub stopped: bool,
    /// Time taken, in milliseconds.
    pub think_ms: u64,
}

/// Plies to the mate that `score` announces: positive when the side to
/// move mates, negative when it is mated.
pub open spec fn mate_in_of(score: i32) -> Option<i32> {
    if score >= MATE_THRESHOLD {
        Some((MATE_SCORE - score) as i32)
    } else if score <= -MATE_THRESHOLD {
        Some((-(MATE_SCORE + score)) as i32)
    } else {
        None
    }
}

/// The report of a search at `level` that took `think_ms` milliseconds.
pub fn engine_info(level: Difficulty, result: &SearchResult, think_ms: u64) -> (r: EngineInfo)
    requires
        result.score > i32::MIN,
    ensures
        r.level@ == level_id(level),
        r.level_label@ == level_label(level),
        r.depth == result.depth,
        r.score == result.score,
        r.nodes == result.nodes,
        r.mate_in == mate_in_of(result.score),
        r.stopped == result.stopped,
        r.think_ms == think_ms,
{
    EngineInfo {
        level: owned(level.id()),
        level_label: owned(level.label()),
        depth: result.depth,
        score: result.score,
        nodes: result.nodes,
        mate_in: result.mate_distance(),
        stopped: result.stopped,
        think_ms,
    }
}

/// The engine's move and its report.
#[derive(Debug)]
pub struct EngineMoveOutcome {
    /// The move played.
    pub played: PlayedMove,
    /// The search report.
    pub info: EngineInfo,
}

/// One suggested move.
#[derive(Debug)]
pub struct HintItem {
    /// ICCS name of the origin.
    pub from: String,
    /// ICCS name of the target.
    pub to: String,
    /// ICCS text of the move.
    pub iccs: String,
    /// Chinese notation (ICCS text where none can be written).
    pub notation: String,
    /// The engine's score of the move.
    pub score: i32,
    /// Whether the move takes a piece.
    pub capture: bool,
}

/// Suggested moves and the search report.
#[derive(Debug)]
pub struct HintOutcome {
    /// Suggestions, best first.
    pub suggestions: Vec<HintItem>,
    /// The search report.
    pub info: EngineInfo,
}

/// How many suggestions a request for `count` gets: between 1 and 10.
pub open spec fn hint_count(count: usize) -> int {
    if count < 1 {
        1
    } else if count > 10 {
        10
    } else {
        count as int
    }
}

/// `h` suggests move `mv`, scored `score`, in state `s`.
pub open spec fn hint_ok(h: HintItem, s: Snap, mv: Move, score: i32) -> bool {
    &&& h.from@ == iccs_spec(mv_from(mv))
    &&& h.to@ == iccs_spec(mv_to(mv))
    &&& h.iccs@ == iccs_spec(mv_from(mv)) + iccs_spec(mv_to(mv))
    &&& h.notation@ == notation_or_iccs(s, mv)
    &&& h.score == score
    &&& h.capture == (s.0[mv_to(mv)] != 0)
}

/// Suggestions from scored root moves, best first: the first `count` of
/// them, at least one and at most ten, each described in `pos`.
pub fn hint_items(pos: &Position, root_moves: &Vec<(Move, i32)>, count: usize) -> (r: Vec<
    HintItem,
>)
    requires
        pos.wf(),
        forall|i: int|
            0 <= i < root_moves@.len() ==> mv_from(#[trigger] root_moves@[i].0) < 90 && mv_to(
                root_moves@[i].0,
            ) < 90,
    ensures
        r@.len() == (if hint_count(count) < root_moves@.len() {
            hint_count(count)
        } else {
            root_moves@.len() as int
        }),
        forall|i: int|
            0 <= i < r@.len() ==> hint_ok(
                #[trigger] r@[i],
                pos.snap(),
                root_moves@[i].0,
                root_moves@[i].1,
            ),
{
    let want: usize = if count < 1 {
        1
    } else if count > 10 {
        10
    } else {
        count
    };
    let n = if want < root_moves.len() {
        want
    } else {
        root_moves.len()
    };
    let mut out: Vec<HintItem> = Vec::new();
    let mut i: usize = 0;
    while i < n
        invariant
            n <= root_moves@.len(),
            i <= n,
            out@.len() == i,
            pos.wf(),
            forall|j: int|
                0 <= j < root_moves@.len() ==> mv_from(#[trigger] root_moves@[j].0) < 90 && mv_to(
                    root_moves@[j].0,
                ) < 90,
            forall|j: int|
                0 <= j < i ==> hint_ok(
                    #[trigger] out@[j],
                    pos.snap(),
                    root_moves@[j].0,
                    root_moves@[j].1,
                ),
        decreases n - i,
    {
        let (mv, score) = root_moves[i];
        let item = HintItem {
            from: crate::square::to_iccs(mv.from()),
            to: crate::square::to_iccs(mv.to()),
            iccs: pos.to_iccs_string(mv),
            notation: notation_text(pos, mv),
            score,
            capture: pos.piece_at(mv.to()) != 0,
        };
        out.push(item);
        i += 1;
    }
    out
}

/// Thinking time for an engine move: the requested time, but with a clock
/// no more than the time left for the move less a 250 ms margin, and never
/// under 50 ms.
pub fn think_budget_ms(think_ms: u64, step_left_ms: Option<i64>) -> (r: u64)
    ensures
        r == (match step_left_ms {
            None => think_ms as int,
            Some(left) => {
                let m = if left - 250 < i64::MIN {
                    i64::MIN as int
                } else {
                    left - 250
                };
                let cap = if m < 50 {
                    50
                } else {
                    m
                };
                if think_ms < cap {
                    think_ms as int
                } else {
                    cap
                }
            },
        }),
{
    match step_left_ms {
        None => think_ms,
        Some(left) => {
            let m: i64 = if left < i64::MIN + 250 {
                i64::MIN
            } else {
                left - 250
            };
            let cap: u64 = if m < 50 {
                50
            } else {
                m as u64
            };
            if think_ms < cap {
                think_ms
            } else {
                cap
            }
        },
    }
}

/// Answer to an engine move.
#[derive(Debug)]
pub struct EngineMoveResponse {
    /// Always true.
    pub ok: bool,
    /// The move and the search report.
    pub engine: EngineMoveOutcome,
    /// The state after the move.
    pub state: StateDto,
}

/// Answer to a request for suggestions.
#[derive(Debug)]
pub struct HintResponse {
    /// Always true.
    pub ok: bool,
    /// The suggestions.
    pub hint: HintOutcome,
}

/// Answer to an undo or a new game.
#[derive(Debug)]
pub struct StateResponse {
    /// Always true.
    pub ok: bool,
    /// The state.
    pub state: StateDto,
}

} // verus!
