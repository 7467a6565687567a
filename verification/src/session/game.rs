//! One game: the position, the record of the moves played (with their
//! notation, written before each move was made), the last move, the clock
//! and a loss on time.
//!
//! A loss on time is no fact of the board, so the rules of the core know
//! nothing of it; the session alone records it. Times are milliseconds on
//! a clock that the caller reads and hands in as `now`.
use vstd::prelude::*;

use crate::color::{Color, opp, side_zh};
use crate::mv::{Move, mk_move, mv_from, mv_to};
use crate::fen::{fen_reading, fen_text};
use crate::notation::from_notation_spec;
use crate::position::{
    Position, Snap, lemma_filter_take, lemma_legal_move_ok, lemma_legal_on_board, legal_list,
    move_verdict, record_of, room_to_play, snap_in_check, start_board, step,
};
use crate::square::{iccs_index, iccs_of_chars, iccs_spec};
use crate::session::clock::{
    Clock, SideState, TimeControl, Timeout, elapsed_spec, limit_spec, settled,
};
use crate::piece::{color_of_code, kind_of_code, valid_code};
use crate::rules::status_of;
use crate::session::clock::{ClockSnapshot, snapshot_ok};
use crate::session::dto::{
    MoveOption, PieceDto, PlayedMove, StateDto, StatusDto, option_ok, piece_ok, played_ok,
    status_ok, timeout_ok, word_of_color,
};
use crate::text::{chars_of, is_ws, is_ws_char, owned, push_str, string_of, trim, trimmed};

verus! {

/// Whether `cfg` sets no time control at all.
pub open spec fn untimed(cfg: TimeControl) -> bool {
    cfg.base_secs == 0 && cfg.step_secs == 0 && cfg.byoyomi_secs == 0
}

/// Main time and byoyomi flag of a side on a full clock for `cfg`.
pub open spec fn initial_side(cfg: TimeControl) -> SideState {
    SideState { base_ms: (cfg.base_secs * 1000) as i64, byoyomi: cfg.base_secs == 0 }
}

/// `c` is a full clock for `cfg`, running from `now`.
pub open spec fn fresh_clock(c: Clock, cfg: TimeControl, now: u64) -> bool {
    &&& c.cfg() == cfg
    &&& c.side_state(Color::Red) == initial_side(cfg)
    &&& c.side_state(Color::Black) == initial_side(cfg)
    &&& c.since() == Some(now)
    &&& c.saved().len() == 0
}

/// The clock of a game set to `cfg` at `now`: none when untimed, else a
/// full clock that runs from `now` (the side to move starts using time as
/// soon as the clock is set).
pub open spec fn clock_for(c: Option<Clock>, cfg: TimeControl, now: u64) -> bool {
    if untimed(cfg) {
        c is None
    } else {
        c matches Some(k) && fresh_clock(k, cfg, now)
    }
}

/// `c2` is `c` stopped, its times unchanged.
pub open spec fn clock_stopped(c: Clock, c2: Clock) -> bool {
    &&& c2.cfg() == c.cfg()
    &&& c2.since() is None
    &&& c2.side_state(Color::Red) == c.side_state(Color::Red)
    &&& c2.side_state(Color::Black) == c.side_state(Color::Black)
    &&& c2.saved() == c.saved()
}

/// `c2` is `c` running: started at `now` unless it already ran.
pub open spec fn clock_running(c: Clock, c2: Clock, now: u64) -> bool {
    &&& c2.cfg() == c.cfg()
    &&& c2.since() == (match c.since() {
        Some(t) => Some(t),
        None => Some(now),
    })
    &&& c2.side_state(Color::Red) == c.side_state(Color::Red)
    &&& c2.side_state(Color::Black) == c.side_state(Color::Black)
    &&& c2.saved() == c.saved()
}

/// `side` has used more than its time on clock `c` at `now`.
pub open spec fn over_time(c: Clock, side: Color, now: u64) -> bool {
    elapsed_spec(c.since(), now) > limit_spec(c.cfg(), c.side_state(side))
}

/// `c2` is `c` after a move of `side` finished in time at `now`: the time
/// used comes off the mover's time, both sides' states are kept for an
/// undo, and the clock runs for the opponent from `now`.
pub open spec fn clock_charged(c: Clock, c2: Clock, side: Color, now: u64) -> bool {
    &&& c2.cfg() == c.cfg()
    &&& c2.since() == Some(now)
    &&& c2.saved() == c.saved().push((c.side_state(Color::Red), c.side_state(Color::Black)))
    &&& c2.side_state(side) == settled(c.side_state(side), elapsed_spec(c.since(), now))
    &&& c2.side_state(opp(side)) == c.side_state(opp(side))
}

/// `c2` is `c` after an undo at `now`: the states before the last settled
/// move come back (if there was one) and the clock runs from `now`.
pub open spec fn clock_undone(c: Clock, c2: Clock, now: u64) -> bool {
    &&& c2.cfg() == c.cfg()
    &&& if c.saved().len() == 0 {
        &&& c2.since() == (match c.since() {
            Some(t) => Some(t),
            None => Some(now),
        })
        &&& c2.side_state(Color::Red) == c.side_state(Color::Red)
        &&& c2.side_state(Color::Black) == c.side_state(Color::Black)
        &&& c2.saved() == c.saved()
    } else {
        &&& c2.since() == Some(now)
        &&& c2.side_state(Color::Red) == c.saved().last().0
        &&& c2.side_state(Color::Black) == c.saved().last().1
        &&& c2.saved() == c.saved().drop_last()
    }
}

/// Main times on clock `c`, now and in every kept state, are not negative.
pub open spec fn clock_sane(c: Clock) -> bool {
    &&& c.side_state(Color::Red).base_ms >= 0
    &&& c.side_state(Color::Black).base_ms >= 0
    &&& forall|i: int|
        0 <= i < c.saved().len() ==> (#[trigger] c.saved()[i]).0.base_ms >= 0
            && c.saved()[i].1.base_ms >= 0
}

/// State of the standard initial position.
pub open spec fn start_snap() -> Snap {
    (start_board(), Color::Red, 0u16, 1u16, 4u8, 85u8)
}

/// Position, record and last move of `g2` are those of `g`.
pub open spec fn same_record(g: Game, g2: Game) -> bool {
    &&& g2.position() == g.position()
    &&& g2.moves() == g.moves()
    &&& g2.last_played() == g.last_played()
}

/// What playing `mv` at `now` does to game `g`, giving game `g2` and
/// answer `r`. A game lost on time refuses every move. Otherwise the clock
/// is settled first: a move over its time loses on time (the clock stops
/// and the position stays). A move in time is charged to the mover and
/// the clock runs for the opponent; then the move is made if it is legal,
/// and recorded with the notation written before it was made. An illegal
/// move is refused with the reason, and the clock keeps the charge.
pub open spec fn move_outcome(
    g: Game,
    g2: Game,
    mv: Move,
    now: u64,
    r: Result<PlayedMove, String>,
) -> bool {
    let s = g.position().snap();
    let side = s.1;
    match g.timeout_state() {
        Some(t) => {
            &&& r matches Err(m) && m@ == "对局已因超时结束（"@ + side_zh(t.loser) + "方负）"@
            &&& g2 == g
        },
        None => if g.clock_state() is Some && over_time(g.clock_state().unwrap(), side, now) {
            &&& r matches Err(m) && m@ == side_zh(side) + "方超时判负"@
            &&& same_record(g, g2)
            &&& g2.clock_state() matches Some(c2) && clock_stopped(g.clock_state().unwrap(), c2)
            &&& g2.timeout_state() == Some(Timeout { loser: side })
        } else {
            &&& g2.timeout_state() is None
            &&& match g.clock_state() {
                None => g2.clock_state() is None,
                Some(c) => g2.clock_state() matches Some(c2) && clock_charged(c, c2, side, now),
            }
            &&& match move_verdict(s, mv) {
                Err(e) => {
                    &&& r matches Err(m) && m@ == e.text()
                    &&& same_record(g, g2)
                },
                Ok(_) => {
                    &&& r matches Ok(p) && played_ok(p, s, mv)
                    &&& g2.position().snap() == step(s, mv)
                    &&& g2.position().stack() == g.position().stack().push(record_of(s, mv))
                    &&& g2.position().past_states() == g.position().past_states().push(s)
                    &&& g2.moves() == g.moves().push(r->Ok_0)
                    &&& g2.last_played() == Some(r->Ok_0)
                },
            }
        },
    }
}

/// `from` to `to` is a legal move in `s`.
pub open spec fn legal_target(s: Snap, from: u8, to: u8) -> bool {
    from < 90 && to < 90 && from != to && legal_list(s).contains(mk_move(from as int, to as int))
}

/// What playing from point `from` to point `to` at `now` does to `g`: a
/// move that is not legal is refused, naming both points; a legal one is
/// played as [`move_outcome`] says.
pub open spec fn point_move_outcome(
    g: Game,
    g2: Game,
    from: u8,
    to: u8,
    now: u64,
    r: Result<PlayedMove, String>,
) -> bool {
    if legal_target(g.position().snap(), from, to) {
        move_outcome(g, g2, mk_move(from as int, to as int), now, r)
    } else {
        &&& r matches Err(m) && m@ == iccs_spec(from as int) + " → "@ + iccs_spec(to as int)
            + " 不是当前局面下的合法着法"@
        &&& g2 == g
    }
}

/// Characters kept when reading coordinates: all but white space, `-` and `>`.
pub open spec fn coordinate_char(c: char) -> bool {
    !is_ws(c) && c != '-' && c != '>'
}

/// The move that text `t` names in state `s`: four coordinate characters
/// (`h2e2`, `h2-e2`, `h2 > e2`) name two points; anything else is read as
/// Chinese notation, and refused with the notation error's message.
pub open spec fn resolve_spec(s: Snap, t: Seq<char>) -> Result<Move, Seq<char>> {
    let tr = trim(t);
    let compact = tr.filter(|c: char| coordinate_char(c));
    if compact.len() == 4 && iccs_index(compact.take(2)) is Some && iccs_index(compact.skip(2)) is Some {
        Ok(
            mk_move(
                iccs_index(compact.take(2)).unwrap() as int,
                iccs_index(compact.skip(2)).unwrap() as int,
            ),
        )
    } else {
        match from_notation_spec(s, tr) {
            Ok(m) => Ok(m),
            Err(e) => Err(e.text()),
        }
    }
}

/// What taking back a move at `now` does to game `g`, giving `g2` and `r`:
/// nothing when no move was made; otherwise the position before the last
/// move, the record without it, no loss on time, and the clock back to the
/// times before that move, running from `now`.
pub open spec fn undo_outcome(g: Game, g2: Game, now: u64, r: bool) -> bool {
    if g.position().stack().len() == 0 {
        !r && g2 == g
    } else {
        &&& r
        &&& g2.position().snap() == g.position().past_states().last()
        &&& g2.position().stack() == g.position().stack().drop_last()
        &&& g2.position().past_states() == g.position().past_states().drop_last()
        &&& g2.moves() == g.moves().drop_last()
        &&& g2.timeout_state() is None
        &&& match g.clock_state() {
            None => g2.clock_state() is None,
            Some(c) => g2.clock_state() matches Some(c2) && clock_undone(c, c2, now),
        }
    }
}

/// Taking back a move that was just played restores the game as it was
/// before it: the same position and record, the same last move, no loss on
/// time, and both sides' clock times as they were (the clock then runs from
/// the moment of the undo).
pub proof fn law_undo_restores_the_game(g: Game, g2: Game, g3: Game, mv: Move, now: u64, later: u64, p: PlayedMove)
    requires
        g.wf(),
        g2.wf(),
        g3.wf(),
        move_outcome(g, g2, mv, now, Ok(p)),
        undo_outcome(g2, g3, later, true),
    ensures
        g3.position().snap() == g.position().snap(),
        g3.position().stack() == g.position().stack(),
        g3.position().past_states() == g.position().past_states(),
        g3.moves() == g.moves(),
        g3.timeout_state() is None,
        g3.last_played() == g.last_played(),
        match g.clock_state() {
            None => g3.clock_state() is None,
            Some(c) => g3.clock_state() matches Some(c3) && {
                &&& c3.cfg() == c.cfg()
                &&& c3.side_state(Color::Red) == c.side_state(Color::Red)
                &&& c3.side_state(Color::Black) == c.side_state(Color::Black)
                &&& c3.saved() == c.saved()
                &&& c3.since() == Some(later)
            },
        },
{
    let s = g.position().snap();
    assert(g.timeout_state() is None);
    assert(move_verdict(s, mv) is Ok);
    assert(g2.position().stack().len() > 0);
    assert(g2.position().stack().drop_last() =~= g.position().stack());
    assert(g2.position().past_states().drop_last() =~= g.position().past_states());
    assert(g2.moves().drop_last() =~= g.moves());
    assert(g2.position().past_states().last() == s);
    match g.clock_state() {
        None => {},
        Some(c) => {
            let c2 = g2.clock_state().unwrap();
            assert(c2.saved().len() > 0);
            assert(c2.saved().drop_last() =~= c.saved());
            assert(c2.saved().last() == (c.side_state(Color::Red), c.side_state(Color::Black)));
        },
    }
}

/// Points of board `b` that hold a piece, in index order.
pub open spec fn occupied(b: Seq<u8>) -> Seq<int> {
    Seq::new(90, |i: int| i).filter(|i: int| b[i] != 0)
}

/// `ps` shows every piece of board `b`, point by point.
pub open spec fn pieces_ok(ps: Seq<PieceDto>, b: Seq<u8>) -> bool {
    &&& ps.len() == occupied(b).len()
    &&& forall|i: int|
        0 <= i < ps.len() ==> piece_ok(#[trigger] ps[i], occupied(b)[i], b[occupied(b)[i]])
}

/// `os` offers every legal move of `s`, in the order of [`legal_list`].
pub open spec fn options_ok(os: Seq<MoveOption>, s: Snap) -> bool {
    &&& os.len() == legal_list(s).len()
    &&& forall|i: int| 0 <= i < os.len() ==> option_ok(#[trigger] os[i], s, legal_list(s)[i])
}

/// The pieces of the position, point by point.
fn piece_dtos(pos: &Position) -> (r: Vec<PieceDto>)
    requires
        pos.wf(),
    ensures
        pieces_ok(r@, pos.board()),
{
    let b = pos.squares();
    let ghost ids = Seq::new(90, |i: int| i);
    let ghost p = |i: int| pos.board()[i] != 0;
    let mut out: Vec<PieceDto> = Vec::new();
    let mut idx: u8 = 0;
    while idx < 90
        invariant
            idx <= 90,
            pos.wf(),
            b@ == pos.board(),
            ids == Seq::new(90, |i: int| i),
            p == (|i: int| pos.board()[i] != 0),
            out@.len() == ids.take(idx as int).filter(p).len(),
            forall|i: int|
                0 <= i < out@.len() ==> piece_ok(
                    #[trigger] out@[i],
                    ids.take(idx as int).filter(p)[i],
                    pos.board()[ids.take(idx as int).filter(p)[i]],
                ),
        decreases 90 - idx,
    {
        proof {
            lemma_filter_take(ids, p, idx as int);
        }
        let code = b[idx as usize];
        if code != 0 {
            proof {
                assert(valid_code(pos.board()[idx as int]));
            }
            let color = crate::piece::color_of(code).unwrap();
            let kind = crate::piece::kind_of(code).unwrap();
            let mut glyph = String::new();
            crate::text::push_char(&mut glyph, kind.name_zh(color));
            let d = PieceDto {
                sq: crate::square::to_iccs(idx),
                col: crate::square::col_of(idx),
                row: crate::square::row_of(idx),
                color: owned(crate::session::dto::color_word(color)),
                kind: owned(crate::session::dto::kind_word(kind)),
                sprite: crate::session::dto::sprite_name(color, kind),
                glyph,
            };
            out.push(d);
        }
        idx += 1;
    }
    assert(ids.take(90) =~= ids);
    out
}

/// The legal moves of the position, each with its notation.
fn move_options(pos: &mut Position) -> (r: Vec<MoveOption>)
    requires
        old(pos).wf(),
    ensures
        *final(pos) == *old(pos),
        options_ok(r@, old(pos).snap()),
{
    let moves = pos.legal_moves();
    let ghost s = pos.snap();
    let mut out: Vec<MoveOption> = Vec::new();
    let mut i: usize = 0;
    while i < moves.len()
        invariant
            pos.wf(),
            pos.snap() == s,
            moves@ == legal_list(s),
            i <= moves@.len(),
            out@.len() == i,
            forall|j: int| 0 <= j < i ==> option_ok(#[trigger] out@[j], s, legal_list(s)[j]),
        decreases moves@.len() - i,
    {
        let mv = moves[i];
        proof {
            assert(legal_list(s).contains(mv));
            lemma_legal_on_board(s, mv);
        }
        let o = MoveOption {
            from: crate::square::to_iccs(mv.from()),
            to: crate::square::to_iccs(mv.to()),
            iccs: pos.to_iccs_string(mv),
            notation: crate::session::dto::notation_text(pos, mv),
            capture: pos.piece_at(mv.to()) != 0,
        };
        out.push(o);
        i += 1;
    }
    out
}

/// One game.
pub struct Game {
    pos: Position,
    log: Vec<PlayedMove>,
    last: Option<PlayedMove>,
    clock: Option<Clock>,
    timeout: Option<Timeout>,
}

impl Game {
    /// The position.
    pub closed spec fn position(&self) -> Position {
        self.pos
    }

    /// Every move played, in order.
    pub closed spec fn moves(&self) -> Seq<PlayedMove> {
        self.log@
    }

    /// The last move played.
    pub closed spec fn last_played(&self) -> Option<PlayedMove> {
        self.last
    }

    /// The clock; none in an untimed game.
    pub closed spec fn clock_state(&self) -> Option<Clock> {
        self.clock
    }

    /// The loss on time that ended the game, if any.
    pub closed spec fn timeout_state(&self) -> Option<Timeout> {
        self.timeout
    }

    /// The game is consistent: a sound position; one record per move made
    /// since the position was set, each describing its move in the state
    /// it was played from; the last move is the last record; a clock is
    /// kept only for a real time control and never shows negative time.
    pub open spec fn wf(&self) -> bool {
        &&& self.position().wf()
        &&& self.moves().len() == self.position().stack().len()
        &&& forall|i: int|
            0 <= i < self.moves().len() ==> played_ok(
                #[trigger] self.moves()[i],
                self.position().past_states()[i],
                self.position().stack()[i].mv,
            )
        &&& self.last_played() == (if self.moves().len() == 0 {
            None
        } else {
            Some(self.moves().last())
        })
        &&& match self.clock_state() {
            Some(c) => clock_sane(c) && !untimed(c.cfg()),
            None => true,
        }
    }

    /// The time control in force.
    pub open spec fn control(&self) -> TimeControl {
        match self.clock_state() {
            Some(c) => c.cfg(),
            None => TimeControl { base_secs: 0, step_secs: 0, byoyomi_secs: 0 },
        }
    }

    /// A game at the standard initial position with nothing played, no
    /// loss on time, and the clock that `cfg` gives at `now`.
    pub open spec fn is_new(&self, cfg: TimeControl, now: u64) -> bool {
        &&& self.wf()
        &&& self.position().snap() == start_snap()
        &&& self.position().stack().len() == 0
        &&& self.moves().len() == 0
        &&& self.last_played() is None
        &&& self.timeout_state() is None
        &&& clock_for(self.clock_state(), cfg, now)
    }

    /// A new untimed game at the standard initial position.
    pub fn new() -> (r: Game)
        ensures
            r.is_new(TimeControl { base_secs: 0, step_secs: 0, byoyomi_secs: 0 }, 0),
    {
        Game { pos: Position::startpos(), log: Vec::new(), last: None, clock: None, timeout: None }
    }

    /// A new game under time control `cfg`, its clock running from `now`;
    /// with no time control it is [`Game::new`].
    pub fn new_with_clock(cfg: TimeControl, now: u64) -> (r: Game)
        ensures
            r.is_new(cfg, now),
    {
        let mut game = Game::new();
        game.set_time_control(cfg, now);
        game
    }

    /// Sets time control `cfg` with a full clock running from `now` (the
    /// side to move starts using time at once) and clears a loss on time.
    pub fn set_time_control(&mut self, cfg: TimeControl, now: u64)
        requires
            old(self).wf(),
        ensures
            final(self).wf(),
            final(self).position() == old(self).position(),
            final(self).moves() == old(self).moves(),
            final(self).last_played() == old(self).last_played(),
            final(self).timeout_state() is None,
            clock_for(final(self).clock_state(), cfg, now),
    {
        self.clock = if cfg.is_unlimited() {
            None
        } else {
            let mut clock = Clock::new(cfg);
            clock.start(now);
            Some(clock)
        };
        self.timeout = None;
    }

    /// The time control in force.
    pub fn time_control(&self) -> (r: TimeControl)
        ensures
            r == self.control(),
    {
        match &self.clock {
            Some(c) => c.config(),
            None => TimeControl::unlimited(),
        }
    }

    /// Milliseconds left at `now` for the current move of the side to
    /// move (negative once exceeded); none in an untimed game.
    pub fn step_left_ms(&self, now: u64) -> (r: Option<i64>)
        ensures
            r == (match self.clock_state() {
                None => None,
                Some(c) => Some(
                    (limit_spec(c.cfg(), c.side_state(self.position().side()))
                        - elapsed_spec(c.since(), now)) as i64,
                ),
            }),
    {
        match &self.clock {
            None => None,
            Some(c) => Some(c.step_left_ms(self.pos.side_to_move(), now)),
        }
    }

    /// The side that lost on time, if the game ended so.
    pub fn timeout_loser(&self) -> (r: Option<Color>)
        ensures
            r == (match self.timeout_state() {
                Some(t) => Some(t.loser),
                None => None,
            }),
    {
        match self.timeout {
            Some(t) => Some(t.loser),
            None => None,
        }
    }

    /// Starts a new game under the same time control, its clock running
    /// from `now`.
    pub fn reset(&mut self, now: u64)
        requires
            old(self).wf(),
        ensures
            final(self).is_new(old(self).control(), now),
    {
        let cfg = self.time_control();
        *self = Game::new_with_clock(cfg, now);
    }

    /// Settles the clock for a move of the side to move finished at `now`;
    /// false when the move was over its time, which loses on time.
    fn settle_clock(&mut self, now: u64) -> (ok: bool)
        requires
            old(self).wf(),
            old(self).timeout_state() is None,
        ensures
            final(self).wf(),
            same_record(*old(self), *final(self)),
            ({
                let side = old(self).position().snap().1;
                if old(self).clock_state() is Some && over_time(
                    old(self).clock_state().unwrap(),
                    side,
                    now,
                ) {
                    &&& !ok
                    &&& final(self).clock_state() matches Some(c2) && clock_stopped(
                        old(self).clock_state().unwrap(),
                        c2,
                    )
                    &&& final(self).timeout_state() == Some(Timeout { loser: side })
                } else {
                    &&& ok
                    &&& final(self).timeout_state() is None
                    &&& match old(self).clock_state() {
                        None => final(self).clock_state() is None,
                        Some(c) => final(self).clock_state() matches Some(c2) && clock_charged(
                            c,
                            c2,
                            side,
                            now,
                        ),
                    }
                }
            }),
    {
        let side = self.pos.side_to_move();
        match self.clock.take() {
            None => true,
            Some(mut c) => {
                let ghost c0 = c;
                match c.settle_move(side, now) {
                    Err(_) => {
                        c.stop();
                        self.clock = Some(c);
                        self.timeout = Some(Timeout { loser: side });
                        false
                    },
                    Ok(_) => {
                        c.start(now);
                        proof {
                            assert forall|i: int| 0 <= i < c.saved().len() implies (
                            #[trigger] c.saved()[i]).0.base_ms >= 0 && c.saved()[i].1.base_ms
                                >= 0 by {
                                if i < c0.saved().len() {
                                    assert(c.saved()[i] == c0.saved()[i]);
                                }
                            }
                        }
                        self.clock = Some(c);
                        true
                    },
                }
            },
        }
    }

    /// Makes `mv` if it is legal and records it, with the notation written
    /// before the move; otherwise gives the reason and changes nothing.
    fn record_move(&mut self, mv: Move) -> (r: Result<PlayedMove, String>)
        requires
            old(self).wf(),
            mv_from(mv) < 90,
            mv_to(mv) < 90,
            room_to_play(old(self).position().snap(), mv),
        ensures
            final(self).wf(),
            final(self).clock_state() == old(self).clock_state(),
            final(self).timeout_state() == old(self).timeout_state(),
            ({
                let s = old(self).position().snap();
                match move_verdict(s, mv) {
                    Err(e) => {
                        &&& r matches Err(m) && m@ == e.text()
                        &&& same_record(*old(self), *final(self))
                    },
                    Ok(_) => {
                        &&& r matches Ok(p) && played_ok(p, s, mv)
                        &&& final(self).position().snap() == step(s, mv)
                        &&& final(self).position().stack() == old(self).position().stack().push(
                            record_of(s, mv),
                        )
                        &&& final(self).position().past_states()
                            == old(self).position().past_states().push(s)
                        &&& final(self).moves() == old(self).moves().push(r->Ok_0)
                        &&& final(self).last_played() == Some(r->Ok_0)
                    },
                }
            }),
    {
        let ghost g0 = *self;
        let side = self.pos.side_to_move();
        let notation = crate::session::dto::notation_text(&self.pos, mv);
        let iccs = self.pos.to_iccs_string(mv);
        let capture = self.pos.piece_at(mv.to()) != 0;
        let side_word = owned(crate::session::dto::color_word(side));
        let mut before = self.pos.duplicate();
        match self.pos.make_move(mv) {
            Err(e) => {
                return Err(e.message());
            },
            Ok(()) => {},
        }
        proof {
            lemma_legal_move_ok(before.snap(), mv);
        }
        let nature = before.nature_of(mv);
        let played = PlayedMove {
            from: crate::square::to_iccs(mv.from()),
            to: crate::square::to_iccs(mv.to()),
            iccs,
            notation,
            capture,
            nature: owned(crate::session::dto::nature_word(nature)),
            nature_text: owned(nature.name_zh()),
            side: side_word,
        };
        self.last = Some(played.duplicate());
        self.log.push(played.duplicate());
        proof {
            let n = self.log@.len() - 1;
            assert forall|i: int| 0 <= i < self.log@.len() implies played_ok(
                #[trigger] self.log@[i],
                self.pos.past_states()[i],
                self.pos.stack()[i].mv,
            ) by {
                if i < n {
                    assert(self.log@[i] == g0.moves()[i]);
                }
            }
        }
        Ok(played)
    }

    /// Plays `mv` at `now`; see [`move_outcome`].
    fn apply_move(&mut self, mv: Move, now: u64) -> (r: Result<PlayedMove, String>)
        requires
            old(self).wf(),
            mv_from(mv) < 90,
            mv_to(mv) < 90,
            room_to_play(old(self).position().snap(), mv),
        ensures
            final(self).wf(),
            move_outcome(*old(self), *final(self), mv, now, r),
    {
        if let Some(t) = self.timeout {
            let mut m = owned("对局已因超时结束（");
            push_str(&mut m, t.loser.name_zh());
            push_str(&mut m, "方负）");
            return Err(m);
        }
        let side = self.pos.side_to_move();
        if !self.settle_clock(now) {
            let mut m = owned(side.name_zh());
            push_str(&mut m, "方超时判负");
            return Err(m);
        }
        self.record_move(mv)
    }

    /// Plays `mv`, which the caller found legal (an engine's move); a move
    /// that is not legal here is refused.
    pub fn apply_known_move(&mut self, mv: Move, now: u64) -> (r: Result<PlayedMove, String>)
        requires
            old(self).wf(),
            room_to_play(old(self).position().snap(), mv),
        ensures
            final(self).wf(),
            if legal_list(old(self).position().snap()).contains(mv) {
                move_outcome(*old(self), *final(self), mv, now, r)
            } else {
                &&& r matches Err(m) && m@ == "着法 "@ + iccs_spec(mv_from(mv)) + iccs_spec(mv_to(mv))
                    + " 在当前局面下不合法"@
                &&& *final(self) == *old(self)
            },
    {
        if !self.pos.is_legal(mv) {
            let mut m = owned("着法 ");
            push_str(&mut m, mv.to_iccs_text().as_str());
            push_str(&mut m, " 在当前局面下不合法");
            return Err(m);
        }
        proof {
            lemma_legal_on_board(self.pos.snap(), mv);
        }
        self.apply_move(mv, now)
    }

    /// Plays the move from point `from` to point `to` (flat indices).
    #[verifier::spinoff_prover]
    #[verifier::rlimit(50)]
    pub fn apply(&mut self, from: u8, to: u8, now: u64) -> (r: Result<PlayedMove, String>)
        requires
            old(self).wf(),
            room_to_play(old(self).position().snap(), mk_move(from as int, to as int)),
        ensures
            final(self).wf(),
            point_move_outcome(*old(self), *final(self), from, to, now, r),
    {
        match self.pos.legal_move_to(from, to) {
            None => {
                let mut m = crate::square::to_iccs(from);
                push_str(&mut m, " → ");
                push_str(&mut m, crate::square::to_iccs(to).as_str());
                push_str(&mut m, " 不是当前局面下的合法着法");
                Err(m)
            },
            Some(mv) => {
                assert(mv == mk_move(from as int, to as int));
                self.apply_move(mv, now)
            },
        }
    }

    /// Plays the move between two points named in ICCS, such as `("h2", "e2")`.
    pub fn apply_iccs(&mut self, from: &str, to: &str, now: u64) -> (r: Result<PlayedMove, String>)
        requires
            old(self).wf(),
            match (iccs_index(from@), iccs_index(to@)) {
                (Some(f), Some(t)) => room_to_play(old(self).position().snap(), mk_move(f as int, t as int)),
                _ => true,
            },
        ensures
            final(self).wf(),
            match (iccs_index(from@), iccs_index(to@)) {
                (None, _) => r matches Err(m) && m@ == "非法坐标："@ + from@ && *final(self)
                    == *old(self),
                (Some(_), None) => r matches Err(m) && m@ == "非法坐标："@ + to@ && *final(self)
                    == *old(self),
                (Some(f), Some(t)) => point_move_outcome(*old(self), *final(self), f, t, now, r),
            },
    {
        let f = match crate::square::from_iccs(from) {
            Some(f) => f,
            None => {
                let mut m = owned("非法坐标：");
                push_str(&mut m, from);
                return Err(m);
            },
        };
        let t = match crate::square::from_iccs(to) {
            Some(t) => t,
            None => {
                let mut m = owned("非法坐标：");
                push_str(&mut m, to);
                return Err(m);
            },
        };
        self.apply(f, t, now)
    }

    /// The move that `text` names, without playing it: coordinates such as
    /// `h2e2` or `h2-e2`, or Chinese notation such as `炮二平五`.
    pub fn resolve_text(&self, text: &str) -> (r: Result<Move, String>)
        requires
            self.wf(),
        ensures
            match resolve_spec(self.position().snap(), text@) {
                Ok(m) => r == Ok::<Move, String>(m) && mv_from(m) < 90 && mv_to(m) < 90,
                Err(t) => r matches Err(x) && x@ == t,
            },
    {
        let cs = chars_of(text);
        let tr = trimmed(&cs);
        let ghost keep = |c: char| coordinate_char(c);
        let mut compact: Vec<char> = Vec::new();
        let mut i: usize = 0;
        while i < tr.len()
            invariant
                i <= tr@.len(),
                keep == (|c: char| coordinate_char(c)),
                compact@ == tr@.take(i as int).filter(keep),
            decreases tr@.len() - i,
        {
            proof {
                lemma_filter_take(tr@, keep, i as int);
            }
            let c = tr[i];
            if !is_ws_char(c) && c != '-' && c != '>' {
                compact.push(c);
            }
            i += 1;
        }
        assert(tr@.take(tr@.len() as int) =~= tr@);
        assert(compact@ == trim(text@).filter(|c: char| coordinate_char(c)));
        if compact.len() == 4 {
            let a = vec![compact[0], compact[1]];
            let b = vec![compact[2], compact[3]];
            assert(a@ =~= compact@.take(2));
            assert(b@ =~= compact@.skip(2));
            if let (Some(f), Some(t)) = (iccs_of_chars(&a), iccs_of_chars(&b)) {
                return Ok(Move::new(f, t));
            }
        }
        let mut probe = self.pos.duplicate();
        let trimmed_text = string_of(&tr);
        match probe.from_chinese_notation(trimmed_text.as_str()) {
            Ok(m) => {
                proof {
                    let s = self.pos.snap();
                    let want = crate::notation::parse_spec(tr@.filter(crate::notation::not_ws()), s.1)->Ok_0;
                    let found = legal_list(s).filter(crate::notation::desc_is(s, want));
                    assert(found[0] == m);
                    assert(found.contains(m));
                    legal_list(s).lemma_filter_contains_rev(crate::notation::desc_is(s, want), m);
                    lemma_legal_on_board(s, m);
                }
                Ok(m)
            },
            Err(e) => Err(e.message()),
        }
    }

    /// Plays the move that `text` names (see [`Game::resolve_text`]).
    pub fn apply_text(&mut self, text: &str, now: u64) -> (r: Result<PlayedMove, String>)
        requires
            old(self).wf(),
            resolve_spec(old(self).position().snap(), text@) matches Ok(m) ==> room_to_play(
                old(self).position().snap(),
                m,
            ),
        ensures
            final(self).wf(),
            match resolve_spec(old(self).position().snap(), text@) {
                Ok(m) => move_outcome(*old(self), *final(self), m, now, r),
                Err(t) => r matches Err(x) && x@ == t && *final(self) == *old(self),
            },
    {
        let mv = match self.resolve_text(text) {
            Ok(m) => m,
            Err(e) => {
                return Err(e);
            },
        };
        self.apply_move(mv, now)
    }

    /// What explaining the last move needs: the position before it, the
    /// move, and the ICCS text of every move played, that one included.
    pub fn last_move_context(&self) -> (r: Option<(Position, Move, Vec<String>)>)
        requires
            self.wf(),
        ensures
            self.position().stack().len() == 0 ==> r is None,
            self.position().stack().len() > 0 ==> (r matches Some(t) && {
                let (before, mv, history) = t;
                &&& before.wf()
                &&& before.snap() == self.position().past_states().last()
                &&& before.stack() == self.position().stack().drop_last()
                &&& before.past_states() == self.position().past_states().drop_last()
                &&& mv == self.position().stack().last().mv
                &&& history@.len() == self.moves().len()
                &&& forall|i: int|
                    0 <= i < history@.len() ==> (#[trigger] history@[i])@ == self.moves()[i].iccs@
            }),
    {
        let stack = self.pos.move_stack();
        if stack.len() == 0 {
            return None;
        }
        let record = stack[stack.len() - 1];
        let mut before = self.pos.duplicate();
        before.unmake_move();
        let mut history: Vec<String> = Vec::new();
        let mut i: usize = 0;
        while i < self.log.len()
            invariant
                i <= self.log@.len(),
                history@.len() == i,
                forall|j: int| 0 <= j < i ==> (#[trigger] history@[j])@ == self.log@[j].iccs@,
            decreases self.log@.len() - i,
        {
            history.push(self.log[i].iccs.clone());
            i += 1;
        }
        Some((before, record.mv, history))
    }

    /// Sets the position from FEN text and clears the record and a loss on
    /// time; a timed game's clock starts afresh from `now`. Refused FEN
    /// text changes nothing.
    pub fn load_fen(&mut self, fen: &str, now: u64) -> (r: Result<(), String>)
        requires
            old(self).wf(),
        ensures
            final(self).wf(),
            match fen_reading(fen@) {
                Err(t) => r matches Err(x) && x@ == t && *final(self) == *old(self),
                Ok(snap) => {
                    &&& r is Ok
                    &&& final(self).position().snap() == snap
                    &&& final(self).position().stack().len() == 0
                    &&& final(self).moves().len() == 0
                    &&& final(self).last_played() is None
                    &&& final(self).timeout_state() is None
                    &&& if untimed(old(self).control()) {
                        final(self).clock_state() is None
                    } else {
                        clock_for(final(self).clock_state(), old(self).control(), now)
                    }
                },
            },
    {
        let pos = match Position::from_fen(fen) {
            Ok(p) => p,
            Err(e) => {
                return Err(e.message());
            },
        };
        self.pos = pos;
        self.log.clear();
        self.last = None;
        self.timeout = None;
        let cfg = self.time_control();
        if !cfg.is_unlimited() {
            self.set_time_control(cfg, now);
        }
        Ok(())
    }

    /// Takes back the last move, with its record and the clock's charge
    /// (the clock then runs from `now`), and clears a loss on time; false
    /// when no move was made.
    pub fn undo(&mut self, now: u64) -> (r: bool)
        requires
            old(self).wf(),
        ensures
            final(self).wf(),
            undo_outcome(*old(self), *final(self), now, r),
    {
        let ghost g0 = *self;
        if self.pos.unmake_move().is_none() {
            return false;
        }
        self.log.pop();
        self.last = match self.log.last() {
            Some(p) => Some(p.duplicate()),
            None => None,
        };
        self.timeout = None;
        match self.clock.take() {
            None => {},
            Some(mut c) => {
                let ghost c0 = c;
                c.undo();
                c.start(now);
                proof {
                    assert forall|i: int| 0 <= i < c.saved().len() implies (
                    #[trigger] c.saved()[i]).0.base_ms >= 0 && c.saved()[i].1.base_ms >= 0 by {
                        assert(c.saved()[i] == c0.saved()[i]);
                    }
                    if c0.saved().len() > 0 {
                        assert(c0.saved()[c0.saved().len() - 1] == c0.saved().last());
                    }
                }
                self.clock = Some(c);
            },
        }
        proof {
            assert forall|i: int| 0 <= i < self.log@.len() implies played_ok(
                #[trigger] self.log@[i],
                self.pos.past_states()[i],
                self.pos.stack()[i].mv,
            ) by {
                assert(self.log@[i] == g0.moves()[i]);
            }
        }
        true
    }

    /// The full state for the front end at `now`. A loss on time is shown
    /// before any status of the board. A stopped clock starts: the player
    /// starts using time when the position is first shown.
    pub fn build_dto(&mut self, now: u64) -> (r: StateDto)
        requires
            old(self).wf(),
        ensures
            final(self).wf(),
            same_record(*old(self), *final(self)),
            final(self).timeout_state() == old(self).timeout_state(),
            ({
                let s = old(self).position().snap();
                &&& r.fen@ == fen_text(s)
                &&& r.side@ == word_of_color(s.1)
                &&& r.in_check == snap_in_check(s, s.1)
                &&& match old(self).timeout_state() {
                    Some(t) => timeout_ok(r.status, t.loser),
                    None => status_ok(r.status, status_of(s), s.0),
                }
                &&& pieces_ok(r.pieces@, s.0)
                &&& options_ok(r.legal@, s)
                &&& r.last_move == old(self).last_played()
                &&& r.history@ == old(self).moves()
                &&& r.halfmove_clock == s.2
                &&& r.fullmove_number == s.3
                &&& match old(self).clock_state() {
                    None => final(self).clock_state() is None && r.clock is None,
                    Some(c) => final(self).clock_state() matches Some(c2) && clock_running(c, c2, now)
                        && (r.clock matches Some(cs) && snapshot_ok(c2, s.1, now, cs)),
                }
            }),
    {
        let status = match self.timeout {
            Some(t) => StatusDto::timeout(t.loser),
            None => {
                let st = self.pos.status();
                StatusDto::from(st, &self.pos)
            },
        };
        let to_move = self.pos.side_to_move();
        let clock = match self.clock.take() {
            None => None,
            Some(mut c) => {
                c.start(now);
                let shown = c.snapshot(to_move, now);
                self.clock = Some(c);
                Some(shown)
            },
        };
        let pieces = piece_dtos(&self.pos);
        let legal = move_options(&mut self.pos);
        let mut history: Vec<PlayedMove> = Vec::new();
        let mut i: usize = 0;
        while i < self.log.len()
            invariant
                i <= self.log@.len(),
                history@ == self.log@.take(i as int),
            decreases self.log@.len() - i,
        {
            history.push(self.log[i].duplicate());
            i += 1;
            assert(history@ =~= self.log@.take(i as int));
        }
        assert(self.log@.take(i as int) =~= self.log@);
        let last_move = match &self.last {
            Some(p) => Some(p.duplicate()),
            None => None,
        };
        StateDto {
            fen: self.pos.to_fen(),
            side: owned(crate::session::dto::color_word(to_move)),
            in_check: self.pos.is_in_check(to_move),
            status,
            pieces,
            legal,
            last_move,
            history,
            halfmove_clock: self.pos.halfmove_clock(),
            fullmove_number: self.pos.fullmove_number(),
            clock,
        }
    }

    /// A copy of the position, for a search outside the session.
    pub fn snapshot(&self) -> (r: Position)
        ensures
            r.snap() == self.position().snap(),
            r.stack() == self.position().stack(),
            r.history_seq() == self.position().history_seq(),
            r.past_states() == self.position().past_states(),
            r.hash_val() == self.position().hash_val(),
    {
        self.pos.duplicate()
    }
}

} // verus!
