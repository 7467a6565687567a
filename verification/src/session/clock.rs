//! Game clock: main time, per-move limit and byoyomi.
//!
//! While a side has main time left, each move is limited by the per-move
//! limit and by the main time left, whichever is smaller; once the main
//! time is spent, each move is limited by the byoyomi period, which resets
//! every move. Exceeding the limit of the move loses.
//!
//! The clock runs lazily: nothing ticks in the background; the time used
//! is worked out from timestamps when a move is settled or a snapshot is
//! taken. Timestamps are milliseconds from an origin the caller chooses.
use vstd::prelude::*;

use crate::color::{Color, opp};

verus! {

/// Longest accepted period, 24 hours in seconds.
pub const MAX_PERIOD_SECS: u32 = 86_400;

/// Time control. All three zero means no time control.
#[derive(Clone, Copy, Debug, PartialEq, Eq, Structural)]
pub struct TimeControl {
    /// Main time of each side, in seconds.
    pub base_secs: u32,
    /// Limit of one move while main time is left, in seconds (0: none).
    pub step_secs: u32,
    /// Limit of one move once main time is spent, in seconds.
    pub byoyomi_secs: u32,
}

impl TimeControl {
    /// No time control.
    pub fn unlimited() -> (r: TimeControl)
        ensures
            r == (TimeControl { base_secs: 0, step_secs: 0, byoyomi_secs: 0 }),
    {
        TimeControl { base_secs: 0, step_secs: 0, byoyomi_secs: 0 }
    }

    /// Whether this is no time control at all.
    pub fn is_unlimited(&self) -> (r: bool)
        ensures
            r == (self.base_secs == 0 && self.step_secs == 0 && self.byoyomi_secs == 0),
    {
        self.base_secs == 0 && self.step_secs == 0 && self.byoyomi_secs == 0
    }
}

/// Time control as requested, each period possibly absent (then zero).
#[derive(Clone, Copy, Debug)]
pub struct TimeControlInput {
    /// Requested main time, in seconds.
    pub base_secs: u32,
    /// Requested per-move limit, in seconds.
    pub step_secs: u32,
    /// Requested byoyomi period, in seconds.
    pub byoyomi_secs: u32,
}

impl Default for TimeControlInput {
    fn default() -> (r: TimeControlInput)
        ensures
            r.base_secs == 0,
            r.step_secs == 0,
            r.byoyomi_secs == 0,
    {
        TimeControlInput { base_secs: 0, step_secs: 0, byoyomi_secs: 0 }
    }
}

/// `v` capped at [`MAX_PERIOD_SECS`].
pub open spec fn capped_secs(v: u32) -> u32 {
    if v > MAX_PERIOD_SECS {
        MAX_PERIOD_SECS
    } else {
        v
    }
}

/// The time control a request asks for, each period capped at 24 hours.
pub open spec fn control_of(v: TimeControlInput) -> TimeControl {
    TimeControl {
        base_secs: capped_secs(v.base_secs),
        step_secs: capped_secs(v.step_secs),
        byoyomi_secs: capped_secs(v.byoyomi_secs),
    }
}

fn cap_secs(v: u32) -> (r: u32)
    ensures
        r == capped_secs(v),
{
    if v > MAX_PERIOD_SECS {
        MAX_PERIOD_SECS
    } else {
        v
    }
}

impl From<TimeControlInput> for TimeControl {
    fn from(v: TimeControlInput) -> (r: TimeControl) {
        TimeControl {
            base_secs: cap_secs(v.base_secs),
            step_secs: cap_secs(v.step_secs),
            byoyomi_secs: cap_secs(v.byoyomi_secs),
        }
    }
}

impl vstd::std_specs::convert::FromSpecImpl<TimeControlInput> for TimeControl {
    open spec fn obeys_from_spec() -> bool {
        true
    }

    open spec fn from_spec(v: TimeControlInput) -> TimeControl {
        control_of(v)
    }
}

/// A loss on time.
#[derive(Clone, Copy, Debug, PartialEq, Eq, Structural)]
pub struct Timeout {
    /// The side that ran out of time and loses.
    pub loser: Color,
}

/// Clock state of one side.
#[derive(Clone, Copy, Debug, PartialEq, Eq, Structural)]
pub struct SideState {
    /// Main time left, in milliseconds.
    pub base_ms: i64,
    /// Whether the side is in byoyomi.
    pub byoyomi: bool,
}

/// What the clock shows, for display.
#[derive(Clone, Copy, Debug)]
pub struct ClockSnapshot {
    /// Main time of the control, in seconds.
    pub base_secs: u32,
    /// Per-move limit of the control, in seconds.
    pub step_secs: u32,
    /// Byoyomi period of the control, in seconds.
    pub byoyomi_secs: u32,
    /// Red's main time left now, in milliseconds (0 in byoyomi).
    pub red_ms: i64,
    /// Black's main time left now, in milliseconds (0 in byoyomi).
    pub black_ms: i64,
    /// Whether Red is in byoyomi.
    pub red_byoyomi: bool,
    /// Whether Black is in byoyomi.
    pub black_byoyomi: bool,
    /// Time left for the current move of the side to move (negative once
    /// exceeded), in milliseconds.
    pub step_left_ms: i64,
    /// Limit of the current move of the side to move, in milliseconds.
    pub step_limit_ms: i64,
}

/// Milliseconds from `since` to `now`: zero when the clock is not running
/// or `now` is not later, and at most `i64::MAX`.
pub open spec fn elapsed_spec(since: Option<u64>, now: u64) -> i64 {
    match since {
        Some(t) => if now <= t {
            0
        } else if now - t > i64::MAX {
            i64::MAX
        } else {
            (now - t) as i64
        },
        None => 0,
    }
}

/// Limit of one move of a side in state `s`: the byoyomi period in
/// byoyomi, otherwise the main time left, capped by the per-move limit
/// when there is one.
pub open spec fn limit_spec(cfg: TimeControl, s: SideState) -> i64 {
    if s.byoyomi {
        (cfg.byoyomi_secs * 1000) as i64
    } else {
        let base: i64 = if s.base_ms < 0 {
            0
        } else {
            s.base_ms
        };
        if cfg.step_secs == 0 || base <= cfg.step_secs * 1000 {
            base
        } else {
            (cfg.step_secs * 1000) as i64
        }
    }
}

/// State of a side after settling a move that used `used` milliseconds.
pub open spec fn settled(s: SideState, used: i64) -> SideState {
    if s.byoyomi {
        s
    } else if s.base_ms - used <= 0 {
        SideState { base_ms: 0, byoyomi: true }
    } else {
        SideState { base_ms: (s.base_ms - used) as i64, byoyomi: false }
    }
}

/// Main time left now of a side in state `s`, when `running` says whether
/// its time is the one elapsing.
pub open spec fn shown_ms(s: SideState, running: bool, elapsed: i64) -> i64 {
    if running && !s.byoyomi {
        if s.base_ms - elapsed < 0 {
            0
        } else {
            (s.base_ms - elapsed) as i64
        }
    } else {
        s.base_ms
    }
}

/// `r` is what clock `c` shows at `now` with `to_move` to move: the side to
/// move's main time is shown as it is now, with the current move's time
/// taken off (unless it is in byoyomi).
pub open spec fn snapshot_ok(c: Clock, to_move: Color, now: u64, r: ClockSnapshot) -> bool {
    let e = elapsed_spec(c.since(), now);
    let lim = limit_spec(c.cfg(), c.side_state(to_move));
    &&& r.base_secs == c.cfg().base_secs
    &&& r.step_secs == c.cfg().step_secs
    &&& r.byoyomi_secs == c.cfg().byoyomi_secs
    &&& r.red_ms == shown_ms(c.side_state(Color::Red), to_move == Color::Red, e)
    &&& r.black_ms == shown_ms(c.side_state(Color::Black), to_move == Color::Black, e)
    &&& r.red_byoyomi == c.side_state(Color::Red).byoyomi
    &&& r.black_byoyomi == c.side_state(Color::Black).byoyomi
    &&& r.step_left_ms == lim - e
    &&& r.step_limit_ms == lim
}

/// A game clock.
#[derive(Clone, Debug)]
pub struct Clock {
    cfg: TimeControl,
    /// Red's state.
    pub red: SideState,
    /// Black's state.
    pub black: SideState,
    since: Option<u64>,
    undo_stack: Vec<(SideState, SideState)>,
}

impl Clock {
    /// The time control.
    pub closed spec fn cfg(&self) -> TimeControl {
        self.cfg
    }

    /// When the current move started, if the clock runs.
    pub closed spec fn since(&self) -> Option<u64> {
        self.since
    }

    /// Both sides' states before each settled move, oldest first.
    pub closed spec fn saved(&self) -> Seq<(SideState, SideState)> {
        self.undo_stack@
    }

    /// State of `side`.
    pub closed spec fn side_state(&self, side: Color) -> SideState {
        match side {
            Color::Red => self.red,
            Color::Black => self.black,
        }
    }

    /// A full clock for `cfg`; without main time both sides start in
    /// byoyomi. The clock does not run yet.
    pub fn new(cfg: TimeControl) -> (r: Clock)
        ensures
            r.cfg() == cfg,
            r.side_state(Color::Red) == (SideState { base_ms: (cfg.base_secs * 1000) as i64, byoyomi: cfg.base_secs == 0 }),
            r.side_state(Color::Black) == r.side_state(Color::Red),
            r.since() is None,
            r.saved().len() == 0,
    {
        let init = SideState { base_ms: cfg.base_secs as i64 * 1000, byoyomi: cfg.base_secs == 0 };
        Clock { cfg, red: init, black: init, since: None, undo_stack: Vec::new() }
    }

    /// Starts timing the side to move at `now`; does nothing when the clock
    /// already runs (so repeated calls keep the first start).
    pub fn start(&mut self, now: u64)
        ensures
            final(self).since() == (match old(self).since() {
                Some(t) => Some(t),
                None => Some(now),
            }),
            final(self).cfg() == old(self).cfg(),
            final(self).side_state(Color::Red) == old(self).side_state(Color::Red),
            final(self).side_state(Color::Black) == old(self).side_state(Color::Black),
            final(self).saved() == old(self).saved(),
    {
        if self.since.is_none() {
            self.since = Some(now);
        }
    }

    /// Stops the clock (game over).
    pub fn stop(&mut self)
        ensures
            final(self).since() is None,
            final(self).cfg() == old(self).cfg(),
            final(self).side_state(Color::Red) == old(self).side_state(Color::Red),
            final(self).side_state(Color::Black) == old(self).side_state(Color::Black),
            final(self).saved() == old(self).saved(),
    {
        self.since = None;
    }

    /// The time control.
    pub fn config(&self) -> (r: TimeControl)
        ensures
            r == self.cfg(),
    {
        self.cfg
    }

    fn state(&self, side: Color) -> (r: SideState)
        ensures
            r == self.side_state(side),
    {
        match side {
            Color::Red => self.red,
            Color::Black => self.black,
        }
    }

    /// Milliseconds the current move has taken at `now`.
    fn elapsed_ms(&self, now: u64) -> (r: i64)
        ensures
            r == elapsed_spec(self.since(), now),
            r >= 0,
    {
        match self.since {
            Some(t) => {
                if now <= t {
                    0
                } else if now - t > i64::MAX as u64 {
                    i64::MAX
                } else {
                    (now - t) as i64
                }
            },
            None => 0,
        }
    }

    /// Limit of the current move of `side`, in milliseconds.
    pub fn limit_ms(&self, side: Color) -> (r: i64)
        ensures
            r == limit_spec(self.cfg(), self.side_state(side)),
            r >= 0,
    {
        let s = self.state(side);
        if s.byoyomi {
            return self.cfg.byoyomi_secs as i64 * 1000;
        }
        let base = if s.base_ms < 0 {
            0
        } else {
            s.base_ms
        };
        if self.cfg.step_secs == 0 {
            base
        } else {
            let step = self.cfg.step_secs as i64 * 1000;
            if base <= step {
                base
            } else {
                step
            }
        }
    }

    /// Milliseconds left for the current move of `side` at `now`
    /// (negative once exceeded).
    pub fn step_left_ms(&self, side: Color, now: u64) -> (r: i64)
        ensures
            r == limit_spec(self.cfg(), self.side_state(side)) - elapsed_spec(self.since(), now),
    {
        self.limit_ms(side) - self.elapsed_ms(now)
    }

    /// Whether `side` has run out of time at `now`. Only reads the clock;
    /// never true while the clock is stopped.
    pub fn timed_out(&self, side: Color, now: u64) -> (r: bool)
        ensures
            r == (self.since() is Some && elapsed_spec(self.since(), now) > limit_spec(
                self.cfg(),
                self.side_state(side),
            )),
    {
        self.since.is_some() && self.elapsed_ms(now) > self.limit_ms(side)
    }

    /// Settles a move of `side` finished at `now`: a move over its limit
    /// loses on time and changes nothing; otherwise the time used comes off
    /// the main time (moving to byoyomi once it is spent), both sides'
    /// states before the move are kept for [`Clock::undo`], the clock stops
    /// and the time used is returned.
    pub fn settle_move(&mut self, side: Color, now: u64) -> (r: Result<i64, Timeout>)
        ensures
            ({
                let used = elapsed_spec(old(self).since(), now);
                if used > limit_spec(old(self).cfg(), old(self).side_state(side)) {
                    &&& r == Err::<i64, Timeout>(Timeout { loser: side })
                    &&& *final(self) == *old(self)
                } else {
                    &&& r == Ok::<i64, Timeout>(used)
                    &&& final(self).cfg() == old(self).cfg()
                    &&& final(self).since() is None
                    &&& final(self).saved() == old(self).saved().push((old(self).side_state(Color::Red), old(self).side_state(Color::Black)))
                    &&& final(self).side_state(side) == settled(old(self).side_state(side), used)
                    &&& final(self).side_state(opp(side)) == old(self).side_state(opp(side))
                }
            }),
    {
        let used = self.elapsed_ms(now);
        if used > self.limit_ms(side) {
            return Err(Timeout { loser: side });
        }
        self.undo_stack.push((self.red, self.black));
        let s = self.state(side);
        let next = if s.byoyomi {
            s
        } else if s.base_ms - used <= 0 {
            SideState { base_ms: 0, byoyomi: true }
        } else {
            SideState { base_ms: s.base_ms - used, byoyomi: false }
        };
        match side {
            Color::Red => self.red = next,
            Color::Black => self.black = next,
        }
        self.since = None;
        Ok(used)
    }

    /// Takes back the last settled move: both sides' states return to what
    /// they were before it and the clock stops. Nothing happens when no move
    /// was settled.
    pub fn undo(&mut self)
        ensures
            old(self).saved().len() == 0 ==> *final(self) == *old(self),
            old(self).saved().len() > 0 ==> {
                &&& final(self).side_state(Color::Red) == old(self).saved().last().0
                &&& final(self).side_state(Color::Black) == old(self).saved().last().1
                &&& final(self).since() is None
                &&& final(self).saved() == old(self).saved().drop_last()
                &&& final(self).cfg() == old(self).cfg()
            },
    {
        if self.undo_stack.len() > 0 {
            let (red, black) = self.undo_stack.pop().unwrap();
            self.red = red;
            self.black = black;
            self.since = None;
        }
    }

    /// What the clock shows at `now` with `to_move` to move: the side to
    /// move's main time is shown as it is now, with the current move's time
    /// taken off (unless it is in byoyomi).
    pub fn snapshot(&self, to_move: Color, now: u64) -> (r: ClockSnapshot)
        requires
            self.side_state(Color::Red).base_ms >= 0,
            self.side_state(Color::Black).base_ms >= 0,
        ensures
            snapshot_ok(*self, to_move, now, r),
    {
        let elapsed = self.elapsed_ms(now);
        let mut red_ms = self.red.base_ms;
        let mut black_ms = self.black.base_ms;
        if !self.state(to_move).byoyomi {
            match to_move {
                Color::Red => {
                    red_ms = if red_ms - elapsed < 0 {
                        0
                    } else {
                        red_ms - elapsed
                    };
                },
                Color::Black => {
                    black_ms = if black_ms - elapsed < 0 {
                        0
                    } else {
                        black_ms - elapsed
                    };
                },
            }
        }
        let limit = self.limit_ms(to_move);
        ClockSnapshot {
            base_secs: self.cfg.base_secs,
            step_secs: self.cfg.step_secs,
            byoyomi_secs: self.cfg.byoyomi_secs,
            red_ms,
            black_ms,
            red_byoyomi: self.red.byoyomi,
            black_byoyomi: self.black.byoyomi,
            step_left_ms: limit - elapsed,
            step_limit_ms: limit,
        }
    }
}

} // verus!
