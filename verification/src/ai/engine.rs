//! The engine facade: a searcher, a playing level and a seeded random
//! source, so that the same seed and inputs give the same games.
use vstd::prelude::*;

use crate::ai::difficulty::{Difficulty, level_limits};
use crate::ai::rng::{RNG_STEP, Rng, seed_state};
use crate::ai::search::{
    MAX_PLY, SearchLimits, SearchResult, Searcher, mates_scored, root_scores_sound, search_reports,
};
use crate::ai::time::StopSignal;
use crate::ai::tt::{DEFAULT_TT_MB, TranspositionTable};
use crate::position::Position;
use crate::rules::same_game;
use crate::zobrist::mix64;

verus! {

/// How to build an [`Engine`].
#[derive(Clone, Copy, Debug)]
pub struct EngineConfig {
    /// Random seed: the same seed and inputs give the same results.
    pub seed: u64,
    /// Transposition table size in MiB.
    pub tt_mb: usize,
    /// Initial level.
    pub difficulty: Difficulty,
}

impl Default for EngineConfig {
    fn default() -> (r: EngineConfig)
        ensures
            r.seed == 0,
            r.tt_mb == DEFAULT_TT_MB,
            r.difficulty == Difficulty::L3,
    {
        EngineConfig { seed: 0, tt_mb: DEFAULT_TT_MB, difficulty: Difficulty::L3 }
    }
}

/// Search engine with a level and a seeded random source.
pub struct Engine {
    searcher: Searcher,
    difficulty: Difficulty,
    rng: Rng,
}

impl Engine {
    /// The searcher is consistent.
    pub closed spec fn wf(&self) -> bool {
        self.searcher.wf()
    }

    /// Current level.
    pub closed spec fn level(&self) -> Difficulty {
        self.difficulty
    }

    /// State of the random source.
    pub closed spec fn rng_state(&self) -> u64 {
        self.rng.state()
    }

    /// Nodes visited by the last search.
    pub closed spec fn node_count(&self) -> u64 {
        self.searcher.node_count()
    }

    /// Node budget of the last search.
    pub closed spec fn node_budget(&self) -> u64 {
        self.searcher.node_budget()
    }

    /// Whether the last search was interrupted.
    pub closed spec fn was_stopped(&self) -> bool {
        self.searcher.was_stopped()
    }

    /// An engine seeded with `seed`, with the default table and level.
    pub fn new(seed: u64) -> (r: Engine)
        ensures
            r.wf(),
            r.level() == Difficulty::L3,
            r.rng_state() == seed_state(seed),
    {
        Self::with_config(EngineConfig { seed, tt_mb: DEFAULT_TT_MB, difficulty: Difficulty::L3 })
    }

    /// An engine built from `config`.
    pub fn with_config(config: EngineConfig) -> (r: Engine)
        requires
            config.tt_mb <= 4095,
        ensures
            r.wf(),
            r.level() == config.difficulty,
            r.rng_state() == seed_state(config.seed),
    {
        Engine {
            searcher: Searcher::new(config.tt_mb),
            difficulty: config.difficulty,
            rng: Rng::new(config.seed),
        }
    }

    /// Sets the level.
    pub fn set_difficulty(&mut self, difficulty: Difficulty)
        ensures
            final(self).level() == difficulty,
            final(self).wf() == old(self).wf(),
            final(self).rng_state() == old(self).rng_state(),
    {
        self.difficulty = difficulty;
    }

    /// Current level.
    pub fn difficulty(&self) -> (r: Difficulty)
        ensures
            r == self.level(),
    {
        self.difficulty
    }

    /// Forgets what earlier games taught the searcher (table, history,
    /// killers), so that a new game is judged on its own.
    pub fn new_game(&mut self)
        requires
            old(self).wf(),
        ensures
            final(self).wf(),
            final(self).level() == old(self).level(),
            final(self).rng_state() == old(self).rng_state(),
            final(self).node_count() == 0,
    {
        self.searcher.reset();
    }

    /// Searches with explicit limits and no randomisation (hints, analysis,
    /// self-play calibration).
    pub fn search_with<S: StopSignal + ?Sized>(&mut self, pos: &mut Position, limits: SearchLimits, stop: &S) -> (r: SearchResult)
        requires
            old(self).wf(),
            old(pos).wf(),
            old(pos).halfmove() + MAX_PLY < 0xffff,
            old(pos).fullmove() + MAX_PLY < 0xffff,
        ensures
            final(self).wf(),
            final(pos).wf(),
            same_game(*final(pos), *old(pos)),
            final(self).level() == old(self).level(),
            final(self).rng_state() == old(self).rng_state(),
            r.nodes == final(self).node_count(),
            r.stopped == final(self).was_stopped(),
            search_reports(old(pos).snap(), limits, r),
            final(self).node_budget() == (match limits.max_nodes {
                Some(n) => n,
                None => u64::MAX,
            }),
            r.stopped ==> r.nodes >= final(self).node_budget() || !stop.never_stops(),
            mates_scored(old(pos).snap(), r.depth as int, limits, r.root_moves@),
            !limits.use_tt && r.depth <= 3 ==> root_scores_sound(
                old(pos).snap(),
                r.depth as int,
                limits.use_quiescence,
                r.root_moves@,
            ),
    {
        self.searcher.search(pos, &limits, stop)
    }

    /// Searches with the current level's limits, before the level picks
    /// among the root moves.
    pub fn search_at_level<S: StopSignal + ?Sized>(&mut self, pos: &mut Position, stop: &S) -> (r: SearchResult)
        requires
            old(self).wf(),
            old(pos).wf(),
            old(pos).halfmove() + MAX_PLY < 0xffff,
            old(pos).fullmove() + MAX_PLY < 0xffff,
        ensures
            final(self).wf(),
            final(pos).wf(),
            same_game(*final(pos), *old(pos)),
            final(self).level() == old(self).level(),
            final(self).rng_state() == old(self).rng_state(),
            r.nodes == final(self).node_count(),
            r.stopped == final(self).was_stopped(),
            search_reports(old(pos).snap(), level_limits(old(self).level()), r),
            r.stopped ==> r.nodes >= final(self).node_budget() || !stop.never_stops(),
    {
        let limits = self.difficulty.limits();
        self.searcher.search(pos, &limits, stop)
    }

    /// Next 64 bits of the engine's random source.
    pub fn next_random(&mut self) -> (r: u64)
        ensures
            final(self).rng_state() == old(self).rng_state().wrapping_add(RNG_STEP),
            r == mix64(final(self).rng_state()),
            final(self).wf() == old(self).wf(),
            final(self).level() == old(self).level(),
    {
        self.rng.next_u64()
    }

    /// The searcher's transposition table.
    pub closed spec fn table_state(&self) -> TranspositionTable {
        self.searcher.table_state()
    }

    /// The searcher's transposition table.
    pub fn table(&self) -> (r: &TranspositionTable)
        ensures
            *r == self.table_state(),
    {
        self.searcher.table()
    }
}

} // verus!
