//! The search engine: evaluation, move ordering, transposition table,
//! principal-variation search and difficulty levels.
pub mod difficulty;
pub mod engine;
pub mod eval;
pub mod ordering;
pub mod rng;
pub mod search;
pub mod time;
pub mod tt;

pub use difficulty::Difficulty;
pub use engine::{Engine, EngineConfig};
pub use rng::Rng;
pub use search::{INF, MATE_SCORE, MATE_THRESHOLD, MAX_PLY, SearchLimits, SearchResult, Searcher};
pub use time::{AtomicStop, NeverStop, NodeLimitedStop, StopSignal};
pub use tt::{DEFAULT_TT_MB, TranspositionTable};
