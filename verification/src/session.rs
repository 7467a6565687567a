//! A game session: the position, its record and the clock, and what the
//! front end is sent.
pub mod clock;
pub mod dto;
pub mod game;

pub use clock::{Clock, ClockSnapshot, TimeControl, TimeControlInput, Timeout};
pub use dto::{
    EngineInfo, EngineMoveOutcome, EngineMoveResponse, HintItem, HintOutcome, HintResponse,
    MoveOption, MoveResponse, PieceDto, PlayedMove, StateDto, StateResponse, StatusDto,
};
pub use game::Game;
