//! Move commentary: grading, tactic recognition, openings, templates and
//! checks on rewritten text.
pub mod assess;
pub mod knowledge;
pub mod llm;
pub mod note;
pub mod opening;
pub mod review;
pub mod tactic;
pub mod template;

pub use assess::Assessment;
pub use llm::{FactSet, LlmError, LlmResponse, NoLlm, RejectReason, TokenUsage};
pub use note::{LlmStatus, MoveLevel, NoteSource, TacticCategory, Verbosity};
pub use opening::OpeningMatch;
pub use review::{GameContext, MoveReview};
pub use tactic::MoveContext;
pub use knowledge::Knowledge;
pub use template::{RenderContext, Rendered};
