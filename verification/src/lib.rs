//! Type-safe generative programming: structured, validated language-model
//! output through instruct-validate-repair loops.
//!
//! An `Instruction` says what is wanted; its `Requirement`s are checked
//! against every output; `RejectionSampling` decides, attempt by attempt,
//! whether to accept the output, to ask for a repair, or to give up with the
//! full history. The `Context` keeps the conversation as an append-only list
//! of turns.
pub mod context;
pub mod error;
pub mod generative;
pub mod instruction;
pub mod json;
pub mod message;
pub mod output;
pub mod requirement;
pub mod session;
pub mod strategy;
pub mod text;

pub use context::{Context, Turn};
pub use error::{MelleaError, ValidationAttempt, ValidationFailure};
pub use generative::{GenerativeSlot, GenerativeSlotBuilder, ParamDef};
pub use instruction::{Example, Instruction};
pub use json::JsonValue;
pub use message::{ChatMessage, ChatMessageExt, Role};
pub use output::{strip_json_artifacts, ModelOutput, Usage};
pub use requirement::{
    DecodeFn, JsonDecoder, Requirement, RequirementBuilder, Rule, TypedRequirement,
    ValidationResult,
};
pub use strategy::{LoopStep, RejectionSampling, RepairLoop, SamplingAttempt, SamplingResult};
