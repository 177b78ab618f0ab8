//! Protocol data and the deterministic training rule.

pub mod block;
pub mod digest;
pub mod laws;
pub mod layout_laws;
pub mod model;
pub mod step_laws;
pub mod training;

pub use self::block::{
    Block, BlockHeader, TraceEntry, TrainingTrace, VerificationOutcome, VerificationSample,
};
pub use self::digest::Digest;
pub use self::model::{ModelState, MODEL_WIDTH};
pub use self::training::TrainingStep;
