//! Protocol use cases: the simulator, block validation, the chain and fork choice.

pub mod block_laws;
pub mod chain;
pub mod choice_laws;
pub mod fork_choice;
pub mod fork_laws;
pub mod insert_laws;
pub mod mining;
pub mod simulator;
pub mod simulator_laws;
pub mod trace;
pub mod trace_laws;
pub mod validation;
pub mod verdict_laws;

pub use self::chain::ChainState;
pub use self::fork_choice::{ForkChoiceError, ForkChoiceState};
pub use self::simulator::{ProtocolSimulator, SimulationReport, SimulationRequest};
pub use self::validation::{
    block_hash, block_header_hash, validate_block_after, BlockValidationError, ChainConfig,
    ParentContext,
};
