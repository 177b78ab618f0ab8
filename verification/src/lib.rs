//! ChessCoin: deterministic proof-of-training blocks for a chess model.

pub mod adapter_laws;
pub mod adapters;
pub mod application;
pub mod bits;
pub mod cli;
pub mod contract_laws;
pub mod decimal;
pub mod domain;
pub mod line_laws;
pub mod node;
pub mod ports;
pub mod storage;
pub mod text;
pub mod text_laws;
pub mod view_laws;
pub mod wire;
pub mod word_laws;
