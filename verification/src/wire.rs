//! The line-based protocol that peers speak.

pub mod complaint_laws;
pub mod envelope;
pub mod fields;
pub mod laws;
pub mod message;
pub mod reading_laws;
pub mod writing_laws;

pub use self::envelope::{
    chain_fingerprint, decode_network_message, encode_network_message, WireConfig,
    PROTOCOL_VERSION, WIRE_MAGIC,
};
pub use self::message::{
    decode_block_message, decode_message, encode_block_message, encode_message, PeerMessage,
};
