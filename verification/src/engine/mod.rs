//! The encryption engine: sealing, the two-slot container, encryption and
//! blind decryption.
pub mod correctness;
pub mod crypto_core;
pub mod file_handler;
pub mod payload_builder;

pub use crypto_core::QuantumEngine;
pub use file_handler::QuantumCapsule;
