//! DIEGOX: a lattice (LWE) encryption suite with a two-slot container.
pub mod chacha;
pub mod coeffs;
pub mod config;
pub mod digest;
pub mod engine;
pub mod gui;
pub mod kdf;
pub mod keys;
pub mod lattice;
pub mod ring;
pub mod text;
