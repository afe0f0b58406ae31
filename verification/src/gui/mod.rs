//! The desktop interface's state and the decisions it makes on it.
pub mod state;
pub mod worker;
