//! Account state storage.

pub mod state;
