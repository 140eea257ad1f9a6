//! The tools that run inside a sandbox.
pub mod bash;

pub mod time;
pub mod laws;
