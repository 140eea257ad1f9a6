//! The agent: its conversations and the loop that drives one turn.
pub mod block;
pub mod chat;
pub mod payload;
pub mod seg;
pub mod session;
pub mod turn;
pub mod laws;
pub mod runs;
pub mod talk;
