//! The agent host: logins, subscribers, drivers, tools and stored state.
pub mod auth;
pub mod builtin;
pub mod clock;
pub mod drivers;
pub mod echo;
pub mod grants;
pub mod hub;
pub mod ids;
pub mod laws;
pub mod openai;
pub mod promises;
pub mod registry;
pub mod state;
pub mod store;
pub mod table;
pub mod tools;
pub mod wire;
pub mod wiring;
