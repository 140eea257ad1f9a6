//! The HTTP API: what each request is answered, given what is stored and what runs.
pub mod agents;
pub mod auth;
pub mod message;
pub mod providers;
pub mod reply;
pub mod sessions;
pub mod tools;
pub mod shapes;
