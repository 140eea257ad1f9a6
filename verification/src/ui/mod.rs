//! What the pages decide: the stream they show, the forms they send.
pub mod admin;
pub mod chat;
pub mod laws;
pub mod login;
pub mod markdown;
pub mod page;
pub mod shell;
pub mod sse;
pub mod types;
