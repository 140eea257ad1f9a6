//! A sandboxed shell and agent host.
pub mod agent;
pub mod api;
pub mod bundle;
pub mod bundle_laws;
pub mod cli;
pub mod guest;
pub mod host;
pub mod json;
pub mod json_laws;
pub mod shell;
pub mod text;
pub mod text_laws;
pub mod ui;
