//! The rules of a small job scheduler.
#![allow(unused_imports)]

pub mod config;
pub mod format;
pub mod limits;
pub mod mcp;
pub mod models;
pub mod notifications;
pub mod orchestrator;
pub mod poller;
pub mod retention;
pub mod router;
pub mod scheduler;
pub mod serve_state;
pub mod services;
pub mod status;
pub mod text;
pub mod time;
pub mod vars;
