//! Verified core of a terminal multiplexer: colour schemes, the bounded
//! output ring, configuration profiles, key and escape handling, and the
//! split-pane layout model.

pub mod palette;
pub mod ring;
pub mod backlog;
pub mod cmdline;
pub mod config;
pub mod keys;
pub mod dev;
pub mod engine;
pub mod width;
pub mod media;
pub mod api;
pub mod text;
pub mod mux;
pub mod shell;
