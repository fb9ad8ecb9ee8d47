//! Renders structured compiler diagnostics (errors, warnings, notes, help
//! messages, each optionally annotated with source-code spans) into
//! human-readable, optionally colorized terminal output.
//!
//! The crate is split into a diagnostic data model ([`model`]) and a
//! rendering engine ([`render`]) that projects a diagnostic into an ordered
//! sequence of styled text writes collected by a [`sink::Sink`].

pub mod errors;
pub mod exit;
pub mod model;
pub mod render;
pub mod sink;
pub mod text;
