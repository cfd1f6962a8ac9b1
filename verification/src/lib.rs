//! Decision and formatting logic of `displayctl`, a tool that lists and
//! toggles macOS displays.
//!
//! The operating-system queries live in the binary; this library takes their
//! results as plain values and computes what is shown and what is done next.

pub mod text;
pub mod toggle;
pub mod listing;
pub mod discovery;
pub mod cli;
