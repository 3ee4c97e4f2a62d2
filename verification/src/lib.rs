//! Terminal input: decoding bytes into events, queueing them, and asking the terminal for its
//! default colors.
pub mod error;
pub mod event;
pub mod style;
pub mod time;
