//! Sources that decode the bytes of a terminal.
pub mod marker;
pub mod mio;
pub mod mio_key_laws;
pub mod mio_laws;
pub mod mio_source;
pub mod tty;
pub mod tty_discard_laws;
pub mod tty_key_laws;
pub mod tty_laws;
pub mod tty_source;
