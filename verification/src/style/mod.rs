//! Colors.
pub mod color;
pub mod query;
pub mod query_laws;
pub mod unsupported;

pub use color::Color;
