//! Input events.
pub mod bytes;
pub mod filter;
pub mod parse;
pub mod read;
pub mod read_laws;
pub mod read_order_laws;
pub mod source;
pub mod stream_color;
pub mod stream_color_laws;
pub mod types;

pub use types::{
    Event, InputDiscardStatus, InternalEvent, KeyCode, KeyEvent, KeyEventKind, KeyEventState,
    KeyModifiers, KeyboardEnhancementFlags, MediaKeyCode, ModifierKeyCode, MouseButton,
    MouseEvent, MouseEventKind, OscColorPayload,
};
