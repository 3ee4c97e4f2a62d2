//! The three encodings of mouse events.
use super::keys::parameters;
use super::number::{number_field, read_number_field, SEMICOLON};
use crate::event::types::{KeyModifiers, MouseButton, MouseEvent, MouseEventKind};
use vstd::prelude::*;
use vstd::slice::slice_subrange;

verus! {

/// What a button code says: the button number in its lowest and highest two bits, a bit for
/// motion, and a bit for each modifier.
pub open spec fn button_code(code: u8) -> Option<(MouseEventKind, KeyModifiers)> {
    let number = (code & 0x03) | ((code & 0xc0) >> 4);
    let motion = code & 0x20 == 0x20;
    let held = KeyModifiers {
        shift: code & 0x04 == 0x04,
        alt: code & 0x08 == 0x08,
        control: code & 0x10 == 0x10,
        ..KeyModifiers::none()
    };
    if number == 0 {
        Some(
            (
                if motion {
                    MouseEventKind::Drag(MouseButton::Left)
                } else {
                    MouseEventKind::Down(MouseButton::Left)
                },
                held,
            ),
        )
    } else if number == 1 {
        Some(
            (
                if motion {
                    MouseEventKind::Drag(MouseButton::Middle)
                } else {
                    MouseEventKind::Down(MouseButton::Middle)
                },
                held,
            ),
        )
    } else if number == 2 {
        Some(
            (
                if motion {
                    MouseEventKind::Drag(MouseButton::Right)
                } else {
                    MouseEventKind::Down(MouseButton::Right)
                },
                held,
            ),
        )
    } else if number == 3 {
        Some(
            (
                if motion {
                    MouseEventKind::Moved
                } else {
                    MouseEventKind::Up(MouseButton::Left)
                },
                held,
            ),
        )
    } else if number == 4 {
        Some(
            (
                if motion {
                    MouseEventKind::Moved
                } else {
                    MouseEventKind::ScrollUp
                },
                held,
            ),
        )
    } else if number == 5 {
        Some(
            (
                if motion {
                    MouseEventKind::Moved
                } else {
                    MouseEventKind::ScrollDown
                },
                held,
            ),
        )
    } else if number == 6 && !motion {
        Some((MouseEventKind::ScrollLeft, held))
    } else if number == 7 && !motion {
        Some((MouseEventKind::ScrollRight, held))
    } else {
        None
    }
}

fn read_button_code(code: u8) -> (r: Option<(MouseEventKind, KeyModifiers)>)
    ensures
        r == button_code(code),
{
    let number: u8 = (code & 0x03) | ((code & 0xc0) >> 4);
    let motion = code & 0x20 == 0x20;
    let held = KeyModifiers {
        shift: code & 0x04 == 0x04,
        alt: code & 0x08 == 0x08,
        control: code & 0x10 == 0x10,
        ..KeyModifiers::none()
    };
    let kind = if number <= 2 {
        let button = if number == 0 {
            MouseButton::Left
        } else if number == 1 {
            MouseButton::Middle
        } else {
            MouseButton::Right
        };
        if motion {
            MouseEventKind::Drag(button)
        } else {
            MouseEventKind::Down(button)
        }
    } else if number <= 5 && motion {
        MouseEventKind::Moved
    } else if number == 3 {
        MouseEventKind::Up(MouseButton::Left)
    } else if number == 4 {
        MouseEventKind::ScrollUp
    } else if number == 5 {
        MouseEventKind::ScrollDown
    } else if number == 6 && !motion {
        MouseEventKind::ScrollLeft
    } else if number == 7 && !motion {
        MouseEventKind::ScrollRight
    } else {
        return None;
    };
    Some((kind, held))
}

/// The mouse event for a button code and a position that counts from one.
pub open spec fn mouse_at(code: u8, column: nat, row: nat) -> Option<MouseEvent> {
    match button_code(code) {
        Some((kind, held)) => if 1 <= column && 1 <= row {
            Some(
                MouseEvent {
                    kind,
                    column: (column - 1) as u16,
                    row: (row - 1) as u16,
                    modifiers: held,
                },
            )
        } else {
            None
        },
        None => None,
    }
}

fn read_mouse_at(code: u8, column: u16, row: u16) -> (r: Option<MouseEvent>)
    ensures
        r == mouse_at(code, column as nat, row as nat),
{
    match read_button_code(code) {
        Some((kind, held)) => if 1 <= column && 1 <= row {
            Some(MouseEvent { kind, column: column - 1, row: row - 1, modifiers: held })
        } else {
            None
        },
        None => None,
    }
}

/// The event of the encoding in three bytes behind `ESC [ M`, each of them 32 more than what it
/// stands for.
pub open spec fn x10_mouse(sequence: Seq<u8>) -> Option<MouseEvent> {
    if sequence[3] < 32 || sequence[4] < 32 || sequence[5] < 32 {
        None
    } else {
        mouse_at(
            (sequence[3] - 32) as u8,
            (sequence[4] - 32) as nat,
            (sequence[5] - 32) as nat,
        )
    }
}

/// Reads the encoding in three bytes.
pub fn read_x10_mouse(sequence: &[u8]) -> (r: Option<MouseEvent>)
    requires
        sequence@.len() >= 6,
    ensures
        r == x10_mouse(sequence@),
{
    if sequence[3] < 32 || sequence[4] < 32 || sequence[5] < 32 {
        None
    } else {
        let column: u8 = sequence[4] - 32;
        let row: u8 = sequence[5] - 32;
        read_mouse_at(sequence[3] - 32, column as u16, row as u16)
    }
}

/// The event in three decimal parameters, whose button code is `offset` more than what it stands
/// for.
pub open spec fn decimal_mouse(parameters: Seq<u8>, offset: nat) -> Option<MouseEvent> {
    match number_field(parameters, SEMICOLON, 0, 255) {
        Some(code) => match number_field(parameters, SEMICOLON, 1, 0xffff) {
            Some(column) => match number_field(parameters, SEMICOLON, 2, 0xffff) {
                Some(row) => if offset <= code {
                    mouse_at((code - offset) as u8, column, row)
                } else {
                    None
                },
                None => None,
            },
            None => None,
        },
        None => None,
    }
}

fn read_decimal_mouse(parameters: &[u8], offset: u32) -> (r: Option<MouseEvent>)
    ensures
        r == decimal_mouse(parameters@, offset as nat),
{
    match read_number_field(parameters, SEMICOLON, 0, 255) {
        Some(code) => match read_number_field(parameters, SEMICOLON, 1, 0xffff) {
            Some(column) => match read_number_field(parameters, SEMICOLON, 2, 0xffff) {
                Some(row) => if offset <= code {
                    read_mouse_at((code - offset) as u8, column as u16, row as u16)
                } else {
                    None
                },
                None => None,
            },
            None => None,
        },
        None => None,
    }
}

/// The event of the encoding `ESC [ Cb ; Cx ; Cy ; M`.
pub open spec fn rxvt_mouse(sequence: Seq<u8>) -> Option<MouseEvent> {
    decimal_mouse(parameters(sequence), 32)
}

/// Reads the encoding `ESC [ Cb ; Cx ; Cy ; M`.
pub fn read_rxvt_mouse(sequence: &[u8]) -> (r: Option<MouseEvent>)
    requires
        sequence@.len() > 3,
    ensures
        r == rxvt_mouse(sequence@),
{
    read_decimal_mouse(slice_subrange(sequence, 2, sequence.len() - 1), 32)
}

/// The event of the encoding `ESC [ < Cb ; Cx ; Cy M`, in which a final `m` tells of a release.
pub open spec fn sgr_mouse(sequence: Seq<u8>) -> Option<MouseEvent> {
    match decimal_mouse(sequence.subrange(3, sequence.len() - 1), 0) {
        Some(event) => match event.kind {
            MouseEventKind::Down(button) => Some(
                MouseEvent {
                    kind: if sequence.last() == 0x6d {
                        MouseEventKind::Up(button)
                    } else {
                        event.kind
                    },
                    ..event
                },
            ),
            _ => Some(event),
        },
        None => None,
    }
}

/// Reads the encoding `ESC [ < Cb ; Cx ; Cy M`.
pub fn read_sgr_mouse(sequence: &[u8]) -> (r: Option<MouseEvent>)
    requires
        sequence@.len() > 3,
    ensures
        r == sgr_mouse(sequence@),
{
    match read_decimal_mouse(slice_subrange(sequence, 3, sequence.len() - 1), 0) {
        Some(event) => match event.kind {
            MouseEventKind::Down(button) => if sequence[sequence.len() - 1] == 0x6d {
                Some(MouseEvent { kind: MouseEventKind::Up(button), ..event })
            } else {
                Some(event)
            },
            _ => Some(event),
        },
        None => None,
    }
}

} // verus!
