//! The keys that control sequences name.
use super::number::{number_field, read_number_field, COLON, SEMICOLON};
use crate::event::types::{
    KeyCode, KeyEvent, KeyEventKind, KeyEventState, KeyModifiers, MediaKeyCode, ModifierKeyCode,
};
use vstd::prelude::*;
use vstd::slice::slice_subrange;

verus! {

/// The key whose sequence ends in this byte: a cursor key, or F1 to F4.
pub open spec fn final_key(last: u8) -> Option<KeyCode> {
    match last {
        0x41 => Some(KeyCode::Up),
        0x42 => Some(KeyCode::Down),
        0x43 => Some(KeyCode::Right),
        0x44 => Some(KeyCode::Left),
        0x46 => Some(KeyCode::End),
        0x48 => Some(KeyCode::Home),
        0x50 => Some(KeyCode::F(1)),
        0x51 => Some(KeyCode::F(2)),
        0x52 => Some(KeyCode::F(3)),
        0x53 => Some(KeyCode::F(4)),
        _ => None,
    }
}

/// Returns the key whose sequence ends in this byte.
pub fn key_for_final(last: u8) -> (r: Option<KeyCode>)
    ensures
        r == final_key(last),
{
    match last {
        0x41 => Some(KeyCode::Up),
        0x42 => Some(KeyCode::Down),
        0x43 => Some(KeyCode::Right),
        0x44 => Some(KeyCode::Left),
        0x46 => Some(KeyCode::End),
        0x48 => Some(KeyCode::Home),
        0x50 => Some(KeyCode::F(1)),
        0x51 => Some(KeyCode::F(2)),
        0x52 => Some(KeyCode::F(3)),
        0x53 => Some(KeyCode::F(4)),
        _ => None,
    }
}

/// The key with this number in a sequence that ends in a tilde.
pub open spec fn tilde_key(number: u32) -> Option<KeyCode> {
    match number {
        1 | 7 => Some(KeyCode::Home),
        2 => Some(KeyCode::Insert),
        3 => Some(KeyCode::Delete),
        4 | 8 => Some(KeyCode::End),
        5 => Some(KeyCode::PageUp),
        6 => Some(KeyCode::PageDown),
        11 => Some(KeyCode::F(1)),
        12 => Some(KeyCode::F(2)),
        13 => Some(KeyCode::F(3)),
        14 => Some(KeyCode::F(4)),
        15 => Some(KeyCode::F(5)),
        17 => Some(KeyCode::F(6)),
        18 => Some(KeyCode::F(7)),
        19 => Some(KeyCode::F(8)),
        20 => Some(KeyCode::F(9)),
        21 => Some(KeyCode::F(10)),
        23 => Some(KeyCode::F(11)),
        24 => Some(KeyCode::F(12)),
        25 => Some(KeyCode::F(13)),
        26 => Some(KeyCode::F(14)),
        28 => Some(KeyCode::F(15)),
        29 => Some(KeyCode::F(16)),
        31 => Some(KeyCode::F(17)),
        32 => Some(KeyCode::F(18)),
        33 => Some(KeyCode::F(19)),
        34 => Some(KeyCode::F(20)),
        _ => None,
    }
}

/// Returns the key with this number in a sequence that ends in a tilde.
pub fn key_for_number(number: u32) -> (r: Option<KeyCode>)
    ensures
        r == tilde_key(number),
{
    match number {
        1 | 7 => Some(KeyCode::Home),
        2 => Some(KeyCode::Insert),
        3 => Some(KeyCode::Delete),
        4 | 8 => Some(KeyCode::End),
        5 => Some(KeyCode::PageUp),
        6 => Some(KeyCode::PageDown),
        11 => Some(KeyCode::F(1)),
        12 => Some(KeyCode::F(2)),
        13 => Some(KeyCode::F(3)),
        14 => Some(KeyCode::F(4)),
        15 => Some(KeyCode::F(5)),
        17 => Some(KeyCode::F(6)),
        18 => Some(KeyCode::F(7)),
        19 => Some(KeyCode::F(8)),
        20 => Some(KeyCode::F(9)),
        21 => Some(KeyCode::F(10)),
        23 => Some(KeyCode::F(11)),
        24 => Some(KeyCode::F(12)),
        25 => Some(KeyCode::F(13)),
        26 => Some(KeyCode::F(14)),
        28 => Some(KeyCode::F(15)),
        29 => Some(KeyCode::F(16)),
        31 => Some(KeyCode::F(17)),
        32 => Some(KeyCode::F(18)),
        33 => Some(KeyCode::F(19)),
        34 => Some(KeyCode::F(20)),
        _ => None,
    }
}

/// The key on the keypad with this code.
pub open spec fn keypad_key(code: u32) -> Option<KeyCode> {
    match code {
        57399 => Some(KeyCode::Char('0')),
        57400 => Some(KeyCode::Char('1')),
        57401 => Some(KeyCode::Char('2')),
        57402 => Some(KeyCode::Char('3')),
        57403 => Some(KeyCode::Char('4')),
        57404 => Some(KeyCode::Char('5')),
        57405 => Some(KeyCode::Char('6')),
        57406 => Some(KeyCode::Char('7')),
        57407 => Some(KeyCode::Char('8')),
        57408 => Some(KeyCode::Char('9')),
        57409 => Some(KeyCode::Char('.')),
        57410 => Some(KeyCode::Char('/')),
        57411 => Some(KeyCode::Char('*')),
        57412 => Some(KeyCode::Char('-')),
        57413 => Some(KeyCode::Char('+')),
        57414 => Some(KeyCode::Enter),
        57415 => Some(KeyCode::Char('=')),
        57416 => Some(KeyCode::Char(',')),
        57417 => Some(KeyCode::Left),
        57418 => Some(KeyCode::Right),
        57419 => Some(KeyCode::Up),
        57420 => Some(KeyCode::Down),
        57421 => Some(KeyCode::PageUp),
        57422 => Some(KeyCode::PageDown),
        57423 => Some(KeyCode::Home),
        57424 => Some(KeyCode::End),
        57425 => Some(KeyCode::Insert),
        57426 => Some(KeyCode::Delete),
        57427 => Some(KeyCode::KeypadBegin),
        _ => None,
    }
}

/// Returns the key on the keypad with this code.
pub fn key_on_keypad(code: u32) -> (r: Option<KeyCode>)
    ensures
        r == keypad_key(code),
{
    match code {
        57399 => Some(KeyCode::Char('0')),
        57400 => Some(KeyCode::Char('1')),
        57401 => Some(KeyCode::Char('2')),
        57402 => Some(KeyCode::Char('3')),
        57403 => Some(KeyCode::Char('4')),
        57404 => Some(KeyCode::Char('5')),
        57405 => Some(KeyCode::Char('6')),
        57406 => Some(KeyCode::Char('7')),
        57407 => Some(KeyCode::Char('8')),
        57408 => Some(KeyCode::Char('9')),
        57409 => Some(KeyCode::Char('.')),
        57410 => Some(KeyCode::Char('/')),
        57411 => Some(KeyCode::Char('*')),
        57412 => Some(KeyCode::Char('-')),
        57413 => Some(KeyCode::Char('+')),
        57414 => Some(KeyCode::Enter),
        57415 => Some(KeyCode::Char('=')),
        57416 => Some(KeyCode::Char(',')),
        57417 => Some(KeyCode::Left),
        57418 => Some(KeyCode::Right),
        57419 => Some(KeyCode::Up),
        57420 => Some(KeyCode::Down),
        57421 => Some(KeyCode::PageUp),
        57422 => Some(KeyCode::PageDown),
        57423 => Some(KeyCode::Home),
        57424 => Some(KeyCode::End),
        57425 => Some(KeyCode::Insert),
        57426 => Some(KeyCode::Delete),
        57427 => Some(KeyCode::KeypadBegin),
        _ => None,
    }
}

/// The key with this code that is neither a character nor on the keypad.
pub open spec fn functional_key(code: u32) -> Option<KeyCode> {
    match code {
        57358 => Some(KeyCode::CapsLock),
        57359 => Some(KeyCode::ScrollLock),
        57360 => Some(KeyCode::NumLock),
        57361 => Some(KeyCode::PrintScreen),
        57362 => Some(KeyCode::Pause),
        57363 => Some(KeyCode::Menu),
        57376 => Some(KeyCode::F(13)),
        57377 => Some(KeyCode::F(14)),
        57378 => Some(KeyCode::F(15)),
        57379 => Some(KeyCode::F(16)),
        57380 => Some(KeyCode::F(17)),
        57381 => Some(KeyCode::F(18)),
        57382 => Some(KeyCode::F(19)),
        57383 => Some(KeyCode::F(20)),
        57384 => Some(KeyCode::F(21)),
        57385 => Some(KeyCode::F(22)),
        57386 => Some(KeyCode::F(23)),
        57387 => Some(KeyCode::F(24)),
        57388 => Some(KeyCode::F(25)),
        57389 => Some(KeyCode::F(26)),
        57390 => Some(KeyCode::F(27)),
        57391 => Some(KeyCode::F(28)),
        57392 => Some(KeyCode::F(29)),
        57393 => Some(KeyCode::F(30)),
        57394 => Some(KeyCode::F(31)),
        57395 => Some(KeyCode::F(32)),
        57396 => Some(KeyCode::F(33)),
        57397 => Some(KeyCode::F(34)),
        57398 => Some(KeyCode::F(35)),
        57428 => Some(KeyCode::Media(MediaKeyCode::Play)),
        57429 => Some(KeyCode::Media(MediaKeyCode::Pause)),
        57430 => Some(KeyCode::Media(MediaKeyCode::PlayPause)),
        57431 => Some(KeyCode::Media(MediaKeyCode::Reverse)),
        57432 => Some(KeyCode::Media(MediaKeyCode::Stop)),
        57433 => Some(KeyCode::Media(MediaKeyCode::FastForward)),
        57434 => Some(KeyCode::Media(MediaKeyCode::Rewind)),
        57435 => Some(KeyCode::Media(MediaKeyCode::TrackNext)),
        57436 => Some(KeyCode::Media(MediaKeyCode::TrackPrevious)),
        57437 => Some(KeyCode::Media(MediaKeyCode::Record)),
        57438 => Some(KeyCode::Media(MediaKeyCode::LowerVolume)),
        57439 => Some(KeyCode::Media(MediaKeyCode::RaiseVolume)),
        57440 => Some(KeyCode::Media(MediaKeyCode::MuteVolume)),
        57441 => Some(KeyCode::Modifier(ModifierKeyCode::LeftShift)),
        57442 => Some(KeyCode::Modifier(ModifierKeyCode::LeftControl)),
        57443 => Some(KeyCode::Modifier(ModifierKeyCode::LeftAlt)),
        57444 => Some(KeyCode::Modifier(ModifierKeyCode::LeftSuper)),
        57445 => Some(KeyCode::Modifier(ModifierKeyCode::LeftHyper)),
        57446 => Some(KeyCode::Modifier(ModifierKeyCode::LeftMeta)),
        57447 => Some(KeyCode::Modifier(ModifierKeyCode::RightShift)),
        57448 => Some(KeyCode::Modifier(ModifierKeyCode::RightControl)),
        57449 => Some(KeyCode::Modifier(ModifierKeyCode::RightAlt)),
        57450 => Some(KeyCode::Modifier(ModifierKeyCode::RightSuper)),
        57451 => Some(KeyCode::Modifier(ModifierKeyCode::RightHyper)),
        57452 => Some(KeyCode::Modifier(ModifierKeyCode::RightMeta)),
        57453 => Some(KeyCode::Modifier(ModifierKeyCode::IsoLevel3Shift)),
        57454 => Some(KeyCode::Modifier(ModifierKeyCode::IsoLevel5Shift)),
        _ => None,
    }
}

/// Returns the key with this code that is neither a character nor on the keypad.
pub fn key_with_function(code: u32) -> (r: Option<KeyCode>)
    ensures
        r == functional_key(code),
{
    match code {
        57358 => Some(KeyCode::CapsLock),
        57359 => Some(KeyCode::ScrollLock),
        57360 => Some(KeyCode::NumLock),
        57361 => Some(KeyCode::PrintScreen),
        57362 => Some(KeyCode::Pause),
        57363 => Some(KeyCode::Menu),
        57376 => Some(KeyCode::F(13)),
        57377 => Some(KeyCode::F(14)),
        57378 => Some(KeyCode::F(15)),
        57379 => Some(KeyCode::F(16)),
        57380 => Some(KeyCode::F(17)),
        57381 => Some(KeyCode::F(18)),
        57382 => Some(KeyCode::F(19)),
        57383 => Some(KeyCode::F(20)),
        57384 => Some(KeyCode::F(21)),
        57385 => Some(KeyCode::F(22)),
        57386 => Some(KeyCode::F(23)),
        57387 => Some(KeyCode::F(24)),
        57388 => Some(KeyCode::F(25)),
        57389 => Some(KeyCode::F(26)),
        57390 => Some(KeyCode::F(27)),
        57391 => Some(KeyCode::F(28)),
        57392 => Some(KeyCode::F(29)),
        57393 => Some(KeyCode::F(30)),
        57394 => Some(KeyCode::F(31)),
        57395 => Some(KeyCode::F(32)),
        57396 => Some(KeyCode::F(33)),
        57397 => Some(KeyCode::F(34)),
        57398 => Some(KeyCode::F(35)),
        57428 => Some(KeyCode::Media(MediaKeyCode::Play)),
        57429 => Some(KeyCode::Media(MediaKeyCode::Pause)),
        57430 => Some(KeyCode::Media(MediaKeyCode::PlayPause)),
        57431 => Some(KeyCode::Media(MediaKeyCode::Reverse)),
        57432 => Some(KeyCode::Media(MediaKeyCode::Stop)),
        57433 => Some(KeyCode::Media(MediaKeyCode::FastForward)),
        57434 => Some(KeyCode::Media(MediaKeyCode::Rewind)),
        57435 => Some(KeyCode::Media(MediaKeyCode::TrackNext)),
        57436 => Some(KeyCode::Media(MediaKeyCode::TrackPrevious)),
        57437 => Some(KeyCode::Media(MediaKeyCode::Record)),
        57438 => Some(KeyCode::Media(MediaKeyCode::LowerVolume)),
        57439 => Some(KeyCode::Media(MediaKeyCode::RaiseVolume)),
        57440 => Some(KeyCode::Media(MediaKeyCode::MuteVolume)),
        57441 => Some(KeyCode::Modifier(ModifierKeyCode::LeftShift)),
        57442 => Some(KeyCode::Modifier(ModifierKeyCode::LeftControl)),
        57443 => Some(KeyCode::Modifier(ModifierKeyCode::LeftAlt)),
        57444 => Some(KeyCode::Modifier(ModifierKeyCode::LeftSuper)),
        57445 => Some(KeyCode::Modifier(ModifierKeyCode::LeftHyper)),
        57446 => Some(KeyCode::Modifier(ModifierKeyCode::LeftMeta)),
        57447 => Some(KeyCode::Modifier(ModifierKeyCode::RightShift)),
        57448 => Some(KeyCode::Modifier(ModifierKeyCode::RightControl)),
        57449 => Some(KeyCode::Modifier(ModifierKeyCode::RightAlt)),
        57450 => Some(KeyCode::Modifier(ModifierKeyCode::RightSuper)),
        57451 => Some(KeyCode::Modifier(ModifierKeyCode::RightHyper)),
        57452 => Some(KeyCode::Modifier(ModifierKeyCode::RightMeta)),
        57453 => Some(KeyCode::Modifier(ModifierKeyCode::IsoLevel3Shift)),
        57454 => Some(KeyCode::Modifier(ModifierKeyCode::IsoLevel5Shift)),
        _ => None,
    }
}

/// The modifiers that a parameter stands for: one more than a bit for each of them.
pub open spec fn modifiers(parameter: u8) -> KeyModifiers {
    let mask: u8 = if parameter == 0 {
        0
    } else {
        (parameter - 1) as u8
    };
    KeyModifiers {
        shift: mask & 1 != 0,
        alt: mask & 2 != 0,
        control: mask & 4 != 0,
        super_key: mask & 8 != 0,
        hyper: mask & 16 != 0,
        meta: mask & 32 != 0,
    }
}

/// The locks that the same parameter stands for.
pub open spec fn locks(parameter: u8) -> KeyEventState {
    let mask: u8 = if parameter == 0 {
        0
    } else {
        (parameter - 1) as u8
    };
    KeyEventState { keypad: false, caps_lock: mask & 64 != 0, num_lock: mask & 128 != 0 }
}

/// Whether the key went down, repeats or went up.
pub open spec fn event_kind(code: u8) -> KeyEventKind {
    match code {
        2 => KeyEventKind::Repeat,
        3 => KeyEventKind::Release,
        _ => KeyEventKind::Press,
    }
}

fn read_modifiers(parameter: u8) -> (r: KeyModifiers)
    ensures
        r == modifiers(parameter),
{
    let mask: u8 = if parameter == 0 {
        0
    } else {
        parameter - 1
    };
    KeyModifiers {
        shift: mask & 1 != 0,
        alt: mask & 2 != 0,
        control: mask & 4 != 0,
        super_key: mask & 8 != 0,
        hyper: mask & 16 != 0,
        meta: mask & 32 != 0,
    }
}

fn read_locks(parameter: u8) -> (r: KeyEventState)
    ensures
        r == locks(parameter),
{
    let mask: u8 = if parameter == 0 {
        0
    } else {
        parameter - 1
    };
    KeyEventState { keypad: false, caps_lock: mask & 64 != 0, num_lock: mask & 128 != 0 }
}

fn read_event_kind(code: u8) -> (r: KeyEventKind)
    ensures
        r == event_kind(code),
{
    match code {
        2 => KeyEventKind::Repeat,
        3 => KeyEventKind::Release,
        _ => KeyEventKind::Press,
    }
}

/// What the second parameter says: the modifiers, and after a colon the kind of the event.
/// Where it is no number, it says nothing.
pub open spec fn modifiers_and_kind(parameters: Seq<u8>) -> Option<(u8, u8)> {
    match super::number::field(parameters, SEMICOLON, 1) {
        Some(parts) => match number_field(parts, COLON, 0, 255) {
            Some(mask) => Some(
                (
                    mask as u8,
                    match number_field(parts, COLON, 1, 255) {
                        Some(kind) => kind as u8,
                        None => 1u8,
                    },
                ),
            ),
            None => None,
        },
        None => None,
    }
}

fn read_modifiers_and_kind(parameters: &[u8]) -> (r: Option<(u8, u8)>)
    ensures
        r == modifiers_and_kind(parameters@),
{
    match super::number::nth_field(parameters, SEMICOLON, 1) {
        Some(parts) => match read_number_field(parts, COLON, 0, 255) {
            Some(mask) => {
                let kind: u8 = match read_number_field(parts, COLON, 1, 255) {
                    Some(kind) => kind as u8,
                    None => 1,
                };
                Some((mask as u8, kind))
            },
            None => None,
        },
        None => None,
    }
}

/// The parameters of a control sequence: what stands between its introducer and its last byte.
pub open spec fn parameters(sequence: Seq<u8>) -> Seq<u8> {
    sequence.subrange(2, sequence.len() - 1)
}

/// The key event of a sequence that names its key by its last byte. Modifiers stand in the second
/// parameter; where there is none, the digit before the last byte stands for them.
pub open spec fn key_with_modifiers(sequence: Seq<u8>) -> Option<KeyEvent> {
    let digit = sequence[sequence.len() - 2];
    match final_key(sequence.last()) {
        Some(code) => match modifiers_and_kind(parameters(sequence)) {
            Some((mask, kind)) => Some(
                KeyEvent {
                    code,
                    modifiers: modifiers(mask),
                    kind: event_kind(kind),
                    state: KeyEventState::none(),
                },
            ),
            None => if 0x30 <= digit <= 0x39 {
                Some(KeyEvent::new(code, modifiers((digit - 0x30) as u8)))
            } else {
                None
            },
        },
        None => None,
    }
}

/// Reads a sequence that names its key by its last byte.
pub fn read_key_with_modifiers(sequence: &[u8]) -> (r: Option<KeyEvent>)
    requires
        sequence@.len() > 3,
    ensures
        r == key_with_modifiers(sequence@),
{
    let digit: u8 = sequence[sequence.len() - 2];
    let code = match key_for_final(sequence[sequence.len() - 1]) {
        Some(code) => code,
        None => return None,
    };
    let parameters = slice_subrange(sequence, 2, sequence.len() - 1);
    match read_modifiers_and_kind(parameters) {
        Some((mask, kind)) => Some(
            KeyEvent {
                code,
                modifiers: read_modifiers(mask),
                kind: read_event_kind(kind),
                state: KeyEventState::none(),
            },
        ),
        None => if 0x30 <= digit && digit <= 0x39 {
            Some(KeyEvent::new(code, read_modifiers(digit - 0x30)))
        } else {
            None
        },
    }
}

/// The key event of a sequence that ends in a tilde and names its key by number.
pub open spec fn numbered_key(sequence: Seq<u8>) -> Option<KeyEvent> {
    match number_field(parameters(sequence), SEMICOLON, 0, 255) {
        Some(number) => match tilde_key(number as u32) {
            Some(code) => Some(key_with_parameter(code, parameters(sequence))),
            None => None,
        },
        None => None,
    }
}

/// A key event with what the second parameter says of it.
pub open spec fn key_with_parameter(code: KeyCode, parameters: Seq<u8>) -> KeyEvent {
    match modifiers_and_kind(parameters) {
        Some((mask, kind)) => KeyEvent {
            code,
            modifiers: modifiers(mask),
            kind: event_kind(kind),
            state: locks(mask),
        },
        None => KeyEvent::new(code, KeyModifiers::none()),
    }
}

fn read_key_with_parameter(code: KeyCode, parameters: &[u8]) -> (r: KeyEvent)
    ensures
        r == key_with_parameter(code, parameters@),
{
    match read_modifiers_and_kind(parameters) {
        Some((mask, kind)) => KeyEvent {
            code,
            modifiers: read_modifiers(mask),
            kind: read_event_kind(kind),
            state: read_locks(mask),
        },
        None => KeyEvent::new(code, KeyModifiers::none()),
    }
}

/// Reads a sequence that ends in a tilde and names its key by number.
pub fn read_numbered_key(sequence: &[u8]) -> (r: Option<KeyEvent>)
    requires
        sequence@.len() > 3,
    ensures
        r == numbered_key(sequence@),
{
    let parameters = slice_subrange(sequence, 2, sequence.len() - 1);
    match read_number_field(parameters, SEMICOLON, 0, 255) {
        Some(number) => match key_for_number(number) {
            Some(code) => Some(read_key_with_parameter(code, parameters)),
            None => None,
        },
        None => None,
    }
}

/// Whether a number is a Unicode scalar value, which is what a `char` holds.
pub open spec fn is_scalar_value(code: nat) -> bool {
    code <= 0xd7ff || 0xe000 <= code <= 0x10ffff
}

/// `char::from_u32` turns a Unicode scalar value into the character and rejects other numbers.
pub assume_specification[ char::from_u32 ](code: u32) -> (r: Option<char>)
    ensures
        r is Some <==> is_scalar_value(code as nat),
        r matches Some(c) ==> c == code as char,
;

/// The modifiers with the one that the key itself is.
pub open spec fn with_own_modifier(code: KeyCode, held: KeyModifiers) -> KeyModifiers {
    match code {
        KeyCode::Modifier(ModifierKeyCode::LeftShift | ModifierKeyCode::RightShift) => {
            KeyModifiers { shift: true, ..held }
        },
        KeyCode::Modifier(ModifierKeyCode::LeftControl | ModifierKeyCode::RightControl) => {
            KeyModifiers { control: true, ..held }
        },
        KeyCode::Modifier(ModifierKeyCode::LeftAlt | ModifierKeyCode::RightAlt) => {
            KeyModifiers { alt: true, ..held }
        },
        KeyCode::Modifier(ModifierKeyCode::LeftSuper | ModifierKeyCode::RightSuper) => {
            KeyModifiers { super_key: true, ..held }
        },
        KeyCode::Modifier(ModifierKeyCode::LeftHyper | ModifierKeyCode::RightHyper) => {
            KeyModifiers { hyper: true, ..held }
        },
        KeyCode::Modifier(ModifierKeyCode::LeftMeta | ModifierKeyCode::RightMeta) => {
            KeyModifiers { meta: true, ..held }
        },
        _ => held,
    }
}

fn add_own_modifier(code: KeyCode, held: KeyModifiers) -> (r: KeyModifiers)
    ensures
        r == with_own_modifier(code, held),
{
    match code {
        KeyCode::Modifier(ModifierKeyCode::LeftShift | ModifierKeyCode::RightShift) => {
            KeyModifiers { shift: true, ..held }
        },
        KeyCode::Modifier(ModifierKeyCode::LeftControl | ModifierKeyCode::RightControl) => {
            KeyModifiers { control: true, ..held }
        },
        KeyCode::Modifier(ModifierKeyCode::LeftAlt | ModifierKeyCode::RightAlt) => {
            KeyModifiers { alt: true, ..held }
        },
        KeyCode::Modifier(ModifierKeyCode::LeftSuper | ModifierKeyCode::RightSuper) => {
            KeyModifiers { super_key: true, ..held }
        },
        KeyCode::Modifier(ModifierKeyCode::LeftHyper | ModifierKeyCode::RightHyper) => {
            KeyModifiers { hyper: true, ..held }
        },
        KeyCode::Modifier(ModifierKeyCode::LeftMeta | ModifierKeyCode::RightMeta) => {
            KeyModifiers { meta: true, ..held }
        },
        _ => held,
    }
}

/// The key for a character code, which a held Shift key can change.
pub open spec fn character_key(code: nat, shift: bool) -> Option<KeyCode> {
    if code == 0x1b {
        Some(KeyCode::Esc)
    } else if code == 0x0d {
        Some(KeyCode::Enter)
    } else if code == 0x09 {
        Some(
            if shift {
                KeyCode::BackTab
            } else {
                KeyCode::Tab
            },
        )
    } else if code == 0x7f {
        Some(KeyCode::Backspace)
    } else if is_scalar_value(code) {
        Some(KeyCode::Char(code as char))
    } else {
        None
    }
}

fn read_character_key(code: u32, shift: bool) -> (r: Option<KeyCode>)
    ensures
        r == character_key(code as nat, shift),
{
    if code == 0x1b {
        Some(KeyCode::Esc)
    } else if code == 0x0d {
        Some(KeyCode::Enter)
    } else if code == 0x09 {
        Some(
            if shift {
                KeyCode::BackTab
            } else {
                KeyCode::Tab
            },
        )
    } else if code == 0x7f {
        Some(KeyCode::Backspace)
    } else {
        match char::from_u32(code) {
            Some(c) => Some(KeyCode::Char(c)),
            None => None,
        }
    }
}

/// The key with a code, and whether it is on the keypad.
pub open spec fn coded_key(code: nat, shift: bool) -> Option<(KeyCode, bool)> {
    match keypad_key(code as u32) {
        Some(key) => Some((key, true)),
        None => match functional_key(code as u32) {
            Some(key) => Some((key, false)),
            None => match character_key(code, shift) {
                Some(key) => Some((key, false)),
                None => None,
            },
        },
    }
}

fn read_coded_key(code: u32, shift: bool) -> (r: Option<(KeyCode, bool)>)
    ensures
        r == coded_key(code as nat, shift),
{
    match key_on_keypad(code) {
        Some(key) => Some((key, true)),
        None => match key_with_function(code) {
            Some(key) => Some((key, false)),
            None => match read_character_key(code, shift) {
                Some(key) => Some((key, false)),
                None => None,
            },
        },
    }
}

/// The character that Shift makes of a key, where the first parameter names it after a colon.
pub open spec fn shifted_character(codes: Seq<u8>) -> Option<char> {
    match number_field(codes, COLON, 1, 0xffff_ffff) {
        Some(code) => if is_scalar_value(code) {
            Some(code as char)
        } else {
            None
        },
        None => None,
    }
}

fn read_shifted_character(codes: &[u8]) -> (r: Option<char>)
    ensures
        r == shifted_character(codes@),
{
    match read_number_field(codes, COLON, 1, 0xffff_ffff) {
        Some(code) => char::from_u32(code),
        None => None,
    }
}

/// The key event of a sequence that ends in `u` and names its key by a character code. A
/// character that Shift makes takes the place of the key and of the modifier.
pub open spec fn encoded_key(sequence: Seq<u8>) -> Option<KeyEvent> {
    match super::number::field(parameters(sequence), SEMICOLON, 0) {
        Some(codes) => match number_field(codes, COLON, 0, 0xffff_ffff) {
            Some(code) => {
                let plain = key_with_parameter(KeyCode::Esc, parameters(sequence));
                match coded_key(code, plain.modifiers.shift) {
                    Some((key, keypad)) => {
                        let held = with_own_modifier(key, plain.modifiers);
                        let state = KeyEventState { keypad, ..plain.state };
                        if held.shift && shifted_character(codes) is Some {
                            Some(
                                KeyEvent {
                                    code: KeyCode::Char(shifted_character(codes)->0),
                                    modifiers: KeyModifiers { shift: false, ..held },
                                    kind: plain.kind,
                                    state,
                                },
                            )
                        } else {
                            Some(KeyEvent { code: key, modifiers: held, kind: plain.kind, state })
                        }
                    },
                    None => None,
                }
            },
            None => None,
        },
        None => None,
    }
}

/// Reads a sequence that ends in `u` and names its key by a character code.
pub fn read_encoded_key(sequence: &[u8]) -> (r: Option<KeyEvent>)
    requires
        sequence@.len() > 3,
    ensures
        r == encoded_key(sequence@),
{
    let parameters = slice_subrange(sequence, 2, sequence.len() - 1);
    let codes = match super::number::nth_field(parameters, SEMICOLON, 0) {
        Some(codes) => codes,
        None => return None,
    };
    let code: u32 = match read_number_field(codes, COLON, 0, 0xffff_ffff) {
        Some(code) => code,
        None => return None,
    };
    let plain = read_key_with_parameter(KeyCode::Esc, parameters);
    match read_coded_key(code, plain.modifiers.shift) {
        Some((key, keypad)) => {
            let held = add_own_modifier(key, plain.modifiers);
            let state = KeyEventState { keypad, ..plain.state };
            if held.shift {
                if let Some(c) = read_shifted_character(codes) {
                    return Some(
                        KeyEvent {
                            code: KeyCode::Char(c),
                            modifiers: KeyModifiers { shift: false, ..held },
                            kind: plain.kind,
                            state,
                        },
                    );
                }
            }
            Some(KeyEvent { code: key, modifiers: held, kind: plain.kind, state })
        },
        None => None,
    }
}

} // verus!
