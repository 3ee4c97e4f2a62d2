//! Decodes the bytes of one key or control sequence.
pub mod color_laws;
pub mod key_laws;
pub mod keys;
pub mod laws;
pub mod mouse;
pub mod number;
pub mod osc;
pub mod text;
pub mod text_laws;

use crate::event::bytes::{
    begins_paste, ends_in_marker, ends_sequence, ends_with_marker, is_final, opens_csi,
    paste_start, CSI, ESC, OSC, SS3, X10,
};
use crate::event::types::{
    key_view, Event, EventView, InternalEvent, InternalEventView, KeyCode, KeyEvent, KeyModifiers,
    KeyboardEnhancementFlags, MouseEvent,
};
use keys::{
    encoded_key, final_key, key_for_final, key_with_modifiers, numbered_key, parameters,
    read_encoded_key, read_key_with_modifiers, read_numbered_key,
};
use mouse::{
    read_rxvt_mouse, read_sgr_mouse, read_x10_mouse, rxvt_mouse, sgr_mouse, x10_mouse,
};
use number::{is_digit, number_field, read_number_field, SEMICOLON};
use osc::{color_event, read_color_event};
use text::{char_bytes, is_upper, read_char, text_from_bytes, text_of, CharBytes};
use vstd::prelude::*;
use vstd::slice::slice_subrange;

verus! {

/// The bytes are no key and no control sequence.
#[derive(Debug, Clone, Copy, PartialEq, Eq, Structural)]
pub struct ParseError;

/// What bytes decode to.
pub enum Decoded {
    /// An event.
    Event(InternalEventView),
    /// Not an event, or not one yet: more bytes can follow.
    Incomplete,
    /// Nothing that could become an event.
    Invalid,
}

/// What a result of [`parse_event`] says.
pub open spec fn outcome(r: Result<Option<InternalEvent>, ParseError>) -> Decoded {
    match r {
        Ok(Some(event)) => Decoded::Event(event@),
        Ok(None) => Decoded::Incomplete,
        Err(_) => Decoded::Invalid,
    }
}

/// The event for a key, where there is one.
pub open spec fn key_or_invalid(key: Option<KeyEvent>) -> Decoded {
    match key {
        Some(key) => Decoded::Event(key_view(key)),
        None => Decoded::Invalid,
    }
}

/// The event for the mouse, where there is one.
pub open spec fn mouse_or_invalid(mouse: Option<MouseEvent>) -> Decoded {
    match mouse {
        Some(mouse) => Decoded::Event(InternalEventView::Event(EventView::Mouse(mouse))),
        None => Decoded::Invalid,
    }
}

/// The key for bytes that do not begin with an escape: a control character, or a character, whose
/// upper case counts as held Shift.
pub open spec fn plain_key(bytes: Seq<u8>) -> Result<KeyEvent, bool> {
    let first = bytes[0];
    if first == 0x0d {
        Ok(KeyEvent::new(KeyCode::Enter, KeyModifiers::none()))
    } else if first == 0x09 {
        Ok(KeyEvent::new(KeyCode::Tab, KeyModifiers::none()))
    } else if first == 0x7f {
        Ok(KeyEvent::new(KeyCode::Backspace, KeyModifiers::none()))
    } else if first == 0 {
        Ok(KeyEvent::new(KeyCode::Char(' '), KeyModifiers::control()))
    } else if first <= 0x1a {
        Ok(KeyEvent::new(KeyCode::Char((first + 0x60) as char), KeyModifiers::control()))
    } else if 0x1c <= first <= 0x1f {
        Ok(KeyEvent::new(KeyCode::Char((first + 0x18) as char), KeyModifiers::control()))
    } else {
        match char_bytes(bytes) {
            CharBytes::Complete(c) => Ok(
                KeyEvent::new(
                    KeyCode::Char(c),
                    if is_upper(c) {
                        KeyModifiers::shift()
                    } else {
                        KeyModifiers::none()
                    },
                ),
            ),
            CharBytes::Partial => Err(true),
            CharBytes::Malformed => Err(false),
        }
    }
}

/// What bytes decode to that do not begin with an escape; `alt` adds Alt to the key.
pub open spec fn decode_plain(bytes: Seq<u8>, alt: bool) -> Decoded {
    match plain_key(bytes) {
        Ok(key) => Decoded::Event(
            key_view(
                KeyEvent {
                    modifiers: KeyModifiers { alt: alt || key.modifiers.alt, ..key.modifiers },
                    ..key
                },
            ),
        ),
        Err(true) => Decoded::Incomplete,
        Err(false) => Decoded::Invalid,
    }
}

/// What a sequence behind `ESC O` decodes to.
pub open spec fn decode_ss3(bytes: Seq<u8>) -> Decoded {
    if bytes.len() == 2 {
        Decoded::Incomplete
    } else {
        match final_key(bytes[2]) {
            Some(code) => Decoded::Event(key_view(KeyEvent::new(code, KeyModifiers::none()))),
            None => Decoded::Invalid,
        }
    }
}

/// The event of a sequence whose third byte completes it.
pub open spec fn short_csi(third: u8) -> Option<EventView> {
    if third == 0x5a {
        Some(EventView::Key(KeyEvent::new(KeyCode::BackTab, KeyModifiers::shift())))
    } else if third == 0x49 {
        Some(EventView::FocusGained)
    } else if third == 0x4f {
        Some(EventView::FocusLost)
    } else if third == 0x52 {
        None
    } else {
        match final_key(third) {
            Some(code) => Some(EventView::Key(KeyEvent::new(code, KeyModifiers::none()))),
            None => None,
        }
    }
}

/// What a bracketed paste decodes to: all that stands between its markers.
pub open spec fn decode_paste(bytes: Seq<u8>) -> Decoded {
    if bytes.len() >= 12 && ends_with_marker(bytes, 6) {
        Decoded::Event(
            InternalEventView::Event(
                EventView::Paste(text_of(bytes.subrange(6, bytes.len() - 6))),
            ),
        )
    } else {
        Decoded::Incomplete
    }
}

/// The cursor position in `ESC [ row ; column R`, which counts from one.
pub open spec fn decode_cursor_position(bytes: Seq<u8>) -> Decoded {
    match (
        number_field(parameters(bytes), SEMICOLON, 0, 0xffff),
        number_field(parameters(bytes), SEMICOLON, 1, 0xffff),
    ) {
        (Some(row), Some(column)) => if 1 <= row && 1 <= column {
            Decoded::Event(
                InternalEventView::CursorPosition((column - 1) as u16, (row - 1) as u16),
            )
        } else {
            Decoded::Invalid
        },
        _ => Decoded::Invalid,
    }
}

/// What a report behind `ESC [ ?` decodes to.
pub open spec fn decode_private(bytes: Seq<u8>) -> Decoded {
    if bytes.last() == 0x75 && bytes.len() >= 5 {
        Decoded::Event(
            InternalEventView::KeyboardEnhancementFlags(
                KeyboardEnhancementFlags {
                    disambiguate_escape_codes: bytes[3] & 1 != 0,
                    report_event_types: bytes[3] & 2 != 0,
                    report_alternate_keys: bytes[3] & 4 != 0,
                    report_all_keys_as_escape_codes: bytes[3] & 8 != 0,
                },
            ),
        )
    } else if bytes.last() == 0x63 {
        Decoded::Event(InternalEventView::PrimaryDeviceAttributes)
    } else {
        Decoded::Incomplete
    }
}

/// What a sequence with decimal parameters decodes to, by its last byte.
pub open spec fn decode_parameters(bytes: Seq<u8>) -> Decoded {
    if bytes.len() == 3 || !is_final(bytes.last()) {
        Decoded::Incomplete
    } else if paste_start().is_prefix_of(bytes) {
        decode_paste(bytes)
    } else if bytes.last() == X10 {
        mouse_or_invalid(rxvt_mouse(bytes))
    } else if bytes.last() == 0x7e {
        key_or_invalid(numbered_key(bytes))
    } else if bytes.last() == 0x75 {
        key_or_invalid(encoded_key(bytes))
    } else if bytes.last() == 0x52 {
        decode_cursor_position(bytes)
    } else {
        key_or_invalid(key_with_modifiers(bytes))
    }
}

/// What a sequence behind `ESC [` decodes to.
pub open spec fn decode_csi(bytes: Seq<u8>) -> Decoded {
    if bytes.len() == 2 {
        Decoded::Incomplete
    } else if bytes[2] == CSI {
        if bytes.len() == 3 {
            Decoded::Incomplete
        } else if 0x41 <= bytes[3] <= 0x45 {
            Decoded::Event(
                key_view(
                    KeyEvent::new(KeyCode::F((bytes[3] - 0x40) as u8), KeyModifiers::none()),
                ),
            )
        } else {
            Decoded::Invalid
        }
    } else if bytes[2] == X10 {
        if bytes.len() < 6 {
            Decoded::Incomplete
        } else {
            mouse_or_invalid(x10_mouse(bytes))
        }
    } else if bytes[2] == 0x3c {
        if bytes.last() == 0x4d || bytes.last() == 0x6d {
            mouse_or_invalid(sgr_mouse(bytes))
        } else {
            Decoded::Incomplete
        }
    } else if bytes[2] == 0x3f {
        decode_private(bytes)
    } else if bytes[2] == 0x3e {
        // Secondary device attributes: an answer that nothing here asks for.
        if is_final(bytes.last()) {
            Decoded::Invalid
        } else {
            Decoded::Incomplete
        }
    } else if bytes[2] == SEMICOLON || is_digit(bytes[2]) {
        decode_parameters(bytes)
    } else {
        match short_csi(bytes[2]) {
            Some(event) => Decoded::Event(InternalEventView::Event(event)),
            None => Decoded::Invalid,
        }
    }
}

/// What an operating system command decodes to. Its two first bytes alone are also Alt and a
/// bracket, which they are taken for if nothing follows them.
pub open spec fn decode_osc(bytes: Seq<u8>, more: bool) -> Decoded {
    if bytes.len() == 2 && !more {
        decode_plain(bytes.skip(1), true)
    } else {
        match color_event(bytes) {
            Some(event) => Decoded::Event(event),
            None => Decoded::Incomplete,
        }
    }
}

/// What the bytes of one key or control sequence decode to; `more` says whether further bytes are
/// at hand or can be expected.
#[verifier::opaque]
pub open spec fn decode(bytes: Seq<u8>, more: bool) -> Decoded {
    if bytes.len() == 0 {
        Decoded::Incomplete
    } else if bytes[0] != ESC {
        decode_plain(bytes, false)
    } else if bytes.len() == 1 {
        if more {
            Decoded::Incomplete
        } else {
            Decoded::Event(key_view(KeyEvent::new(KeyCode::Esc, KeyModifiers::none())))
        }
    } else if bytes[1] == SS3 {
        decode_ss3(bytes)
    } else if bytes[1] == CSI {
        decode_csi(bytes)
    } else if bytes[1] == OSC {
        decode_osc(bytes, more)
    } else if bytes[1] == ESC {
        Decoded::Event(key_view(KeyEvent::new(KeyCode::Esc, KeyModifiers::none())))
    } else {
        decode_plain(bytes.skip(1), true)
    }
}

fn key_event(key: KeyEvent) -> (r: Result<Option<InternalEvent>, ParseError>)
    ensures
        outcome(r) == Decoded::Event(key_view(key)),
{
    Ok(Some(InternalEvent::Event(Event::Key(key))))
}

fn key_result(key: Option<KeyEvent>) -> (r: Result<Option<InternalEvent>, ParseError>)
    ensures
        outcome(r) == key_or_invalid(key),
{
    match key {
        Some(key) => key_event(key),
        None => Err(ParseError),
    }
}

fn mouse_result(mouse: Option<MouseEvent>) -> (r: Result<Option<InternalEvent>, ParseError>)
    ensures
        outcome(r) == mouse_or_invalid(mouse),
{
    match mouse {
        Some(mouse) => Ok(Some(InternalEvent::Event(Event::Mouse(mouse)))),
        None => Err(ParseError),
    }
}

fn read_plain(bytes: &[u8], alt: bool) -> (r: Result<Option<InternalEvent>, ParseError>)
    requires
        bytes@.len() > 0,
    ensures
        outcome(r) == decode_plain(bytes@, alt),
{
    let first: u8 = bytes[0];
    let key = if first == 0x0d {
        KeyEvent::new(KeyCode::Enter, KeyModifiers::none())
    } else if first == 0x09 {
        KeyEvent::new(KeyCode::Tab, KeyModifiers::none())
    } else if first == 0x7f {
        KeyEvent::new(KeyCode::Backspace, KeyModifiers::none())
    } else if first == 0 {
        KeyEvent::new(KeyCode::Char(' '), KeyModifiers::control())
    } else if first <= 0x1a {
        KeyEvent::new(KeyCode::Char((first + 0x60) as char), KeyModifiers::control())
    } else if 0x1c <= first && first <= 0x1f {
        KeyEvent::new(KeyCode::Char((first + 0x18) as char), KeyModifiers::control())
    } else {
        match read_char(bytes) {
            CharBytes::Complete(c) => KeyEvent::new(
                KeyCode::Char(c),
                if c.is_uppercase() {
                    KeyModifiers::shift()
                } else {
                    KeyModifiers::none()
                },
            ),
            CharBytes::Partial => return Ok(None),
            CharBytes::Malformed => return Err(ParseError),
        }
    };
    let modifiers = KeyModifiers { alt: alt || key.modifiers.alt, ..key.modifiers };
    key_event(KeyEvent { modifiers, ..key })
}

fn read_ss3(bytes: &[u8]) -> (r: Result<Option<InternalEvent>, ParseError>)
    requires
        bytes@.len() >= 2,
    ensures
        outcome(r) == decode_ss3(bytes@),
{
    if bytes.len() == 2 {
        return Ok(None);
    }
    match key_for_final(bytes[2]) {
        Some(code) => key_event(KeyEvent::new(code, KeyModifiers::none())),
        None => Err(ParseError),
    }
}

fn read_short_csi(third: u8) -> (r: Option<Event>)
    ensures
        r is Some <==> short_csi(third) is Some,
        r matches Some(event) ==> event@ == short_csi(third)->0,
{
    if third == 0x5a {
        Some(Event::Key(KeyEvent::new(KeyCode::BackTab, KeyModifiers::shift())))
    } else if third == 0x49 {
        Some(Event::FocusGained)
    } else if third == 0x4f {
        Some(Event::FocusLost)
    } else if third == 0x52 {
        None
    } else {
        match key_for_final(third) {
            Some(code) => Some(Event::Key(KeyEvent::new(code, KeyModifiers::none()))),
            None => None,
        }
    }
}

fn read_paste(bytes: &[u8]) -> (r: Result<Option<InternalEvent>, ParseError>)
    ensures
        outcome(r) == decode_paste(bytes@),
{
    if bytes.len() >= 12 && ends_in_marker(bytes, 6) {
        let text = text_from_bytes(slice_subrange(bytes, 6, bytes.len() - 6));
        Ok(Some(InternalEvent::Event(Event::Paste(text))))
    } else {
        Ok(None)
    }
}

fn read_cursor_position(bytes: &[u8]) -> (r: Result<Option<InternalEvent>, ParseError>)
    requires
        bytes@.len() > 3,
    ensures
        outcome(r) == decode_cursor_position(bytes@),
{
    let parameters = slice_subrange(bytes, 2, bytes.len() - 1);
    match (
        read_number_field(parameters, SEMICOLON, 0, 0xffff),
        read_number_field(parameters, SEMICOLON, 1, 0xffff),
    ) {
        (Some(row), Some(column)) => if 1 <= row && 1 <= column {
            Ok(Some(InternalEvent::CursorPosition((column - 1) as u16, (row - 1) as u16)))
        } else {
            Err(ParseError)
        },
        _ => Err(ParseError),
    }
}

fn read_private(bytes: &[u8]) -> (r: Result<Option<InternalEvent>, ParseError>)
    requires
        bytes@.len() >= 3,
    ensures
        outcome(r) == decode_private(bytes@),
{
    let last: u8 = bytes[bytes.len() - 1];
    if last == 0x75 && bytes.len() >= 5 {
        let bits: u8 = bytes[3];
        Ok(
            Some(
                InternalEvent::KeyboardEnhancementFlags(
                    KeyboardEnhancementFlags {
                        disambiguate_escape_codes: bits & 1 != 0,
                        report_event_types: bits & 2 != 0,
                        report_alternate_keys: bits & 4 != 0,
                        report_all_keys_as_escape_codes: bits & 8 != 0,
                    },
                ),
            ),
        )
    } else if last == 0x63 {
        Ok(Some(InternalEvent::PrimaryDeviceAttributes))
    } else {
        Ok(None)
    }
}

fn read_parameters(bytes: &[u8]) -> (r: Result<Option<InternalEvent>, ParseError>)
    requires
        bytes@.len() >= 3,
    ensures
        outcome(r) == decode_parameters(bytes@),
{
    let last: u8 = bytes[bytes.len() - 1];
    if bytes.len() == 3 || !ends_sequence(last) {
        Ok(None)
    } else if begins_paste(bytes) {
        read_paste(bytes)
    } else if last == X10 {
        mouse_result(read_rxvt_mouse(bytes))
    } else if last == 0x7e {
        key_result(read_numbered_key(bytes))
    } else if last == 0x75 {
        key_result(read_encoded_key(bytes))
    } else if last == 0x52 {
        read_cursor_position(bytes)
    } else {
        key_result(read_key_with_modifiers(bytes))
    }
}

fn read_csi(bytes: &[u8]) -> (r: Result<Option<InternalEvent>, ParseError>)
    requires
        bytes@.len() >= 2,
    ensures
        outcome(r) == decode_csi(bytes@),
{
    if bytes.len() == 2 {
        return Ok(None);
    }
    let third: u8 = bytes[2];
    let last: u8 = bytes[bytes.len() - 1];
    if third == CSI {
        if bytes.len() == 3 {
            Ok(None)
        } else if 0x41 <= bytes[3] && bytes[3] <= 0x45 {
            key_event(KeyEvent::new(KeyCode::F(bytes[3] - 0x40), KeyModifiers::none()))
        } else {
            Err(ParseError)
        }
    } else if third == X10 {
        if bytes.len() < 6 {
            Ok(None)
        } else {
            mouse_result(read_x10_mouse(bytes))
        }
    } else if third == 0x3c {
        if last == 0x4d || last == 0x6d {
            mouse_result(read_sgr_mouse(bytes))
        } else {
            Ok(None)
        }
    } else if third == 0x3f {
        read_private(bytes)
    } else if third == 0x3e {
        if ends_sequence(last) {
            Err(ParseError)
        } else {
            Ok(None)
        }
    } else if third == SEMICOLON || (0x30 <= third && third <= 0x39) {
        read_parameters(bytes)
    } else {
        match read_short_csi(third) {
            Some(event) => Ok(Some(InternalEvent::Event(event))),
            None => Err(ParseError),
        }
    }
}

fn read_osc(bytes: &[u8], more: bool) -> (r: Result<Option<InternalEvent>, ParseError>)
    requires
        bytes@.len() >= 2,
    ensures
        outcome(r) == decode_osc(bytes@, more),
{
    if bytes.len() == 2 && !more {
        assert(bytes@.skip(1) == bytes@.subrange(1, bytes@.len() as int));
        read_plain(slice_subrange(bytes, 1, bytes.len()), true)
    } else {
        Ok(read_color_event(bytes))
    }
}

/// Decodes the bytes of one key or control sequence.
///
/// `input_available` says whether further bytes are at hand or can be expected, which decides
/// whether a lone escape is a key. Returns `Ok(None)` while the bytes can become an event.
pub fn parse_event(bytes: &[u8], input_available: bool) -> (r: Result<
    Option<InternalEvent>,
    ParseError,
>)
    ensures
        outcome(r) == decode(bytes@, input_available),
{
    reveal(decode);
    if bytes.len() == 0 {
        Ok(None)
    } else if bytes[0] != ESC {
        read_plain(bytes, false)
    } else if bytes.len() == 1 {
        if input_available {
            Ok(None)
        } else {
            key_event(KeyEvent::new(KeyCode::Esc, KeyModifiers::none()))
        }
    } else if bytes[1] == SS3 {
        read_ss3(bytes)
    } else if bytes[1] == CSI {
        read_csi(bytes)
    } else if bytes[1] == OSC {
        read_osc(bytes, input_available)
    } else if bytes[1] == ESC {
        key_event(KeyEvent::new(KeyCode::Esc, KeyModifiers::none()))
    } else {
        assert(bytes@.skip(1) == bytes@.subrange(1, bytes@.len() as int));
        read_plain(slice_subrange(bytes, 1, bytes.len()), true)
    }
}

/// A mouse event of three bytes is decided once they are there.
pub(crate) proof fn lemma_x10_mouse_is_bounded(bytes: Seq<u8>, more: bool)
    requires
        opens_csi(bytes, X10),
        bytes.len() >= 6,
    ensures
        decode(bytes, more) !is Incomplete,
{
    reveal(decode);
}

} // verus!
