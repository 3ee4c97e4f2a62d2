//! What holds of decoding characters.
use super::laws::{has_shift, law_character_is_a_key};
use super::text::char_bytes;
use super::{decode, Decoded};
use crate::event::types::{key_view, InternalEventView, KeyCode, KeyEvent, KeyModifiers};
use vstd::prelude::*;
use vstd::utf8::{encode_utf8, encode_utf8_first_scalar, encode_utf8_valid_utf8, valid_utf8};

verus! {

/// The bytes of a character.
pub open spec fn bytes_of(c: char) -> Seq<u8> {
    encode_utf8(seq![c])
}

/// Whether a character is printed, and not a control character.
pub open spec fn is_printable(c: char) -> bool {
    c as u32 >= 0x20 && c as u32 != 0x7f
}

/// The event for a character that is typed, with Shift where it is upper case.
pub open spec fn typed(c: char) -> InternalEventView {
    key_view(
        KeyEvent::new(
            KeyCode::Char(c),
            if has_shift(c) {
                KeyModifiers::shift()
            } else {
                KeyModifiers::none()
            },
        ),
    )
}

/// The bytes of a character are a first byte and continuation bytes.
pub(crate) proof fn lemma_bytes_of(c: char)
    ensures
        1 <= bytes_of(c).len() <= 4,
        bytes_of(c).len() > 1 ==> bytes_of(c)[0] >= 0xc0,
        bytes_of(c).len() == 1 ==> bytes_of(c)[0] == c as u32,
        forall|i: int| 1 <= i < bytes_of(c).len() ==> 0x80 <= #[trigger] bytes_of(c)[i] <= 0xbf,
        forall|k: int|
            1 <= k < bytes_of(c).len() ==> (#[trigger] char_bytes(bytes_of(c).take(k))) is Partial,
{
    let bytes = bytes_of(c);
    encode_utf8_first_scalar(seq![c]);
    encode_utf8_valid_utf8(seq![c]);
    assert(seq![c].drop_first() =~= Seq::<char>::empty());
    assert(encode_utf8(Seq::<char>::empty()) =~= Seq::<u8>::empty());
    let first = bytes[0];
    if first <= 0x7f {
        assert(first & 0x7f == first) by (bit_vector)
            requires
                first <= 0x7f,
        ;
    }
    assert forall|k: int| 1 <= k < bytes.len() implies (#[trigger] char_bytes(
        bytes.take(k),
    )) is Partial by {
        let prefix = bytes.take(k);
        assert(!valid_utf8(prefix));
        assert forall|i: int| 1 <= i < prefix.len() implies 0x80 <= #[trigger] prefix[i] <= 0xbf by {
            assert(prefix[i] == bytes[i]);
        }
    }
}

/// The beginning of a character is no event yet.
pub proof fn law_beginning_of_a_character_is_incomplete(c: char, len: int, more: bool)
    requires
        1 <= len < bytes_of(c).len(),
    ensures
        decode(bytes_of(c).take(len), more) is Incomplete,
{
    reveal(decode);
    lemma_bytes_of(c);
    let prefix = bytes_of(c).take(len);
    assert(prefix[0] == bytes_of(c)[0]);
    assert(char_bytes(prefix) is Partial);
}

/// A byte that can only continue a character is no event by itself.
pub proof fn law_continuation_byte_is_no_event(byte: u8, more: bool)
    requires
        0x80 <= byte <= 0xbf,
    ensures
        decode(seq![byte], more) is Invalid,
{
    reveal(decode);
    assert(!valid_utf8(seq![byte]));
}

/// The keys for the control characters: Ctrl and a letter for the first ones, but for Tab and Enter,
/// Ctrl and a digit for the last ones.
pub proof fn law_control_characters_are_keys(byte: u8, more: bool)
    requires
        byte < 0x20 || byte == 0x7f,
        byte != 0x1b,
    ensures
        decode(seq![byte], more) == Decoded::Event(
            key_view(
                if byte == 0x09 {
                    KeyEvent::new(KeyCode::Tab, KeyModifiers::none())
                } else if byte == 0x0d {
                    KeyEvent::new(KeyCode::Enter, KeyModifiers::none())
                } else if byte == 0x7f {
                    KeyEvent::new(KeyCode::Backspace, KeyModifiers::none())
                } else if byte == 0 {
                    KeyEvent::new(KeyCode::Char(' '), KeyModifiers::control())
                } else if byte <= 0x1a {
                    KeyEvent::new(
                        KeyCode::Char((byte + 0x60) as u8 as char),
                        KeyModifiers::control(),
                    )
                } else {
                    KeyEvent::new(
                        KeyCode::Char((byte + 0x18) as u8 as char),
                        KeyModifiers::control(),
                    )
                },
            ),
        ),
{
    reveal(decode);
}

/// An escape before a key adds Alt to it, and changes nothing else.
pub proof fn law_escape_adds_alt(bytes: Seq<u8>, more: bool)
    requires
        bytes.len() > 0,
        bytes[0] != 0x1b,
        bytes[0] != 0x5b,
        bytes[0] != 0x5d,
        bytes[0] != 0x4f,
    ensures
        match decode(bytes, more) {
            Decoded::Event(event) => exists|key: KeyEvent|
                {
                    &&& event == #[trigger] key_view(key)
                    &&& decode(seq![0x1bu8] + bytes, more) == Decoded::Event(
                        key_view(
                            KeyEvent {
                                modifiers: KeyModifiers { alt: true, ..key.modifiers },
                                ..key
                            },
                        ),
                    )
                },
            other => decode(seq![0x1bu8] + bytes, more) == other,
        },
{
    reveal(decode);
    let all = seq![0x1bu8] + bytes;
    assert(all.skip(1) =~= bytes);
    assert(all[1] == bytes[0]);
    if let Decoded::Event(event) = decode(bytes, more) {
        let key = super::plain_key(bytes)->Ok_0;
        let plain = KeyEvent {
            modifiers: KeyModifiers { alt: false || key.modifiers.alt, ..key.modifiers },
            ..key
        };
        assert(event == key_view(plain));
    }
}

/// A lone escape is the escape key exactly if nothing can follow it.
pub proof fn law_lone_escape(more: bool)
    ensures
        decode(seq![0x1bu8], true) is Incomplete,
        decode(seq![0x1bu8], false) == Decoded::Event(
            key_view(KeyEvent::new(KeyCode::Esc, KeyModifiers::none())),
        ),
        decode(Seq::empty(), more) is Incomplete,
{
    reveal(decode);
}

/// The bytes of a printable character are that character.
pub(crate) proof fn lemma_typed(c: char, more: bool)
    requires
        is_printable(c),
    ensures
        decode(bytes_of(c), more) == Decoded::Event(typed(c)),
{
    law_character_is_a_key(c, more);
}

} // verus!
