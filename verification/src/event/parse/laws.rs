//! What holds of decoding.
use super::number::{field, lemma_separator_skip, separator, SEMICOLON, SLASH};
use super::osc::{color_event, component, hex_value, rgb, rgb_prefix};
use super::text::upper_case;
use super::{decode, Decoded};
use crate::event::bytes::{BACKSLASH, BEL, ESC, OSC};
use crate::event::types::{
    key_view, InternalEventView, KeyCode, KeyEvent, KeyModifiers, OscColorPayloadView,
};
use vstd::prelude::*;
use vstd::utf8::{
    encode_utf8, encode_utf8_decode_utf8, encode_utf8_first_scalar, encode_utf8_valid_utf8,
};

verus! {

/// The hexadecimal digit for a number below 16.
pub open spec fn hex_letter(value: int) -> u8 {
    if value < 10 {
        (0x30 + value) as u8
    } else {
        (0x57 + value) as u8
    }
}

/// The two hexadecimal digits of a byte.
pub open spec fn hex_byte(value: u8) -> Seq<u8> {
    seq![hex_letter(value as int / 16), hex_letter(value as int % 16)]
}

/// The report of a default color, ended by `BEL` or by `ESC \`.
pub open spec fn report(background: bool, r: u8, g: u8, b: u8, bell: bool) -> Seq<u8> {
    let slot = if background {
        0x31u8
    } else {
        0x30u8
    };
    let terminator = if bell {
        seq![BEL]
    } else {
        seq![ESC, BACKSLASH]
    };
    seq![ESC, OSC, 0x31u8, slot, SEMICOLON] + color_text(r, g, b) + terminator
}

/// A color as a report spells it: `rgb:rr/gg/bb`.
pub open spec fn color_text(r: u8, g: u8, b: u8) -> Seq<u8> {
    rgb_prefix() + hex_byte(r) + seq![SLASH] + hex_byte(g) + seq![SLASH] + hex_byte(b)
}

proof fn lemma_hex_byte(value: u8)
    ensures
        component(hex_byte(value)) == Some(value),
        hex_byte(value)[0] != SLASH,
        hex_byte(value)[1] != SLASH,
{
    let s = hex_byte(value);
    assert(s.drop_last() =~= seq![s[0]]);
    assert(s.drop_last().drop_last() =~= Seq::<u8>::empty());
    assert(hex_value(s.drop_last().drop_last()) == Some(0nat));
    assert(hex_value(s.drop_last()) == Some((value / 16) as nat));
    assert(hex_value(s) == Some(value as nat));
    assert(value as nat * 255 / 255 == value);
}

proof fn lemma_color_text(r: u8, g: u8, b: u8)
    ensures
        rgb(color_text(r, g, b)) == Some((r, g, b)),
{
    lemma_hex_byte(r);
    lemma_hex_byte(g);
    lemma_hex_byte(b);
    let s = color_text(r, g, b);
    let parts = s.skip(4);
    assert(rgb_prefix().is_prefix_of(s)) by {
        assert(rgb_prefix() =~= s.subrange(0, 4));
    }
    let second = parts.skip(3);
    let third = second.skip(3);
    assert(parts.take(2) =~= hex_byte(r));
    assert(second.take(2) =~= hex_byte(g));
    assert(third =~= hex_byte(b));
    assert(third.take(2) =~= hex_byte(b));
    lemma_separator_skip(parts, SLASH, 2);
    lemma_separator_skip(second, SLASH, 2);
    lemma_separator_skip(third, SLASH, 2);
    assert(parts.skip(2)[0] == SLASH);
    assert(second.skip(2)[0] == SLASH);
    assert(separator(parts, SLASH) == 2);
    assert(separator(second, SLASH) == 2);
    assert(separator(third, SLASH) == 2);
    assert(field(third, SLASH, 1) is None);
    assert(field(third, SLASH, 0) == Some(hex_byte(b)));
    assert(field(second, SLASH, 2) == field(third, SLASH, 1));
    assert(field(second, SLASH, 1) == field(third, SLASH, 0));
    assert(field(second, SLASH, 0) == Some(hex_byte(g)));
    assert(field(parts, SLASH, 3) == field(second, SLASH, 2));
    assert(field(parts, SLASH, 2) == field(second, SLASH, 1));
    assert(field(parts, SLASH, 1) == field(second, SLASH, 0));
    assert(field(parts, SLASH, 0) == Some(hex_byte(r)));
}

/// The report of a default color is read as the color that it names.
pub proof fn law_color_report_is_read(
    background: bool,
    r: u8,
    g: u8,
    b: u8,
    bell: bool,
    more: bool,
)
    ensures
        decode(report(background, r, g, b, bell), more) == Decoded::Event(
            InternalEventView::OscColor {
                slot: if background {
                    11
                } else {
                    10
                },
                payload: OscColorPayloadView::Rgb { r, g, b },
            },
        ),
{
    reveal(decode);
    lemma_color_text(r, g, b);
    let whole = report(background, r, g, b, bell);
    let terminator: int = if bell {
        1
    } else {
        2
    };
    let body = whole.subrange(2, whole.len() - terminator);
    lemma_separator_skip(body, SEMICOLON, 2);
    assert(body.skip(2)[0] == SEMICOLON);
    assert(separator(body, SEMICOLON) == 2);
    assert(body.skip(3) =~= color_text(r, g, b));
    if background {
        assert(body.take(2) =~= seq![0x31u8, 0x31u8]);
    } else {
        assert(body.take(2) =~= seq![0x31u8, 0x30u8]);
        assert(body.take(2)[1] != 0x31u8);
    }
    assert(color_event(whole) is Some);
}

/// Whether a character takes Shift: `A` to `Z`, and beyond ASCII what Unicode has as upper case.
pub open spec fn has_shift(c: char) -> bool {
    if c as u32 <= 0x7f {
        0x41 <= c as u32 <= 0x5a
    } else {
        upper_case(c)
    }
}

/// The bytes of a printable character are that character, with Shift where it is upper case.
pub proof fn law_character_is_a_key(c: char, more: bool)
    requires
        c as u32 >= 0x20,
        c as u32 != 0x7f,
    ensures
        decode(encode_utf8(seq![c]), more) == Decoded::Event(
            key_view(
                KeyEvent::new(
                    KeyCode::Char(c),
                    if has_shift(c) {
                        KeyModifiers::shift()
                    } else {
                        KeyModifiers::none()
                    },
                ),
            ),
        ),
{
    reveal(decode);
    let bytes = encode_utf8(seq![c]);
    encode_utf8_valid_utf8(seq![c]);
    encode_utf8_decode_utf8(seq![c]);
    encode_utf8_first_scalar(seq![c]);
    let first = bytes[0];
    if first <= 0x7f {
        assert(first & 0x7f == first) by (bit_vector)
            requires
                first <= 0x7f,
        ;
        assert(first == c as u32);
    }
}

} // verus!
