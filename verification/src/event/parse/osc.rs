//! Reports of the default colors: `ESC ] slot ; color`, ended by `BEL` or by `ESC \`.
use super::number::{field, find_separator, nth_field, separator, SEMICOLON, SLASH};
use super::text::{text_from_bytes, text_of};
use crate::event::bytes::{BACKSLASH, BEL, ESC};
use crate::event::types::{InternalEvent, InternalEventView, OscColorPayload, OscColorPayloadView};
use vstd::prelude::*;
use vstd::slice::slice_subrange;

verus! {

/// The value of a hexadecimal digit.
pub open spec fn hex_digit(byte: u8) -> Option<nat> {
    if 0x30 <= byte <= 0x39 {
        Some((byte - 0x30) as nat)
    } else if 0x41 <= byte <= 0x46 {
        Some((byte - 0x41 + 10) as nat)
    } else if 0x61 <= byte <= 0x66 {
        Some((byte - 0x61 + 10) as nat)
    } else {
        None
    }
}

/// The number that hexadecimal digits spell.
pub open spec fn hex_value(s: Seq<u8>) -> Option<nat>
    decreases s.len(),
{
    if s.len() == 0 {
        Some(0)
    } else {
        match (hex_value(s.drop_last()), hex_digit(s.last())) {
            (Some(high), Some(low)) => Some(high * 16 + low),
            _ => None,
        }
    }
}

/// The largest number that so many hexadecimal digits spell, for one to four digits.
pub open spec fn hex_limit(len: nat) -> nat {
    if len == 1 {
        0xf
    } else if len == 2 {
        0xff
    } else if len == 3 {
        0xfff
    } else {
        0xffff
    }
}

/// One component of a color: one to four hexadecimal digits, as a share of the largest number
/// that they can spell, in one byte.
pub open spec fn component(s: Seq<u8>) -> Option<u8> {
    if 1 <= s.len() <= 4 {
        match hex_value(s) {
            Some(value) => Some((value * 255 / hex_limit(s.len())) as u8),
            None => None,
        }
    } else {
        None
    }
}

/// `rgb:`
pub open spec fn rgb_prefix() -> Seq<u8> {
    seq![0x72u8, 0x67u8, 0x62u8, 0x3au8]
}

/// The color that a text names: `rgb:` and exactly three components between slashes.
pub open spec fn rgb(s: Seq<u8>) -> Option<(u8, u8, u8)> {
    if rgb_prefix().is_prefix_of(s) {
        let parts = s.skip(4);
        match (field(parts, SLASH, 0), field(parts, SLASH, 1), field(parts, SLASH, 2)) {
            (Some(red), Some(green), Some(blue)) => match (
                component(red),
                component(green),
                component(blue),
            ) {
                (Some(r), Some(g), Some(b)) => if field(parts, SLASH, 3) is None {
                    Some((r, g, b))
                } else {
                    None
                },
                _ => None,
            },
            _ => None,
        }
    } else {
        None
    }
}

/// What the text behind the slot says.
pub open spec fn color_payload(s: Seq<u8>) -> OscColorPayloadView {
    match rgb(s) {
        Some((r, g, b)) => OscColorPayloadView::Rgb { r, g, b },
        None => OscColorPayloadView::Unrecognized(text_of(s)),
    }
}

/// How many bytes at the end of an operating system command terminate it; 0 while it goes on.
pub open spec fn terminator_len(sequence: Seq<u8>) -> int {
    if sequence.len() > 2 && sequence.last() == BEL {
        1
    } else if sequence.len() > 3 && sequence.last() == BACKSLASH && sequence[sequence.len() - 2]
        == ESC {
        2
    } else {
        0
    }
}

/// The slot that a text names: 10 is the foreground, 11 the background.
pub open spec fn color_slot(s: Seq<u8>) -> Option<u8> {
    if s == seq![0x31u8, 0x30u8] {
        Some(10)
    } else if s == seq![0x31u8, 0x31u8] {
        Some(11)
    } else {
        None
    }
}

/// The report in a terminated operating system command, where it is one.
pub open spec fn color_event(sequence: Seq<u8>) -> Option<InternalEventView> {
    let body = sequence.subrange(2, sequence.len() - terminator_len(sequence));
    let end = separator(body, SEMICOLON);
    if terminator_len(sequence) == 0 || end == body.len() {
        None
    } else {
        match color_slot(body.take(end as int)) {
            Some(slot) => Some(
                InternalEventView::OscColor {
                    slot,
                    payload: color_payload(body.skip((end + 1) as int)),
                },
            ),
            None => None,
        }
    }
}

fn read_hex_digit(byte: u8) -> (r: Option<u32>)
    ensures
        r is Some <==> hex_digit(byte) is Some,
        r matches Some(value) ==> value == hex_digit(byte)->0 && value <= 15,
{
    if 0x30 <= byte && byte <= 0x39 {
        Some((byte - 0x30) as u32)
    } else if 0x41 <= byte && byte <= 0x46 {
        Some((byte - 0x41 + 10) as u32)
    } else if 0x61 <= byte && byte <= 0x66 {
        Some((byte - 0x61 + 10) as u32)
    } else {
        None
    }
}

proof fn lemma_hex_none(s: Seq<u8>, i: int)
    requires
        0 <= i <= s.len(),
        hex_value(s.take(i)) is None,
    ensures
        hex_value(s) is None,
    decreases s.len() - i,
{
    if i == s.len() {
        assert(s.take(i) =~= s);
    } else {
        assert(s.take(i + 1).drop_last() =~= s.take(i));
        lemma_hex_none(s, i + 1);
    }
}

proof fn lemma_hex_bound(s: Seq<u8>)
    requires
        1 <= s.len() <= 4,
    ensures
        hex_value(s) matches Some(value) ==> value <= hex_limit(s.len()),
{
    reveal_with_fuel(hex_value, 5);
}

fn read_component(s: &[u8]) -> (r: Option<u8>)
    ensures
        r == component(s@),
{
    if s.len() < 1 || s.len() > 4 {
        return None;
    }
    let mut value: u32 = 0;
    let mut i: usize = 0;
    assert(s@.take(0) =~= Seq::<u8>::empty());
    while i < s.len()
        invariant
            i <= s@.len(),
            1 <= s@.len() <= 4,
            hex_value(s@.take(i as int)) == Some(value as nat),
            i == 0 ==> value == 0,
            i > 0 ==> value <= hex_limit(i as nat),
        decreases s@.len() - i,
    {
        assert(s@.take(i + 1).drop_last() =~= s@.take(i as int));
        assert(s@.take(i + 1).last() == s@[i as int]);
        match read_hex_digit(s[i]) {
            Some(low) => {
                value = value * 16 + low;
            },
            None => {
                proof {
                    lemma_hex_none(s@, i + 1);
                }
                return None;
            },
        }
        proof {
            lemma_hex_bound(s@.take(i + 1));
        }
        i = i + 1;
    }
    assert(s@.take(i as int) =~= s@);
    let limit: u32 = if s.len() == 1 {
        0xf
    } else if s.len() == 2 {
        0xff
    } else if s.len() == 3 {
        0xfff
    } else {
        0xffff
    };
    assert(value * 255 / limit as int <= 255) by (nonlinear_arith)
        requires
            value <= limit,
            limit > 0,
    ;
    Some((value * 255 / limit) as u8)
}

fn read_rgb(s: &[u8]) -> (r: Option<(u8, u8, u8)>)
    ensures
        r == rgb(s@),
{
    if s.len() < 4 || s[0] != 0x72 || s[1] != 0x67 || s[2] != 0x62 || s[3] != 0x3a {
        return None;
    }
    assert(rgb_prefix().is_prefix_of(s@));
    assert(s@.skip(4) == s@.subrange(4, s@.len() as int));
    let parts = slice_subrange(s, 4, s.len());
    match (nth_field(parts, SLASH, 0), nth_field(parts, SLASH, 1), nth_field(parts, SLASH, 2)) {
        (Some(red), Some(green), Some(blue)) => match (
            read_component(red),
            read_component(green),
            read_component(blue),
        ) {
            (Some(r), Some(g), Some(b)) => if nth_field(parts, SLASH, 3).is_none() {
                Some((r, g, b))
            } else {
                None
            },
            _ => None,
        },
        _ => None,
    }
}

fn read_color_slot(s: &[u8]) -> (r: Option<u8>)
    ensures
        r == color_slot(s@),
{
    if s.len() == 2 && s[0] == 0x31 && s[1] == 0x30 {
        assert(s@ =~= seq![0x31u8, 0x30u8]);
        Some(10)
    } else if s.len() == 2 && s[0] == 0x31 && s[1] == 0x31 {
        assert(s@ =~= seq![0x31u8, 0x31u8]);
        Some(11)
    } else {
        None
    }
}

fn read_terminator_len(sequence: &[u8]) -> (r: usize)
    ensures
        r == terminator_len(sequence@),
{
    let len: usize = sequence.len();
    if len > 2 && sequence[len - 1] == BEL {
        1
    } else if len > 3 && sequence[len - 1] == BACKSLASH && sequence[len - 2] == ESC {
        2
    } else {
        0
    }
}

/// Reads the report in a terminated operating system command.
pub fn read_color_event(sequence: &[u8]) -> (r: Option<InternalEvent>)
    requires
        sequence@.len() >= 2,
    ensures
        r is Some <==> color_event(sequence@) is Some,
        r matches Some(event) ==> event@ == color_event(sequence@)->0,
{
    let terminator: usize = read_terminator_len(sequence);
    if terminator == 0 {
        return None;
    }
    let body = slice_subrange(sequence, 2, sequence.len() - terminator);
    let end: usize = find_separator(body, SEMICOLON);
    if end == body.len() {
        return None;
    }
    assert(body@.take(end as int) == body@.subrange(0, end as int));
    assert(body@.skip(end + 1) == body@.subrange(end + 1, body@.len() as int));
    match read_color_slot(slice_subrange(body, 0, end)) {
        Some(slot) => {
            let color = slice_subrange(body, end + 1, body.len());
            let payload = match read_rgb(color) {
                Some((r, g, b)) => OscColorPayload::Rgb { r, g, b },
                None => OscColorPayload::Unrecognized(text_from_bytes(color)),
            };
            Some(InternalEvent::OscColor { slot, payload })
        },
        None => None,
    }
}

} // verus!
