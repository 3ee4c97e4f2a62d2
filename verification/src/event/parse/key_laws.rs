//! What holds of decoding keys, the mouse and reports.
use super::keys::{modifiers, modifiers_and_kind, parameters};
use super::number::{
    digits, field, lemma_separator_skip, number, number_field, separator, COLON, SEMICOLON,
};
use super::{decode, Decoded};
use crate::event::types::{
    key_view, EventView, InternalEventView, KeyCode, KeyEvent, KeyEventKind, KeyEventState,
    KeyModifiers, KeyboardEnhancementFlags, MouseButton, MouseEvent, MouseEventKind,
};
use vstd::prelude::*;

verus! {

/// The decimal digits of a number.
pub open spec fn in_digits(value: nat) -> Seq<u8>
    decreases value,
{
    let last = seq![(0x30 + value % 10) as u8];
    if value < 10 {
        last
    } else {
        in_digits(value / 10) + last
    }
}

pub(crate) proof fn lemma_in_digits(value: nat, max: nat)
    requires
        value <= max,
    ensures
        in_digits(value).len() > 0,
        digits(in_digits(value), max) == Some(value),
        number(in_digits(value), max) == Some(value),
        forall|i: int| 0 <= i < in_digits(value).len() ==> 0x30 <= #[trigger] in_digits(value)[i]
            <= 0x39,
    decreases value,
{
    let s = in_digits(value);
    let last = (0x30 + value % 10) as u8;
    if value < 10 {
        assert(s.drop_last() =~= Seq::<u8>::empty());
        assert(digits(s.drop_last(), max) == Some(0nat));
    } else {
        lemma_in_digits(value / 10, max);
        assert(s.drop_last() =~= in_digits(value / 10));
        assert(s.last() == last);
        assert forall|i: int| 0 <= i < s.len() implies 0x30 <= #[trigger] s[i] <= 0x39 by {
            if i < s.len() - 1 {
                assert(s[i] == in_digits(value / 10)[i]);
            }
        }
    }
    assert(s[0] != super::number::PLUS);
}

/// The first field of a text, and where the others are.
proof fn lemma_field(first: Seq<u8>, rest: Seq<u8>, sep: u8, n: nat)
    requires
        forall|i: int| 0 <= i < first.len() ==> first[i] != sep,
    ensures
        field(first, sep, 0) == Some(first),
        n > 0 ==> field(first, sep, n) is None,
        field(first + seq![sep] + rest, sep, 0) == Some(first),
        n > 0 ==> field(first + seq![sep] + rest, sep, n) == field(rest, sep, (n - 1) as nat),
{
    let s = first + seq![sep] + rest;
    lemma_separator_skip(first, sep, first.len());
    assert(first.skip(first.len() as int) =~= Seq::<u8>::empty());
    assert(first.take(first.len() as int) =~= first);
    lemma_separator_skip(s, sep, first.len());
    assert(s.skip(first.len() as int)[0] == sep);
    assert(separator(s, sep) == first.len());
    assert(s.take(first.len() as int) =~= first);
    assert(s.skip((first.len() + 1) as int) =~= rest);
}

/// The bit of a modifier.
pub open spec fn bit(held: bool, value: u8) -> u8 {
    if held {
        value
    } else {
        0
    }
}

/// The parameter that stands for modifiers: one more than their bits.
pub open spec fn parameter(held: KeyModifiers) -> nat {
    1 + (bit(held.shift, 1) | bit(held.alt, 2) | bit(held.control, 4) | bit(held.super_key, 8) | bit(
        held.hyper,
        16,
    ) | bit(held.meta, 32)) as nat
}

proof fn lemma_parameter(held: KeyModifiers)
    ensures
        1 <= parameter(held) <= 64,
        modifiers(parameter(held) as u8) == held,
        super::keys::locks(parameter(held) as u8) == KeyEventState::spec_none(),
{
    let a = bit(held.shift, 1);
    let b = bit(held.alt, 2);
    let c = bit(held.control, 4);
    let d = bit(held.super_key, 8);
    let e = bit(held.hyper, 16);
    let f = bit(held.meta, 32);
    let mask = a | b | c | d | e | f;
    assert(mask <= 63 && mask & 1 == a && mask & 2 == b && mask & 4 == c && mask & 8 == d && mask
        & 16 == e && mask & 32 == f && mask & 64 == 0 && mask & 128 == 0) by (bit_vector)
        requires
            a == 0 || a == 1,
            b == 0 || b == 2,
            c == 0 || c == 4,
            d == 0 || d == 8,
            e == 0 || e == 16,
            f == 0 || f == 32,
            mask == a | b | c | d | e | f,
    ;
    assert((parameter(held) as u8 - 1) as u8 == mask);
}

/// The key whose sequence ends in a byte.
pub open spec fn key_ending_in(last: u8) -> Option<KeyCode> {
    if last == 0x41 {
        Some(KeyCode::Up)
    } else if last == 0x42 {
        Some(KeyCode::Down)
    } else if last == 0x43 {
        Some(KeyCode::Right)
    } else if last == 0x44 {
        Some(KeyCode::Left)
    } else if last == 0x46 {
        Some(KeyCode::End)
    } else if last == 0x48 {
        Some(KeyCode::Home)
    } else if 0x50 <= last <= 0x53 && last != 0x52 {
        Some(KeyCode::F((last - 0x4f) as u8))
    } else {
        None
    }
}

/// The second parameter, with the kind of the event where it is given.
pub open spec fn held_text(held: KeyModifiers, kind: Option<KeyEventKind>) -> Seq<u8> {
    match kind {
        None => in_digits(parameter(held)),
        Some(kind) => in_digits(parameter(held)) + seq![0x3au8] + in_digits(
            match kind {
                KeyEventKind::Press => 1,
                KeyEventKind::Repeat => 2,
                KeyEventKind::Release => 3,
            },
        ),
    }
}

/// The kind that is meant: without one, the key went down.
pub open spec fn meant(kind: Option<KeyEventKind>) -> KeyEventKind {
    match kind {
        None => KeyEventKind::Press,
        Some(kind) => kind,
    }
}

proof fn lemma_digits_hold_no(value: nat, sep: u8)
    requires
        sep == SEMICOLON || sep == COLON,
    ensures
        forall|i: int| 0 <= i < in_digits(value).len() ==> in_digits(value)[i] != sep,
{
    lemma_in_digits(value, value);
    assert forall|i: int| 0 <= i < in_digits(value).len() implies in_digits(value)[i] != sep by {
        assert(0x30 <= in_digits(value)[i] <= 0x39);
    }
}

/// What the second parameter says.
proof fn lemma_held(first: Seq<u8>, held: KeyModifiers, kind: Option<KeyEventKind>)
    requires
        forall|i: int| 0 <= i < first.len() ==> first[i] != SEMICOLON,
    ensures
        ({
            let text = first + seq![SEMICOLON] + held_text(held, kind);
            &&& field(text, SEMICOLON, 0) == Some(first)
            &&& modifiers_and_kind(text) matches Some((mask, code)) && mask == parameter(held)
                && super::keys::event_kind(code) == meant(kind)
        }),
{
    let second = held_text(held, kind);
    let mask = in_digits(parameter(held));
    lemma_parameter(held);
    lemma_in_digits(parameter(held), 255);
    lemma_digits_hold_no(parameter(held), SEMICOLON);
    lemma_digits_hold_no(parameter(held), COLON);
    lemma_field(first, second, SEMICOLON, 1);
    match kind {
        None => {
            lemma_field(second, Seq::empty(), SEMICOLON, 0);
            lemma_field(second, Seq::empty(), COLON, 1);
        },
        Some(kind) => {
            let code: nat = match kind {
                KeyEventKind::Press => 1,
                KeyEventKind::Repeat => 2,
                KeyEventKind::Release => 3,
            };
            lemma_in_digits(code, 255);
            lemma_digits_hold_no(code, SEMICOLON);
            lemma_digits_hold_no(code, COLON);
            assert forall|i: int| 0 <= i < second.len() implies second[i] != SEMICOLON by {
                if i > mask.len() {
                    assert(second[i] == in_digits(code)[i - mask.len() - 1]);
                }
            }
            lemma_field(second, Seq::empty(), SEMICOLON, 0);
            lemma_field(mask, in_digits(code), COLON, 1);
            lemma_field(in_digits(code), Seq::empty(), COLON, 0);
        },
    }
}

/// A key that a sequence names by its last byte, with its modifiers and kind.
pub proof fn law_keys_have_their_modifiers(
    last: u8,
    held: KeyModifiers,
    kind: Option<KeyEventKind>,
    more: bool,
)
    requires
        key_ending_in(last) is Some,
    ensures
        decode(
            seq![0x1bu8, 0x5bu8, 0x31u8, 0x3bu8] + held_text(held, kind) + seq![last],
            more,
        ) == Decoded::Event(
            key_view(
                KeyEvent {
                    code: key_ending_in(last)->0,
                    modifiers: held,
                    kind: meant(kind),
                    state: KeyEventState::spec_none(),
                },
            ),
        ),
{
    reveal(decode);
    let first = seq![0x31u8];
    let whole = seq![0x1bu8, 0x5bu8, 0x31u8, 0x3bu8] + held_text(held, kind) + seq![last];
    lemma_held(first, held, kind);
    lemma_parameter(held);
    lemma_in_digits(parameter(held), 255);
    assert(held_text(held, kind).len() > 0);
    assert(parameters(whole) =~= first + seq![SEMICOLON] + held_text(held, kind));
    assert(whole.last() == last);
    assert(whole[3] == 0x3b);
}

/// The plain spellings of a key agree: `ESC [ x`, `ESC O x` and the one with no modifiers held.
pub proof fn law_plain_keys_agree(last: u8, more: bool)
    requires
        key_ending_in(last) is Some,
    ensures
        ({
            let key = Decoded::Event(
                key_view(KeyEvent::new(key_ending_in(last)->0, KeyModifiers::spec_none())),
            );
            &&& decode(seq![0x1bu8, 0x5bu8, last], more) == key
            &&& decode(seq![0x1bu8, 0x4fu8, last], more) == key
            &&& decode(
                seq![0x1bu8, 0x5bu8, 0x31u8, 0x3bu8] + held_text(KeyModifiers::spec_none(), None)
                    + seq![last],
                more,
            ) == key
        }),
{
    reveal(decode);
    law_keys_have_their_modifiers(last, KeyModifiers::spec_none(), None, more);
}

/// The keys behind `ESC [ [` are F1 to F5.
pub proof fn law_console_function_keys(last: u8, more: bool)
    requires
        0x41 <= last <= 0x45,
    ensures
        decode(seq![0x1bu8, 0x5bu8, 0x5bu8, last], more) == Decoded::Event(
            key_view(KeyEvent::new(KeyCode::F((last - 0x40) as u8), KeyModifiers::spec_none())),
        ),
{
    reveal(decode);
}

/// The key with a number.
pub open spec fn key_numbered(number: nat) -> Option<KeyCode> {
    if number == 1 || number == 7 {
        Some(KeyCode::Home)
    } else if number == 2 {
        Some(KeyCode::Insert)
    } else if number == 3 {
        Some(KeyCode::Delete)
    } else if number == 4 || number == 8 {
        Some(KeyCode::End)
    } else if number == 5 {
        Some(KeyCode::PageUp)
    } else if number == 6 {
        Some(KeyCode::PageDown)
    } else if 11 <= number <= 15 {
        Some(KeyCode::F((number - 10) as u8))
    } else if 17 <= number <= 21 {
        Some(KeyCode::F((number - 11) as u8))
    } else if 23 <= number <= 26 {
        Some(KeyCode::F((number - 12) as u8))
    } else if 28 <= number <= 29 {
        Some(KeyCode::F((number - 13) as u8))
    } else if 31 <= number <= 34 {
        Some(KeyCode::F((number - 14) as u8))
    } else {
        None
    }
}

/// A key that a sequence names by a number, with its modifiers and kind.
pub proof fn law_numbered_keys_have_their_modifiers(
    number: nat,
    held: KeyModifiers,
    kind: Option<KeyEventKind>,
    more: bool,
)
    requires
        key_numbered(number) is Some,
    ensures
        decode(
            seq![0x1bu8, 0x5bu8] + in_digits(number) + seq![0x3bu8] + held_text(held, kind)
                + seq![0x7eu8],
            more,
        ) == Decoded::Event(
            key_view(
                KeyEvent {
                    code: key_numbered(number)->0,
                    modifiers: held,
                    kind: meant(kind),
                    state: KeyEventState::spec_none(),
                },
            ),
        ),
{
    reveal(decode);
    let first = in_digits(number);
    let text = first + seq![SEMICOLON] + held_text(held, kind);
    let whole = seq![0x1bu8, 0x5bu8] + first + seq![0x3bu8] + held_text(held, kind) + seq![
        0x7eu8,
    ];
    lemma_in_digits(number, 255);
    lemma_digits_hold_no(number, SEMICOLON);
    lemma_held(first, held, kind);
    lemma_parameter(held);
    lemma_in_digits(parameter(held), 255);
    assert(held_text(held, kind).len() > 0);
    assert(parameters(whole) =~= text);
    assert(whole[2] == first[0]);
    assert(whole.last() == 0x7e);
    assert(whole[2 + first.len() as int] == 0x3b);
    assert(!crate::event::bytes::paste_start().is_prefix_of(whole)) by {
        if crate::event::bytes::paste_start().is_prefix_of(whole) {
            assert(whole[3] == 0x30 && whole[4] == 0x30 && whole[5] == 0x7e && whole[2] == 0x32);
            let n = first.len() as int;
            if n == 1 {
                assert(whole[3] == 0x3b);
            } else if n == 2 {
                assert(whole[4] == 0x3b);
            } else if n == 3 {
                assert(whole[5] == 0x3b);
            } else {
                assert(whole[5] == first[3]);
            }
        }
    }
}

/// Whether a number is the code of a character that a key can stand for by itself.
pub open spec fn is_character_code(code: nat) -> bool {
    &&& 0x20 <= code <= 0xd7ff
    &&& code != 0x7f
}

/// A key that a sequence names by the code of its character, with its modifiers and kind.
pub proof fn law_encoded_keys_are_their_character(
    code: nat,
    held: KeyModifiers,
    kind: Option<KeyEventKind>,
    more: bool,
)
    requires
        is_character_code(code),
    ensures
        decode(
            seq![0x1bu8, 0x5bu8] + in_digits(code) + seq![0x3bu8] + held_text(held, kind)
                + seq![0x75u8],
            more,
        ) == Decoded::Event(
            key_view(
                KeyEvent {
                    code: KeyCode::Char(code as char),
                    modifiers: held,
                    kind: meant(kind),
                    state: KeyEventState::spec_none(),
                },
            ),
        ),
{
    reveal(decode);
    let first = in_digits(code);
    let text = first + seq![SEMICOLON] + held_text(held, kind);
    let whole = seq![0x1bu8, 0x5bu8] + first + seq![0x3bu8] + held_text(held, kind) + seq![
        0x75u8,
    ];
    lemma_in_digits(code, 0xffff_ffff);
    lemma_digits_hold_no(code, SEMICOLON);
    lemma_digits_hold_no(code, COLON);
    lemma_held(first, held, kind);
    lemma_parameter(held);
    lemma_in_digits(parameter(held), 255);
    assert(held_text(held, kind).len() > 0);
    assert(parameters(whole) =~= text);
    assert(whole[2] == first[0]);
    assert(whole.last() == 0x75);
    assert(whole[2 + first.len() as int] == 0x3b);
    lemma_field(first, Seq::empty(), COLON, 1);
    assert(!crate::event::bytes::paste_start().is_prefix_of(whole)) by {
        if crate::event::bytes::paste_start().is_prefix_of(whole) {
            assert(whole[5] == 0x7e);
            let n = first.len() as int;
            if n <= 3 {
                if n == 3 {
                    assert(whole[5] == 0x3b);
                } else if n == 2 {
                    assert(whole[4] == 0x3b);
                } else {
                    assert(whole[3] == 0x3b);
                }
            } else {
                assert(whole[5] == first[3]);
            }
        }
    }
}

/// Three numbers between semicolons.
pub open spec fn three_numbers(a: nat, b: nat, c: nat) -> Seq<u8> {
    in_digits(a) + seq![0x3bu8] + (in_digits(b) + seq![0x3bu8] + in_digits(c))
}

proof fn lemma_three_numbers(a: nat, b: nat, c: nat)
    requires
        a <= 255,
        b <= 0xffff,
        c <= 0xffff,
    ensures
        number_field(three_numbers(a, b, c), SEMICOLON, 0, 255) == Some(a),
        number_field(three_numbers(a, b, c), SEMICOLON, 1, 0xffff) == Some(b),
        number_field(three_numbers(a, b, c), SEMICOLON, 2, 0xffff) == Some(c),
{
    lemma_in_digits(a, 255);
    lemma_in_digits(b, 0xffff);
    lemma_in_digits(c, 0xffff);
    lemma_digits_hold_no(a, SEMICOLON);
    lemma_digits_hold_no(b, SEMICOLON);
    lemma_digits_hold_no(c, SEMICOLON);
    let rest = in_digits(b) + seq![0x3bu8] + in_digits(c);
    lemma_field(in_digits(a), rest, SEMICOLON, 1);
    lemma_field(in_digits(a), rest, SEMICOLON, 2);
    lemma_field(in_digits(b), in_digits(c), SEMICOLON, 0);
    lemma_field(in_digits(b), in_digits(c), SEMICOLON, 1);
    lemma_field(in_digits(c), Seq::empty(), SEMICOLON, 0);
}

/// The answer to where the cursor is names row and column, which count from one.
pub proof fn law_cursor_position_is_read(row: nat, column: nat, more: bool)
    requires
        1 <= row <= 0xffff,
        1 <= column <= 0xffff,
    ensures
        decode(
            seq![0x1bu8, 0x5bu8] + in_digits(row) + seq![0x3bu8] + in_digits(column) + seq![
                0x52u8,
            ],
            more,
        ) == Decoded::Event(
            InternalEventView::CursorPosition((column - 1) as u16, (row - 1) as u16),
        ),
{
    reveal(decode);
    let first = in_digits(row);
    let second = in_digits(column);
    let whole = seq![0x1bu8, 0x5bu8] + first + seq![0x3bu8] + second + seq![0x52u8];
    lemma_in_digits(row, 0xffff);
    lemma_in_digits(column, 0xffff);
    lemma_digits_hold_no(row, SEMICOLON);
    lemma_digits_hold_no(column, SEMICOLON);
    lemma_field(first, second, SEMICOLON, 1);
    lemma_field(second, Seq::empty(), SEMICOLON, 0);
    assert(parameters(whole) =~= first + seq![SEMICOLON] + second);
    assert(whole[2] == first[0]);
    assert(whole.last() == 0x52);
    assert(!crate::event::bytes::paste_start().is_prefix_of(whole)) by {
        if crate::event::bytes::paste_start().is_prefix_of(whole) {
            assert(whole[5] == 0x7e);
            let n = first.len() as int;
            assert(whole[2 + n] == 0x3b);
            if n >= 4 {
                assert(whole[5] == first[3]);
            }
        }
    }
}

/// The button code without motion for a button, with the modifiers that a mouse tells of.
pub open spec fn pressed_code(button: MouseButton, motion: bool, held: KeyModifiers) -> u8 {
    let number: u8 = match button {
        MouseButton::Left => 0,
        MouseButton::Middle => 1,
        MouseButton::Right => 2,
    };
    number | bit(motion, 32) | bit(held.shift, 4) | bit(held.alt, 8) | bit(held.control, 16)
}

/// Whether only the modifiers are held that a mouse tells of.
pub open spec fn is_told(held: KeyModifiers) -> bool {
    !held.super_key && !held.hyper && !held.meta
}

proof fn lemma_pressed_code(button: MouseButton, motion: bool, held: KeyModifiers)
    requires
        is_told(held),
    ensures
        pressed_code(button, motion, held) <= 63,
        super::mouse::button_code(pressed_code(button, motion, held)) == Some(
            (
                if motion {
                    MouseEventKind::Drag(button)
                } else {
                    MouseEventKind::Down(button)
                },
                held,
            ),
        ),
{
    let number: u8 = match button {
        MouseButton::Left => 0,
        MouseButton::Middle => 1,
        MouseButton::Right => 2,
    };
    let m = bit(motion, 32);
    let s = bit(held.shift, 4);
    let a = bit(held.alt, 8);
    let c = bit(held.control, 16);
    let code = number | m | s | a | c;
    assert(code <= 63 && (code & 0x03) | ((code & 0xc0) >> 4) == number && code & 0x20 == m && code
        & 0x04 == s && code & 0x08 == a && code & 0x10 == c) by (bit_vector)
        requires
            number <= 2,
            m == 0 || m == 32,
            s == 0 || s == 4,
            a == 0 || a == 8,
            c == 0 || c == 16,
            code == number | m | s | a | c,
    ;
}

/// The mouse tells which button went down, is held or went up, where, and with which modifiers.
/// Positions count from one on the wire and from zero here.
pub proof fn law_mouse_buttons_are_read(
    button: MouseButton,
    held: KeyModifiers,
    column: nat,
    row: nat,
    more: bool,
)
    requires
        is_told(held),
        1 <= column <= 0xffff,
        1 <= row <= 0xffff,
    ensures
        ({
            let at = |kind: MouseEventKind|
                Decoded::Event(
                    InternalEventView::Event(
                        EventView::Mouse(
                            MouseEvent {
                                kind,
                                column: (column - 1) as u16,
                                row: (row - 1) as u16,
                                modifiers: held,
                            },
                        ),
                    ),
                );
            let press = pressed_code(button, false, held) as nat;
            let drag = pressed_code(button, true, held) as nat;
            &&& decode(sgr_report(press, column, row, false), more) == at(
                MouseEventKind::Down(button),
            )
            &&& decode(sgr_report(press, column, row, true), more) == at(
                MouseEventKind::Up(button),
            )
            &&& decode(sgr_report(drag, column, row, false), more) == at(
                MouseEventKind::Drag(button),
            )
        }),
{
    reveal(decode);
    lemma_pressed_code(button, false, held);
    lemma_pressed_code(button, true, held);
    let press = pressed_code(button, false, held) as nat;
    let drag = pressed_code(button, true, held) as nat;
    lemma_sgr_report(press, column, row, false);
    lemma_sgr_report(press, column, row, true);
    lemma_sgr_report(drag, column, row, false);
}

/// The report `ESC [ < code ; column ; row`, ended by `M`, or by `m` for a release.
pub open spec fn sgr_report(code: nat, column: nat, row: nat, release: bool) -> Seq<u8> {
    seq![0x1bu8, 0x5bu8, 0x3cu8] + three_numbers(code, column, row) + seq![
        if release {
            0x6du8
        } else {
            0x4du8
        },
    ]
}

proof fn lemma_sgr_report(code: nat, column: nat, row: nat, release: bool)
    requires
        code <= 255,
        column <= 0xffff,
        row <= 0xffff,
    ensures
        ({
            let whole = sgr_report(code, column, row, release);
            &&& whole.len() > 3
            &&& whole[0] == 0x1b && whole[1] == 0x5b && whole[2] == 0x3c
            &&& whole.last() == if release {
                0x6du8
            } else {
                0x4du8
            }
            &&& super::mouse::decimal_mouse(whole.subrange(3, whole.len() - 1), 0)
                == super::mouse::mouse_at(code as u8, column, row)
        }),
{
    let whole = sgr_report(code, column, row, release);
    lemma_three_numbers(code, column, row);
    assert(whole.subrange(3, whole.len() - 1) =~= three_numbers(code, column, row));
}

proof fn lemma_sgr_event(code: u8, column: u8, row: u8, more: bool)
    ensures
        decode(sgr_report(code as nat, column as nat, row as nat, false), more)
            == super::mouse_or_invalid(
            super::mouse::mouse_at(code, column as nat, row as nat),
        ),
{
    reveal(decode);
    lemma_sgr_report(code as nat, column as nat, row as nat, false);
}

/// The report `ESC [ code ; column ; row M`, whose code is 32 more.
pub open spec fn rxvt_report(code: nat, column: nat, row: nat) -> Seq<u8> {
    seq![0x1bu8, 0x5bu8] + three_numbers(code + 32, column, row) + seq![0x4du8]
}

proof fn lemma_rxvt_event(code: u8, column: u8, row: u8, more: bool)
    requires
        code <= 223,
    ensures
        decode(rxvt_report(code as nat, column as nat, row as nat), more)
            == super::mouse_or_invalid(
            super::mouse::mouse_at(code, column as nat, row as nat),
        ),
{
    let text = three_numbers((code + 32) as nat, column as nat, row as nat);
    let first = in_digits((code + 32) as nat);
    let whole = rxvt_report(code as nat, column as nat, row as nat);
    lemma_three_numbers((code + 32) as nat, column as nat, row as nat);
    lemma_in_digits((code + 32) as nat, 255);
    assert(parameters(whole) =~= text);
    assert(whole[2] == first[0]);
    assert(whole.last() == 0x4d);
    assert(whole.len() > 4);
    assert(!crate::event::bytes::paste_start().is_prefix_of(whole)) by {
        if crate::event::bytes::paste_start().is_prefix_of(whole) {
            assert(whole[5] == 0x7e);
            let n = first.len() as int;
            assert(whole[2 + n] == 0x3b);
            if n >= 4 {
                assert(whole[5] == first[3]);
            }
        }
    }
    assert(super::mouse::rxvt_mouse(whole) == super::mouse::mouse_at(
        code,
        column as nat,
        row as nat,
    ));
    reveal(decode);
}

/// The report in three bytes behind `ESC [ M`, each of them 32 more.
pub open spec fn x10_report(code: u8, column: u8, row: u8) -> Seq<u8> {
    seq![
        0x1bu8,
        0x5bu8,
        0x4du8,
        (code + 32) as u8,
        (column + 32) as u8,
        (row + 32) as u8,
    ]
}

proof fn lemma_x10_event(code: u8, column: u8, row: u8, more: bool)
    requires
        code <= 223,
        column <= 223,
        row <= 223,
    ensures
        decode(x10_report(code, column, row), more) == super::mouse_or_invalid(
            super::mouse::mouse_at(code, column as nat, row as nat),
        ),
{
    reveal(decode);
}

/// The three encodings of a mouse event agree wherever each can express it.
pub proof fn law_mouse_encodings_agree(code: u8, column: u8, row: u8, more: bool)
    requires
        code <= 223,
        column <= 223,
        row <= 223,
    ensures
        ({
            let sgr = sgr_report(code as nat, column as nat, row as nat, false);
            &&& decode(x10_report(code, column, row), more) == decode(sgr, more)
            &&& decode(rxvt_report(code as nat, column as nat, row as nat), more) == decode(
                sgr,
                more,
            )
        }),
{
    lemma_sgr_event(code, column, row, more);
    lemma_rxvt_event(code, column, row, more);
    lemma_x10_event(code, column, row, more);
}

/// The answer to what the terminal is, whatever it says, is taken note of as such.
pub proof fn law_primary_attributes_are_read(body: Seq<u8>, more: bool)
    ensures
        decode(seq![0x1bu8, 0x5bu8, 0x3fu8] + body + seq![0x63u8], more) == Decoded::Event(
            InternalEventView::PrimaryDeviceAttributes,
        ),
{
    reveal(decode);
    let whole = seq![0x1bu8, 0x5bu8, 0x3fu8] + body + seq![0x63u8];
    assert(whole.last() == 0x63);
}

/// The wheel of the mouse tells its direction.
pub proof fn law_mouse_wheel_is_read(
    direction: u8,
    held: KeyModifiers,
    column: nat,
    row: nat,
    more: bool,
)
    requires
        direction < 4,
        is_told(held),
        1 <= column <= 0xffff,
        1 <= row <= 0xffff,
    ensures
        decode(
            sgr_report(
                (64u8 | direction | bit(held.shift, 4) | bit(held.alt, 8) | bit(
                    held.control,
                    16,
                )) as nat,
                column,
                row,
                false,
            ),
            more,
        ) == Decoded::Event(
            InternalEventView::Event(
                EventView::Mouse(
                    MouseEvent {
                        kind: if direction == 0 {
                            MouseEventKind::ScrollUp
                        } else if direction == 1 {
                            MouseEventKind::ScrollDown
                        } else if direction == 2 {
                            MouseEventKind::ScrollLeft
                        } else {
                            MouseEventKind::ScrollRight
                        },
                        column: (column - 1) as u16,
                        row: (row - 1) as u16,
                        modifiers: held,
                    },
                ),
            ),
        ),
{
    let s = bit(held.shift, 4);
    let a = bit(held.alt, 8);
    let c = bit(held.control, 16);
    let code = 64u8 | direction | s | a | c;
    assert((code & 0x03) | ((code & 0xc0) >> 4) == 4 + direction && code & 0x20 == 0 && code & 0x04
        == s && code & 0x08 == a && code & 0x10 == c) by (bit_vector)
        requires
            direction < 4,
            s == 0 || s == 4,
            a == 0 || a == 8,
            c == 0 || c == 16,
            code == 64u8 | direction | s | a | c,
    ;
    lemma_sgr_report(code as nat, column, row, false);
    reveal(decode);
}

/// Sequences that name no key, no mouse event and no answer that is known are no events.
pub proof fn law_unknown_sequences_are_no_events(body: Seq<u8>, last: u8, more: bool)
    requires
        body.len() > 0,
        0x40 <= last <= 0x7e,
    ensures
        ({
            let decoded = decode((seq![0x1bu8, 0x5bu8] + body).push(last), more);
            &&& body[0] == 0x3f && last != 0x63 && last != 0x75 ==> decoded is Incomplete
            &&& body[0] == 0x3e ==> decoded is Invalid
            &&& (0x30 <= body[0] <= 0x39 || body[0] == 0x3b) && key_ending_in(last) is None && last
                != 0x52 && last != 0x4d && last != 0x75 && last != 0x7e ==> !(decoded is Event)
        }),
{
    reveal(decode);
    let whole = (seq![0x1bu8, 0x5bu8] + body).push(last);
    assert(whole[2] == body[0]);
    assert(whole.last() == last);
    if crate::event::bytes::paste_start().is_prefix_of(whole) && last != 0x7e {
        assert(!crate::event::bytes::ends_with_marker(whole, 6)) by {
            if crate::event::bytes::ends_with_marker(whole, 6) {
                assert(crate::event::bytes::paste_end().take(6)[5] == whole.last());
            }
        }
    }
}

/// A digit alone before the last byte stands for the modifiers.
pub proof fn law_keys_take_modifiers_from_a_digit(last: u8, held: KeyModifiers, more: bool)
    requires
        key_ending_in(last) is Some,
        parameter(held) < 10,
    ensures
        decode(seq![0x1bu8, 0x5bu8] + in_digits(parameter(held)) + seq![last], more)
            == Decoded::Event(key_view(KeyEvent::new(key_ending_in(last)->0, held))),
{
    let digit = in_digits(parameter(held));
    let whole = seq![0x1bu8, 0x5bu8] + digit + seq![last];
    lemma_parameter(held);
    lemma_in_digits(parameter(held), 255);
    lemma_digits_hold_no(parameter(held), SEMICOLON);
    lemma_field(digit, Seq::empty(), SEMICOLON, 1);
    assert(digit =~= seq![(0x30 + parameter(held)) as u8]);
    assert(parameters(whole) =~= digit);
    assert(whole[2] == digit[0]);
    assert(whole.last() == last);
    assert(whole.len() == 4);
    assert(modifiers_and_kind(digit) is None);
    reveal(decode);
}

/// The codes of control characters name their keys, with their modifiers and kind; Shift makes
/// BackTab of Tab.
pub proof fn law_encoded_control_characters_are_keys(
    code: nat,
    held: KeyModifiers,
    kind: Option<KeyEventKind>,
    more: bool,
)
    requires
        code == 0x1b || code == 0x0d || code == 0x09 || code == 0x7f,
    ensures
        decode(
            seq![0x1bu8, 0x5bu8] + in_digits(code) + seq![0x3bu8] + held_text(held, kind)
                + seq![0x75u8],
            more,
        ) == Decoded::Event(
            key_view(
                KeyEvent {
                    code: if code == 0x1b {
                        KeyCode::Esc
                    } else if code == 0x0d {
                        KeyCode::Enter
                    } else if code == 0x7f {
                        KeyCode::Backspace
                    } else if held.shift {
                        KeyCode::BackTab
                    } else {
                        KeyCode::Tab
                    },
                    modifiers: held,
                    kind: meant(kind),
                    state: KeyEventState::spec_none(),
                },
            ),
        ),
{
    let first = in_digits(code);
    let text = first + seq![SEMICOLON] + held_text(held, kind);
    let whole = seq![0x1bu8, 0x5bu8] + first + seq![0x3bu8] + held_text(held, kind) + seq![
        0x75u8,
    ];
    lemma_in_digits(code, 0xffff_ffff);
    lemma_digits_hold_no(code, SEMICOLON);
    lemma_digits_hold_no(code, COLON);
    lemma_held(first, held, kind);
    lemma_parameter(held);
    lemma_in_digits(parameter(held), 255);
    assert(held_text(held, kind).len() > 0);
    assert(parameters(whole) =~= text);
    assert(whole[2] == first[0]);
    assert(whole.last() == 0x75);
    assert(whole[2 + first.len() as int] == 0x3b);
    lemma_field(first, Seq::empty(), COLON, 1);
    assert(!crate::event::bytes::paste_start().is_prefix_of(whole)) by {
        if crate::event::bytes::paste_start().is_prefix_of(whole) {
            assert(whole[5] == 0x7e);
            assert(whole[3] == 0x30 && whole[4] == 0x30);
            let n = first.len() as int;
            if n >= 4 {
                assert(whole[5] == first[3]);
            }
        }
    }
    reveal(decode);
}

/// The answer to which keyboard protocol is on names its parts by bits.
pub proof fn law_keyboard_flags_are_read(
    disambiguate: bool,
    kinds: bool,
    alternates: bool,
    all: bool,
    more: bool,
)
    ensures
        decode(
            seq![
                0x1bu8,
                0x5bu8,
                0x3fu8,
                0x30u8 | bit(disambiguate, 1) | bit(kinds, 2) | bit(alternates, 4) | bit(all, 8),
                0x75u8,
            ],
            more,
        ) == Decoded::Event(
            InternalEventView::KeyboardEnhancementFlags(
                KeyboardEnhancementFlags {
                    disambiguate_escape_codes: disambiguate,
                    report_event_types: kinds,
                    report_alternate_keys: alternates,
                    report_all_keys_as_escape_codes: all,
                },
            ),
        ),
{
    let a = bit(disambiguate, 1);
    let b = bit(kinds, 2);
    let c = bit(alternates, 4);
    let d = bit(all, 8);
    let byte = 0x30u8 | a | b | c | d;
    assert(byte & 1 == a && byte & 2 == b && byte & 4 == c && byte & 8 == d) by (bit_vector)
        requires
            a == 0 || a == 1,
            b == 0 || b == 2,
            c == 0 || c == 4,
            d == 0 || d == 8,
            byte == 0x30u8 | a | b | c | d,
    ;
    reveal(decode);
}

} // verus!
