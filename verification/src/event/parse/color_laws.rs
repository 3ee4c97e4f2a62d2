//! What holds of reports of default colors, in every spelling of a color.
use super::laws::hex_byte;
use super::number::{
    field, lemma_separator_bound, lemma_separator_skip, separator, SEMICOLON, SLASH,
};
use super::osc::{
    color_event, color_payload, color_slot, component, hex_value, rgb, rgb_prefix, terminator_len,
};
use super::text::text_of;
use super::{decode, Decoded};
use crate::event::types::{InternalEventView, OscColorPayloadView};
use vstd::prelude::*;

verus! {

/// The hexadecimal digit for a number below 16, as a letter of either case where it is one.
pub open spec fn digit_letter(value: int, upper: bool) -> u8 {
    if value < 10 {
        (0x30 + value) as u8
    } else if upper {
        (0x41 + (value - 10)) as u8
    } else {
        (0x61 + (value - 10)) as u8
    }
}

/// A number in hexadecimal digits, as many as there are cases given for them.
pub open spec fn spelled(value: nat, upper: Seq<bool>) -> Seq<u8>
    decreases upper.len(),
{
    if upper.len() == 0 {
        Seq::empty()
    } else {
        spelled(value / 16, upper.drop_last()).push(
            digit_letter(value as int % 16, upper.last()),
        )
    }
}

/// How many numbers so many hexadecimal digits spell.
pub open spec fn spellings(len: nat) -> nat
    decreases len,
{
    if len == 0 {
        1
    } else {
        16 * spellings((len - 1) as nat)
    }
}

/// Whether a byte is the same share of 255 as a value is of the largest one, rounded down.
pub open spec fn is_share(byte: u8, value: nat, largest: nat) -> bool {
    byte * largest <= value * 255 < (byte + 1) * largest
}

/// Whether bytes spell a component: one to four hexadecimal digits.
pub open spec fn is_component(s: Seq<u8>) -> bool {
    &&& 1 <= s.len() <= 4
    &&& forall|i: int| 0 <= i < s.len() ==> is_hex(#[trigger] s[i])
}

/// Whether a byte is a hexadecimal digit.
pub open spec fn is_hex(byte: u8) -> bool {
    0x30 <= byte <= 0x39 || 0x41 <= byte <= 0x46 || 0x61 <= byte <= 0x66
}

proof fn lemma_spelled(value: nat, upper: Seq<bool>)
    requires
        value < spellings(upper.len()),
    ensures
        hex_value(spelled(value, upper)) == Some(value),
        spelled(value, upper).len() == upper.len(),
        forall|i: int| 0 <= i < upper.len() ==> is_hex(#[trigger] spelled(value, upper)[i]),
    decreases upper.len(),
{
    let s = spelled(value, upper);
    if upper.len() > 0 {
        lemma_spelled(value / 16, upper.drop_last());
        assert(s.drop_last() =~= spelled(value / 16, upper.drop_last()));
        assert forall|i: int| 0 <= i < upper.len() implies is_hex(#[trigger] s[i]) by {
            if i < upper.len() - 1 {
                assert(s[i] == s.drop_last()[i]);
            }
        }
    }
}

/// A component in one to four digits is, as a byte, the same share of 255 as its number is of the
/// largest one that so many digits spell.
pub proof fn law_component_is_a_share(value: nat, upper: Seq<bool>)
    requires
        1 <= upper.len() <= 4,
        value < spellings(upper.len()),
    ensures
        component(spelled(value, upper)) is Some,
        is_share(
            component(spelled(value, upper))->0,
            value,
            (spellings(upper.len()) - 1) as nat,
        ),
{
    lemma_spelled(value, upper);
    reveal_with_fuel(spellings, 6);
    let largest = spellings(upper.len()) - 1;
    let share = value as int * 255 / largest;
    assert(0 <= share <= 255 && share * largest <= value * 255 < (share + 1) * largest)
        by (nonlinear_arith)
        requires
            0 <= value <= largest,
            largest > 0,
            share == value as int * 255 / largest,
    ;
}

/// A larger number in as many digits is no smaller a component.
pub proof fn law_components_keep_their_order(a: nat, b: nat, upper: Seq<bool>, other: Seq<bool>)
    requires
        1 <= upper.len() <= 4,
        other.len() == upper.len(),
        a <= b < spellings(upper.len()),
    ensures
        component(spelled(a, upper)) is Some,
        component(spelled(b, other)) is Some,
        component(spelled(a, upper))->0 <= component(spelled(b, other))->0,
{
    law_component_is_a_share(a, upper);
    law_component_is_a_share(b, other);
    reveal_with_fuel(spellings, 6);
    let largest = spellings(upper.len()) - 1;
    let x = component(spelled(a, upper))->0 as int;
    let y = component(spelled(b, other))->0 as int;
    assert(x <= y) by (nonlinear_arith)
        requires
            x * largest <= a * 255,
            b * 255 < (y + 1) * largest,
            a <= b,
            largest > 0,
    ;
}

/// Two digits twice are the byte that two digits spell.
pub proof fn law_doubled_digits_are_the_byte(value: u8)
    ensures
        component(hex_byte(value)) == Some(value),
        component(hex_byte(value) + hex_byte(value)) == Some(value),
{
    let short = seq![false, false];
    let long = seq![false, false, false, false];
    let number = value as nat * 257;
    reveal_with_fuel(spellings, 6);
    reveal_with_fuel(spelled, 6);
    assert(long.drop_last() =~= seq![false, false, false]);
    assert(long.drop_last().drop_last() =~= short);
    assert(short.drop_last() =~= seq![false]);
    assert(short.drop_last().drop_last() =~= Seq::<bool>::empty());
    assert(number % 16 == value % 16 && (number / 16) % 16 == value / 16) by {
        assert(number == 16 * (16 * value as nat + value as nat / 16) + value as nat % 16);
    }
    assert(number / 256 == value);
    assert(number / 16 / 16 == value);
    assert(spelled(value as nat, short) =~= hex_byte(value));
    assert(spelled(number, long) =~= hex_byte(value) + hex_byte(value));
    law_component_is_a_share(value as nat, short);
    law_component_is_a_share(number, long);
    let a = component(hex_byte(value))->0 as int;
    let b = component(hex_byte(value) + hex_byte(value))->0 as int;
    assert(a == value);
    assert(b == value);
}

/// A color as a report spells it: `rgb:` and its components between slashes.
pub open spec fn rgb_text(red: Seq<u8>, green: Seq<u8>, blue: Seq<u8>) -> Seq<u8> {
    seq![0x72u8, 0x67u8, 0x62u8, 0x3au8] + red + seq![0x2fu8] + green + seq![0x2fu8] + blue
}

/// The answer `ESC ] 10 ; text` or `ESC ] 11 ; text`, ended by `BEL` or by `ESC \`.
pub open spec fn answer(background: bool, text: Seq<u8>, bell: bool) -> Seq<u8> {
    seq![
        0x1bu8,
        0x5du8,
        0x31u8,
        if background {
            0x31u8
        } else {
            0x30u8
        },
        0x3bu8,
    ] + text + if bell {
        seq![0x07u8]
    } else {
        seq![0x1bu8, 0x5cu8]
    }
}

proof fn lemma_no_slash(s: Seq<u8>)
    requires
        forall|i: int| 0 <= i < s.len() ==> is_hex(#[trigger] s[i]),
    ensures
        forall|i: int| 0 <= i < s.len() ==> s[i] != SLASH,
{
    assert forall|i: int| 0 <= i < s.len() implies s[i] != SLASH by {
        assert(is_hex(s[i]));
    }
}

/// The fields of a text with two slashes in it.
proof fn lemma_rgb_fields(red: Seq<u8>, green: Seq<u8>, blue: Seq<u8>)
    requires
        forall|i: int| 0 <= i < red.len() ==> red[i] != SLASH,
        forall|i: int| 0 <= i < green.len() ==> green[i] != SLASH,
        forall|i: int| 0 <= i < blue.len() ==> blue[i] != SLASH,
    ensures
        rgb(rgb_text(red, green, blue)) == match (
            component(red),
            component(green),
            component(blue),
        ) {
            (Some(r), Some(g), Some(b)) => Some((r, g, b)),
            _ => None,
        },
{
    let s = rgb_text(red, green, blue);
    let parts = s.skip(4);
    assert(rgb_prefix().is_prefix_of(s)) by {
        assert(rgb_prefix() =~= s.subrange(0, 4));
    }
    let x = red.len();
    let y = green.len();
    let z = blue.len();
    let second = parts.skip((x + 1) as int);
    let third = second.skip((y + 1) as int);
    assert(parts =~= red + seq![SLASH] + green + seq![SLASH] + blue);
    assert(second =~= green + seq![SLASH] + blue);
    assert(third =~= blue);
    assert(parts.take(x as int) =~= red);
    assert(second.take(y as int) =~= green);
    assert(third.take(z as int) =~= blue);
    lemma_separator_skip(parts, SLASH, x);
    lemma_separator_skip(second, SLASH, y);
    lemma_separator_skip(third, SLASH, z);
    assert(parts.skip(x as int)[0] == SLASH);
    assert(second.skip(y as int)[0] == SLASH);
    assert(third.skip(z as int) =~= Seq::<u8>::empty());
    assert(separator(parts, SLASH) == x);
    assert(separator(second, SLASH) == y);
    assert(separator(third, SLASH) == z);
    assert(field(third, SLASH, 1) is None);
    assert(field(third, SLASH, 0) == Some(blue));
    assert(field(second, SLASH, 2) == field(third, SLASH, 1));
    assert(field(second, SLASH, 1) == field(third, SLASH, 0));
    assert(field(second, SLASH, 0) == Some(green));
    assert(field(parts, SLASH, 3) == field(second, SLASH, 2));
    assert(field(parts, SLASH, 2) == field(second, SLASH, 1));
    assert(field(parts, SLASH, 1) == field(second, SLASH, 0));
    assert(field(parts, SLASH, 0) == Some(red));
}

/// An answer is read as a report of its slot with what its text says.
proof fn lemma_answer(background: bool, text: Seq<u8>, bell: bool, more: bool)
    ensures
        decode(answer(background, text, bell), more) == Decoded::Event(
            InternalEventView::OscColor {
                slot: if background {
                    11
                } else {
                    10
                },
                payload: color_payload(text),
            },
        ),
{
    reveal(decode);
    let whole = answer(background, text, bell);
    let terminator: int = if bell {
        1
    } else {
        2
    };
    assert(terminator_len(whole) == terminator);
    let body = whole.subrange(2, whole.len() - terminator);
    lemma_separator_skip(body, SEMICOLON, 2);
    assert(body.skip(2)[0] == SEMICOLON);
    assert(separator(body, SEMICOLON) == 2);
    assert(body.skip(3) =~= text);
    if background {
        assert(body.take(2) =~= seq![0x31u8, 0x31u8]);
        assert(body.take(2)[1] != 0x30u8);
    } else {
        assert(body.take(2) =~= seq![0x31u8, 0x30u8]);
    }
    assert(color_event(whole) is Some);
}

/// A report is read as the color that it names, with each component in one to four digits of
/// either case and each the same share of a byte as of the largest number in its digits.
pub proof fn law_color_is_read_in_any_digits(
    background: bool,
    red: nat,
    red_case: Seq<bool>,
    green: nat,
    green_case: Seq<bool>,
    blue: nat,
    blue_case: Seq<bool>,
    bell: bool,
    more: bool,
)
    requires
        1 <= red_case.len() <= 4,
        1 <= green_case.len() <= 4,
        1 <= blue_case.len() <= 4,
        red < spellings(red_case.len()),
        green < spellings(green_case.len()),
        blue < spellings(blue_case.len()),
    ensures
        ({
            let text = rgb_text(
                spelled(red, red_case),
                spelled(green, green_case),
                spelled(blue, blue_case),
            );
            exists|r: u8, g: u8, b: u8|
                {
                    &&& #[trigger] is_share(r, red, (spellings(red_case.len()) - 1) as nat)
                    &&& #[trigger] is_share(g, green, (spellings(green_case.len()) - 1) as nat)
                    &&& #[trigger] is_share(b, blue, (spellings(blue_case.len()) - 1) as nat)
                    &&& decode(answer(background, text, bell), more) == Decoded::Event(
                        InternalEventView::OscColor {
                            slot: if background {
                                11
                            } else {
                                10
                            },
                            payload: OscColorPayloadView::Rgb { r, g, b },
                        },
                    )
                }
        }),
{
    let x = spelled(red, red_case);
    let y = spelled(green, green_case);
    let z = spelled(blue, blue_case);
    lemma_spelled(red, red_case);
    lemma_spelled(green, green_case);
    lemma_spelled(blue, blue_case);
    lemma_no_slash(x);
    lemma_no_slash(y);
    lemma_no_slash(z);
    lemma_rgb_fields(x, y, z);
    lemma_answer(background, rgb_text(x, y, z), bell, more);
    law_component_is_a_share(red, red_case);
    law_component_is_a_share(green, green_case);
    law_component_is_a_share(blue, blue_case);
    let r = component(x)->0;
    let g = component(y)->0;
    let b = component(z)->0;
    assert(is_share(r, red, (spellings(red_case.len()) - 1) as nat));
    assert(is_share(g, green, (spellings(green_case.len()) - 1) as nat));
    assert(is_share(b, blue, (spellings(blue_case.len()) - 1) as nat));
}

/// A report in two digits for each component, or in the same two digits twice, is read as exactly
/// these bytes.
pub proof fn law_color_is_read_exactly(
    background: bool,
    r: u8,
    g: u8,
    b: u8,
    bell: bool,
    more: bool,
)
    ensures
        ({
            let color = Decoded::Event(
                InternalEventView::OscColor {
                    slot: if background {
                        11
                    } else {
                        10
                    },
                    payload: OscColorPayloadView::Rgb { r, g, b },
                },
            );
            let short = rgb_text(hex_byte(r), hex_byte(g), hex_byte(b));
            let long = rgb_text(
                hex_byte(r) + hex_byte(r),
                hex_byte(g) + hex_byte(g),
                hex_byte(b) + hex_byte(b),
            );
            &&& decode(answer(background, short, bell), more) == color
            &&& decode(answer(background, long, bell), more) == color
        }),
{
    law_doubled_digits_are_the_byte(r);
    law_doubled_digits_are_the_byte(g);
    law_doubled_digits_are_the_byte(b);
    let short = rgb_text(hex_byte(r), hex_byte(g), hex_byte(b));
    let long = rgb_text(
        hex_byte(r) + hex_byte(r),
        hex_byte(g) + hex_byte(g),
        hex_byte(b) + hex_byte(b),
    );
    lemma_rgb_fields(hex_byte(r), hex_byte(g), hex_byte(b));
    lemma_rgb_fields(
        hex_byte(r) + hex_byte(r),
        hex_byte(g) + hex_byte(g),
        hex_byte(b) + hex_byte(b),
    );
    lemma_answer(background, short, bell, more);
    lemma_answer(background, long, bell, more);
}

/// Whether a text names a color: `rgb:` and three components between slashes.
pub open spec fn is_rgb_text(text: Seq<u8>) -> bool {
    exists|red: Seq<u8>, green: Seq<u8>, blue: Seq<u8>|
        is_component(red) && is_component(green) && is_component(blue) && text == #[trigger] rgb_text(
            red,
            green,
            blue,
        )
}

proof fn lemma_hex_value_is_hex(s: Seq<u8>)
    ensures
        hex_value(s) is Some <==> forall|i: int| 0 <= i < s.len() ==> is_hex(#[trigger] s[i]),
    decreases s.len(),
{
    if s.len() > 0 {
        lemma_hex_value_is_hex(s.drop_last());
        if hex_value(s) is Some {
            assert forall|i: int| 0 <= i < s.len() implies is_hex(#[trigger] s[i]) by {
                if i < s.len() - 1 {
                    assert(is_hex(s.drop_last()[i]));
                }
            }
        }
        if forall|i: int| 0 <= i < s.len() ==> is_hex(#[trigger] s[i]) {
            assert forall|i: int| 0 <= i < s.drop_last().len() implies is_hex(
                #[trigger] s.drop_last()[i],
            ) by {
                assert(is_hex(s[i]));
            }
            assert(is_hex(s[s.len() - 1]));
        }
    }
}

/// A text is its first field, and a separator and the others behind it where there are any.
proof fn lemma_first_field(s: Seq<u8>, sep: u8)
    ensures
        separator(s, sep) <= s.len(),
        separator(s, sep) < s.len() ==> s =~= s.take(separator(s, sep) as int) + seq![sep] + s.skip(
            (separator(s, sep) + 1) as int,
        ),
    decreases s.len(),
{
    lemma_separator_bound(s, sep);
    if s.len() > 0 && s[0] != sep {
        lemma_first_field(s.skip(1), sep);
        let end = separator(s.skip(1), sep);
        if end < s.skip(1).len() {
            assert(s.skip(1)[end as int] == sep) by {
                let rest = s.skip(1);
                assert(rest == rest.take(end as int) + seq![sep] + rest.skip((end + 1) as int));
                assert((rest.take(end as int) + seq![sep] + rest.skip((end + 1) as int))[end as int]
                    == sep);
            }
            assert(s[(end + 1) as int] == sep);
        }
    }
}

proof fn lemma_component(s: Seq<u8>)
    ensures
        component(s) is Some <==> is_component(s),
{
    lemma_hex_value_is_hex(s);
}

/// A text of the right form names a color.
proof fn lemma_rgb_text_is_read(text: Seq<u8>)
    requires
        is_rgb_text(text),
    ensures
        rgb(text) is Some,
{
    let (red, green, blue) = choose|red: Seq<u8>, green: Seq<u8>, blue: Seq<u8>|
        is_component(red) && is_component(green) && is_component(blue) && text
            == #[trigger] rgb_text(red, green, blue);
    lemma_no_slash(red);
    lemma_no_slash(green);
    lemma_no_slash(blue);
    lemma_rgb_fields(red, green, blue);
    lemma_component(red);
    lemma_component(green);
    lemma_component(blue);
}

/// Three fields between slashes, and no more, are the text.
proof fn lemma_three_fields(parts: Seq<u8>, red: Seq<u8>, green: Seq<u8>, blue: Seq<u8>)
    requires
        field(parts, SLASH, 0) == Some(red),
        field(parts, SLASH, 1) == Some(green),
        field(parts, SLASH, 2) == Some(blue),
        field(parts, SLASH, 3) is None,
    ensures
        parts == red + seq![SLASH] + green + seq![SLASH] + blue,
{
    let second = parts.skip((separator(parts, SLASH) + 1) as int);
    let third = second.skip((separator(second, SLASH) + 1) as int);
    lemma_first_field(parts, SLASH);
    lemma_first_field(second, SLASH);
    lemma_first_field(third, SLASH);
    assert(field(parts, SLASH, 1) == field(second, SLASH, 0));
    assert(field(parts, SLASH, 2) == field(second, SLASH, 1));
    assert(field(second, SLASH, 1) == field(third, SLASH, 0));
    assert(field(parts, SLASH, 3) == field(second, SLASH, 2));
    assert(field(second, SLASH, 2) == field(third, SLASH, 1));
    if separator(third, SLASH) < third.len() {
        assert(field(third, SLASH, 1) == field(
            third.skip((separator(third, SLASH) + 1) as int),
            SLASH,
            0,
        ));
    }
    assert(blue =~= third);
    assert(second =~= green + seq![SLASH] + blue);
    assert(parts =~= red + seq![SLASH] + green + seq![SLASH] + blue);
}

/// A text that names a color has the right form.
proof fn lemma_read_rgb_has_its_form(text: Seq<u8>)
    requires
        rgb(text) is Some,
    ensures
        is_rgb_text(text),
{
    let parts = text.skip(4);
    let red = field(parts, SLASH, 0)->0;
    let green = field(parts, SLASH, 1)->0;
    let blue = field(parts, SLASH, 2)->0;
    lemma_three_fields(parts, red, green, blue);
    lemma_component(red);
    lemma_component(green);
    lemma_component(blue);
    assert(text.take(4) =~= seq![0x72u8, 0x67u8, 0x62u8, 0x3au8]) by {
        assert(rgb_prefix().is_prefix_of(text));
        assert(rgb_prefix() =~= text.take(4));
    }
    assert(text =~= text.take(4) + parts);
    assert(text =~= rgb_text(red, green, blue));
}

/// A report names a color exactly if its text does; any other text is carried as it is.
pub proof fn law_only_colors_are_recognized(
    background: bool,
    text: Seq<u8>,
    bell: bool,
    more: bool,
)
    ensures
        decode(answer(background, text, bell), more) matches Decoded::Event(event) && event matches
            InternalEventView::OscColor { slot, payload } && {
            &&& slot == if background {
                11u8
            } else {
                10u8
            }
            &&& payload is Rgb <==> is_rgb_text(text)
            &&& !(payload is Rgb) ==> payload == OscColorPayloadView::Unrecognized(text_of(text))
        },
{
    lemma_answer(background, text, bell, more);
    if is_rgb_text(text) {
        lemma_rgb_text_is_read(text);
    }
    if rgb(text) is Some {
        lemma_read_rgb_has_its_form(text);
    }
}

/// A command with another number, or without one, is no event.
pub proof fn law_other_commands_are_no_events(
    number: Seq<u8>,
    text: Seq<u8>,
    bell: bool,
    more: bool,
)
    requires
        number != seq![0x31u8, 0x30u8],
        number != seq![0x31u8, 0x31u8],
        forall|i: int| 0 <= i < number.len() ==> number[i] != 0x3bu8,
    ensures
        ({
            let terminator = if bell {
                seq![0x07u8]
            } else {
                seq![0x1bu8, 0x5cu8]
            };
            &&& decode(
                seq![0x1bu8, 0x5du8] + number + seq![0x3bu8] + text + terminator,
                more,
            ) is Incomplete
            &&& decode(seq![0x1bu8, 0x5du8] + number + terminator, more) is Incomplete
        }),
{
    reveal(decode);
    let terminator = if bell {
        seq![0x07u8]
    } else {
        seq![0x1bu8, 0x5cu8]
    };
    let whole = seq![0x1bu8, 0x5du8] + number + seq![0x3bu8] + text + terminator;
    let body = whole.subrange(2, whole.len() - terminator.len());
    assert(terminator_len(whole) == terminator.len());
    assert(body =~= number + seq![0x3bu8] + text);
    lemma_separator_skip(body, SEMICOLON, number.len());
    assert(body.skip(number.len() as int)[0] == SEMICOLON);
    assert(body.take(number.len() as int) =~= number);
    assert(color_slot(number) is None);
    let alone = seq![0x1bu8, 0x5du8] + number + terminator;
    assert(terminator_len(alone) == terminator.len());
    assert(alone.subrange(2, alone.len() - terminator.len()) =~= number);
    lemma_separator_skip(number, SEMICOLON, number.len());
}

/// A command without a terminator is no event.
pub proof fn law_open_commands_are_no_events(body: Seq<u8>)
    requires
        body.len() > 0 ==> body.last() != 0x07u8,
        body.len() > 1 ==> body.last() != 0x5cu8 || body[body.len() - 2] != 0x1bu8,
    ensures
        decode(seq![0x1bu8, 0x5du8] + body, true) is Incomplete,
{
    reveal(decode);
    let whole = seq![0x1bu8, 0x5du8] + body;
    if body.len() > 0 {
        assert(whole.last() == body.last());
    }
    if body.len() > 1 {
        assert(whole[whole.len() - 2] == body[body.len() - 2]);
    }
    assert(terminator_len(whole) == 0);
}

} // verus!
