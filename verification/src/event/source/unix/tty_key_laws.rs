//! What events the bytes of keys and sequences give, in a parser of a source that waits for the
//! terminal with `poll`.
use crate::event::bytes::{opens, paste_start, ESC, OSC};
use crate::event::parse::text_laws::{
    bytes_of, is_printable, law_beginning_of_a_character_is_incomplete,
    law_continuation_byte_is_no_event, law_escape_adds_alt, lemma_bytes_of, lemma_typed, typed,
};
use crate::event::parse::{decode, Decoded};
use crate::event::source::unix::tty::{completed_csi, discard_status, ParserState};
use crate::event::source::unix::tty_discard_laws::{
    control_sequence, is_control_body, lemma_feed_one, mouse_event,
};
use crate::event::source::unix::tty_laws::{at_rest, lemma_feed_split};
use crate::event::types::{
    key_view, InputDiscardStatus, InternalEventView, KeyCode, KeyEvent, KeyModifiers,
};
use vstd::prelude::*;
use vstd::utf8::encode_utf8;

verus! {

/// A parser with what bytes decode to behind its events, where they decode to an event.
pub open spec fn with_event(state: ParserState, decoded: Decoded) -> ParserState {
    match decoded {
        Decoded::Event(event) => ParserState { events: state.events.push(event), ..state },
        _ => state,
    }
}

/// Bytes collect in the buffer while they cannot be decoded, unless they begin a command.
proof fn lemma_feed_open(state: ParserState, whole: Seq<u8>, len: int, now: u128)
    requires
        at_rest(state),
        0 <= len <= whole.len(),
        len >= 2 ==> !(whole[0] == ESC && whole[1] == ESC),
        len >= 2 ==> !(whole[0] == ESC && whole[1] == OSC),
        forall|k: int| 1 <= k <= len ==> (#[trigger] decode(whole.take(k), true)) is Incomplete,
        forall|k: int| 1 <= k <= len ==> !completed_csi(#[trigger] whole.take(k)),
    ensures
        state.feed(whole.take(len), true, now) == (ParserState {
            buffer: whole.take(len),
            ..state
        }),
    decreases len,
{
    let bytes = whole.take(len);
    if len == 0 {
        assert(bytes =~= state.buffer);
    } else {
        let before = whole.take(len - 1);
        let last = seq![whole[len - 1]];
        lemma_feed_open(state, whole, len - 1, now);
        lemma_feed_split(state, before, last, true, now);
        assert(before + last =~= bytes);
        assert(before.push(last[0]) =~= bytes);
        let held = ParserState { buffer: before, ..state };
        if before == seq![ESC] {
            assert(len == 2);
            assert(whole[0] == before[0]);
        }
        assert(!opens(before, OSC));
        assert(!opens(bytes, OSC));
        assert(decode(bytes, true) is Incomplete);
        let next = ParserState { buffer: bytes, ..state };
        assert(held.step(last[0], true, now) =~= next);
        lemma_feed_one(held, last[0], Seq::empty(), next, true, now);
        assert(seq![last[0]] + Seq::<u8>::empty() =~= last);
    }
}

/// Bytes that are decided with their last one give what they decode to, and nothing remains.
proof fn lemma_feed_whole(state: ParserState, whole: Seq<u8>, more: bool, now: u128)
    requires
        at_rest(state),
        whole.len() > 0,
        whole.len() >= 2 ==> !(whole[0] == ESC && whole[1] == ESC),
        whole.len() >= 2 ==> !(whole[0] == ESC && whole[1] == OSC),
        forall|k: int|
            1 <= k < whole.len() ==> (#[trigger] decode(whole.take(k), true)) is Incomplete,
        forall|k: int| 1 <= k < whole.len() ==> !completed_csi(#[trigger] whole.take(k)),
        decode(whole, more) is Incomplete ==> completed_csi(whole),
    ensures
        state.advance(whole, more, now) == with_event(state, decode(whole, more)),
{
    let len = whole.len() - 1;
    let before = whole.take(len);
    let last = seq![whole[len]];
    assert((ParserState { escape_deadline: None, ..state }).expire_osc(now) =~= state);
    assert forall|k: int| 1 <= k <= len implies (#[trigger] decode(
        whole.take(k),
        true,
    )) is Incomplete by {}
    lemma_feed_open(state, whole, len, now);
    lemma_feed_split(state, before, last, more, now);
    assert(before + last =~= whole);
    assert(before.push(last[0]) =~= whole);
    let held = ParserState { buffer: before, ..state };
    if before == seq![ESC] {
        assert(len == 1);
        assert(whole[0] == before[0]);
    }
    assert(!opens(before, OSC));
    assert(!opens(whole, OSC));
    let next = with_event(state, decode(whole, more));
    assert(held.step(last[0], more, now) =~= next);
    lemma_feed_one(held, last[0], Seq::empty(), next, more, now);
    assert(seq![last[0]] + Seq::<u8>::empty() =~= last);
}

proof fn lemma_feed_character(state: ParserState, c: char, more: bool, now: u128)
    requires
        at_rest(state),
        is_printable(c),
    ensures
        state.feed(bytes_of(c), more, now) == (ParserState {
            events: state.events.push(typed(c)),
            ..state
        }),
{
    let bytes = bytes_of(c);
    lemma_bytes_of(c);
    lemma_typed(c, more);
    assert(bytes[0] != ESC);
    assert forall|k: int| 1 <= k < bytes.len() implies (#[trigger] decode(
        bytes.take(k),
        true,
    )) is Incomplete by {
        law_beginning_of_a_character_is_incomplete(c, k, true);
    }
    assert forall|k: int| 1 <= k < bytes.len() implies !completed_csi(#[trigger] bytes.take(k)) by {
        assert(bytes.take(k)[0] == bytes[0]);
    }
    lemma_feed_whole(state, bytes, more, now);
    assert((ParserState { escape_deadline: None, ..state }).expire_osc(now) =~= state);
}

/// The bytes of a text are those of its first character and those of the others.
pub(crate) proof fn lemma_encode_first(text: Seq<char>)
    requires
        text.len() > 0,
    ensures
        encode_utf8(text) == bytes_of(text[0]) + encode_utf8(text.skip(1)),
{
    let one = seq![text[0]];
    assert(one.drop_first() =~= Seq::<char>::empty());
    assert(encode_utf8(Seq::<char>::empty()) =~= Seq::<u8>::empty());
    assert(text.drop_first() =~= text.skip(1));
    assert(encode_utf8(text) =~= bytes_of(text[0]) + encode_utf8(text.skip(1)));
}

/// The events for a text that is typed.
pub open spec fn typed_text(text: Seq<char>) -> Seq<InternalEventView> {
    text.map_values(|c: char| typed(c))
}

/// Typed text becomes one key for each of its characters, in order, and nothing remains.
pub proof fn law_text_becomes_keys(state: ParserState, text: Seq<char>, more: bool, now: u128)
    requires
        at_rest(state),
        forall|i: int| 0 <= i < text.len() ==> is_printable(#[trigger] text[i]),
    ensures
        state.advance(encode_utf8(text), more, now) == (ParserState {
            events: state.events + typed_text(text),
            ..state
        }),
    decreases text.len(),
{
    assert((ParserState { escape_deadline: None, ..state }).expire_osc(now) =~= state);
    if text.len() == 0 {
        assert(encode_utf8(text) =~= Seq::<u8>::empty());
        assert(state.events + typed_text(text) =~= state.events);
    } else {
        let rest = text.skip(1);
        let after = encode_utf8(rest);
        lemma_encode_first(text);
        assert(is_printable(text[0]));
        assert forall|i: int| 0 <= i < rest.len() implies is_printable(#[trigger] rest[i]) by {
            assert(is_printable(text[i + 1]));
        }
        let next = ParserState { events: state.events.push(typed(text[0])), ..state };
        lemma_feed_character(state, text[0], true, now);
        lemma_feed_character(state, text[0], more, now);
        law_text_becomes_keys(next, rest, more, now);
        assert((ParserState { escape_deadline: None, ..next }).expire_osc(now) =~= next);
        assert(next.events + typed_text(rest) =~= state.events + typed_text(text));
        if after.len() == 0 {
            assert(encode_utf8(text) =~= bytes_of(text[0]));
            assert(next.feed(after, more, now) == next);
        } else {
            lemma_feed_split(state, bytes_of(text[0]), after, more, now);
        }
    }
}

/// An escape before a character that is typed adds Alt to its key.
pub proof fn law_alt_character_becomes_a_key(
    state: ParserState,
    c: char,
    more: bool,
    now: u128,
)
    requires
        at_rest(state),
        is_printable(c),
        c != '[',
        c != ']',
        c != 'O',
    ensures
        exists|key: KeyEvent|
            {
                &&& typed(c) == #[trigger] key_view(key)
                &&& state.advance(seq![0x1bu8] + bytes_of(c), more, now) == (ParserState {
                    events: state.events.push(
                        key_view(
                            KeyEvent {
                                modifiers: KeyModifiers { alt: true, ..key.modifiers },
                                ..key
                            },
                        ),
                    ),
                    ..state
                })
            },
{
    let bytes = bytes_of(c);
    let whole = seq![0x1bu8] + bytes;
    lemma_bytes_of(c);
    lemma_typed(c, more);
    assert(bytes[0] != 0x1b && bytes[0] != 0x5b && bytes[0] != 0x5d && bytes[0] != 0x4f) by {
        if bytes.len() == 1 {
            assert(bytes[0] == c as u32);
        }
    }
    law_escape_adds_alt(bytes, more);
    assert(whole[1] == bytes[0]);
    assert forall|k: int| 1 <= k < whole.len() implies (#[trigger] decode(
        whole.take(k),
        true,
    )) is Incomplete by {
        if k == 1 {
            assert(whole.take(1) =~= seq![0x1bu8]);
            reveal(decode);
        } else {
            law_beginning_of_a_character_is_incomplete(c, k - 1, true);
            law_escape_adds_alt(bytes.take(k - 1), true);
            assert(whole.take(k) =~= seq![0x1bu8] + bytes.take(k - 1));
        }
    }
    assert forall|k: int| 1 <= k < whole.len() implies !completed_csi(#[trigger] whole.take(k)) by {
        if k >= 2 {
            assert(whole.take(k)[1] == bytes[0]);
        }
    }
    lemma_feed_whole(state, whole, more, now);
}

/// A control sequence with parameters is one unit: it gives the event that it decodes to, where it
/// is one, and nothing of it remains.
pub proof fn law_control_sequence_is_framed(
    state: ParserState,
    body: Seq<u8>,
    last: u8,
    more: bool,
    now: u128,
)
    requires
        at_rest(state),
        is_control_body(body),
        0x40 <= last <= 0x7e,
        control_sequence(body, last) != paste_start(),
    ensures
        state.advance(control_sequence(body, last), more, now) == with_event(
            state,
            decode(control_sequence(body, last), more),
        ),
{
    let whole = control_sequence(body, last);
    assert forall|k: int| 1 <= k < whole.len() implies (#[trigger] decode(
        whole.take(k),
        true,
    )) is Incomplete by {
        reveal(decode);
        if k > 2 {
            assert(whole.take(k)[2] == body[0]);
            assert(whole.take(k).last() == body[k - 3]);
        }
    }
    assert forall|k: int| 1 <= k < whole.len() implies !completed_csi(#[trigger] whole.take(k)) by {
        if k > 2 {
            assert(whole.take(k).last() == body[k - 3]);
        }
    }
    assert(whole[2] == body[0]);
    assert(whole.last() == last);
    assert(!paste_start().is_prefix_of(whole)) by {
        if paste_start().is_prefix_of(whole) {
            assert(whole[5] == 0x7e);
            if whole.len() > 6 {
                assert(whole[5] == body[3]);
            } else {
                assert(whole =~= paste_start());
            }
        }
    }
    assert(completed_csi(whole));
    lemma_feed_whole(state, whole, more, now);
}

/// So is a control sequence without parameters, and one behind `ESC O`.
pub proof fn law_short_sequence_is_framed(
    state: ParserState,
    last: u8,
    more: bool,
    now: u128,
)
    requires
        at_rest(state),
        0x40 <= last <= 0x7e,
        last != 0x5b,
        last != 0x4d,
    ensures
        state.advance(seq![0x1bu8, 0x5bu8, last], more, now) == with_event(
            state,
            decode(seq![0x1bu8, 0x5bu8, last], more),
        ),
        state.advance(seq![0x1bu8, 0x4fu8, last], more, now) == with_event(
            state,
            decode(seq![0x1bu8, 0x4fu8, last], more),
        ),
{
    reveal(decode);
    let csi = seq![0x1bu8, 0x5bu8, last];
    let ss3 = seq![0x1bu8, 0x4fu8, last];
    assert(!paste_start().is_prefix_of(csi));
    lemma_feed_whole(state, csi, more, now);
    lemma_feed_whole(state, ss3, more, now);
}

/// So are a mouse event of three bytes, whatever they are, and a key behind `ESC [ [`.
pub proof fn law_mouse_event_is_framed(
    state: ParserState,
    body: Seq<u8>,
    last: u8,
    more: bool,
    now: u128,
)
    requires
        at_rest(state),
        body.len() == 3,
    ensures
        state.advance(mouse_event(body), more, now) == with_event(
            state,
            decode(mouse_event(body), more),
        ),
        state.advance(seq![0x1bu8, 0x5bu8, 0x5bu8, last], more, now) == with_event(
            state,
            decode(seq![0x1bu8, 0x5bu8, 0x5bu8, last], more),
        ),
{
    reveal(decode);
    lemma_feed_whole(state, mouse_event(body), more, now);
    lemma_feed_whole(state, seq![0x1bu8, 0x5bu8, 0x5bu8, last], more, now);
}

/// A control character is its key, and a byte that belongs to no character gives nothing.
pub proof fn law_single_bytes(state: ParserState, byte: u8, more: bool, now: u128)
    requires
        at_rest(state),
        byte != 0x1b,
        byte < 0x20 || byte == 0x7f || 0x80 <= byte <= 0xbf,
    ensures
        state.advance(seq![byte], more, now) == with_event(state, decode(seq![byte], more)),
        0x80 <= byte <= 0xbf ==> state.advance(seq![byte], more, now) == state,
{
    if 0x80 <= byte <= 0xbf {
        law_continuation_byte_is_no_event(byte, more);
    } else {
        crate::event::parse::text_laws::law_control_characters_are_keys(byte, more);
    }
    lemma_feed_whole(state, seq![byte], more, now);
}

/// A second escape begins a sequence of its own, so that the first one was the escape key.
pub proof fn law_second_escape_begins_a_sequence(
    state: ParserState,
    rest: Seq<u8>,
    more: bool,
    now: u128,
)
    requires
        at_rest(state),
    ensures
        state.feed(seq![0x1bu8, 0x1bu8] + rest, more, now) == (ParserState {
            events: state.events.push(
                key_view(KeyEvent::new(KeyCode::Esc, KeyModifiers::spec_none())),
            ),
            ..state
        }).feed(seq![0x1bu8] + rest, more, now),
{
    reveal(decode);
    let after = ParserState {
        events: state.events.push(
            key_view(KeyEvent::new(KeyCode::Esc, KeyModifiers::spec_none())),
        ),
        ..state
    };
    let first = ParserState { buffer: seq![ESC], ..state };
    let more_here = rest.len() > 0 || more;
    assert(state.buffer.push(ESC) =~= seq![ESC]);
    assert(state.step(ESC, true, now) =~= first);
    lemma_feed_one(state, ESC, seq![ESC] + rest, first, more, now);
    assert(seq![0x1bu8, 0x1bu8] + rest =~= seq![ESC] + (seq![ESC] + rest));
    let twice = first.step(ESC, more_here, now);
    assert(twice =~= after.step(ESC, more_here, now));
    lemma_feed_one(first, ESC, rest, twice, more, now);
    lemma_feed_one(after, ESC, rest, twice, more, now);
}

/// Continuation bytes give nothing.
proof fn lemma_continuations(
    state: ParserState,
    bytes: Seq<u8>,
    rest: Seq<u8>,
    more: bool,
    now: u128,
)
    requires
        at_rest(state),
        forall|i: int| 0 <= i < bytes.len() ==> 0x80 <= #[trigger] bytes[i] <= 0xbf,
    ensures
        state.feed(bytes + rest, more, now) == state.feed(rest, more, now),
    decreases bytes.len(),
{
    if bytes.len() == 0 {
        assert(bytes + rest =~= rest);
    } else {
        let left = bytes.skip(1);
        let input = left + rest;
        law_continuation_byte_is_no_event(bytes[0], input.len() > 0 || more);
        assert(state.buffer.push(bytes[0]) =~= seq![bytes[0]]);
        assert(state.buffer.len() != seq![ESC].len());
        assert(state.step(bytes[0], input.len() > 0 || more, now) =~= state);
        lemma_feed_one(state, bytes[0], input, state, more, now);
        assert(bytes + rest =~= seq![bytes[0]] + input);
        assert forall|i: int| 0 <= i < left.len() implies 0x80 <= #[trigger] left[i] <= 0xbf by {
            assert(left[i] == bytes[i + 1]);
        }
        lemma_continuations(state, left, rest, more, now);
    }
}

/// A character can be discarded between any of its bytes: the rest of it is no key.
pub proof fn law_character_can_be_discarded_anywhere(
    state: ParserState,
    c: char,
    at: int,
    rest: Seq<u8>,
    more: bool,
    now: u128,
    later: u128,
)
    requires
        at_rest(state),
        1 <= at < bytes_of(c).len(),
    ensures
        ({
            let discarded = state.advance(bytes_of(c).take(at), true, now).discard();
            &&& discard_status(discarded.discarded) == InputDiscardStatus::Complete
            &&& discarded.advance(bytes_of(c).skip(at) + rest, more, later)
                == ParserState::initial().feed(rest, more, later)
        }),
{
    let bytes = bytes_of(c);
    let fresh = ParserState::initial();
    lemma_bytes_of(c);
    assert forall|k: int| 1 <= k <= at implies (#[trigger] decode(
        bytes.take(k),
        true,
    )) is Incomplete by {
        law_beginning_of_a_character_is_incomplete(c, k, true);
    }
    assert forall|k: int| 1 <= k <= at implies !completed_csi(#[trigger] bytes.take(k)) by {
        assert(bytes.take(k)[0] == bytes[0]);
    }
    assert((ParserState { escape_deadline: None, ..state }).expire_osc(now) =~= state);
    lemma_feed_open(state, bytes, at, now);
    let held = state.advance(bytes.take(at), true, now);
    assert(held.buffer[0] == bytes[0]);
    assert(!paste_start().is_prefix_of(held.buffer)) by {
        if paste_start().is_prefix_of(held.buffer) {
            assert(paste_start()[0] == held.buffer[0]);
        }
    }
    assert(!held.buffer.is_prefix_of(paste_start())) by {
        if held.buffer.is_prefix_of(paste_start()) {
            assert(paste_start()[0] == held.buffer[0]);
        }
    }
    let discarded = held.discard();
    assert(discarded =~= fresh);
    assert((ParserState { escape_deadline: None, ..fresh }).expire_osc(later) =~= fresh);
    let left = bytes.skip(at);
    assert forall|i: int| 0 <= i < left.len() implies 0x80 <= #[trigger] left[i] <= 0xbf by {
        assert(left[i] == bytes[i + at]);
    }
    lemma_continuations(fresh, left, rest, more, later);
}

} // verus!
