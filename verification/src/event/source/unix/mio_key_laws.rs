//! What events the bytes of keys and sequences give, and what discarding leaves of them, in a
//! parser of a source that waits for the terminal with `mio`.
use crate::event::bytes::{paste_start, ESC};
use crate::event::parse::text_laws::{
    bytes_of, is_printable, law_beginning_of_a_character_is_incomplete, lemma_bytes_of,
    lemma_typed, typed,
};
use crate::event::parse::{decode, Decoded};
use crate::event::source::unix::mio::{DiscardedPaste, ParserState};
use crate::event::source::unix::mio_laws::{at_rest, lemma_feed_split};
use crate::event::source::unix::tty_discard_laws::{
    control_sequence, is_control_body, mouse_event,
};
use crate::event::source::unix::tty_key_laws::{lemma_encode_first, typed_text};
use crate::event::types::InputDiscardStatus;
use crate::time::MAX_NANOS;
use vstd::prelude::*;
use vstd::utf8::encode_utf8;

verus! {

/// A parser with what bytes decode to behind its events, where they decode to an event.
pub open spec fn with_event(state: ParserState, decoded: Decoded) -> ParserState {
    match decoded {
        Decoded::Event(event) => ParserState { events: state.events.push(event), ..state },
        _ => state,
    }
}

proof fn lemma_feed_one(
    state: ParserState,
    byte: u8,
    input: Seq<u8>,
    next: ParserState,
    more: bool,
)
    requires
        state.step(byte, input.len() > 0 || more) == next,
    ensures
        state.feed(seq![byte] + input, more) == next.feed(input, more),
{
    let all = seq![byte] + input;
    assert(all.skip(1) =~= input);
    assert(all[0] == byte);
}

/// Bytes collect in the buffer while they cannot be decoded.
proof fn lemma_feed_open(state: ParserState, whole: Seq<u8>, len: int)
    requires
        at_rest(state),
        0 <= len <= whole.len(),
        forall|k: int| 1 <= k <= len ==> (#[trigger] decode(whole.take(k), true)) is Incomplete,
    ensures
        state.feed(whole.take(len), true) == (ParserState { buffer: whole.take(len), ..state }),
    decreases len,
{
    let bytes = whole.take(len);
    if len == 0 {
        assert(bytes =~= state.buffer);
    } else {
        let before = whole.take(len - 1);
        let last = seq![whole[len - 1]];
        lemma_feed_open(state, whole, len - 1);
        lemma_feed_split(state, before, last, true);
        assert(before + last =~= bytes);
        assert(before.push(last[0]) =~= bytes);
        let held = ParserState { buffer: before, ..state };
        assert(decode(bytes, true) is Incomplete);
        let next = ParserState { buffer: bytes, ..state };
        assert(held.step(last[0], true) =~= next);
        lemma_feed_one(held, last[0], Seq::empty(), next, true);
        assert(seq![last[0]] + Seq::<u8>::empty() =~= last);
    }
}

/// Bytes that are decided with their last one give what they decode to, and nothing remains.
proof fn lemma_feed_whole(state: ParserState, whole: Seq<u8>, more: bool)
    requires
        at_rest(state),
        whole.len() > 0,
        forall|k: int|
            1 <= k < whole.len() ==> (#[trigger] decode(whole.take(k), true)) is Incomplete,
        !(decode(whole, more) is Incomplete),
    ensures
        state.advance(whole, more) == with_event(state, decode(whole, more)),
{
    let len = whole.len() - 1;
    let before = whole.take(len);
    let last = seq![whole[len]];
    lemma_feed_open(state, whole, len);
    lemma_feed_split(state, before, last, more);
    assert(before + last =~= whole);
    assert(before.push(last[0]) =~= whole);
    let held = ParserState { buffer: before, ..state };
    let next = with_event(state, decode(whole, more));
    assert(held.step(last[0], more) =~= next);
    lemma_feed_one(held, last[0], Seq::empty(), next, more);
    assert(seq![last[0]] + Seq::<u8>::empty() =~= last);
    assert((ParserState { escape_deadline: None, ..state }) =~= state);
}

proof fn lemma_feed_character(state: ParserState, c: char, more: bool)
    requires
        at_rest(state),
        is_printable(c),
    ensures
        state.feed(bytes_of(c), more) == (ParserState {
            events: state.events.push(typed(c)),
            ..state
        }),
{
    let bytes = bytes_of(c);
    lemma_bytes_of(c);
    lemma_typed(c, more);
    assert forall|k: int| 1 <= k < bytes.len() implies (#[trigger] decode(
        bytes.take(k),
        true,
    )) is Incomplete by {
        law_beginning_of_a_character_is_incomplete(c, k, true);
    }
    lemma_feed_whole(state, bytes, more);
    assert((ParserState { escape_deadline: None, ..state }) =~= state);
}

/// Typed text becomes one key for each of its characters, in order, and nothing remains.
pub proof fn law_text_becomes_keys(state: ParserState, text: Seq<char>, more: bool)
    requires
        at_rest(state),
        forall|i: int| 0 <= i < text.len() ==> is_printable(#[trigger] text[i]),
    ensures
        state.advance(encode_utf8(text), more) == (ParserState {
            events: state.events + typed_text(text),
            ..state
        }),
    decreases text.len(),
{
    assert((ParserState { escape_deadline: None, ..state }) =~= state);
    if text.len() == 0 {
        assert(encode_utf8(text) =~= Seq::<u8>::empty());
        assert(state.events + typed_text(text) =~= state.events);
    } else {
        let rest = text.skip(1);
        let after = encode_utf8(rest);
        lemma_encode_first(text);
        assert(is_printable(text[0]));
        assert forall|i: int| 0 <= i < rest.len() implies is_printable(#[trigger] rest[i]) by {
            assert(is_printable(text[i + 1]));
        }
        let next = ParserState { events: state.events.push(typed(text[0])), ..state };
        lemma_feed_character(state, text[0], true);
        lemma_feed_character(state, text[0], more);
        law_text_becomes_keys(next, rest, more);
        assert((ParserState { escape_deadline: None, ..next }) =~= next);
        assert(next.events + typed_text(rest) =~= state.events + typed_text(text));
        if after.len() == 0 {
            assert(encode_utf8(text) =~= bytes_of(text[0]));
            assert(next.feed(after, more) == next);
        } else {
            lemma_feed_split(state, bytes_of(text[0]), after, more);
        }
    }
}

/// A control sequence gives the event that it decodes to, and nothing of it remains, where it can
/// be decided.
pub proof fn law_control_sequence_is_framed(
    state: ParserState,
    body: Seq<u8>,
    last: u8,
    more: bool,
)
    requires
        at_rest(state),
        is_control_body(body),
        !(decode(control_sequence(body, last), more) is Incomplete),
    ensures
        state.advance(control_sequence(body, last), more) == with_event(
            state,
            decode(control_sequence(body, last), more),
        ),
{
    let whole = control_sequence(body, last);
    assert forall|k: int| 1 <= k < whole.len() implies (#[trigger] decode(
        whole.take(k),
        true,
    )) is Incomplete by {
        reveal(decode);
        if k > 2 {
            assert(whole.take(k)[2] == body[0]);
            assert(whole.take(k).last() == body[k - 3]);
        }
    }
    lemma_feed_whole(state, whole, more);
}

/// So do a control sequence without parameters, one behind `ESC O`, a mouse event of three bytes
/// and a key behind `ESC [ [`.
pub proof fn law_short_sequences_are_framed(
    state: ParserState,
    body: Seq<u8>,
    last: u8,
    more: bool,
)
    requires
        at_rest(state),
        body.len() == 3,
        0x40 <= last <= 0x7e,
    ensures
        last != 0x5b && last != 0x4d ==> state.advance(seq![0x1bu8, 0x5bu8, last], more)
            == with_event(state, decode(seq![0x1bu8, 0x5bu8, last], more)),
        state.advance(seq![0x1bu8, 0x4fu8, last], more) == with_event(
            state,
            decode(seq![0x1bu8, 0x4fu8, last], more),
        ),
        state.advance(mouse_event(body), more) == with_event(
            state,
            decode(mouse_event(body), more),
        ),
        state.advance(seq![0x1bu8, 0x5bu8, 0x5bu8, last], more) == with_event(
            state,
            decode(seq![0x1bu8, 0x5bu8, 0x5bu8, last], more),
        ),
{
    reveal(decode);
    if last != 0x5b && last != 0x4d {
        lemma_feed_whole(state, seq![0x1bu8, 0x5bu8, last], more);
    }
    lemma_feed_whole(state, seq![0x1bu8, 0x4fu8, last], more);
    lemma_feed_whole(state, mouse_event(body), more);
    lemma_feed_whole(state, seq![0x1bu8, 0x5bu8, 0x5bu8, last], more);
}

/// What was discarded as the beginning of a paste and turns out to be something else takes one more
/// byte with it; an escape begins another such beginning.
pub proof fn law_discarded_beginning_takes_one_byte(
    state: ParserState,
    at: int,
    byte: u8,
    rest: Seq<u8>,
    more: bool,
    now: u128,
)
    requires
        at_rest(state),
        2 <= at <= 5,
        byte != seq![0x1bu8, 0x5bu8, 0x32u8, 0x30u8, 0x30u8, 0x7eu8][at],
    ensures
        ({
            let beginning = seq![0x1bu8, 0x5bu8, 0x32u8, 0x30u8, 0x30u8, 0x7eu8].take(at);
            let discarded = state.advance(beginning, true).discard(now);
            &&& discarded.discard_status() == InputDiscardStatus::BracketedPasteInProgress
            &&& byte != 0x1b ==> discarded.advance(seq![byte] + rest, more)
                == ParserState::initial().feed(rest, more)
            &&& byte == 0x1b ==> discarded.advance(seq![byte] + rest, more) == (ParserState {
                discarded: Some(DiscardedPaste::Start(1)),
                ..ParserState::initial()
            }).feed(rest, more)
        }),
{
    let marker = seq![0x1bu8, 0x5bu8, 0x32u8, 0x30u8, 0x30u8, 0x7eu8];
    let fresh = ParserState::initial();
    assert forall|k: int| 1 <= k <= at implies (#[trigger] decode(
        marker.take(k),
        true,
    )) is Incomplete by {
        reveal(decode);
    }
    assert((ParserState { escape_deadline: None, ..state }) =~= state);
    lemma_feed_open(state, marker, at);
    let held = state.advance(marker.take(at), true);
    assert(held.buffer == marker.take(at));
    assert(marker =~= paste_start());
    assert(held.buffer.is_prefix_of(paste_start()));
    assert(held.buffer.len() != seq![ESC].len());
    let discarded = held.discard(now);
    assert(discarded =~= (ParserState {
        discarded: Some(DiscardedPaste::Start(at as usize)),
        ..fresh
    }));
    assert((ParserState { escape_deadline: None, ..discarded }) =~= discarded);
    let next = if byte == 0x1b {
        ParserState { discarded: Some(DiscardedPaste::Start(1)), ..fresh }
    } else {
        fresh
    };
    assert(discarded.step(byte, rest.len() > 0 || more) =~= next);
    lemma_feed_one(discarded, byte, rest, next, more);
}

/// A lone escape survives discarding: it keeps its deadline, or gets one, and what follows is
/// decoded as its continuation.
pub proof fn law_lone_escape_survives_discarding(
    state: ParserState,
    now: u128,
    later: u128,
    rest: Seq<u8>,
    more: bool,
)
    requires
        at_rest(state),
        now <= MAX_NANOS,
        later <= MAX_NANOS,
    ensures
        ({
            let waiting = state.buffer_external(seq![0x1bu8], now);
            let live = state.advance(seq![0x1bu8], true);
            let fresh = ParserState::initial();
            &&& waiting.discard(later).discard_status()
                == InputDiscardStatus::BracketedPasteInProgress
            &&& waiting.discard(later).escape_deadline == Some(
                (now + 20_000_000) as u128,
            )
            &&& live.discard(later).escape_deadline == Some(
                (later + 20_000_000) as u128,
            )
            &&& waiting.discard(later).advance(rest, more) == fresh.advance(
                seq![0x1bu8],
                true,
            ).advance(rest, more)
        }),
{
    reveal(decode);
    let fresh = ParserState::initial();
    let one = seq![0x1bu8];
    assert(one.take(1) =~= one);
    assert((ParserState { escape_deadline: None, ..state }) =~= state);
    assert((ParserState { escape_deadline: None, ..fresh }) =~= fresh);
    assert forall|k: int| 1 <= k <= 1 implies (#[trigger] decode(one.take(k), true)) is Incomplete by {}
    lemma_feed_open(state, one, 1);
    lemma_feed_open(fresh, one, 1);
    let waiting = state.buffer_external(one, now);
    assert((ParserState { escape_deadline: None, ..waiting.discard(later) }) =~= (ParserState {
        escape_deadline: None,
        ..fresh.advance(one, true)
    }));
}

/// What is neither a paste nor the beginning of one is discarded completely.
pub proof fn law_other_input_is_discarded_completely(state: ParserState, now: u128)
    requires
        state.wf(),
        state.discarded is None,
        !seq![0x1bu8, 0x5bu8, 0x32u8, 0x30u8, 0x30u8, 0x7eu8].is_prefix_of(state.buffer),
        state.buffer.len() > 0 ==> !state.buffer.is_prefix_of(
            seq![0x1bu8, 0x5bu8, 0x32u8, 0x30u8, 0x30u8, 0x7eu8],
        ),
    ensures
        state.discard(now) == ParserState::initial(),
        state.discard(now).discard_status() == InputDiscardStatus::Complete,
{
    assert(seq![0x1bu8, 0x5bu8, 0x32u8, 0x30u8, 0x30u8, 0x7eu8] =~= paste_start());
    assert(state.buffer != seq![ESC]) by {
        if state.buffer == seq![ESC] {
            assert(seq![ESC] =~= paste_start().take(1));
            assert(seq![ESC].is_prefix_of(paste_start()));
        }
    }
    assert(state.discard(now) =~= ParserState::initial());
    assert(Seq::<u8>::empty() != seq![ESC]) by {
        assert(seq![ESC].len() == 1);
    }
}

} // verus!
