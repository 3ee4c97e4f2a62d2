//! What holds of the parser of a source that waits for the terminal with `mio`.
use crate::event::bytes::{ends_with_marker, is_final, paste_end, paste_start, ESC};
use crate::event::parse::decode;
use crate::event::parse::text::text_of;
use crate::event::source::unix::marker::{
    holds_paste_end, lemma_marker_completes_once, lemma_marker_step, lemma_open_paste,
    lemma_whole_paste, matches_marker, paste, secondary_attributes,
};
use crate::event::source::unix::mio::{DiscardedPaste, ParserState};
use crate::event::source::unix::tty_laws::ends_at;
use crate::event::types::{
    key_view, EventView, InputDiscardStatus, InternalEventView, KeyCode, KeyEvent, KeyModifiers,
};
use crate::time::{no_longer, reached, MAX_NANOS};
use vstd::prelude::*;
use vstd::utf8::{encode_utf8, encode_utf8_decode_utf8, encode_utf8_valid_utf8};

verus! {

/// Taking bytes in two parts takes them all.
pub(crate) proof fn lemma_feed_split(state: ParserState, a: Seq<u8>, b: Seq<u8>, more: bool)
    requires
        b.len() > 0 || more,
    ensures
        state.feed(a, true).feed(b, more) == state.feed(a + b, more),
    decreases a.len(),
{
    if a.len() == 0 {
        assert(a + b =~= b);
    } else {
        lemma_feed_split(state.step(a[0], true), a.skip(1), b, more);
        assert((a + b).skip(1) =~= a.skip(1) + b);
    }
}

proof fn lemma_feed_keeps_deadline(state: ParserState, input: Seq<u8>, more: bool)
    ensures
        state.feed(input, more).escape_deadline == state.escape_deadline,
    decreases input.len(),
{
    if input.len() > 0 {
        lemma_feed_keeps_deadline(
            state.step(input[0], input.len() > 1 || more),
            input.skip(1),
            more,
        );
    }
}

/// How input is split into reads makes no difference, as long as the parser knows that more is to
/// come; only the deadline of an escape at the end counts from the last read.
pub proof fn law_reads_can_be_split(
    state: ParserState,
    a: Seq<u8>,
    b: Seq<u8>,
    more: bool,
    now: u128,
    later: u128,
)
    requires
        b.len() > 0 || more,
    ensures
        state.advance(a, true).advance(b, more) == state.advance(a + b, more),
        state.buffer_external(a, now).buffer_external(b, later) == state.buffer_external(
            a + b,
            later,
        ),
{
    let start = ParserState { escape_deadline: None, ..state };
    lemma_feed_split(start, a, b, more);
    lemma_feed_split(start, a, b, true);
    lemma_feed_keeps_deadline(start, a, true);
    let first = state.advance(a, true);
    assert(first == ParserState { escape_deadline: None, ..first });
    assert(first == ParserState { escape_deadline: None, ..state.buffer_external(a, now) });
}

/// Events are only added behind those that are there.
pub proof fn law_events_are_appended(state: ParserState, input: Seq<u8>, more: bool)
    ensures
        state.events.is_prefix_of(state.advance(input, more).events),
{
    lemma_feed_appends(ParserState { escape_deadline: None, ..state }, input, more);
}

proof fn lemma_feed_appends(state: ParserState, input: Seq<u8>, more: bool)
    ensures
        state.events.is_prefix_of(state.feed(input, more).events),
    decreases input.len(),
{
    if input.len() > 0 {
        let next = state.step(input[0], input.len() > 1 || more);
        assert(state.events.is_prefix_of(next.events));
        lemma_feed_appends(next, input.skip(1), more);
    }
}

/// Whether a parser waits for a new sequence.
pub open spec fn at_rest(state: ParserState) -> bool {
    &&& state.buffer.len() == 0
    &&& state.escape_deadline is None
    &&& state.discarded is None
}

/// A paste collects in the buffer.
proof fn lemma_feed_open_paste(state: ParserState, text: Seq<u8>, len: int)
    requires
        at_rest(state),
        !holds_paste_end(text),
        0 <= len < text.len() + 12,
    ensures
        state.feed(paste(text).take(len), true) == (ParserState {
            buffer: paste(text).take(len),
            ..state
        }),
    decreases len,
{
    let bytes = paste(text).take(len);
    if len == 0 {
        assert(bytes =~= state.buffer);
    } else {
        let before = paste(text).take(len - 1);
        let last = seq![paste(text)[len - 1]];
        lemma_feed_open_paste(state, text, len - 1);
        lemma_feed_split(state, before, last, true);
        lemma_open_paste(text, len);
        assert(before + last =~= bytes);
        assert(before.push(last[0]) =~= bytes);
        assert(last.skip(1) =~= Seq::<u8>::empty());
        let held = ParserState { buffer: before, ..state };
        assert(held.step(last[0], true) =~= (ParserState { buffer: bytes, ..state }));
        assert(held.feed(last, true) == held.step(last[0], true).feed(last.skip(1), true));
    }
}

/// What was decoded before does not matter for what is decoded.
proof fn lemma_feed_frames_events(state: ParserState, input: Seq<u8>, more: bool)
    ensures
        ({
            let alone = (ParserState { events: Seq::empty(), ..state }).feed(input, more);
            state.feed(input, more) == (ParserState {
                events: state.events + alone.events,
                ..alone
            })
        }),
    decreases input.len(),
{
    let bare = ParserState { events: Seq::empty(), ..state };
    if input.len() == 0 {
        assert(state =~= (ParserState { events: state.events + bare.events, ..bare }));
    } else {
        let more_here = input.len() > 1 || more;
        let next = state.step(input[0], more_here);
        let alone = bare.step(input[0], more_here);
        assert(next =~= (ParserState { events: state.events + alone.events, ..alone }));
        lemma_feed_frames_events(next, input.skip(1), more);
        lemma_feed_frames_events(alone, input.skip(1), more);
        let rest = ParserState { events: Seq::empty(), ..alone };
        assert(rest =~= (ParserState { events: Seq::empty(), ..next }));
        let end = rest.feed(input.skip(1), more);
        assert(state.events + (alone.events + end.events) =~= (state.events + alone.events)
            + end.events);
    }
}

/// What was decoded before does not matter for what input from elsewhere decodes to.
pub(crate) proof fn lemma_buffer_frames_events(state: ParserState, input: Seq<u8>, now: u128)
    ensures
        ({
            let alone = (ParserState { events: Seq::empty(), ..state }).buffer_external(input, now);
            state.buffer_external(input, now) == (ParserState {
                events: state.events + alone.events,
                ..alone
            })
        }),
{
    lemma_feed_frames_events(ParserState { escape_deadline: None, ..state }, input, true);
}

/// A bracketed paste gives one event with all of its text, whatever the text looks like: keys and
/// control sequences inside a paste are text.
pub proof fn law_paste_is_text(state: ParserState, text: Seq<u8>, more: bool)
    requires
        at_rest(state),
        !holds_paste_end(text),
    ensures
        state.advance(paste(text), more) == (ParserState {
            events: state.events.push(
                InternalEventView::Event(EventView::Paste(text_of(text))),
            ),
            ..state
        }),
{
    let whole = paste(text);
    let len = whole.len() - 1;
    let before = whole.take(len);
    let last = seq![whole[len]];
    lemma_feed_open_paste(state, text, len);
    lemma_feed_split(state, before, last, more);
    lemma_whole_paste(text, more);
    assert(before + last =~= whole);
    assert(before.push(last[0]) =~= whole);
    assert(last.skip(1) =~= Seq::<u8>::empty());
    let held = ParserState { buffer: before, ..state };
    let next = held.step(last[0], more);
    assert(next =~= (ParserState {
        events: state.events.push(InternalEventView::Event(EventView::Paste(text_of(text)))),
        ..state
    }));
    assert(held.feed(last, more) == next.feed(last.skip(1), more));
}

/// Text that is pasted is read back as it is.
pub proof fn law_pasted_text_is_read(state: ParserState, text: Seq<char>, more: bool)
    requires
        at_rest(state),
        !holds_paste_end(encode_utf8(text)),
    ensures
        state.advance(paste(encode_utf8(text)), more) == (ParserState {
            events: state.events.push(InternalEventView::Event(EventView::Paste(text))),
            ..state
        }),
{
    law_paste_is_text(state, encode_utf8(text), more);
    encode_utf8_valid_utf8(text);
    encode_utf8_decode_utf8(text);
}

/// The answer to a request for secondary device attributes gives no events.
pub proof fn law_secondary_attributes_are_no_keys(
    state: ParserState,
    body: Seq<u8>,
    last: u8,
    more: bool,
)
    requires
        at_rest(state),
        forall|i: int| 0 <= i < body.len() ==> !is_final(#[trigger] body[i]),
        is_final(last),
    ensures
        state.advance(secondary_attributes(body).push(last), more) == state,
{
    let before = secondary_attributes(body);
    let whole = before.push(last);
    lemma_feed_open_attributes(state, body, before.len() as int);
    lemma_feed_split(state, before, seq![last], more);
    assert(before.take(before.len() as int) =~= before);
    assert(before + seq![last] =~= whole);
    assert(seq![last].skip(1) =~= Seq::<u8>::empty());
    let held = ParserState { buffer: before, ..state };
    let next = held.step(last, more);
    assert(decode(whole, more) is Invalid) by {
        reveal(decode);
    }
    assert(next =~= state);
    assert(held.feed(seq![last], more) == next.feed(seq![last].skip(1), more));
}

proof fn lemma_feed_open_attributes(state: ParserState, body: Seq<u8>, len: int)
    requires
        at_rest(state),
        forall|i: int| 0 <= i < body.len() ==> !is_final(#[trigger] body[i]),
        0 <= len <= body.len() + 3,
    ensures
        state.feed(secondary_attributes(body).take(len), true) == (ParserState {
            buffer: secondary_attributes(body).take(len),
            ..state
        }),
    decreases len,
{
    reveal(decode);
    let bytes = secondary_attributes(body).take(len);
    if len == 0 {
        assert(bytes =~= state.buffer);
    } else {
        let before = secondary_attributes(body).take(len - 1);
        let last = seq![secondary_attributes(body)[len - 1]];
        lemma_feed_open_attributes(state, body, len - 1);
        lemma_feed_split(state, before, last, true);
        assert(before + last =~= bytes);
        assert(before.push(last[0]) =~= bytes);
        assert(last.skip(1) =~= Seq::<u8>::empty());
        let held = ParserState { buffer: before, ..state };
        if len > 3 {
            assert(last[0] == body[len - 4]);
        }
        assert(held.step(last[0], true) =~= (ParserState { buffer: bytes, ..state }));
        assert(held.feed(last, true) == held.step(last[0], true).feed(last.skip(1), true));
    }
}

/// The text of a discarded paste is swallowed up to the marker behind it.
proof fn lemma_swallow_text(
    state: ParserState,
    text: Seq<u8>,
    from: int,
    matched: int,
    rest: Seq<u8>,
    more: bool,
)
    requires
        !holds_paste_end(text),
        0 <= from < text.len() + 6,
        matches_marker((text + paste_end()).take(from), matched),
        at_rest(ParserState { discarded: None, ..state }),
        state.discarded == Some(DiscardedPaste::End(matched as usize)),
    ensures
        state.feed((text + paste_end()).skip(from) + rest, more) == (ParserState {
            discarded: None,
            ..state
        }).feed(rest, more),
    decreases text.len() + 6 - from,
{
    let whole = text + paste_end();
    let input = whole.skip(from) + rest;
    let byte = whole[from];
    lemma_marker_step(whole.take(from), byte, matched);
    assert(whole.take(from).push(byte) =~= whole.take(from + 1));
    assert(input[0] == byte);
    let next = state.step(byte, input.len() > 1 || more);
    assert(state.feed(input, more) == next.feed(input.skip(1), more));
    if from + 1 == whole.len() {
        assert(ends_with_marker(whole.take(from + 1), 6)) by {
            assert(paste_end().take(6) =~= whole.take(from + 1).subrange(from - 5, from + 1));
        }
        assert(input.skip(1) =~= rest);
        assert(next =~= (ParserState { discarded: None, ..state }));
    } else {
        lemma_marker_completes_once(text, from + 1);
        assert(input.skip(1) =~= whole.skip(from + 1) + rest);
        let now_matched = if byte == paste_end()[matched] {
            matched + 1
        } else if byte == ESC {
            1
        } else {
            0
        };
        lemma_swallow_text(next, text, from + 1, now_matched, rest, more);
        assert((ParserState { discarded: None, ..next }) =~= (ParserState {
            discarded: None,
            ..state
        }));
    }
}

/// A discarded beginning of a paste is followed to its text.
proof fn lemma_swallow_paste_start(
    state: ParserState,
    text: Seq<u8>,
    from: int,
    rest: Seq<u8>,
    more: bool,
)
    requires
        !holds_paste_end(text),
        1 <= from < 6,
        at_rest(ParserState { discarded: None, ..state }),
        state.discarded == Some(DiscardedPaste::Start(from as usize)),
    ensures
        state.feed(paste(text).skip(from) + rest, more) == (ParserState {
            discarded: None,
            ..state
        }).feed(rest, more),
    decreases 6 - from,
{
    let whole = paste(text);
    let input = whole.skip(from) + rest;
    let byte = whole[from];
    assert(byte == paste_start()[from]);
    assert(input[0] == byte);
    let next = state.step(byte, input.len() > 1 || more);
    assert(state.feed(input, more) == next.feed(input.skip(1), more));
    assert(input.skip(1) =~= whole.skip(from + 1) + rest);
    assert((ParserState { discarded: None, ..next }) =~= (ParserState {
        discarded: None,
        ..state
    }));
    if from == 5 {
        lemma_nothing_matches();
        assert((text + paste_end()).take(0) =~= Seq::<u8>::empty());
        assert((text + paste_end()).skip(0) =~= whole.skip(6));
        lemma_swallow_text(next, text, 0, 0, rest, more);
    } else {
        lemma_swallow_paste_start(next, text, from + 1, rest, more);
    }
}

proof fn lemma_nothing_matches()
    ensures
        matches_marker(Seq::empty(), 0),
{
    assert(paste_end().take(0) =~= Seq::<u8>::empty().subrange(0, 0));
}

/// The marker does not occur in a part of bytes in which it does not occur.
proof fn lemma_holds_suffix(text: Seq<u8>, from: int)
    requires
        0 <= from <= text.len(),
        !holds_paste_end(text),
    ensures
        !holds_paste_end(text.skip(from)),
{
    if holds_paste_end(text.skip(from)) {
        let end = choose|end: int|
            6 <= end <= text.len() - from && #[trigger] ends_with_marker(
                text.skip(from).take(end),
                6,
            );
        assert(text.take(from + end).subrange(from + end - 6, from + end) =~= text.skip(
            from,
        ).take(end).subrange(end - 6, end));
        assert(ends_with_marker(text.take(from + end), 6));
    }
}

/// When input is discarded inside a bracketed paste, behind its first byte and no later than before
/// the marker that ends it, the rest of the paste is swallowed when it arrives, and what follows
/// the paste is decoded as if nothing had been there.
pub proof fn law_discarded_paste_is_swallowed(
    state: ParserState,
    text: Seq<u8>,
    at: int,
    rest: Seq<u8>,
    more: bool,
    now: u128,
)
    requires
        at_rest(state),
        !holds_paste_end(text),
        2 <= at <= paste(text).len() - 6,
    ensures
        ({
            let discarded = state.advance(paste(text).take(at), true).discard(now);
            &&& discarded.discard_status() == InputDiscardStatus::BracketedPasteInProgress
            &&& discarded.advance(paste(text).skip(at) + rest, more)
                == ParserState::initial().advance(rest, more)
        }),
{
    let whole = paste(text);
    let held = state.advance(whole.take(at), true);
    lemma_feed_open_paste(state, text, at);
    assert(held.buffer == whole.take(at));
    let discarded = held.discard(now);
    if at < 6 {
        assert(whole.take(at) =~= paste_start().take(at));
        assert(whole.take(at).is_prefix_of(paste_start()));
        lemma_swallow_paste_start(discarded, text, at, rest, more);
    } else {
        assert(paste_start().is_prefix_of(whole.take(at))) by {
            assert(paste_start() =~= whole.take(at).subrange(0, 6));
        }
        let left = text.skip(at - 6);
        lemma_holds_suffix(text, at - 6);
        lemma_nothing_matches();
        assert((left + paste_end()).take(0) =~= Seq::<u8>::empty());
        assert((left + paste_end()).skip(0) =~= whole.skip(at));
        lemma_swallow_text(discarded, left, 0, 0, rest, more);
    }
    assert((ParserState { discarded: None, ..discarded }) =~= ParserState::initial());
}

/// What is swallowed of a discarded paste takes no room and gives no events.
pub proof fn law_swallowed_input_leaves_nothing(state: ParserState, byte: u8, more: bool)
    requires
        state.wf(),
        state.discarded is Some,
    ensures
        state.step(byte, more).buffer.len() == 0,
        state.step(byte, more).events == state.events,
{
}

/// Discarding leaves no events and no input but a lone escape. It reports that it is complete
/// exactly if nothing remains, and the parser is then as good as new.
pub proof fn law_discard_leaves_nothing(state: ParserState, now: u128)
    requires
        state.wf(),
    ensures
        state.discard(now).events.len() == 0,
        state.discard(now).buffer.len() == 0 || state.discard(now).buffer == seq![ESC],
        state.discard(now).buffer == seq![ESC] ==> state.discard(now).escape_deadline is Some,
        state.discard(now).discard_status() == InputDiscardStatus::Complete <==> state.discard(now)
            == ParserState::initial(),
{
    let next = state.discard(now);
    if next.discarded is None && next.buffer.len() == 0 {
        assert(next =~= ParserState::initial());
    }
    assert(seq![ESC].len() == 1);
}

/// A wait is no longer than asked for and ends at the deadline; it is no wait at all exactly if no
/// time is left or the deadline was reached.
pub proof fn law_wait_ends_in_time(state: ParserState, timeout: Option<u128>, now: u128)
    ensures
        ({
            let wait = state.wait(timeout, now);
            &&& timeout matches Some(limit) ==> wait is Some && wait->0 <= limit
            &&& state.escape_deadline matches Some(at) ==> now < at ==> wait is Some && now
                + wait->0 <= at
            &&& wait == Some(0u128) <==> timeout == Some(0u128) || reached(
                state.escape_deadline,
                now,
            )
            &&& wait == timeout || wait == Some(0u128) || ends_at(
                wait,
                now,
                state.escape_deadline,
            )
        }),
{
}

/// A wait only becomes shorter as time goes by.
pub proof fn law_wait_becomes_shorter(
    state: ParserState,
    timeout: Option<u128>,
    now: u128,
    later: u128,
)
    requires
        now <= later,
    ensures
        no_longer(state.wait(timeout, later), state.wait(timeout, now)),
{
}

/// A lone escape among input that was read elsewhere waits for a continuation, for a bounded time,
/// and then is the escape key.
pub proof fn law_lone_escape_becomes_a_key(
    state: ParserState,
    input: Seq<u8>,
    now: u128,
    later: u128,
)
    requires
        now <= MAX_NANOS,
        state.buffer_external(input, now).buffer == seq![ESC],
    ensures
        ({
            let waiting = state.buffer_external(input, now);
            let (next, event) = waiting.finish(later);
            &&& waiting.escape_deadline == Some((now + 20_000_000) as u128)
            &&& later < now + 20_000_000 ==> event is None && next == waiting
            &&& later >= now + 20_000_000 ==> event == Some(
                key_view(KeyEvent::new(KeyCode::Esc, KeyModifiers::none())),
            ) && next == (ParserState {
                buffer: Seq::empty(),
                escape_deadline: None,
                ..waiting
            })
        }),
{
    reveal(decode);
}

/// Input from elsewhere decodes as any input does that more is to follow; only an escape that is
/// left alone at its end then waits for a moment.
pub proof fn law_expected_input_is_decoded_as_any(
    state: ParserState,
    input: Seq<u8>,
    now: u128,
)
    requires
        now <= MAX_NANOS,
    ensures
        ({
            let plain = state.advance(input, true);
            state.buffer_external(input, now) == if plain.buffer == seq![0x1bu8] {
                ParserState { escape_deadline: Some((now + 20_000_000) as u128), ..plain }
            } else {
                plain
            }
        }),
{
}

} // verus!
