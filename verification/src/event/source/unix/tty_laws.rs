//! What holds of the parser of a source that waits for the terminal with `poll`.
use crate::event::bytes::{
    ends_with_marker, is_final, opens, paste_end, paste_start, BACKSLASH, BEL, END_OF_FILE,
    ESC, INTERRUPT, OSC,
};
use crate::event::parse::text::text_of;
use crate::event::parse::{decode, Decoded};
use crate::event::source::unix::marker::{
    holds_paste_end, lemma_holds_end,
    lemma_marker_step, lemma_open_paste, lemma_part_is_unique, lemma_whole_paste, matches_marker,
    paste, secondary_attributes,
};
use crate::event::source::unix::tty::{
    discard_status, lemma_expire_keeps_wf, lemma_marker_overlap_bound,
    lemma_step_keeps_wf, marker_overlap, DiscardedSequence, ParserState,
    OSC_TIMEOUT,
};
use crate::event::types::{
    key_view, EventView, InputDiscardStatus, InternalEventView, KeyCode, KeyEvent, KeyModifiers,
};
use crate::time::{no_longer, reached, MAX_NANOS};
use vstd::prelude::*;
use vstd::utf8::{encode_utf8, encode_utf8_decode_utf8, encode_utf8_valid_utf8};

verus! {

/// Taking bytes in two parts takes them all.
pub(crate) proof fn lemma_feed_split(
    state: ParserState,
    a: Seq<u8>,
    b: Seq<u8>,
    more: bool,
    now: u128,
)
    requires
        b.len() > 0 || more,
    ensures
        state.feed(a, true, now).feed(b, more, now) == state.feed(a + b, more, now),
    decreases a.len(),
{
    if a.len() == 0 {
        assert(a + b =~= b);
    } else {
        lemma_feed_split(state.step(a[0], true, now), a.skip(1), b, more, now);
        assert((a + b).skip(1) =~= a.skip(1) + b);
    }
}

/// Taking bytes keeps a parser in order, sets no deadline for an escape and none that was reached
/// already.
proof fn lemma_feed_keeps(state: ParserState, input: Seq<u8>, more: bool, now: u128)
    requires
        state.wf(),
        state.escape_deadline is None,
        !reached(state.osc_deadline, now),
        now <= MAX_NANOS,
    ensures
        ({
            let next = state.feed(input, more, now);
            &&& next.wf()
            &&& next.escape_deadline is None
            &&& !reached(next.osc_deadline, now)
        }),
    decreases input.len(),
{
    if input.len() > 0 {
        let more_here = input.len() > 1 || more;
        lemma_step_keeps_wf(state, input[0], more_here, now);
        lemma_feed_keeps(state.step(input[0], more_here, now), input.skip(1), more, now);
    }
}

/// How input is split into reads at one moment makes no difference, as long as the parser knows
/// that more is to come.
pub proof fn law_reads_can_be_split(
    state: ParserState,
    a: Seq<u8>,
    b: Seq<u8>,
    more: bool,
    now: u128,
)
    requires
        state.wf(),
        now <= MAX_NANOS,
        b.len() > 0 || more,
    ensures
        state.advance(a, true, now).advance(b, more, now) == state.advance(a + b, more, now),
        state.advance_input(a, now).advance_input(b, now) == state.advance_input(a + b, now),
{
    let quiet = ParserState { escape_deadline: None, ..state };
    let start = quiet.expire_osc(now);
    lemma_expire_keeps_wf(quiet, now);
    lemma_feed_keeps(start, a, true, now);
    lemma_feed_split(start, a, b, more, now);
    lemma_feed_split(start, a, b, true, now);
    let first = state.advance(a, true, now);
    assert(first == ParserState { escape_deadline: None, ..first });
    assert(first == ParserState { escape_deadline: None, ..state.advance_input(a, now) });
}

/// Whether two parsers hold the same but for their deadlines.
pub open spec fn same_input(a: ParserState, b: ParserState) -> bool {
    a.buffer == b.buffer && a.events == b.events && a.discarded == b.discarded
}

/// What bytes do to a parser does not depend on its deadlines.
proof fn lemma_feed_ignores_deadlines(
    a: ParserState,
    b: ParserState,
    input: Seq<u8>,
    more: bool,
    at: u128,
    later: u128,
)
    requires
        same_input(a, b),
    ensures
        same_input(a.feed(input, more, at), b.feed(input, more, later)),
    decreases input.len(),
{
    if input.len() > 0 {
        let more_here = input.len() > 1 || more;
        lemma_feed_ignores_deadlines(
            a.step(input[0], more_here, at),
            b.step(input[0], more_here, later),
            input.skip(1),
            more,
            at,
            later,
        );
    }
}

/// Input that comes in two reads at different moments decodes as if it had come at once, unless an
/// operating system command was given up in between, and as long as the parser knows that more is
/// to come.
pub proof fn law_reads_can_be_delayed(
    state: ParserState,
    a: Seq<u8>,
    b: Seq<u8>,
    more: bool,
    at: u128,
    later: u128,
)
    requires
        state.wf(),
        at <= MAX_NANOS,
        later <= MAX_NANOS,
        b.len() > 0 || more,
        !reached(state.advance(a, true, at).osc_deadline, later),
    ensures
        same_input(
            state.advance(a, true, at).advance(b, more, later),
            state.advance(a + b, more, at),
        ),
        same_input(
            state.advance_input(a, at).advance_input(b, later),
            state.advance_input(a + b, at),
        ),
{
    let start = (ParserState { escape_deadline: None, ..state }).expire_osc(at);
    let first = start.feed(a, true, at);
    lemma_feed_split(start, a, b, more, at);
    lemma_feed_split(start, a, b, true, at);
    lemma_feed_ignores_deadlines(
        ParserState { escape_deadline: None, ..first },
        first,
        b,
        more,
        later,
        at,
    );
    lemma_feed_ignores_deadlines(
        ParserState { escape_deadline: None, ..state.advance_input(a, at) },
        first,
        b,
        true,
        later,
        at,
    );
}

/// Events are only added behind those that are there.
pub proof fn law_events_are_appended(
    state: ParserState,
    input: Seq<u8>,
    more: bool,
    now: u128,
)
    ensures
        state.events.is_prefix_of(state.advance(input, more, now).events),
        state.events.is_prefix_of(state.advance_input(input, now).events),
{
    let start = (ParserState { escape_deadline: None, ..state }).expire_osc(now);
    assert(state.events.is_prefix_of(start.events));
    lemma_feed_appends(start, input, more, now);
    lemma_feed_appends(start, input, true, now);
}

proof fn lemma_feed_appends(state: ParserState, input: Seq<u8>, more: bool, now: u128)
    ensures
        state.events.is_prefix_of(state.feed(input, more, now).events),
    decreases input.len(),
{
    if input.len() > 0 {
        let next = state.step(input[0], input.len() > 1 || more, now);
        assert(state.events.is_prefix_of(next.events));
        lemma_feed_appends(next, input.skip(1), more, now);
    }
}

/// Whether a parser waits for a new sequence.
pub open spec fn at_rest(state: ParserState) -> bool {
    &&& state.buffer.len() == 0
    &&& state.escape_deadline is None
    &&& state.osc_deadline is None
    &&& state.discarded is None
}

/// A paste collects in the buffer.
proof fn lemma_feed_open_paste(state: ParserState, text: Seq<u8>, len: int, now: u128)
    requires
        at_rest(state),
        !holds_paste_end(text),
        0 <= len < text.len() + 12,
    ensures
        state.feed(paste(text).take(len), true, now) == (ParserState {
            buffer: paste(text).take(len),
            ..state
        }),
    decreases len,
{
    let bytes = paste(text).take(len);
    if len == 0 {
        assert(bytes =~= state.buffer);
    } else {
        let before = paste(text).take(len - 1);
        let last = seq![paste(text)[len - 1]];
        lemma_feed_open_paste(state, text, len - 1, now);
        lemma_feed_split(state, before, last, true, now);
        lemma_open_paste(text, len);
        assert(before + last =~= bytes);
        assert(before.push(last[0]) =~= bytes);
        assert(last.skip(1) =~= Seq::<u8>::empty());
        let held = ParserState { buffer: before, ..state };
        assert(!opens(before, OSC)) by {
            if len > 1 {
                lemma_open_paste(text, len - 1);
            }
        }
        if before == seq![ESC] {
            assert(len == 2);
        }
        if len >= 6 {
            assert(paste_start().is_prefix_of(bytes)) by {
                assert(paste_start() =~= bytes.subrange(0, 6));
            }
        }
        assert(held.step(last[0], true, now) =~= (ParserState { buffer: bytes, ..state }));
        assert(held.feed(last, true, now) == held.step(last[0], true, now).feed(
            last.skip(1),
            true,
            now,
        ));
    }
}

/// What was decoded before does not matter for what is decoded.
proof fn lemma_feed_frames_events(state: ParserState, input: Seq<u8>, more: bool, now: u128)
    ensures
        ({
            let alone = (ParserState { events: Seq::empty(), ..state }).feed(input, more, now);
            state.feed(input, more, now) == (ParserState {
                events: state.events + alone.events,
                ..alone
            })
        }),
    decreases input.len(),
{
    let bare = ParserState { events: Seq::empty(), ..state };
    if input.len() == 0 {
        assert(state =~= (ParserState { events: state.events + bare.events, ..bare }));
    } else {
        let more_here = input.len() > 1 || more;
        let next = state.step(input[0], more_here, now);
        let alone = bare.step(input[0], more_here, now);
        assert(next =~= (ParserState { events: state.events + alone.events, ..alone }));
        lemma_feed_frames_events(next, input.skip(1), more, now);
        lemma_feed_frames_events(alone, input.skip(1), more, now);
        let rest = ParserState { events: Seq::empty(), ..alone };
        assert(rest =~= (ParserState { events: Seq::empty(), ..next }));
        let end = rest.feed(input.skip(1), more, now);
        assert(state.events + (alone.events + end.events) =~= (state.events + alone.events)
            + end.events);
    }
}

/// What was decoded before does not matter for what input decodes to.
pub(crate) proof fn lemma_advance_frames_events(state: ParserState, input: Seq<u8>, now: u128)
    ensures
        ({
            let alone = (ParserState { events: Seq::empty(), ..state }).advance_input(input, now);
            state.advance_input(input, now) == (ParserState {
                events: state.events + alone.events,
                ..alone
            })
        }),
{
    let bare = ParserState { events: Seq::empty(), ..state };
    let start = (ParserState { escape_deadline: None, ..state }).expire_osc(now);
    let alone = (ParserState { escape_deadline: None, ..bare }).expire_osc(now);
    assert(start =~= (ParserState { events: state.events + alone.events, ..alone }));
    lemma_feed_frames_events(start, input, true, now);
    lemma_feed_frames_events(alone, input, true, now);
    let rest = ParserState { events: Seq::empty(), ..alone };
    assert(rest =~= (ParserState { events: Seq::empty(), ..start }));
    let end = rest.feed(input, true, now);
    assert(state.events + (alone.events + end.events) =~= (state.events + alone.events)
        + end.events);
}

/// A bracketed paste gives one event with all of its text, whatever the text looks like: keys and
/// control sequences inside a paste are text.
pub proof fn law_paste_is_text(state: ParserState, text: Seq<u8>, more: bool, now: u128)
    requires
        at_rest(state),
        !holds_paste_end(text),
    ensures
        state.advance(paste(text), more, now) == (ParserState {
            events: state.events.push(
                InternalEventView::Event(EventView::Paste(text_of(text))),
            ),
            ..state
        }),
{
    let whole = paste(text);
    let len = whole.len() - 1;
    let before = whole.take(len);
    let last = seq![whole[len]];
    lemma_feed_open_paste(state, text, len, now);
    lemma_feed_split(state, before, last, more, now);
    lemma_open_paste(text, len);
    assert(before + last =~= whole);
    assert(before.push(last[0]) =~= whole);
    assert(last.skip(1) =~= Seq::<u8>::empty());
    lemma_whole_paste(text, more);
    let held = ParserState { buffer: before, ..state };
    let next = held.step(last[0], more, now);
    assert(next =~= (ParserState {
        events: state.events.push(InternalEventView::Event(EventView::Paste(text_of(text)))),
        ..state
    }));
    assert(held.feed(last, more, now) == next.feed(last.skip(1), more, now));
}

/// Text that is pasted is read back as it is.
pub proof fn law_pasted_text_is_read(state: ParserState, text: Seq<char>, more: bool, now: u128)
    requires
        at_rest(state),
        !holds_paste_end(encode_utf8(text)),
    ensures
        state.advance(paste(encode_utf8(text)), more, now) == (ParserState {
            events: state.events.push(InternalEventView::Event(EventView::Paste(text))),
            ..state
        }),
{
    law_paste_is_text(state, encode_utf8(text), more, now);
    encode_utf8_valid_utf8(text);
    encode_utf8_decode_utf8(text);
}

/// An operating system command with this body, ended by `BEL` or by `ESC \`.
pub open spec fn command(body: Seq<u8>, bell: bool) -> Seq<u8> {
    seq![ESC, OSC] + body + if bell {
        seq![BEL]
    } else {
        seq![ESC, BACKSLASH]
    }
}

/// Whether bytes can be the body of an operating system command: nothing in them ends it.
pub open spec fn is_command_body(body: Seq<u8>) -> bool {
    forall|i: int|
        0 <= i < body.len() ==> #[trigger] body[i] != BEL && body[i] != ESC && body[i] != INTERRUPT
            && body[i] != END_OF_FILE
}

/// An operating system command collects in the buffer, with its deadline.
pub(crate) proof fn lemma_feed_open_command(
    state: ParserState,
    body: Seq<u8>,
    bell: bool,
    len: int,
    now: u128,
)
    requires
        at_rest(state),
        is_command_body(body),
        1 <= len < command(body, bell).len(),
    ensures
        state.feed(command(body, bell).take(len), true, now) == (ParserState {
            buffer: command(body, bell).take(len),
            osc_deadline: if len == 1 {
                None
            } else {
                Some((now + OSC_TIMEOUT) as u128)
            },
            ..state
        }),
    decreases len,
{
    reveal(decode);
    let whole = command(body, bell);
    let bytes = whole.take(len);
    let before = whole.take(len - 1);
    let last = seq![whole[len - 1]];
    assert(before + last =~= bytes);
    assert(before.push(last[0]) =~= bytes);
    assert(last.skip(1) =~= Seq::<u8>::empty());
    if 2 < len <= body.len() + 2 {
        assert(last[0] == body[len - 3]);
        if len > 3 {
            assert(before[len - 2] == body[len - 4]);
        }
    }
    assert(decode(bytes, true) is Incomplete);
    if len == 1 {
        assert(before =~= state.buffer);
        assert(bytes =~= last);
        assert(state.step(last[0], true, now) =~= (ParserState { buffer: bytes, ..state }));
        assert(state.feed(bytes, true, now) == state.step(last[0], true, now).feed(
            last.skip(1),
            true,
            now,
        ));
    } else {
        lemma_feed_open_command(state, body, bell, len - 1, now);
        lemma_feed_split(state, before, last, true, now);
        let held = state.feed(before, true, now);
        let next = held.step(last[0], true, now);
        assert(held.leave_osc(last[0]) == held);
        assert(held.feed(last, true, now) == next.feed(last.skip(1), true, now));
        assert(next.buffer =~= bytes);
        assert(next =~= (ParserState {
            buffer: bytes,
            osc_deadline: Some((now + OSC_TIMEOUT) as u128),
            ..state
        }));
    }
}

/// An operating system command is one unit: the event it decodes to, where it is one, is all that
/// it gives, and none of its bytes become keys.
pub proof fn law_command_is_framed(
    state: ParserState,
    body: Seq<u8>,
    bell: bool,
    more: bool,
    now: u128,
)
    requires
        at_rest(state),
        is_command_body(body),
    ensures
        state.advance(command(body, bell), more, now) == (ParserState {
            events: match decode(command(body, bell), more) {
                Decoded::Event(event) => state.events.push(event),
                _ => state.events,
            },
            ..state
        }),
{
    let whole = command(body, bell);
    let len = whole.len() - 1;
    let before = whole.take(len);
    let last = seq![whole[len]];
    lemma_feed_open_command(state, body, bell, len, now);
    lemma_feed_split(state, before, last, more, now);
    assert(before + last =~= whole);
    assert(before.push(last[0]) =~= whole);
    assert(last.skip(1) =~= Seq::<u8>::empty());
    let held = state.feed(before, true, now);
    let next = held.step(last[0], more, now);
    assert(held.leave_osc(last[0]) == held);
    assert(next =~= state.advance(whole, more, now)) by {
        assert(held.feed(last, more, now) == next.feed(last.skip(1), more, now));
    }
    assert(next =~= (ParserState {
        events: match decode(whole, more) {
            Decoded::Event(event) => state.events.push(event),
            _ => state.events,
        },
        ..state
    }));
}

/// The answer to a request for secondary device attributes gives no events.
pub proof fn law_secondary_attributes_are_no_keys(
    state: ParserState,
    body: Seq<u8>,
    last: u8,
    more: bool,
    now: u128,
)
    requires
        at_rest(state),
        forall|i: int| 0 <= i < body.len() ==> !is_final(#[trigger] body[i]),
        is_final(last),
    ensures
        state.advance(secondary_attributes(body).push(last), more, now) == state,
{
    let before = secondary_attributes(body);
    let whole = before.push(last);
    lemma_feed_open_attributes(state, body, before.len() as int, now);
    lemma_feed_split(state, before, seq![last], more, now);
    assert(before.take(before.len() as int) =~= before);
    assert(before + seq![last] =~= whole);
    assert(seq![last].skip(1) =~= Seq::<u8>::empty());
    let held = ParserState { buffer: before, ..state };
    let next = held.step(last, more, now);
    assert(decode(whole, more) is Invalid) by {
        reveal(decode);
    }
    assert(next =~= state);
    assert(held.feed(seq![last], more, now) == next.feed(seq![last].skip(1), more, now));
}

proof fn lemma_feed_open_attributes(state: ParserState, body: Seq<u8>, len: int, now: u128)
    requires
        at_rest(state),
        forall|i: int| 0 <= i < body.len() ==> !is_final(#[trigger] body[i]),
        0 <= len <= body.len() + 3,
    ensures
        state.feed(secondary_attributes(body).take(len), true, now) == (ParserState {
            buffer: secondary_attributes(body).take(len),
            ..state
        }),
    decreases len,
{
    reveal(decode);
    let bytes = secondary_attributes(body).take(len);
    if len == 0 {
        assert(bytes =~= state.buffer);
    } else {
        let before = secondary_attributes(body).take(len - 1);
        let last = seq![secondary_attributes(body)[len - 1]];
        lemma_feed_open_attributes(state, body, len - 1, now);
        lemma_feed_split(state, before, last, true, now);
        assert(before + last =~= bytes);
        assert(before.push(last[0]) =~= bytes);
        assert(last.skip(1) =~= Seq::<u8>::empty());
        let held = ParserState { buffer: before, ..state };
        if len > 3 {
            assert(last[0] == body[len - 4]);
            assert(before.len() >= 3);
        }
        if before == seq![ESC] {
            assert(len == 2);
        }
        assert(held.step(last[0], true, now) =~= (ParserState { buffer: bytes, ..state }));
        assert(held.feed(last, true, now) == held.step(last[0], true, now).feed(
            last.skip(1),
            true,
            now,
        ));
    }
}

/// The part of the marker that the bytes of a discarded paste end with.
proof fn lemma_overlap_matches(bytes: Seq<u8>, limit: nat)
    requires
        limit <= 5,
        forall|k: int| limit < k < 6 ==> !(#[trigger] ends_with_marker(bytes, k)),
    ensures
        matches_marker(bytes, marker_overlap(bytes, limit) as int),
    decreases limit,
{
    if limit == 0 {
        assert(paste_end().take(0) =~= bytes.subrange(bytes.len() as int, bytes.len() as int));
    } else if ends_with_marker(bytes, limit as int) {
        lemma_part_is_unique(bytes, limit as int);
    } else {
        lemma_overlap_matches(bytes, (limit - 1) as nat);
    }
}

/// A discarded paste is swallowed up to its end.
proof fn lemma_swallow_paste(
    state: ParserState,
    text: Seq<u8>,
    from: int,
    matched: int,
    rest: Seq<u8>,
    more: bool,
    now: u128,
)
    requires
        !holds_paste_end(text),
        6 <= from < text.len() + 12,
        matches_marker(paste(text).take(from), matched),
        at_rest(ParserState { discarded: None, ..state }),
        state.discarded == Some(DiscardedSequence::PasteBody(matched as usize)),
    ensures
        state.feed(paste(text).skip(from) + rest, more, now) == (ParserState {
            discarded: None,
            ..state
        }).feed(rest, more, now),
    decreases text.len() + 12 - from,
{
    let whole = paste(text);
    let input = whole.skip(from) + rest;
    let byte = whole[from];
    lemma_marker_step(whole.take(from), byte, matched);
    assert(whole.take(from).push(byte) =~= whole.take(from + 1));
    assert(input[0] == byte);
    let next = state.step(byte, input.len() > 1 || more, now);
    assert(state.feed(input, more, now) == next.feed(input.skip(1), more, now));
    if from + 1 == whole.len() {
        assert(ends_with_marker(whole.take(from + 1), 6)) by {
            assert(paste_end().take(6) =~= whole.take(from + 1).subrange(from - 5, from + 1));
        }
        assert(input.skip(1) =~= rest);
        assert(next =~= (ParserState { discarded: None, ..state }));
    } else {
        lemma_open_paste(text, from + 1);
        lemma_holds_end(whole.take(from + 1));
        assert(input.skip(1) =~= whole.skip(from + 1) + rest);
        let now_matched = if byte == paste_end()[matched] {
            matched + 1
        } else if byte == ESC {
            1
        } else {
            0
        };
        lemma_swallow_paste(next, text, from + 1, now_matched, rest, more, now);
        assert((ParserState { discarded: None, ..next }) =~= (ParserState {
            discarded: None,
            ..state
        }));
    }
}

/// A discarded beginning of a paste is followed to its text.
proof fn lemma_swallow_paste_start(
    state: ParserState,
    text: Seq<u8>,
    from: int,
    rest: Seq<u8>,
    more: bool,
    now: u128,
)
    requires
        !holds_paste_end(text),
        1 <= from < 6,
        at_rest(ParserState { discarded: None, ..state }),
        state.discarded == Some(DiscardedSequence::PasteStart(from as usize)),
    ensures
        state.feed(paste(text).skip(from) + rest, more, now) == (ParserState {
            discarded: None,
            ..state
        }).feed(rest, more, now),
    decreases 6 - from,
{
    let whole = paste(text);
    let input = whole.skip(from) + rest;
    let byte = whole[from];
    assert(byte == paste_start()[from]);
    assert(input[0] == byte);
    let next = state.step(byte, input.len() > 1 || more, now);
    assert(state.feed(input, more, now) == next.feed(input.skip(1), more, now));
    assert(input.skip(1) =~= whole.skip(from + 1) + rest);
    assert((ParserState { discarded: None, ..next }) =~= (ParserState {
        discarded: None,
        ..state
    }));
    if from == 5 {
        let start = whole.take(6);
        assert(matches_marker(start, 0)) by {
            assert(paste_end().take(0) =~= start.subrange(6, 6));
            assert forall|k: int| 1 <= k < 6 && #[trigger] ends_with_marker(start, k) implies k
                == 0 by {
                assert(paste_end().take(k)[k - 1] == start[5]);
            }
        }
        lemma_swallow_paste(next, text, 6, 0, rest, more, now);
    } else {
        lemma_swallow_paste_start(next, text, from + 1, rest, more, now);
    }
}

/// When input is discarded inside a bracketed paste, at any of its bytes, the rest of the paste is
/// swallowed when it arrives, and what follows the paste is decoded as if nothing had been there.
pub proof fn law_discarded_paste_is_swallowed(
    state: ParserState,
    text: Seq<u8>,
    at: int,
    rest: Seq<u8>,
    more: bool,
    now: u128,
    later: u128,
)
    requires
        at_rest(state),
        !holds_paste_end(text),
        1 <= at < paste(text).len(),
    ensures
        ({
            let discarded = state.advance(paste(text).take(at), true, now).discard();
            &&& discard_status(discarded.discarded)
                == InputDiscardStatus::BracketedPasteInProgress
            &&& discarded.advance(paste(text).skip(at) + rest, more, later)
                == ParserState::initial().advance(rest, more, later)
        }),
{
    let whole = paste(text);
    let held = state.advance(whole.take(at), true, now);
    lemma_feed_open_paste(state, text, at, now);
    assert(held.buffer == whole.take(at));
    let discarded = held.discard();
    if at < 6 {
        assert(whole.take(at) =~= paste_start().take(at));
        assert(whole.take(at).is_prefix_of(paste_start()));
        assert(discarded.discarded == Some(DiscardedSequence::PasteStart(at as usize)));
        lemma_swallow_paste_start(discarded, text, at, rest, more, later);
    } else {
        assert(paste_start().is_prefix_of(whole.take(at))) by {
            assert(paste_start() =~= whole.take(at).subrange(0, 6));
        }
        lemma_marker_overlap_bound(whole.take(at), 5);
        lemma_overlap_matches(whole.take(at), 5);
        lemma_swallow_paste(
            discarded,
            text,
            at,
            marker_overlap(whole.take(at), 5) as int,
            rest,
            more,
            later,
        );
    }
    assert((ParserState { discarded: None, ..discarded }) =~= ParserState::initial());
}

/// What is swallowed of a discarded sequence takes no room and gives no events.
pub proof fn law_swallowed_input_leaves_nothing(
    state: ParserState,
    byte: u8,
    more: bool,
    now: u128,
)
    requires
        state.wf(),
        state.discarded is Some,
        state.step(byte, more, now).discarded is Some,
    ensures
        state.step(byte, more, now).buffer.len() == 0,
        state.step(byte, more, now).events == state.events,
{
}

/// Discarding leaves no input, no events and no lone escape. It reports that it is complete exactly
/// if nothing remains to be swallowed, and the parser is then as good as new.
pub proof fn law_discard_leaves_nothing(state: ParserState)
    requires
        state.wf(),
    ensures
        state.discard().buffer.len() == 0,
        state.discard().events.len() == 0,
        state.discard().escape_deadline is None,
        discard_status(state.discard().discarded) == InputDiscardStatus::Complete <==>
            state.discard() == ParserState::initial(),
        state.discard().discard() == state.discard(),
{
    let next = state.discard();
    if next.discarded is None {
        assert(next =~= ParserState::initial());
    }
    assert(next.discard() =~= next);
}

/// A discarded operating system command is swallowed up to its terminator, unless its deadline is
/// reached first.
pub proof fn law_discarded_command_is_swallowed(
    state: ParserState,
    body: Seq<u8>,
    bell: bool,
    rest: Seq<u8>,
    more: bool,
    now: u128,
)
    requires
        state.wf(),
        state.escape_deadline is None,
        state.discarded == Some(DiscardedSequence::OscBody),
        !reached(state.osc_deadline, now),
        is_command_body(body),
    ensures
        ({
            let terminator = if bell {
                seq![BEL]
            } else {
                seq![ESC, BACKSLASH]
            };
            state.advance(body + terminator + rest, more, now) == (ParserState {
                discarded: None,
                osc_deadline: None,
                ..state
            }).feed(rest, more, now)
        }),
    decreases body.len(),
{
    let terminator = if bell {
        seq![BEL]
    } else {
        seq![ESC, BACKSLASH]
    };
    let input = body + terminator + rest;
    let next = state.step(input[0], input.len() > 1 || more, now);
    assert((ParserState { escape_deadline: None, ..state }) =~= state);
    assert(state.feed(input, more, now) == next.feed(input.skip(1), more, now));
    if body.len() > 0 {
        assert(input[0] == body[0]);
        assert(next =~= state);
        assert(input.skip(1) =~= body.skip(1) + terminator + rest);
        law_discarded_command_is_swallowed(next, body.skip(1), bell, rest, more, now);
    } else if bell {
        assert(input.skip(1) =~= rest);
        assert(next =~= (ParserState { discarded: None, osc_deadline: None, ..state }));
    } else {
        let after = next.step(BACKSLASH, input.skip(1).len() > 1 || more, now);
        assert(input.skip(1)[0] == BACKSLASH);
        assert(input.skip(1).skip(1) =~= rest);
        assert(next.feed(input.skip(1), more, now) == after.feed(rest, more, now));
        assert(after =~= (ParserState { discarded: None, osc_deadline: None, ..state }));
    }
}

/// A discarded control sequence with parameters is swallowed up to its last byte.
pub proof fn law_discarded_control_sequence_is_swallowed(
    state: ParserState,
    body: Seq<u8>,
    last: u8,
    rest: Seq<u8>,
    more: bool,
    now: u128,
)
    requires
        state.wf(),
        state.escape_deadline is None,
        state.discarded == Some(DiscardedSequence::Csi) || state.discarded == Some(
            DiscardedSequence::Ss3,
        ),
        forall|i: int|
            0 <= i < body.len() ==> #[trigger] body[i] != ESC && !is_final(body[i]),
        is_final(last),
    ensures
        state.advance(body.push(last) + rest, more, now) == (ParserState {
            discarded: None,
            ..state
        }).feed(rest, more, now),
    decreases body.len(),
{
    let input = body.push(last) + rest;
    let next = state.step(input[0], input.len() > 1 || more, now);
    assert((ParserState { escape_deadline: None, ..state }) =~= state);
    assert(state.feed(input, more, now) == next.feed(input.skip(1), more, now));
    if body.len() > 0 {
        assert(input[0] == body[0]);
        assert(next =~= state);
        assert(input.skip(1) =~= body.skip(1).push(last) + rest);
        law_discarded_control_sequence_is_swallowed(next, body.skip(1), last, rest, more, now);
    } else {
        assert(input.skip(1) =~= rest);
        assert(next =~= (ParserState { discarded: None, ..state }));
    }
}

/// Of a discarded mouse event exactly the bytes are swallowed that it lacks, whatever they are.
pub proof fn law_discarded_mouse_event_is_swallowed(
    state: ParserState,
    missing: usize,
    body: Seq<u8>,
    rest: Seq<u8>,
    more: bool,
    now: u128,
)
    requires
        state.wf(),
        state.escape_deadline is None,
        state.discarded == Some(DiscardedSequence::X10Mouse(missing)),
        body.len() == missing,
    ensures
        state.advance(body + rest, more, now) == (ParserState { discarded: None, ..state }).feed(
            rest,
            more,
            now,
        ),
    decreases missing,
{
    let input = body + rest;
    let next = state.step(input[0], input.len() > 1 || more, now);
    assert((ParserState { escape_deadline: None, ..state }) =~= state);
    assert(state.feed(input, more, now) == next.feed(input.skip(1), more, now));
    assert(input.skip(1) =~= body.skip(1) + rest);
    if missing > 1 {
        law_discarded_mouse_event_is_swallowed(
            next,
            (missing - 1) as usize,
            body.skip(1),
            rest,
            more,
            now,
        );
        assert((ParserState { discarded: None, ..next }) =~= (ParserState {
            discarded: None,
            ..state
        }));
    } else {
        assert(input.skip(1) =~= rest);
        assert(next =~= (ParserState { discarded: None, ..state }));
    }
}

/// The interrupt and end-of-file keys are never swallowed by an operating system command, and end
/// it.
pub proof fn law_command_does_not_swallow_control_keys(
    state: ParserState,
    byte: u8,
    more: bool,
    now: u128,
)
    requires
        state.wf(),
        state.in_osc(),
        byte == INTERRUPT || byte == END_OF_FILE,
    ensures
        ({
            let next = state.step(byte, more, now);
            let key = KeyEvent::new(
                KeyCode::Char(
                    if byte == INTERRUPT {
                        'c'
                    } else {
                        'd'
                    },
                ),
                KeyModifiers::control(),
            );
            &&& next.events == state.events.push(key_view(key))
            &&& !next.in_osc()
            &&& next.buffer.len() == 0
            &&& next.discarded is None
        }),
{
    reveal(decode);
    let cleared = ParserState {
        discarded: None,
        osc_deadline: None,
        buffer: Seq::empty(),
        ..state
    };
    assert(cleared.buffer.push(byte) =~= seq![byte]);
    assert(state.take_byte(byte, more) =~= cleared.decode_byte(byte, more)) by {
        if state.discarded is None {
            assert(state.leave_osc(byte) =~= cleared);
        }
    }
}

/// A control sequence that begins inside an operating system command is decoded as if it had begun
/// by itself, and the command is over.
pub proof fn law_command_does_not_swallow_a_new_sequence(
    state: ParserState,
    sequence: Seq<u8>,
    more: bool,
    now: u128,
)
    requires
        state.wf(),
        state.in_osc(),
        sequence.len() > 0,
        sequence[0] != BACKSLASH,
        sequence[0] != BEL,
        sequence[0] != ESC,
        sequence[0] != INTERRUPT,
        sequence[0] != END_OF_FILE,
    ensures
        state.feed(seq![ESC] + sequence, more, now) == (ParserState {
            buffer: seq![ESC],
            osc_deadline: None,
            discarded: None,
            ..state
        }).feed(sequence, more, now),
{
    reveal(decode);
    let alone = ParserState {
        buffer: seq![ESC],
        osc_deadline: None,
        discarded: None,
        ..state
    };
    let input = seq![ESC] + sequence;
    assert(input.skip(1) =~= sequence);
    let inside = state.step(ESC, true, now);
    assert(state.feed(input, more, now) == inside.feed(sequence, more, now));
    let more_here = sequence.len() > 1 || more;
    assert(!opens(alone.buffer, OSC));
    if state.discarded is Some {
        assert(inside.discarded == Some(DiscardedSequence::OscEscape));
        assert(inside.take_byte(sequence[0], more_here) =~= alone.take_byte(
            sequence[0],
            more_here,
        ));
    } else {
        assert(state.leave_osc(ESC) == state);
        let bytes = state.buffer.push(ESC);
        assert(state.buffer != seq![ESC]);
        assert(inside.buffer == bytes);
        assert(inside.leave_osc(sequence[0]) =~= alone);
    }
}

/// The deadline of an operating system command is set when the command begins, and bytes of the
/// command do not move it.
pub proof fn law_command_deadline_is_absolute(
    state: ParserState,
    byte: u8,
    more: bool,
    now: u128,
)
    requires
        state.wf(),
        state.escape_deadline is None,
    ensures
        ({
            let next = state.step(byte, more, now);
            next.in_osc() ==> {
                ||| state.in_osc() && next.osc_deadline == state.osc_deadline
                ||| next.osc_deadline == Some((now + OSC_TIMEOUT) as u128) && (next.buffer == seq![
                    ESC,
                    OSC,
                ] || next.discarded == Some(DiscardedSequence::OscBody))
            }
        }),
{
    reveal(decode);
    let next = state.step(byte, more, now);
    if next.in_osc() && next.discarded is None {
        if opens(state.buffer, OSC) && opens(next.buffer, OSC) && next.buffer.len() > 2 {
        } else {
            assert(next.buffer =~= seq![ESC, OSC]);
        }
    }
}

/// No operating system command outlasts its deadline, and what could have been a key becomes one:
/// `ESC ]` alone is Alt and a bracket, an escape at its end is the escape key.
pub proof fn law_command_is_given_up_at_its_deadline(state: ParserState, now: u128)
    requires
        state.wf(),
        state.in_osc(),
        reached(state.osc_deadline, now),
    ensures
        ({
            let next = state.expire_osc(now);
            &&& next.buffer.len() == 0
            &&& next.discarded is None
            &&& next.osc_deadline is None
            &&& state.discarded is Some ==> next.events == state.events
            &&& state.buffer == seq![ESC, OSC] ==> next.events == state.events.push(
                key_view(KeyEvent::new(KeyCode::Char(']'), KeyModifiers::alt())),
            )
            &&& state.discarded is None && state.buffer.last() == ESC ==> next.events
                == state.events.push(key_view(KeyEvent::new(KeyCode::Esc, KeyModifiers::none())))
        }),
{
}

/// Whether a wait that begins at a moment ends at a deadline.
pub open spec fn ends_at(wait: Option<u128>, now: u128, deadline: Option<u128>) -> bool {
    wait is Some && deadline is Some && now + wait->0 == deadline->0
}

/// A wait is no longer than asked for and ends at the first deadline, and no sooner; it is no wait
/// at all exactly if no time is left or a deadline was reached.
pub proof fn law_wait_ends_in_time(state: ParserState, timeout: Option<u128>, now: u128)
    ensures
        ({
            let wait = state.wait(timeout, now);
            &&& timeout matches Some(limit) ==> wait is Some && wait->0 <= limit
            &&& state.escape_deadline matches Some(at) ==> now < at ==> wait is Some && now
                + wait->0 <= at
            &&& state.osc_deadline matches Some(at) ==> now < at ==> wait is Some && now + wait->0
                <= at
            &&& wait == Some(0u128) <==> timeout == Some(0u128) || state.expired(now)
            &&& wait == timeout || wait == Some(0u128) || ends_at(
                wait,
                now,
                state.escape_deadline,
            ) || ends_at(wait, now, state.osc_deadline)
        }),
{
}

/// A wait only becomes shorter as time goes by, and discarding does not make it longer: the deadline
/// of a discarded operating system command stays what it was.
pub proof fn law_wait_becomes_shorter(
    state: ParserState,
    timeout: Option<u128>,
    now: u128,
    later: u128,
)
    requires
        now <= later,
    ensures
        no_longer(state.wait(timeout, later), state.wait(timeout, now)),
        state.wf() && state.in_osc() ==> {
            &&& state.discard().osc_deadline == state.osc_deadline
            &&& no_longer(state.discard().wait(timeout, later), state.wait(timeout, now))
        },
{
    if state.wf() && state.in_osc() && state.discarded is None {
        assert(opens(state.buffer, OSC));
        assert(!paste_start().is_prefix_of(state.buffer)) by {
            if paste_start().is_prefix_of(state.buffer) {
                assert(paste_start()[1] == state.buffer[1]);
            }
        }
        assert(!state.buffer.is_prefix_of(paste_start())) by {
            if state.buffer.is_prefix_of(paste_start()) {
                assert(paste_start()[1] == state.buffer[1]);
            }
        }
    }
    if state.wf() && state.escape_deadline is Some {
        assert(!opens(state.buffer, OSC));
    }
}

/// A lone escape waits for a continuation, for a bounded time, and then is the escape key.
pub proof fn law_lone_escape_becomes_a_key(
    state: ParserState,
    input: Seq<u8>,
    now: u128,
    later: u128,
)
    requires
        state.wf(),
        now <= MAX_NANOS,
        state.advance_input(input, now).buffer == seq![ESC],
    ensures
        ({
            let waiting = state.advance_input(input, now);
            let (next, event) = waiting.finish(later);
            &&& waiting.escape_deadline == Some((now + 20_000_000) as u128)
            &&& later < now + 20_000_000 ==> event is None && next == waiting
            &&& later >= now + 20_000_000 ==> event == Some(
                key_view(KeyEvent::new(KeyCode::Esc, KeyModifiers::none())),
            ) && next == (ParserState {
                buffer: Seq::empty(),
                escape_deadline: None,
                ..waiting
            })
        }),
{
    reveal(decode);
    let quiet = ParserState { escape_deadline: None, ..state };
    lemma_expire_keeps_wf(quiet, now);
    lemma_feed_keeps(quiet.expire_osc(now), input, true, now);
    let waiting = state.advance_input(input, now);
    assert(!opens(waiting.buffer, OSC));
    assert(waiting.discarded is None);
    assert(waiting.osc_deadline is None);
}

/// The key that an operating system command becomes when it is given up: Alt and a bracket where
/// nothing followed its first two bytes, the escape key where it ends with one. What was discarded
/// becomes none.
pub open spec fn key_of_given_up(state: ParserState) -> Option<InternalEventView> {
    if state.discarded is Some {
        None
    } else if state.buffer == seq![0x1bu8, 0x5du8] {
        Some(key_view(KeyEvent::new(KeyCode::Char(']'), KeyModifiers::spec_alt())))
    } else if state.buffer.last() == 0x1b {
        Some(key_view(KeyEvent::new(KeyCode::Esc, KeyModifiers::spec_none())))
    } else {
        None
    }
}

/// Once its deadline is reached, an operating system command is over: the key that it becomes is
/// returned by giving up, or stands before the keys that are typed then, and those are decoded as
/// if the command had not been there.
pub proof fn law_given_up_command_does_not_swallow(
    state: ParserState,
    input: Seq<u8>,
    more: bool,
    now: u128,
)
    requires
        state.wf(),
        state.in_osc(),
        reached(state.osc_deadline, now),
    ensures
        ({
            let key = key_of_given_up(state);
            let events = match key {
                Some(event) => state.events.push(event),
                None => state.events,
            };
            let over = ParserState { events, ..ParserState::initial() };
            &&& state.advance(input, more, now) == over.feed(input, more, now)
            &&& state.events.len() == 0 ==> state.finish(now) == (ParserState::initial(), key)
        }),
{
    let over = ParserState {
        events: match key_of_given_up(state) {
            Some(event) => state.events.push(event),
            None => state.events,
        },
        ..ParserState::initial()
    };
    if state.discarded is None {
        assert(opens(state.buffer, OSC));
    }
    assert(state.escape_deadline is None) by {
        if state.escape_deadline is Some {
            assert(state.buffer[0] == ESC && state.buffer.len() == 1);
        }
    }
    assert((ParserState { escape_deadline: None, ..state }) =~= state);
    assert(state.expire_osc(now) =~= over);
    if state.events.len() == 0 {
        assert(state.finish(now).0 =~= ParserState::initial());
    }
}

/// A command that ends with an escape and then a bell is over, and gives no keys.
pub proof fn law_bell_ends_a_command_behind_an_escape(
    state: ParserState,
    more: bool,
    now: u128,
)
    requires
        state.wf(),
        state.in_osc(),
    ensures
        ({
            let next = state.step(0x1b, true, now).step(0x07, more, now);
            &&& next.buffer.len() == 0
            &&& next.discarded is None
            &&& next.osc_deadline is None
            &&& state.discarded is Some ==> next.events == state.events
            &&& next.events == state.events || (next.events.len() == state.events.len() + 1
                && next.events.drop_last() == state.events && next.events.last() is OscColor)
        }),
{
    reveal(decode);
    let inside = state.step(0x1b, true, now);
    if state.discarded is None {
        assert(state.leave_osc(0x1b) == state);
        assert(state.buffer != seq![ESC]);
        assert(inside.buffer == state.buffer.push(0x1b));
        assert(opens(inside.buffer, OSC));
        assert(inside.leave_osc(0x07) == inside);
        assert(inside.buffer != seq![ESC]);
        let next = inside.step(0x07, more, now);
        if next.events != state.events {
            assert(next.events.drop_last() =~= state.events);
        }
    }
}

/// Input that more is expected to follow decodes as any input does; only an escape that is left
/// alone at its end then waits for a moment.
pub proof fn law_expected_input_is_decoded_as_any(
    state: ParserState,
    input: Seq<u8>,
    now: u128,
)
    requires
        now <= MAX_NANOS,
    ensures
        ({
            let plain = state.advance(input, true, now);
            state.advance_input(input, now) == if plain.buffer == seq![0x1bu8] {
                ParserState { escape_deadline: Some((now + 20_000_000) as u128), ..plain }
            } else {
                plain
            }
        }),
{
}

} // verus!
