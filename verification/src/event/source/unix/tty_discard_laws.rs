//! What holds of a parser whose input is discarded inside a sequence: the rest of the sequence is
//! swallowed when it arrives, and what follows it is decoded as if nothing had been there.
use crate::event::bytes::{
    is_final, opens, paste_start, BACKSLASH, BEL, CSI, END_OF_FILE, ESC, INTERRUPT, OSC, X10,
};
use crate::event::parse::decode;
use crate::event::parse::number::{is_digit, SEMICOLON};
use crate::event::source::unix::tty::{
    completed_csi, discard_status, DiscardedSequence, ParserState, OSC_TIMEOUT,
};
use crate::event::source::unix::tty_laws::{
    at_rest, command, is_command_body, law_discarded_command_is_swallowed,
    law_discarded_control_sequence_is_swallowed, law_discarded_mouse_event_is_swallowed,
    lemma_feed_open_command, lemma_feed_split,
};
use crate::event::types::InputDiscardStatus;
use crate::time::MAX_NANOS;
use vstd::prelude::*;

verus! {

/// An operating system command can be discarded at any of its bytes, as long as the rest of it
/// arrives in time.
pub proof fn law_command_can_be_discarded_anywhere(
    state: ParserState,
    body: Seq<u8>,
    bell: bool,
    at: int,
    rest: Seq<u8>,
    more: bool,
    now: u128,
    later: u128,
)
    requires
        at_rest(state),
        is_command_body(body),
        1 <= at < command(body, bell).len(),
        now <= MAX_NANOS,
        later <= MAX_NANOS,
        later < now + OSC_TIMEOUT,
    ensures
        ({
            let discarded = state.advance(command(body, bell).take(at), true, now).discard();
            &&& discard_status(discarded.discarded) == if at == 1 {
                InputDiscardStatus::BracketedPasteInProgress
            } else {
                InputDiscardStatus::ControlSequenceInProgress
            }
            &&& discarded.advance(command(body, bell).skip(at) + rest, more, later)
                == ParserState::initial().feed(rest, more, later)
        }),
{
    let whole = command(body, bell);
    let fresh = ParserState::initial();
    let terminator = if bell {
        seq![BEL]
    } else {
        seq![ESC, BACKSLASH]
    };
    assert((ParserState { escape_deadline: None, ..state }).expire_osc(now) =~= state);
    lemma_feed_open_command(state, body, bell, at, now);
    let held = state.advance(whole.take(at), true, now);
    let discarded = held.discard();
    let input = whole.skip(at) + rest;
    if at == 1 {
        assert(held.buffer =~= paste_start().take(1));
        assert(held.buffer.is_prefix_of(paste_start()));
        assert(discarded.discarded == Some(DiscardedSequence::PasteStart(1)));
        let next = discarded.step(OSC, input.len() > 1 || more, later);
        assert(input[0] == OSC);
        assert(input.skip(1) =~= body + terminator + rest);
        assert((ParserState { escape_deadline: None, ..discarded }).expire_osc(later)
            =~= discarded);
        assert(discarded.feed(input, more, later) == next.feed(input.skip(1), more, later));
        assert(next.discarded == Some(DiscardedSequence::OscBody));
        law_discarded_command_is_swallowed(next, body, bell, rest, more, later);
        assert((ParserState { escape_deadline: None, ..next }).expire_osc(later) =~= next);
        assert((ParserState { discarded: None, osc_deadline: None, ..next }) =~= fresh);
    } else {
        assert(opens(held.buffer, OSC));
        assert(!paste_start().is_prefix_of(held.buffer)) by {
            if paste_start().is_prefix_of(held.buffer) {
                assert(paste_start()[1] == held.buffer[1]);
            }
        }
        assert(!held.buffer.is_prefix_of(paste_start())) by {
            if held.buffer.is_prefix_of(paste_start()) {
                assert(paste_start()[1] == held.buffer[1]);
            }
        }
        if at <= body.len() + 2 {
            let left = body.skip(at - 2);
            if at > 2 {
                assert(held.buffer.last() == body[at - 3]);
            }
            assert(discarded.discarded == Some(DiscardedSequence::OscBody));
            assert(input =~= left + terminator + rest);
            assert(is_command_body(left)) by {
                assert forall|i: int| 0 <= i < left.len() implies #[trigger] left[i] != BEL
                    && left[i] != ESC && left[i] != INTERRUPT && left[i] != END_OF_FILE by {
                    assert(left[i] == body[i + at - 2]);
                }
            }
            law_discarded_command_is_swallowed(discarded, left, bell, rest, more, later);
        } else {
            assert(discarded.discarded == Some(DiscardedSequence::OscEscape));
            assert(input =~= seq![BACKSLASH] + rest);
            assert(input.skip(1) =~= rest);
            let next = discarded.step(BACKSLASH, input.len() > 1 || more, later);
            assert((ParserState { escape_deadline: None, ..discarded }).expire_osc(later)
                =~= discarded);
            assert(discarded.feed(input, more, later) == next.feed(rest, more, later));
            assert(next =~= fresh);
        }
        assert((ParserState { discarded: None, osc_deadline: None, ..discarded }) =~= fresh);
    }
}

/// A mouse event of three bytes, whatever they are.
pub open spec fn mouse_event(body: Seq<u8>) -> Seq<u8> {
    seq![ESC, CSI, X10] + body
}

/// A control sequence with parameters.
pub open spec fn control_sequence(body: Seq<u8>, last: u8) -> Seq<u8> {
    (seq![ESC, CSI] + body).push(last)
}

/// Whether bytes can be the parameters of a control sequence that is decoded once it is complete.
pub open spec fn is_control_body(body: Seq<u8>) -> bool {
    &&& body.len() > 0
    &&& is_digit(body[0]) || body[0] == SEMICOLON || body[0] == 0x3c || body[0] == 0x3e || body[0]
        == 0x3f
    &&& forall|i: int| 0 <= i < body.len() ==> #[trigger] body[i] != ESC && !is_final(body[i])
}

/// A control sequence collects in the buffer while it cannot be decoded.
pub(crate) proof fn lemma_feed_open_sequence(state: ParserState, whole: Seq<u8>, len: int, now: u128)
    requires
        at_rest(state),
        0 <= len <= whole.len(),
        len >= 1 ==> whole[0] == ESC,
        len >= 2 ==> whole[1] == CSI,
        forall|k: int| 1 <= k <= len ==> (#[trigger] decode(whole.take(k), true)) is Incomplete,
        forall|k: int| 3 <= k <= len ==> !completed_csi(#[trigger] whole.take(k)),
    ensures
        state.feed(whole.take(len), true, now) == (ParserState {
            buffer: whole.take(len),
            ..state
        }),
    decreases len,
{
    let bytes = whole.take(len);
    if len == 0 {
        assert(bytes =~= state.buffer);
    } else {
        let before = whole.take(len - 1);
        let last = seq![whole[len - 1]];
        lemma_feed_open_sequence(state, whole, len - 1, now);
        lemma_feed_split(state, before, last, true, now);
        assert(before + last =~= bytes);
        assert(before.push(last[0]) =~= bytes);
        assert(last.skip(1) =~= Seq::<u8>::empty());
        let held = ParserState { buffer: before, ..state };
        if before == seq![ESC] {
            assert(len == 2);
        }
        assert(decode(bytes, true) is Incomplete);
        assert(held.step(last[0], true, now) =~= (ParserState { buffer: bytes, ..state }));
        assert(held.feed(last, true, now) == held.step(last[0], true, now).feed(
            last.skip(1),
            true,
            now,
        ));
    }
}

/// A mouse event can be discarded at any of its bytes.
pub proof fn law_mouse_event_can_be_discarded_anywhere(
    state: ParserState,
    body: Seq<u8>,
    at: int,
    rest: Seq<u8>,
    more: bool,
    now: u128,
    later: u128,
)
    requires
        at_rest(state),
        body.len() == 3,
        1 <= at < 6,
    ensures
        ({
            let discarded = state.advance(mouse_event(body).take(at), true, now).discard();
            &&& discard_status(discarded.discarded) == if at < 3 {
                InputDiscardStatus::BracketedPasteInProgress
            } else {
                InputDiscardStatus::ControlSequenceInProgress
            }
            &&& discarded.advance(mouse_event(body).skip(at) + rest, more, later)
                == ParserState::initial().feed(rest, more, later)
        }),
{
    let whole = mouse_event(body);
    let fresh = ParserState::initial();
    assert forall|k: int| 1 <= k <= at implies (#[trigger] decode(
        whole.take(k),
        true,
    )) is Incomplete by {
        reveal(decode);
    }
    assert((ParserState { escape_deadline: None, ..state }).expire_osc(now) =~= state);
    lemma_feed_open_sequence(state, whole, at, now);
    let held = state.advance(whole.take(at), true, now);
    let discarded = held.discard();
    let input = whole.skip(at) + rest;
    assert(held.buffer == whole.take(at));
    assert((ParserState { escape_deadline: None, ..discarded }).expire_osc(later) =~= discarded);
    if at >= 3 {
        assert(!paste_start().is_prefix_of(held.buffer));
        assert(!held.buffer.is_prefix_of(paste_start())) by {
            if held.buffer.is_prefix_of(paste_start()) {
                assert(paste_start()[2] == held.buffer[2]);
            }
        }
        assert(discarded.discarded == Some(DiscardedSequence::X10Mouse((6 - at) as usize)));
        assert(input =~= body.skip(at - 3) + rest);
        law_discarded_mouse_event_is_swallowed(
            discarded,
            (6 - at) as usize,
            body.skip(at - 3),
            rest,
            more,
            later,
        );
        assert((ParserState { discarded: None, ..discarded }) =~= fresh);
    } else {
        assert(held.buffer =~= paste_start().take(at));
        assert(held.buffer.is_prefix_of(paste_start()));
        let second = ParserState {
            discarded: Some(DiscardedSequence::PasteStart(2)),
            ..fresh
        };
        let third = ParserState {
            discarded: Some(DiscardedSequence::X10Mouse(3)),
            ..fresh
        };
        let tail = whole.skip(2) + rest;
        assert(tail[0] == X10);
        assert(tail.skip(1) =~= body + rest);
        assert(second.step(X10, tail.len() > 1 || more, later) =~= third);
        assert(second.feed(tail, more, later) == third.feed(body + rest, more, later));
        law_discarded_mouse_event_is_swallowed(third, 3, body, rest, more, later);
        assert((ParserState { escape_deadline: None, ..third }).expire_osc(later) =~= third);
        assert((ParserState { discarded: None, ..third }) =~= fresh);
        if at == 1 {
            assert(input[0] == CSI);
            assert(input.skip(1) =~= tail);
            assert(discarded.step(CSI, input.len() > 1 || more, later) =~= second);
            assert(discarded.feed(input, more, later) == second.feed(tail, more, later));
        } else {
            assert(discarded =~= second);
        }
    }
}

/// A discarded beginning that can be that of a paste is followed to the end of what it is.
proof fn lemma_swallow_beginning(
    state: ParserState,
    body: Seq<u8>,
    last: u8,
    from: int,
    rest: Seq<u8>,
    more: bool,
    now: u128,
)
    requires
        is_control_body(body),
        is_final(last),
        control_sequence(body, last) != paste_start(),
        1 <= from < 6,
        from <= body.len() + 2,
        control_sequence(body, last).take(from) == paste_start().take(from),
        state == (ParserState {
            discarded: Some(DiscardedSequence::PasteStart(from as usize)),
            ..ParserState::initial()
        }),
    ensures
        state.feed(control_sequence(body, last).skip(from) + rest, more, now)
            == ParserState::initial().feed(rest, more, now),
    decreases 6 - from,
{
    let whole = control_sequence(body, last);
    let fresh = ParserState::initial();
    let input = whole.skip(from) + rest;
    let byte = whole[from];
    let next = state.step(byte, input.len() > 1 || more, now);
    assert(input[0] == byte);
    assert(input.skip(1) =~= whole.skip(from + 1) + rest);
    assert(state.feed(input, more, now) == next.feed(input.skip(1), more, now));
    if from >= 2 && from < body.len() + 2 {
        assert(byte == body[from - 2]);
    }
    if byte == paste_start()[from] {
        assert(whole.take(from + 1) =~= paste_start().take(from + 1)) by {
            assert(whole.take(from + 1) =~= whole.take(from).push(byte));
            assert(paste_start().take(from + 1) =~= paste_start().take(from).push(byte));
        }
        if from == 5 {
            // Only the last byte ends a sequence, so that this is the marker after all.
            assert(from == body.len() + 2);
            assert(whole =~= whole.take(6));
            assert(paste_start() =~= paste_start().take(6));
            assert(false);
        } else {
            assert(from + 1 <= body.len() + 2) by {
                if from == body.len() + 2 {
                    assert(byte == last);
                }
            }
            assert(next =~= (ParserState {
                discarded: Some(DiscardedSequence::PasteStart((from + 1) as usize)),
                ..fresh
            }));
            lemma_swallow_beginning(next, body, last, from + 1, rest, more, now);
        }
    } else if from == body.len() + 2 {
        assert(byte == last);
        assert(next =~= fresh);
        assert(input.skip(1) =~= rest);
    } else {
        let left = body.skip(from - 1);
        assert(next =~= (ParserState { discarded: Some(DiscardedSequence::Csi), ..fresh }));
        assert(input.skip(1) =~= left.push(last) + rest);
        assert forall|i: int| 0 <= i < left.len() implies #[trigger] left[i] != ESC && !is_final(
            left[i],
        ) by {
            assert(left[i] == body[i + from - 1]);
        }
        law_discarded_control_sequence_is_swallowed(next, left, last, rest, more, now);
        assert((ParserState { escape_deadline: None, ..next }).expire_osc(now) =~= next);
        assert((ParserState { discarded: None, ..next }) =~= fresh);
    }
}

/// A control sequence with parameters can be discarded at any of its bytes. The marker that begins
/// a paste is none of these: what follows it belongs to the paste.
pub proof fn law_control_sequence_can_be_discarded_anywhere(
    state: ParserState,
    body: Seq<u8>,
    last: u8,
    at: int,
    rest: Seq<u8>,
    more: bool,
    now: u128,
    later: u128,
)
    requires
        at_rest(state),
        is_control_body(body),
        is_final(last),
        control_sequence(body, last) != paste_start(),
        1 <= at < control_sequence(body, last).len(),
    ensures
        ({
            let discarded = state.advance(
                control_sequence(body, last).take(at),
                true,
                now,
            ).discard();
            &&& discard_status(discarded.discarded) == if control_sequence(body, last).take(
                at,
            ).is_prefix_of(paste_start()) {
                InputDiscardStatus::BracketedPasteInProgress
            } else {
                InputDiscardStatus::ControlSequenceInProgress
            }
            &&& discarded.advance(control_sequence(body, last).skip(at) + rest, more, later)
                == ParserState::initial().feed(rest, more, later)
        }),
{
    let whole = control_sequence(body, last);
    let fresh = ParserState::initial();
    assert forall|k: int| 1 <= k <= at implies (#[trigger] decode(
        whole.take(k),
        true,
    )) is Incomplete by {
        reveal(decode);
        if k > 2 {
            assert(whole.take(k)[2] == body[0]);
            assert(whole.take(k).last() == body[k - 3]);
        }
    }
    assert forall|k: int| 3 <= k <= at implies !completed_csi(
        #[trigger] whole.take(k),
    ) by {
        assert(whole.take(k).last() == body[k - 3]);
    }
    assert((ParserState { escape_deadline: None, ..state }).expire_osc(now) =~= state);
    lemma_feed_open_sequence(state, whole, at, now);
    let held = state.advance(whole.take(at), true, now);
    let discarded = held.discard();
    let input = whole.skip(at) + rest;
    assert(held.buffer == whole.take(at));
    assert((ParserState { escape_deadline: None, ..discarded }).expire_osc(later) =~= discarded);
    if at > 2 {
        assert(held.buffer.last() == body[at - 3]);
        assert(held.buffer[2] == body[0]);
    }
    assert(!paste_start().is_prefix_of(held.buffer)) by {
        if paste_start().is_prefix_of(held.buffer) {
            assert(paste_start()[5] == held.buffer[5]);
            assert(held.buffer[5] == body[3]);
        }
    }
    if held.buffer.is_prefix_of(paste_start()) {
        assert(at < 6) by {
            if at == 6 {
                assert(held.buffer[5] == paste_start()[5]);
                assert(held.buffer[5] == body[3]);
            }
        }
        assert(held.buffer =~= paste_start().take(at));
        assert(discarded =~= (ParserState {
            discarded: Some(DiscardedSequence::PasteStart(at as usize)),
            ..fresh
        }));
        lemma_swallow_beginning(discarded, body, last, at, rest, more, later);
    } else {
        assert(at > 2) by {
            if at <= 2 {
                assert(held.buffer =~= paste_start().take(at));
            }
        }
        assert(discarded =~= (ParserState { discarded: Some(DiscardedSequence::Csi), ..fresh }));
        let left = body.skip(at - 2);
        assert(input =~= left.push(last) + rest);
        assert forall|i: int| 0 <= i < left.len() implies #[trigger] left[i] != ESC && !is_final(
            left[i],
        ) by {
            assert(left[i] == body[i + at - 2]);
        }
        law_discarded_control_sequence_is_swallowed(discarded, left, last, rest, more, later);
        assert((ParserState { discarded: None, ..discarded }) =~= fresh);
    }
}

/// What discarding leaves of the first bytes of a sequence that can begin a paste, or not.
proof fn lemma_discarded_beginning(state: ParserState, whole: Seq<u8>, at: int, now: u128)
    requires
        at_rest(state),
        1 <= at <= 2,
        at <= whole.len(),
        whole[0] == ESC,
        at == 2 ==> whole[1] == CSI,
    ensures
        state.advance(whole.take(at), true, now).discard() == (ParserState {
            discarded: Some(DiscardedSequence::PasteStart(at as usize)),
            ..ParserState::initial()
        }),
{
    assert forall|k: int| 1 <= k <= at implies (#[trigger] decode(
        whole.take(k),
        true,
    )) is Incomplete by {
        reveal(decode);
    }
    assert((ParserState { escape_deadline: None, ..state }).expire_osc(now) =~= state);
    lemma_feed_open_sequence(state, whole, at, now);
    let held = state.advance(whole.take(at), true, now);
    assert(held.buffer =~= paste_start().take(at));
    assert(held.buffer.is_prefix_of(paste_start()));
    assert(held.discard() =~= (ParserState {
        discarded: Some(DiscardedSequence::PasteStart(at as usize)),
        ..ParserState::initial()
    }));
}

/// What swallowing one byte leaves of the input.
pub(crate) proof fn lemma_feed_one(
    state: ParserState,
    byte: u8,
    input: Seq<u8>,
    next: ParserState,
    more: bool,
    now: u128,
)
    requires
        state.step(byte, input.len() > 0 || more, now) == next,
    ensures
        state.feed(seq![byte] + input, more, now) == next.feed(input, more, now),
{
    let all = seq![byte] + input;
    assert(all.skip(1) =~= input);
    assert(all[0] == byte);
}

/// A control sequence without parameters, such as that of a cursor key, can be discarded at either
/// of its first bytes: the rest of it is no key.
pub proof fn law_short_sequence_can_be_discarded_anywhere(
    state: ParserState,
    last: u8,
    at: int,
    rest: Seq<u8>,
    more: bool,
    now: u128,
    later: u128,
)
    requires
        at_rest(state),
        0x40 <= last <= 0x7e,
        last != 0x5b,
        last != 0x4d,
        1 <= at <= 2,
    ensures
        ({
            let whole = seq![0x1bu8, 0x5bu8, last];
            let discarded = state.advance(whole.take(at), true, now).discard();
            &&& discard_status(discarded.discarded)
                == InputDiscardStatus::BracketedPasteInProgress
            &&& discarded.advance(whole.skip(at) + rest, more, later)
                == ParserState::initial().feed(rest, more, later)
        }),
{
    let whole = seq![0x1bu8, 0x5bu8, last];
    let fresh = ParserState::initial();
    lemma_discarded_beginning(state, whole, at, now);
    let discarded = state.advance(whole.take(at), true, now).discard();
    assert((ParserState { escape_deadline: None, ..discarded }).expire_osc(later) =~= discarded);
    let second = ParserState { discarded: Some(DiscardedSequence::PasteStart(2)), ..fresh };
    assert(second.step(last, rest.len() > 0 || more, later) =~= fresh);
    lemma_feed_one(second, last, rest, fresh, more, later);
    if at == 1 {
        let tail = seq![last] + rest;
        assert(discarded.step(CSI, tail.len() > 0 || more, later) =~= second);
        lemma_feed_one(discarded, CSI, tail, second, more, later);
        assert(whole.skip(1) + rest =~= seq![CSI] + tail);
    } else {
        assert(whole.skip(2) + rest =~= seq![last] + rest);
    }
}

/// A sequence behind `ESC O` can be discarded at either of its first bytes.
pub proof fn law_ss3_sequence_can_be_discarded_anywhere(
    state: ParserState,
    last: u8,
    at: int,
    rest: Seq<u8>,
    more: bool,
    now: u128,
    later: u128,
)
    requires
        at_rest(state),
        0x40 <= last <= 0x7e,
        1 <= at <= 2,
    ensures
        ({
            let whole = seq![0x1bu8, 0x4fu8, last];
            let discarded = state.advance(whole.take(at), true, now).discard();
            &&& discard_status(discarded.discarded) == if at == 1 {
                InputDiscardStatus::BracketedPasteInProgress
            } else {
                InputDiscardStatus::ControlSequenceInProgress
            }
            &&& discarded.advance(whole.skip(at) + rest, more, later)
                == ParserState::initial().feed(rest, more, later)
        }),
{
    let whole = seq![0x1bu8, 0x4fu8, last];
    let fresh = ParserState::initial();
    let discarded = state.advance(whole.take(at), true, now).discard();
    let second = ParserState { discarded: Some(DiscardedSequence::Ss3), ..fresh };
    assert(second.step(last, rest.len() > 0 || more, later) =~= fresh);
    lemma_feed_one(second, last, rest, fresh, more, later);
    if at == 1 {
        lemma_discarded_beginning(state, whole, 1, now);
        let tail = seq![last] + rest;
        assert(discarded.step(0x4f, tail.len() > 0 || more, later) =~= second);
        lemma_feed_one(discarded, 0x4f, tail, second, more, later);
        assert(whole.skip(1) + rest =~= seq![0x4fu8] + tail);
    } else {
        reveal(decode);
        assert((ParserState { escape_deadline: None, ..state }).expire_osc(now) =~= state);
        let first = ParserState { buffer: seq![ESC], ..state };
        let held = ParserState { buffer: seq![ESC, 0x4fu8], ..state };
        assert(state.buffer.push(ESC) =~= seq![ESC]);
        assert(state.step(ESC, true, now) =~= first);
        assert(seq![ESC].push(0x4fu8) =~= seq![ESC, 0x4fu8]);
        assert(first.step(0x4f, true, now) =~= held);
        lemma_feed_one(first, 0x4f, Seq::empty(), held, true, now);
        lemma_feed_one(state, ESC, seq![0x4fu8] + Seq::<u8>::empty(), first, true, now);
        assert(whole.take(2) =~= seq![ESC] + (seq![0x4fu8] + Seq::<u8>::empty()));
        assert(state.advance(whole.take(2), true, now) == held);
        assert(!paste_start().is_prefix_of(held.buffer));
        assert(!held.buffer.is_prefix_of(paste_start())) by {
            if held.buffer.is_prefix_of(paste_start()) {
                assert(paste_start()[1] == held.buffer[1]);
            }
        }
        assert(discarded =~= second);
        assert(whole.skip(2) + rest =~= seq![last] + rest);
    }
    assert((ParserState { escape_deadline: None, ..discarded }).expire_osc(later) =~= discarded);
}

/// A key behind a discarded escape is what Alt made of it, and is swallowed with it.
pub proof fn law_alt_key_can_be_discarded(
    state: ParserState,
    byte: u8,
    rest: Seq<u8>,
    more: bool,
    now: u128,
    later: u128,
)
    requires
        at_rest(state),
        byte != 0x1b,
        byte != 0x5b,
        byte != 0x5d,
        byte != 0x4f,
    ensures
        ({
            let discarded = state.advance(seq![0x1bu8], true, now).discard();
            &&& discard_status(discarded.discarded)
                == InputDiscardStatus::BracketedPasteInProgress
            &&& discarded.advance(seq![byte] + rest, more, later) == ParserState::initial().feed(
                rest,
                more,
                later,
            )
        }),
{
    let whole = seq![0x1bu8];
    let fresh = ParserState::initial();
    assert(whole.take(1) =~= whole);
    lemma_discarded_beginning(state, whole, 1, now);
    let discarded = state.advance(whole, true, now).discard();
    assert((ParserState { escape_deadline: None, ..discarded }).expire_osc(later) =~= discarded);
    assert(discarded.step(byte, rest.len() > 0 || more, later) =~= fresh);
    lemma_feed_one(discarded, byte, rest, fresh, more, later);
}

/// A sequence behind `ESC [ [` can be discarded at any of its first three bytes, and is swallowed
/// up to its last byte.
pub proof fn law_double_bracket_can_be_discarded_anywhere(
    state: ParserState,
    body: Seq<u8>,
    last: u8,
    at: int,
    rest: Seq<u8>,
    more: bool,
    now: u128,
    later: u128,
)
    requires
        at_rest(state),
        forall|i: int| 0 <= i < body.len() ==> #[trigger] body[i] != 0x1b && !(0x40 <= body[i] <= 0x7e),
        0x40 <= last <= 0x7e,
        1 <= at <= 3,
    ensures
        ({
            let whole = (seq![0x1bu8, 0x5bu8, 0x5bu8] + body).push(last);
            let discarded = state.advance(whole.take(at), true, now).discard();
            &&& discard_status(discarded.discarded) == if at < 3 {
                InputDiscardStatus::BracketedPasteInProgress
            } else {
                InputDiscardStatus::ControlSequenceInProgress
            }
            &&& discarded.advance(whole.skip(at) + rest, more, later)
                == ParserState::initial().feed(rest, more, later)
        }),
{
    let whole = (seq![0x1bu8, 0x5bu8, 0x5bu8] + body).push(last);
    let fresh = ParserState::initial();
    let discarded = state.advance(whole.take(at), true, now).discard();
    let third = ParserState { discarded: Some(DiscardedSequence::Csi), ..fresh };
    let tail = body.push(last) + rest;
    assert((ParserState { escape_deadline: None, ..third }).expire_osc(later) =~= third);
    law_discarded_control_sequence_is_swallowed(third, body, last, rest, more, later);
    assert((ParserState { discarded: None, ..third }) =~= fresh);
    if at == 3 {
        assert forall|k: int| 1 <= k <= at implies (#[trigger] decode(
            whole.take(k),
            true,
        )) is Incomplete by {
            reveal(decode);
        }
        assert((ParserState { escape_deadline: None, ..state }).expire_osc(now) =~= state);
        lemma_feed_open_sequence(state, whole, 3, now);
        let held = state.advance(whole.take(3), true, now);
        assert(held.buffer == whole.take(3));
        assert(!paste_start().is_prefix_of(held.buffer));
        assert(!held.buffer.is_prefix_of(paste_start())) by {
            if held.buffer.is_prefix_of(paste_start()) {
                assert(paste_start()[2] == held.buffer[2]);
            }
        }
        assert(discarded =~= third);
        assert(whole.skip(3) + rest =~= tail);
    } else {
        lemma_discarded_beginning(state, whole, at, now);
        let second = ParserState { discarded: Some(DiscardedSequence::PasteStart(2)), ..fresh };
        assert(second.step(CSI, tail.len() > 0 || more, later) =~= third);
        lemma_feed_one(second, CSI, tail, third, more, later);
        if at == 1 {
            let input = seq![CSI] + tail;
            assert(discarded.step(CSI, input.len() > 0 || more, later) =~= second);
            lemma_feed_one(discarded, CSI, input, second, more, later);
            assert(whole.skip(1) + rest =~= seq![CSI] + input);
        } else {
            assert(whole.skip(2) + rest =~= seq![CSI] + tail);
        }
    }
    assert((ParserState { escape_deadline: None, ..discarded }).expire_osc(later) =~= discarded);
}

/// An escape inside a discarded sequence, but for commands, mouse events and pastes, begins another
/// one, which is discarded as if it had been the first.
pub proof fn law_escape_begins_another_discarded_sequence(
    state: ParserState,
    rest: Seq<u8>,
    more: bool,
    now: u128,
)
    requires
        state.wf(),
        state.discarded matches Some(discarded) && (discarded is PasteStart || discarded is Csi
            || discarded is Ss3),
    ensures
        state.feed(seq![0x1bu8] + rest, more, now) == (ParserState {
            events: state.events,
            ..ParserState::initial().advance(seq![0x1bu8], true, now).discard()
        }).feed(rest, more, now),
{
    let fresh = ParserState::initial();
    let whole = seq![0x1bu8];
    assert(whole.take(1) =~= whole);
    lemma_discarded_beginning(fresh, whole, 1, now);
    let next = ParserState {
        events: state.events,
        ..fresh.advance(seq![0x1bu8], true, now).discard()
    };
    assert(state.escape_deadline is None) by {
        if state.escape_deadline is Some {
            assert(state.buffer.len() == seq![ESC].len());
        }
    }
    assert(state.step(ESC, rest.len() > 0 || more, now) =~= next);
    lemma_feed_one(state, ESC, rest, next, more, now);
}

} // verus!
