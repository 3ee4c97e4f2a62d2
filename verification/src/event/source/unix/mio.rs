//! Turns the bytes of a terminal into events, one byte at a time, for a source that waits for
//! the terminal with an event queue.
//!
//! Input can be discarded at any point. What is left of a paste that was discarded half-way is
//! then swallowed when it arrives, so that it is not taken for keys.
use crate::event::bytes::{
    begins_paste, is_lone_escape, is_paste_start_prefix, paste_end, paste_end_byte, paste_start,
    paste_start_byte, ESC,
};
use crate::event::parse::{decode, parse_event, Decoded};
use crate::event::types::{
    lemma_views_push, views, InputDiscardStatus, InternalEvent, InternalEventView,
};
use crate::time::{
    deadline_reached, reached, remaining, shorter, shorter_limit, time_remaining, within, Clock,
    MAX_NANOS,
};
use std::collections::VecDeque;
use vstd::prelude::*;

verus! {

/// How long a lone escape waits for the rest of a control sequence.
pub const BUFFERED_ESCAPE_TIMEOUT: u128 = 20_000_000;

/// A paste that was discarded before it was complete, and how far it has come.
#[derive(Debug, Clone, Copy, PartialEq, Eq, Structural)]
pub enum DiscardedPaste {
    /// So many bytes of the marker that begins it.
    Start(usize),
    /// Its text, which ends with so many bytes of the marker that ends it.
    End(usize),
}

/// What a byte does to a discarded paste: `None` is its end.
pub open spec fn discard_step(discarded: DiscardedPaste, byte: u8) -> Option<DiscardedPaste> {
    match discarded {
        DiscardedPaste::Start(matched) => if byte == paste_start()[matched as int] {
            if matched == 5 {
                Some(DiscardedPaste::End(0))
            } else {
                Some(DiscardedPaste::Start((matched + 1) as usize))
            }
        } else if byte == ESC {
            Some(DiscardedPaste::Start(1))
        } else {
            None
        },
        DiscardedPaste::End(matched) => if byte == paste_end()[matched as int] {
            if matched == 5 {
                None
            } else {
                Some(DiscardedPaste::End((matched + 1) as usize))
            }
        } else if byte == ESC {
            Some(DiscardedPaste::End(1))
        } else {
            Some(DiscardedPaste::End(0))
        },
    }
}

/// What a [`Parser`] holds.
#[verifier::ext_equal]
pub struct ParserState {
    /// The bytes of a sequence that has not been decoded.
    pub buffer: Seq<u8>,
    /// The events that were decoded, the oldest first.
    pub events: Seq<InternalEventView>,
    /// When a lone escape in the buffer becomes a key.
    pub escape_deadline: Option<u128>,
    /// The paste whose rest is swallowed.
    pub discarded: Option<DiscardedPaste>,
}

impl ParserState {
    /// A parser that has seen nothing.
    pub open spec fn initial() -> ParserState {
        ParserState {
            buffer: Seq::empty(),
            events: Seq::empty(),
            escape_deadline: None,
            discarded: None,
        }
    }

    /// What holds between calls.
    pub open spec fn wf(self) -> bool {
        // How far a discarded paste has come is a place in a marker.
        &&& self.discarded matches Some(DiscardedPaste::Start(matched)) ==> 1 <= matched < 6
        &&& self.discarded matches Some(DiscardedPaste::End(matched)) ==> matched
            < 6
        // Nothing of a discarded paste is kept.
        &&& self.discarded is Some ==> self.buffer.len()
            == 0
        // Only a lone escape waits to become a key.
        &&& self.escape_deadline is Some ==> self.buffer == seq![ESC]
    }

    /// Takes one byte.
    pub open spec fn step(self, byte: u8, more: bool) -> ParserState {
        match self.discarded {
            Some(discarded) => ParserState { discarded: discard_step(discarded, byte), ..self },
            None => {
                let bytes = self.buffer.push(byte);
                match decode(bytes, more) {
                    Decoded::Event(event) => ParserState {
                        buffer: Seq::empty(),
                        events: self.events.push(event),
                        ..self
                    },
                    Decoded::Incomplete => ParserState { buffer: bytes, ..self },
                    Decoded::Invalid => ParserState { buffer: Seq::empty(), ..self },
                }
            },
        }
    }

    /// Takes bytes in order. All but the last one are followed by another.
    pub open spec fn feed(self, input: Seq<u8>, more: bool) -> ParserState
        decreases input.len(),
    {
        if input.len() == 0 {
            self
        } else {
            self.step(input[0], input.len() > 1 || more).feed(input.skip(1), more)
        }
    }

    /// What a parser holds after it took input.
    pub open spec fn advance(self, input: Seq<u8>, more: bool) -> ParserState {
        (ParserState { escape_deadline: None, ..self }).feed(input, more)
    }

    /// What a parser holds after it took, at a moment, input that was read elsewhere and that more
    /// is expected to follow: a lone escape at its end then waits.
    pub open spec fn buffer_external(self, input: Seq<u8>, now: u128) -> ParserState {
        let next = self.advance(input, true);
        if next.buffer == seq![ESC] {
            ParserState { escape_deadline: Some((now + BUFFERED_ESCAPE_TIMEOUT) as u128), ..next }
        } else {
            next
        }
    }

    /// What remains to be swallowed when everything buffered is discarded.
    pub open spec fn discarded_rest(self) -> Option<DiscardedPaste> {
        if self.discarded is Some {
            self.discarded
        } else if paste_start().is_prefix_of(self.buffer) {
            Some(DiscardedPaste::End(0))
        } else if self.buffer.len() > 0 && self.buffer.is_prefix_of(paste_start()) {
            Some(DiscardedPaste::Start(self.buffer.len() as usize))
        } else {
            None
        }
    }

    /// What a parser holds after everything buffered was discarded at a moment. A lone escape is
    /// kept: it can be a key, or begin a paste.
    pub open spec fn discard(self, now: u128) -> ParserState {
        if self.discarded is None && self.buffer == seq![ESC] {
            ParserState {
                events: Seq::empty(),
                escape_deadline: if self.escape_deadline is Some {
                    self.escape_deadline
                } else {
                    Some((now + BUFFERED_ESCAPE_TIMEOUT) as u128)
                },
                ..self
            }
        } else {
            ParserState {
                buffer: Seq::empty(),
                events: Seq::empty(),
                escape_deadline: None,
                discarded: self.discarded_rest(),
            }
        }
    }

    /// How discarding reports what remains.
    pub open spec fn discard_status(self) -> InputDiscardStatus {
        if self.discarded is Some || self.buffer == seq![ESC] {
            InputDiscardStatus::BracketedPasteInProgress
        } else {
            InputDiscardStatus::Complete
        }
    }

    /// What a parser holds, and the event it gives, when its deadline was reached.
    pub open spec fn finish(self, now: u128) -> (ParserState, Option<InternalEventView>) {
        if reached(self.escape_deadline, now) {
            match decode(self.buffer, false) {
                Decoded::Event(event) => (
                    ParserState { buffer: Seq::empty(), escape_deadline: None, ..self },
                    Some(event),
                ),
                _ => (ParserState { escape_deadline: None, ..self }, None),
            }
        } else {
            (self, None)
        }
    }

    /// How long to wait for the terminal: no longer than asked for, and not past the deadline.
    pub open spec fn wait(self, timeout: Option<u128>, now: u128) -> Option<u128> {
        shorter(timeout, remaining(self.escape_deadline, now))
    }
}

/// Turns the bytes of a terminal into events.
#[derive(Debug)]
pub struct Parser {
    /// The bytes of a sequence that has not been decoded.
    pub buffer: Vec<u8>,
    /// The events that were decoded, the oldest first.
    pub internal_events: VecDeque<InternalEvent>,
    /// When a lone escape in the buffer becomes a key.
    pub pending_escape_deadline: Option<u128>,
    /// The paste whose rest is swallowed.
    pub discarded_paste: Option<DiscardedPaste>,
    /// The clock that the deadline refers to.
    pub clock: Clock,
}

impl View for Parser {
    type V = ParserState;

    open spec fn view(&self) -> ParserState {
        ParserState {
            buffer: self.buffer@,
            events: views(self.internal_events@),
            escape_deadline: self.pending_escape_deadline,
            discarded: self.discarded_paste,
        }
    }
}

/// Returns what a byte does to a discarded paste.
fn advance_discarded(discarded: DiscardedPaste, byte: u8) -> (r: Option<DiscardedPaste>)
    requires
        discarded matches DiscardedPaste::Start(matched) ==> 1 <= matched < 6,
        discarded matches DiscardedPaste::End(matched) ==> matched < 6,
    ensures
        r == discard_step(discarded, byte),
{
    match discarded {
        DiscardedPaste::Start(matched) => if byte == paste_start_byte(matched) {
            if matched == 5 {
                Some(DiscardedPaste::End(0))
            } else {
                Some(DiscardedPaste::Start(matched + 1))
            }
        } else if byte == ESC {
            Some(DiscardedPaste::Start(1))
        } else {
            None
        },
        DiscardedPaste::End(matched) => if byte == paste_end_byte(matched) {
            if matched == 5 {
                None
            } else {
                Some(DiscardedPaste::End(matched + 1))
            }
        } else if byte == ESC {
            Some(DiscardedPaste::End(1))
        } else {
            Some(DiscardedPaste::End(0))
        },
    }
}

impl Default for Parser {
    /// A parser that has seen nothing.
    fn default() -> (r: Parser)
        ensures
            r@ == ParserState::initial(),
            r.wf(),
    {
        let r = Parser {
            buffer: Vec::with_capacity(256),
            internal_events: VecDeque::with_capacity(128),
            pending_escape_deadline: None,
            discarded_paste: None,
            clock: Clock::new(),
        };
        assert(r@ =~= ParserState::initial());
        r
    }
}

impl Parser {
    /// What holds between calls: the state is in order, and its deadline was set from a moment
    /// that the clock has seen.
    pub open spec fn wf(&self) -> bool {
        &&& self@.wf()
        &&& self.clock.wf()
        &&& within(self@.escape_deadline, self.clock.latest, BUFFERED_ESCAPE_TIMEOUT)
    }

    /// Takes one byte.
    fn step(&mut self, byte: u8, more: bool)
        requires
            old(self)@.wf(),
        ensures
            final(self)@ == old(self)@.step(byte, more),
            final(self).clock == old(self).clock,
    {
        match self.discarded_paste {
            Some(discarded) => {
                self.discarded_paste = advance_discarded(discarded, byte);
            },
            None => {
                self.buffer.push(byte);
                match parse_event(self.buffer.as_slice(), more) {
                    Ok(Some(event)) => {
                        proof {
                            lemma_views_push(self.internal_events@, event);
                        }
                        self.internal_events.push_back(event);
                        self.buffer.clear();
                    },
                    Ok(None) => {},
                    Err(_) => {
                        self.buffer.clear();
                    },
                }
            },
        }
        assert(self@ =~= old(self)@.step(byte, more));
    }

    /// Takes input; `more` says whether more of it is at hand or can be expected.
    pub fn advance(&mut self, input: &[u8], more: bool)
        requires
            old(self).wf(),
        ensures
            final(self)@ == old(self)@.advance(input@, more),
            final(self).wf(),
            final(self).clock == old(self).clock,
    {
        self.pending_escape_deadline = None;
        let ghost start = self@;
        let mut i: usize = 0;
        assert(input@.skip(0) =~= input@);
        while i < input.len()
            invariant
                i <= input@.len(),
                self@.wf(),
                self@.escape_deadline is None,
                self@.feed(input@.skip(i as int), more) == start.feed(input@, more),
                self.clock == old(self).clock,
            decreases input@.len() - i,
        {
            let ghost rest = input@.skip(i as int);
            self.step(input[i], i + 1 < input.len() || more);
            assert(rest.skip(1) =~= input@.skip(i + 1));
            i = i + 1;
        }
        assert(input@.skip(i as int) =~= Seq::<u8>::empty());
    }

    /// Takes, at a moment, input that was read elsewhere and that more is expected to follow.
    pub fn buffer_external_input_at(&mut self, input: &[u8], now: u128)
        requires
            old(self).wf(),
            now <= MAX_NANOS,
        ensures
            final(self)@ == old(self)@.buffer_external(input@, now),
            final(self).wf(),
            final(self).clock == old(self).clock.seen(now),
    {
        self.clock.see(now);
        self.advance(input, true);
        if is_lone_escape(self.buffer.as_slice()) {
            self.pending_escape_deadline = Some(now + BUFFERED_ESCAPE_TIMEOUT);
        }
        assert(self@ =~= old(self)@.buffer_external(input@, now));
    }

    /// Takes input that was read elsewhere and that more is expected to follow.
    pub fn buffer_external_input(&mut self, input: &[u8])
        requires
            old(self).wf(),
        ensures
            exists|now: u128|
                {
                    &&& old(self).clock.latest <= now <= MAX_NANOS
                    &&& final(self)@ == #[trigger] old(self)@.buffer_external(input@, now)
                    &&& final(self).clock == old(self).clock.seen(now)
                },
            final(self).wf(),
    {
        let now: u128 = self.clock.now();
        self.buffer_external_input_at(input, now);
    }

    /// Returns how long to wait for the terminal at a moment.
    pub fn poll_timeout_at(&self, timeout: Option<u128>, now: u128) -> (r: Option<u128>)
        ensures
            r == self@.wait(timeout, now),
    {
        shorter_limit(timeout, time_remaining(self.pending_escape_deadline, now))
    }

    /// Returns how long to wait for the terminal: no longer than asked for, and not past the
    /// deadline.
    pub fn poll_timeout(&mut self, timeout: Option<u128>) -> (r: Option<u128>)
        requires
            old(self).wf(),
        ensures
            exists|now: u128|
                {
                    &&& old(self).clock.latest <= now <= MAX_NANOS
                    &&& r == #[trigger] old(self)@.wait(timeout, now)
                    &&& final(self).clock == old(self).clock.seen(now)
                },
            old(self)@.escape_deadline is Some ==> r is Some && r->0 <= BUFFERED_ESCAPE_TIMEOUT,
            final(self)@ == old(self)@,
            final(self).wf(),
    {
        let now: u128 = self.clock.now();
        self.poll_timeout_at(timeout, now)
    }

    /// Gives up waiting at a moment, where the deadline was reached, and returns the event that
    /// this gives.
    pub fn finish_pending_escape_at(&mut self, now: u128) -> (r: Option<InternalEvent>)
        requires
            old(self).wf(),
        ensures
            final(self)@ == old(self)@.finish(now).0,
            r is Some <==> old(self)@.finish(now).1 is Some,
            r matches Some(event) ==> Some(event@) == old(self)@.finish(now).1,
            final(self).wf(),
            final(self).clock == old(self).clock,
    {
        if !deadline_reached(self.pending_escape_deadline, now) {
            return None;
        }
        self.pending_escape_deadline = None;
        let event = match parse_event(self.buffer.as_slice(), false) {
            Ok(Some(event)) => {
                self.buffer.clear();
                Some(event)
            },
            _ => None,
        };
        assert(self@ =~= old(self)@.finish(now).0);
        event
    }

    /// Gives up waiting, where the deadline was reached, and returns the event that this gives.
    pub fn finish_pending_escape(&mut self) -> (r: Option<InternalEvent>)
        requires
            old(self).wf(),
        ensures
            exists|now: u128|
                {
                    &&& old(self).clock.latest <= now <= MAX_NANOS
                    &&& #[trigger] gave_up_at(old(self)@, final(self)@, r, now)
                    &&& final(self).clock == old(self).clock.seen(now)
                },
            final(self).wf(),
    {
        let now: u128 = self.clock.now();
        let event = self.finish_pending_escape_at(now);
        assert(gave_up_at(old(self)@, self@, event, now));
        event
    }

    /// Removes and returns the oldest event.
    pub fn next(&mut self) -> (r: Option<InternalEvent>)
        ensures
            match r {
                Some(event) => {
                    &&& old(self)@.events.len() > 0
                    &&& event@ == old(self)@.events[0]
                    &&& final(self)@ == (ParserState {
                        events: old(self)@.events.skip(1),
                        ..old(self)@
                    })
                },
                None => old(self)@.events.len() == 0 && final(self)@ == old(self)@,
            },
            final(self).clock == old(self).clock,
    {
        let event = self.internal_events.pop_front();
        proof {
            if event is Some {
                assert(self@.events =~= old(self)@.events.skip(1));
            }
        }
        event
    }

    /// Discards, at a moment, everything that was buffered.
    pub fn discard_buffered_input_at(&mut self, now: u128) -> (r: InputDiscardStatus)
        requires
            old(self).wf(),
            now <= MAX_NANOS,
        ensures
            final(self)@ == old(self)@.discard(now),
            r == final(self)@.discard_status(),
            final(self).wf(),
            final(self).clock == old(self).clock.seen(now),
    {
        self.clock.see(now);
        if self.discarded_paste.is_none() && is_lone_escape(self.buffer.as_slice()) {
            self.internal_events.clear();
            if self.pending_escape_deadline.is_none() {
                self.pending_escape_deadline = Some(now + BUFFERED_ESCAPE_TIMEOUT);
            }
            assert(self@ =~= old(self)@.discard(now));
            return InputDiscardStatus::BracketedPasteInProgress;
        }
        if self.discarded_paste.is_none() {
            let buffer = self.buffer.as_slice();
            if begins_paste(buffer) {
                self.discarded_paste = Some(DiscardedPaste::End(0));
            } else if buffer.len() > 0 && is_paste_start_prefix(buffer) {
                proof {
                    if buffer@.len() == 6 {
                        assert(paste_start().is_prefix_of(buffer@));
                    }
                }
                self.discarded_paste = Some(DiscardedPaste::Start(buffer.len()));
            }
        }
        self.buffer.clear();
        self.internal_events.clear();
        self.pending_escape_deadline = None;
        proof {
            assert(self@ =~= old(self)@.discard(now));
            assert(self@.buffer != seq![ESC]) by {
                assert(seq![ESC].len() == 1);
            }
        }
        if self.discarded_paste.is_some() {
            InputDiscardStatus::BracketedPasteInProgress
        } else {
            InputDiscardStatus::Complete
        }
    }

    /// Discards everything that was buffered. What remains of a paste that was not complete is
    /// swallowed when it arrives.
    pub fn discard_buffered_input(&mut self) -> (r: InputDiscardStatus)
        requires
            old(self).wf(),
        ensures
            exists|now: u128|
                {
                    &&& old(self).clock.latest <= now <= MAX_NANOS
                    &&& final(self)@ == #[trigger] old(self)@.discard(now)
                    &&& final(self).clock == old(self).clock.seen(now)
                },
            r == final(self)@.discard_status(),
            final(self).wf(),
    {
        let now: u128 = self.clock.now();
        self.discard_buffered_input_at(now)
    }
}

/// Whether giving up at a moment turns one state into another and gives this event.
pub open spec fn gave_up_at(
    before: ParserState,
    after: ParserState,
    event: Option<InternalEvent>,
    now: u128,
) -> bool {
    &&& after == before.finish(now).0
    &&& event is Some <==> before.finish(now).1 is Some
    &&& event matches Some(event) ==> Some(event@) == before.finish(now).1
}

} // verus!
