//! Turns the bytes of a terminal into events, one byte at a time, for a source that waits for
//! the terminal with `poll`.
//!
//! Input can be discarded at any point. What is left of a sequence that was discarded half-way is
//! then swallowed when it arrives, so that it is not taken for keys.
use crate::event::bytes::{
    begins_csi_with, begins_paste, begins_with, ends_in_marker, ends_sequence, ends_with_marker,
    is_final, is_lone_escape, is_paste_start_prefix, opens, opens_csi, paste_end, paste_end_byte,
    paste_start, paste_start_byte, BACKSLASH, BEL, CSI, END_OF_FILE, ESC, INTERRUPT, OSC, SS3,
    X10,
};
use crate::event::parse::{
    decode, lemma_x10_mouse_is_bounded, parse_event, Decoded,
};
use crate::event::types::{
    key_view, lemma_views_push, views, Event, InputDiscardStatus, InternalEvent,
    InternalEventView, KeyCode, KeyEvent, KeyModifiers,
};
use crate::time::{
    deadline_reached, reached, remaining, shorter, shorter_limit, time_remaining, within, Clock,
    MAX_NANOS,
};
use std::collections::VecDeque;
use vstd::prelude::*;

verus! {

/// How long a lone escape waits for the rest of a control sequence.
pub const BUFFERED_ESCAPE_TIMEOUT: u128 = 20_000_000;

/// How long an operating system command may take to arrive.
pub const OSC_TIMEOUT: u128 = 250_000_000;

/// A sequence that was discarded before it was complete, and how far it has come.
#[derive(Debug, Clone, Copy, PartialEq, Eq, Structural)]
pub enum DiscardedSequence {
    /// So many bytes of the marker that begins a paste.
    PasteStart(usize),
    /// A paste, which ends with so many bytes of the marker that ends it.
    PasteBody(usize),
    /// An operating system command.
    OscBody,
    /// An operating system command that ends with an escape.
    OscEscape,
    /// A control sequence with parameters.
    Csi,
    /// A mouse event that lacks so many bytes.
    X10Mouse(usize),
    /// `ESC O`, which lacks its last byte.
    Ss3,
}

/// What a byte does to a discarded sequence.
pub enum DiscardStep {
    /// The sequence goes on.
    Continue(DiscardedSequence),
    /// The byte completes the sequence.
    Done,
    /// The byte is not part of the sequence: new input begins with it, or with the escape before
    /// it.
    Restart { escape: bool },
}

/// What a byte does to a discarded sequence.
pub open spec fn discard_step(discarded: DiscardedSequence, byte: u8) -> DiscardStep {
    match discarded {
        DiscardedSequence::PasteStart(matched) => if byte == paste_start()[matched as int] {
            if matched == 5 {
                DiscardStep::Continue(DiscardedSequence::PasteBody(0))
            } else {
                DiscardStep::Continue(DiscardedSequence::PasteStart((matched + 1) as usize))
            }
        } else if byte == ESC {
            DiscardStep::Continue(DiscardedSequence::PasteStart(1))
        } else if matched == 1 && byte == OSC {
            DiscardStep::Continue(DiscardedSequence::OscBody)
        } else if matched == 1 && byte == SS3 {
            DiscardStep::Continue(DiscardedSequence::Ss3)
        } else if matched == 2 && byte == X10 {
            DiscardStep::Continue(DiscardedSequence::X10Mouse(3))
        } else if matched == 2 && byte == CSI {
            DiscardStep::Continue(DiscardedSequence::Csi)
        } else if matched >= 2 && !is_final(byte) {
            DiscardStep::Continue(DiscardedSequence::Csi)
        } else {
            DiscardStep::Done
        },
        DiscardedSequence::PasteBody(matched) => if byte == paste_end()[matched as int] {
            if matched == 5 {
                DiscardStep::Done
            } else {
                DiscardStep::Continue(DiscardedSequence::PasteBody((matched + 1) as usize))
            }
        } else if byte == ESC {
            DiscardStep::Continue(DiscardedSequence::PasteBody(1))
        } else {
            DiscardStep::Continue(DiscardedSequence::PasteBody(0))
        },
        DiscardedSequence::OscBody => if byte == BEL {
            DiscardStep::Done
        } else if byte == INTERRUPT || byte == END_OF_FILE {
            DiscardStep::Restart { escape: false }
        } else if byte == ESC {
            DiscardStep::Continue(DiscardedSequence::OscEscape)
        } else {
            DiscardStep::Continue(DiscardedSequence::OscBody)
        },
        DiscardedSequence::OscEscape => if byte == BEL || byte == BACKSLASH {
            DiscardStep::Done
        } else if byte == INTERRUPT || byte == END_OF_FILE {
            DiscardStep::Restart { escape: false }
        } else if byte == ESC {
            DiscardStep::Continue(DiscardedSequence::OscEscape)
        } else {
            DiscardStep::Restart { escape: true }
        },
        DiscardedSequence::Csi | DiscardedSequence::Ss3 => if byte == ESC {
            DiscardStep::Continue(DiscardedSequence::PasteStart(1))
        } else if is_final(byte) {
            DiscardStep::Done
        } else {
            DiscardStep::Continue(discarded)
        },
        DiscardedSequence::X10Mouse(missing) => if missing > 1 {
            DiscardStep::Continue(DiscardedSequence::X10Mouse((missing - 1) as usize))
        } else {
            DiscardStep::Done
        },
    }
}

/// What a [`Parser`] holds.
#[verifier::ext_equal]
pub struct ParserState {
    /// The bytes of a sequence that has not been decoded.
    pub buffer: Seq<u8>,
    /// The events that were decoded, the oldest first.
    pub events: Seq<InternalEventView>,
    /// When a lone escape in the buffer becomes a key.
    pub escape_deadline: Option<u128>,
    /// When an operating system command is given up.
    pub osc_deadline: Option<u128>,
    /// The sequence whose rest is swallowed.
    pub discarded: Option<DiscardedSequence>,
}

/// Whether the bytes are an operating system command that its terminator ends.
pub open spec fn completed_osc(bytes: Seq<u8>) -> bool {
    opens(bytes, OSC) && (bytes.last() == BEL || (bytes.last() == BACKSLASH && bytes[bytes.len()
        - 2] == ESC))
}

/// Whether the bytes are a control sequence with parameters that its last byte ends, and that is
/// none of those which go on behind such a byte.
pub open spec fn completed_csi(bytes: Seq<u8>) -> bool {
    &&& bytes.len() > 2
    &&& opens(bytes, CSI)
    &&& is_final(bytes.last())
    &&& !paste_start().is_prefix_of(bytes)
    &&& !opens_csi(bytes, CSI)
    &&& !opens_csi(bytes, X10)
}

/// The longest part of the marker that ends a paste, of at most `limit` bytes, that the bytes end
/// with.
pub open spec fn marker_overlap(bytes: Seq<u8>, limit: nat) -> nat
    decreases limit,
{
    if limit == 0 || ends_with_marker(bytes, limit as int) {
        limit
    } else {
        marker_overlap(bytes, (limit - 1) as nat)
    }
}

/// Whether a discarded sequence is an operating system command.
pub open spec fn is_osc(discarded: Option<DiscardedSequence>) -> bool {
    discarded == Some(DiscardedSequence::OscBody) || discarded == Some(
        DiscardedSequence::OscEscape,
    )
}

/// What remains to be swallowed of the sequence in the buffer.
pub open spec fn rest_of(buffer: Seq<u8>) -> Option<DiscardedSequence> {
    if paste_start().is_prefix_of(buffer) {
        Some(DiscardedSequence::PasteBody(marker_overlap(buffer, 5) as usize))
    } else if buffer.len() > 0 && buffer.is_prefix_of(paste_start()) {
        Some(DiscardedSequence::PasteStart(buffer.len() as usize))
    } else if opens(buffer, OSC) {
        Some(
            if buffer.last() == ESC {
                DiscardedSequence::OscEscape
            } else {
                DiscardedSequence::OscBody
            },
        )
    } else if opens_csi(buffer, X10) {
        Some(DiscardedSequence::X10Mouse((6 - buffer.len()) as usize))
    } else if opens(buffer, CSI) {
        Some(DiscardedSequence::Csi)
    } else if opens(buffer, SS3) {
        Some(DiscardedSequence::Ss3)
    } else {
        None
    }
}

/// How discarding reports what remains.
pub open spec fn discard_status(discarded: Option<DiscardedSequence>) -> InputDiscardStatus {
    match discarded {
        Some(
            DiscardedSequence::PasteStart(_) | DiscardedSequence::PasteBody(_),
        ) => InputDiscardStatus::BracketedPasteInProgress,
        Some(_) => InputDiscardStatus::ControlSequenceInProgress,
        None => InputDiscardStatus::Complete,
    }
}

impl ParserState {
    /// A parser that has seen nothing.
    pub open spec fn initial() -> ParserState {
        ParserState {
            buffer: Seq::empty(),
            events: Seq::empty(),
            escape_deadline: None,
            osc_deadline: None,
            discarded: None,
        }
    }

    /// Whether an operating system command is under way, to be decoded or to be swallowed.
    pub open spec fn in_osc(self) -> bool {
        is_osc(self.discarded) || (self.discarded is None && opens(self.buffer, OSC))
    }

    /// What holds between calls.
    pub open spec fn wf(self) -> bool {
        // How far a discarded sequence has come is a place in it.
        &&& self.discarded matches Some(DiscardedSequence::PasteStart(matched)) ==> 1 <= matched
            < 6
        &&& self.discarded matches Some(DiscardedSequence::PasteBody(matched)) ==> matched < 6
        &&& self.discarded matches Some(DiscardedSequence::X10Mouse(missing)) ==> 1 <= missing
            <= 3
        // Nothing of a discarded sequence is kept.
        &&& self.discarded is Some ==> self.buffer.len()
            == 0
        // A mouse event is decoded as soon as it is there.
        &&& opens_csi(self.buffer, X10) ==> self.buffer.len()
            < 6
        // Only a lone escape waits to become a key.
        &&& self.escape_deadline is Some ==> self.buffer
            == seq![ESC]
        // An operating system command never waits forever.
        &&& self.in_osc() <==> self.osc_deadline is Some
    }

    /// Makes room for a byte that cannot be part of the operating system command in the buffer: the
    /// interrupt and end-of-file keys, and whatever follows an escape but does not end the command.
    pub open spec fn leave_osc(self, byte: u8) -> ParserState {
        if !opens(self.buffer, OSC) {
            self
        } else if byte == INTERRUPT || byte == END_OF_FILE {
            ParserState { buffer: Seq::empty(), osc_deadline: None, ..self }
        } else if self.buffer.last() == ESC && byte != BACKSLASH && byte != BEL && byte != ESC {
            ParserState { buffer: seq![ESC], osc_deadline: None, ..self }
        } else {
            self
        }
    }

    /// Adds a byte to the sequence in the buffer and decodes it. A second escape begins a sequence
    /// of its own, so the first was a key.
    pub open spec fn decode_byte(self, byte: u8, more: bool) -> ParserState {
        let first_key = self.buffer == seq![ESC] && byte == ESC;
        let events = if first_key {
            self.events.push(key_view(KeyEvent::new(KeyCode::Esc, KeyModifiers::none())))
        } else {
            self.events
        };
        let bytes = if first_key {
            seq![byte]
        } else {
            self.buffer.push(byte)
        };
        match decode(bytes, more) {
            Decoded::Event(event) => ParserState {
                buffer: Seq::empty(),
                events: events.push(event),
                ..self
            },
            Decoded::Incomplete => ParserState {
                buffer: if completed_osc(bytes) || completed_csi(bytes) {
                    Seq::empty()
                } else {
                    bytes
                },
                events,
                ..self
            },
            Decoded::Invalid => ParserState { buffer: Seq::empty(), events, ..self },
        }
    }

    /// Sets the deadline of an operating system command when it begins, and drops it when the
    /// command ends.
    pub open spec fn track_osc(self, now: u128) -> ParserState {
        ParserState {
            osc_deadline: if !self.in_osc() {
                None
            } else if self.osc_deadline is Some {
                self.osc_deadline
            } else {
                Some((now + OSC_TIMEOUT) as u128)
            },
            ..self
        }
    }

    /// Takes one byte, before deadlines are considered.
    pub open spec fn take_byte(self, byte: u8, more: bool) -> ParserState {
        match self.discarded {
            Some(discarded) => match discard_step(discarded, byte) {
                DiscardStep::Continue(next) => ParserState { discarded: Some(next), ..self },
                DiscardStep::Done => ParserState { discarded: None, ..self },
                DiscardStep::Restart { escape } => (ParserState {
                    discarded: None,
                    osc_deadline: None,
                    buffer: if escape {
                        seq![ESC]
                    } else {
                        Seq::empty()
                    },
                    ..self
                }).decode_byte(byte, more),
            },
            None => self.leave_osc(byte).decode_byte(byte, more),
        }
    }

    /// Takes one byte.
    pub open spec fn step(self, byte: u8, more: bool, now: u128) -> ParserState {
        self.take_byte(byte, more).track_osc(now)
    }

    /// Takes bytes in order. All but the last one are followed by another.
    pub open spec fn feed(self, input: Seq<u8>, more: bool, now: u128) -> ParserState
        decreases input.len(),
    {
        if input.len() == 0 {
            self
        } else {
            self.step(input[0], input.len() > 1 || more, now).feed(input.skip(1), more, now)
        }
    }

    /// Gives up an operating system command whose deadline was reached. What could have been a key
    /// becomes one: `ESC ]` alone is Alt and a bracket, an escape at its end is the escape key.
    pub open spec fn expire_osc(self, now: u128) -> ParserState {
        if !reached(self.osc_deadline, now) {
            self
        } else if is_osc(self.discarded) {
            ParserState { discarded: None, osc_deadline: None, ..self }
        } else if self.buffer == seq![ESC, OSC] {
            ParserState {
                buffer: Seq::empty(),
                osc_deadline: None,
                events: self.events.push(
                    key_view(KeyEvent::new(KeyCode::Char(']'), KeyModifiers::alt())),
                ),
                ..self
            }
        } else if self.buffer.len() > 0 && self.buffer.last() == ESC {
            ParserState {
                buffer: Seq::empty(),
                osc_deadline: None,
                events: self.events.push(
                    key_view(KeyEvent::new(KeyCode::Esc, KeyModifiers::none())),
                ),
                ..self
            }
        } else {
            ParserState { buffer: Seq::empty(), osc_deadline: None, ..self }
        }
    }

    /// What a parser holds after it took input at a moment.
    pub open spec fn advance(self, input: Seq<u8>, more: bool, now: u128) -> ParserState {
        (ParserState { escape_deadline: None, ..self }).expire_osc(now).feed(input, more, now)
    }

    /// The same for input that more is expected to follow: a lone escape at its end then waits.
    pub open spec fn advance_input(self, input: Seq<u8>, now: u128) -> ParserState {
        let next = self.advance(input, true, now);
        if next.buffer == seq![ESC] {
            ParserState { escape_deadline: Some((now + BUFFERED_ESCAPE_TIMEOUT) as u128), ..next }
        } else {
            next
        }
    }

    /// What a parser holds after everything buffered was discarded.
    pub open spec fn discard(self) -> ParserState {
        let discarded = if self.discarded is Some {
            self.discarded
        } else {
            rest_of(self.buffer)
        };
        ParserState {
            buffer: Seq::empty(),
            events: Seq::empty(),
            escape_deadline: None,
            osc_deadline: if is_osc(discarded) {
                self.osc_deadline
            } else {
                None
            },
            discarded,
        }
    }

    /// Whether a deadline was reached.
    pub open spec fn expired(self, now: u128) -> bool {
        reached(self.escape_deadline, now) || reached(self.osc_deadline, now)
    }

    /// What a parser holds, and the event it gives, when a deadline was reached.
    pub open spec fn finish(self, now: u128) -> (ParserState, Option<InternalEventView>) {
        if reached(self.escape_deadline, now) {
            match decode(self.buffer, false) {
                Decoded::Event(event) => (
                    ParserState { buffer: Seq::empty(), escape_deadline: None, ..self },
                    Some(event),
                ),
                _ => (ParserState { escape_deadline: None, ..self }, None),
            }
        } else if reached(self.osc_deadline, now) {
            let next = self.expire_osc(now);
            if next.events.len() > 0 {
                (
                    ParserState { events: next.events.skip(1), ..next },
                    Some(next.events[0]),
                )
            } else {
                (next, None)
            }
        } else {
            (self, None)
        }
    }

    /// How long to wait for the terminal: no longer than asked for, and not past a deadline.
    pub open spec fn wait(self, timeout: Option<u128>, now: u128) -> Option<u128> {
        shorter(
            timeout,
            shorter(remaining(self.escape_deadline, now), remaining(self.osc_deadline, now)),
        )
    }
}

/// Turns the bytes of a terminal into events.
#[derive(Debug)]
pub struct Parser {
    /// The bytes of a sequence that has not been decoded.
    pub buffer: Vec<u8>,
    /// The events that were decoded, the oldest first.
    pub internal_events: VecDeque<InternalEvent>,
    /// When a lone escape in the buffer becomes a key.
    pub pending_escape_deadline: Option<u128>,
    /// When an operating system command is given up.
    pub pending_osc_deadline: Option<u128>,
    /// The sequence whose rest is swallowed.
    pub discarded_sequence: Option<DiscardedSequence>,
    /// The clock that the deadlines refer to.
    pub clock: Clock,
}

impl View for Parser {
    type V = ParserState;

    open spec fn view(&self) -> ParserState {
        ParserState {
            buffer: self.buffer@,
            events: views(self.internal_events@),
            escape_deadline: self.pending_escape_deadline,
            osc_deadline: self.pending_osc_deadline,
            discarded: self.discarded_sequence,
        }
    }
}

/// Returns what a byte does to a discarded sequence.
fn advance_discarded(discarded: DiscardedSequence, byte: u8) -> (r: DiscardStep)
    requires
        discarded matches DiscardedSequence::PasteStart(matched) ==> 1 <= matched < 6,
        discarded matches DiscardedSequence::PasteBody(matched) ==> matched < 6,
    ensures
        r == discard_step(discarded, byte),
{
    match discarded {
        DiscardedSequence::PasteStart(matched) => if byte == paste_start_byte(matched) {
            if matched == 5 {
                DiscardStep::Continue(DiscardedSequence::PasteBody(0))
            } else {
                DiscardStep::Continue(DiscardedSequence::PasteStart(matched + 1))
            }
        } else if byte == ESC {
            DiscardStep::Continue(DiscardedSequence::PasteStart(1))
        } else if matched == 1 && byte == OSC {
            DiscardStep::Continue(DiscardedSequence::OscBody)
        } else if matched == 1 && byte == SS3 {
            DiscardStep::Continue(DiscardedSequence::Ss3)
        } else if matched == 2 && byte == X10 {
            DiscardStep::Continue(DiscardedSequence::X10Mouse(3))
        } else if matched == 2 && byte == CSI {
            DiscardStep::Continue(DiscardedSequence::Csi)
        } else if matched >= 2 && !ends_sequence(byte) {
            DiscardStep::Continue(DiscardedSequence::Csi)
        } else {
            DiscardStep::Done
        },
        DiscardedSequence::PasteBody(matched) => if byte == paste_end_byte(matched) {
            if matched == 5 {
                DiscardStep::Done
            } else {
                DiscardStep::Continue(DiscardedSequence::PasteBody(matched + 1))
            }
        } else if byte == ESC {
            DiscardStep::Continue(DiscardedSequence::PasteBody(1))
        } else {
            DiscardStep::Continue(DiscardedSequence::PasteBody(0))
        },
        DiscardedSequence::OscBody => if byte == BEL {
            DiscardStep::Done
        } else if byte == INTERRUPT || byte == END_OF_FILE {
            DiscardStep::Restart { escape: false }
        } else if byte == ESC {
            DiscardStep::Continue(DiscardedSequence::OscEscape)
        } else {
            DiscardStep::Continue(DiscardedSequence::OscBody)
        },
        DiscardedSequence::OscEscape => if byte == BEL || byte == BACKSLASH {
            DiscardStep::Done
        } else if byte == INTERRUPT || byte == END_OF_FILE {
            DiscardStep::Restart { escape: false }
        } else if byte == ESC {
            DiscardStep::Continue(DiscardedSequence::OscEscape)
        } else {
            DiscardStep::Restart { escape: true }
        },
        DiscardedSequence::Csi | DiscardedSequence::Ss3 => if byte == ESC {
            DiscardStep::Continue(DiscardedSequence::PasteStart(1))
        } else if ends_sequence(byte) {
            DiscardStep::Done
        } else {
            DiscardStep::Continue(discarded)
        },
        DiscardedSequence::X10Mouse(missing) => if missing > 1 {
            DiscardStep::Continue(DiscardedSequence::X10Mouse(missing - 1))
        } else {
            DiscardStep::Done
        },
    }
}

/// Returns whether bytes are a sequence that is complete although it is no event.
fn is_completed(bytes: &[u8]) -> (r: bool)
    requires
        bytes@.len() > 0,
    ensures
        r == (completed_osc(bytes@) || completed_csi(bytes@)),
{
    let len: usize = bytes.len();
    let last: u8 = bytes[len - 1];
    if begins_with(bytes, OSC) {
        last == BEL || (last == BACKSLASH && bytes[len - 2] == ESC)
    } else {
        len > 2 && begins_with(bytes, CSI) && ends_sequence(last) && !begins_paste(bytes)
            && !begins_csi_with(bytes, CSI) && !begins_csi_with(bytes, X10)
    }
}

/// Returns the longest part of the marker that ends a paste, short of all of it, that the bytes
/// end with.
fn overlap_with_marker(bytes: &[u8]) -> (r: usize)
    ensures
        r == marker_overlap(bytes@, 5),
        r < 6,
{
    let mut matched: usize = 5;
    while matched > 0 && !ends_in_marker(bytes, matched)
        invariant
            matched <= 5,
            marker_overlap(bytes@, 5) == marker_overlap(bytes@, matched as nat),
        decreases matched,
    {
        matched = matched - 1;
    }
    matched
}

fn osc_discarded(discarded: Option<DiscardedSequence>) -> (r: bool)
    ensures
        r == is_osc(discarded),
{
    match discarded {
        Some(DiscardedSequence::OscBody) | Some(DiscardedSequence::OscEscape) => true,
        _ => false,
    }
}

impl Default for Parser {
    /// A parser that has seen nothing.
    fn default() -> (r: Parser)
        ensures
            r@ == ParserState::initial(),
            r.wf(),
    {
        let r = Parser {
            buffer: Vec::with_capacity(256),
            internal_events: VecDeque::with_capacity(128),
            pending_escape_deadline: None,
            pending_osc_deadline: None,
            discarded_sequence: None,
            clock: Clock::new(),
        };
        assert(r@ =~= ParserState::initial());
        r
    }
}

impl Parser {
    /// What holds between calls: the state is in order, and its deadlines were set from moments
    /// that the clock has seen.
    pub open spec fn wf(&self) -> bool {
        &&& self@.wf()
        &&& self.clock.wf()
        &&& within(self@.escape_deadline, self.clock.latest, BUFFERED_ESCAPE_TIMEOUT)
        &&& within(self@.osc_deadline, self.clock.latest, OSC_TIMEOUT)
    }

    fn push_event(&mut self, event: InternalEvent)
        ensures
            final(self)@ == (ParserState { events: old(self)@.events.push(event@), ..old(self)@ }),
            final(self).clock == old(self).clock,
    {
        proof {
            lemma_views_push(self.internal_events@, event);
        }
        self.internal_events.push_back(event);
    }

    /// Makes room for a byte that cannot be part of the operating system command in the buffer.
    fn leave_osc(&mut self, byte: u8)
        ensures
            final(self)@ == old(self)@.leave_osc(byte),
            final(self).clock == old(self).clock,
    {
        if begins_with(self.buffer.as_slice(), OSC) {
            if byte == INTERRUPT || byte == END_OF_FILE {
                self.buffer.clear();
                self.pending_osc_deadline = None;
                assert(self@ =~= old(self)@.leave_osc(byte));
            } else if self.buffer[self.buffer.len() - 1] == ESC && byte != BACKSLASH && byte
                != BEL && byte != ESC {
                self.buffer.clear();
                self.buffer.push(ESC);
                self.pending_osc_deadline = None;
                assert(self@ =~= old(self)@.leave_osc(byte));
            }
        }
    }

    /// Adds a byte to the sequence in the buffer and decodes it.
    fn decode_byte(&mut self, byte: u8, more: bool)
        ensures
            final(self)@ == old(self)@.decode_byte(byte, more),
            final(self).clock == old(self).clock,
    {
        if byte == ESC && is_lone_escape(self.buffer.as_slice()) {
            self.push_event(
                InternalEvent::Event(Event::Key(KeyEvent::new(KeyCode::Esc, KeyModifiers::none()))),
            );
            self.buffer.clear();
        }
        self.buffer.push(byte);
        let ghost bytes = self.buffer@;
        proof {
            let first_key = old(self)@.buffer == seq![ESC] && byte == ESC;
            if first_key {
                assert(bytes =~= seq![byte]);
            }
        }
        match parse_event(self.buffer.as_slice(), more) {
            Ok(Some(event)) => {
                self.push_event(event);
                self.buffer.clear();
            },
            Ok(None) => {
                if is_completed(self.buffer.as_slice()) {
                    self.buffer.clear();
                }
            },
            Err(_) => {
                self.buffer.clear();
            },
        }
        assert(self@ =~= old(self)@.decode_byte(byte, more));
    }

    /// Sets or drops the deadline of an operating system command.
    fn track_osc(&mut self, now: u128)
        requires
            now <= MAX_NANOS,
        ensures
            final(self)@ == old(self)@.track_osc(now),
            final(self).clock == old(self).clock,
    {
        let in_osc = osc_discarded(self.discarded_sequence) || (
        self.discarded_sequence.is_none() && begins_with(self.buffer.as_slice(), OSC));
        if !in_osc {
            self.pending_osc_deadline = None;
        } else if self.pending_osc_deadline.is_none() {
            self.pending_osc_deadline = Some(now + OSC_TIMEOUT);
        }
    }

    /// Takes one byte.
    fn step(&mut self, byte: u8, more: bool, now: u128)
        requires
            old(self)@.wf(),
            old(self)@.escape_deadline is None,
            now <= MAX_NANOS,
        ensures
            final(self)@ == old(self)@.step(byte, more, now),
            final(self).clock == old(self).clock,
    {
        match self.discarded_sequence {
            Some(discarded) => match advance_discarded(discarded, byte) {
                DiscardStep::Continue(next) => {
                    self.discarded_sequence = Some(next);
                },
                DiscardStep::Done => {
                    self.discarded_sequence = None;
                },
                DiscardStep::Restart { escape } => {
                    self.discarded_sequence = None;
                    self.pending_osc_deadline = None;
                    self.buffer.clear();
                    if escape {
                        self.buffer.push(ESC);
                    }
                    proof {
                        assert(self.buffer@ =~= if escape {
                            seq![ESC]
                        } else {
                            Seq::empty()
                        });
                    }
                    self.decode_byte(byte, more);
                },
            },
            None => {
                self.leave_osc(byte);
                self.decode_byte(byte, more);
            },
        }
        assert(self@ =~= old(self)@.take_byte(byte, more));
        self.track_osc(now);
    }

    /// Gives up an operating system command whose deadline was reached.
    fn expire_osc(&mut self, now: u128)
        ensures
            final(self)@ == old(self)@.expire_osc(now),
            final(self).clock == old(self).clock,
    {
        if !deadline_reached(self.pending_osc_deadline, now) {
            return;
        }
        self.pending_osc_deadline = None;
        if osc_discarded(self.discarded_sequence) {
            self.discarded_sequence = None;
        } else {
            let len: usize = self.buffer.len();
            if len == 2 && self.buffer[0] == ESC && self.buffer[1] == OSC {
                assert(self.buffer@ =~= seq![ESC, OSC]);
                self.push_event(
                    InternalEvent::Event(
                        Event::Key(KeyEvent::new(KeyCode::Char(']'), KeyModifiers::alt())),
                    ),
                );
            } else if len > 0 && self.buffer[len - 1] == ESC {
                self.push_event(
                    InternalEvent::Event(
                        Event::Key(KeyEvent::new(KeyCode::Esc, KeyModifiers::none())),
                    ),
                );
            }
            self.buffer.clear();
        }
        assert(self@ =~= old(self)@.expire_osc(now));
    }

    /// Takes input at a moment; `more` says whether more of it is at hand or can be expected.
    pub fn advance_at(&mut self, input: &[u8], more: bool, now: u128)
        requires
            old(self).wf(),
            now <= MAX_NANOS,
        ensures
            final(self)@ == old(self)@.advance(input@, more, now),
            final(self).wf(),
            final(self).clock == old(self).clock.seen(now),
    {
        self.clock.see(now);
        self.pending_escape_deadline = None;
        self.expire_osc(now);
        let ghost start = self@;
        proof {
            lemma_expire_keeps_wf(ParserState { escape_deadline: None, ..old(self)@ }, now);
        }
        let mut i: usize = 0;
        assert(input@.skip(0) =~= input@);
        while i < input.len()
            invariant
                i <= input@.len(),
                self@.wf(),
                self@.escape_deadline is None,
                now <= MAX_NANOS,
                self@.feed(input@.skip(i as int), more, now) == start.feed(input@, more, now),
                self.clock == old(self).clock.seen(now),
                within(self@.osc_deadline, self.clock.latest, OSC_TIMEOUT),
            decreases input@.len() - i,
        {
            let ghost before = self@;
            let ghost rest = input@.skip(i as int);
            self.step(input[i], i + 1 < input.len() || more, now);
            proof {
                lemma_step_keeps_wf(before, input@[i as int], i + 1 < input@.len() || more, now);
                assert(rest.skip(1) =~= input@.skip(i + 1));
            }
            i = i + 1;
        }
        assert(input@.skip(i as int) =~= Seq::<u8>::empty());
    }

    /// Takes input; `more` says whether more of it is at hand or can be expected.
    pub fn advance(&mut self, input: &[u8], more: bool)
        requires
            old(self).wf(),
        ensures
            final(self).wf(),
            exists|now: u128|
                {
                    &&& old(self).clock.latest <= now <= MAX_NANOS
                    &&& final(self)@ == #[trigger] old(self)@.advance(input@, more, now)
                    &&& final(self).clock == old(self).clock.seen(now)
                },
    {
        let now: u128 = self.clock.now();
        self.advance_at(input, more, now);
    }

    /// Takes input at a moment that more is expected to follow. A read boundary does not tell an
    /// escape key from the beginning of a control sequence, so a lone escape waits a little.
    pub fn advance_input_at(&mut self, input: &[u8], now: u128)
        requires
            old(self).wf(),
            now <= MAX_NANOS,
        ensures
            final(self)@ == old(self)@.advance_input(input@, now),
            final(self).wf(),
            final(self).clock == old(self).clock.seen(now),
    {
        self.advance_at(input, true, now);
        if is_lone_escape(self.buffer.as_slice()) {
            self.pending_escape_deadline = Some(now + BUFFERED_ESCAPE_TIMEOUT);
        }
        assert(self@ =~= old(self)@.advance_input(input@, now));
    }

    /// Takes input that more is expected to follow.
    pub fn advance_input(&mut self, input: &[u8])
        requires
            old(self).wf(),
        ensures
            final(self).wf(),
            exists|now: u128|
                {
                    &&& old(self).clock.latest <= now <= MAX_NANOS
                    &&& final(self)@ == #[trigger] old(self)@.advance_input(input@, now)
                    &&& final(self).clock == old(self).clock.seen(now)
                },
    {
        let now: u128 = self.clock.now();
        self.advance_input_at(input, now);
    }

    /// Takes input that was read elsewhere, as if it had been read here.
    pub fn buffer_external_input(&mut self, input: &[u8])
        requires
            old(self).wf(),
        ensures
            final(self).wf(),
            exists|now: u128|
                {
                    &&& old(self).clock.latest <= now <= MAX_NANOS
                    &&& final(self)@ == #[trigger] old(self)@.advance_input(input@, now)
                    &&& final(self).clock == old(self).clock.seen(now)
                },
    {
        self.advance_input(input);
    }

    /// Returns how long to wait for the terminal at a moment.
    pub fn poll_timeout_at(&self, timeout: Option<u128>, now: u128) -> (r: Option<u128>)
        ensures
            r == self@.wait(timeout, now),
    {
        shorter_limit(
            timeout,
            shorter_limit(
                time_remaining(self.pending_escape_deadline, now),
                time_remaining(self.pending_osc_deadline, now),
            ),
        )
    }

    /// Returns how long to wait for the terminal: no longer than asked for, and not past a
    /// deadline.
    pub fn poll_timeout(&mut self, timeout: Option<u128>) -> (r: Option<u128>)
        requires
            old(self).wf(),
        ensures
            exists|now: u128|
                {
                    &&& old(self).clock.latest <= now <= MAX_NANOS
                    &&& r == #[trigger] old(self)@.wait(timeout, now)
                    &&& final(self).clock == old(self).clock.seen(now)
                },
            old(self)@.escape_deadline is Some ==> r is Some && r->0 <= BUFFERED_ESCAPE_TIMEOUT,
            old(self)@.osc_deadline is Some ==> r is Some && r->0 <= OSC_TIMEOUT,
            final(self)@ == old(self)@,
            final(self).wf(),
    {
        let now: u128 = self.clock.now();
        self.poll_timeout_at(timeout, now)
    }

    /// Returns whether a deadline was reached at a moment.
    pub fn pending_escape_expired_at(&self, now: u128) -> (r: bool)
        ensures
            r == self@.expired(now),
    {
        deadline_reached(self.pending_escape_deadline, now) || deadline_reached(
            self.pending_osc_deadline,
            now,
        )
    }

    /// Returns whether a deadline was reached.
    pub fn pending_escape_expired(&mut self) -> (r: bool)
        requires
            old(self).wf(),
        ensures
            exists|now: u128|
                {
                    &&& old(self).clock.latest <= now <= MAX_NANOS
                    &&& r == #[trigger] old(self)@.expired(now)
                    &&& final(self).clock == old(self).clock.seen(now)
                },
            final(self)@ == old(self)@,
            final(self).wf(),
    {
        let now: u128 = self.clock.now();
        self.pending_escape_expired_at(now)
    }

    /// Gives up waiting at a moment, where a deadline was reached, and returns the event that this
    /// gives.
    pub fn finish_pending_escape_at(&mut self, now: u128) -> (r: Option<InternalEvent>)
        requires
            old(self).wf(),
        ensures
            final(self)@ == old(self)@.finish(now).0,
            r is Some <==> old(self)@.finish(now).1 is Some,
            r matches Some(event) ==> Some(event@) == old(self)@.finish(now).1,
            final(self).wf(),
            final(self).clock == old(self).clock,
    {
        proof {
            lemma_finish_keeps_wf(self@, now);
        }
        if deadline_reached(self.pending_escape_deadline, now) {
            self.pending_escape_deadline = None;
            let event = match parse_event(self.buffer.as_slice(), false) {
                Ok(Some(event)) => {
                    self.buffer.clear();
                    Some(event)
                },
                _ => None,
            };
            assert(self@ =~= old(self)@.finish(now).0);
            event
        } else if deadline_reached(self.pending_osc_deadline, now) {
            self.expire_osc(now);
            let event = self.next();
            assert(self@ =~= old(self)@.finish(now).0);
            event
        } else {
            None
        }
    }

    /// Gives up waiting, where a deadline was reached, and returns the event that this gives.
    pub fn finish_pending_escape(&mut self) -> (r: Option<InternalEvent>)
        requires
            old(self).wf(),
        ensures
            exists|now: u128|
                {
                    &&& old(self).clock.latest <= now <= MAX_NANOS
                    &&& #[trigger] gave_up_at(old(self)@, final(self)@, r, now)
                    &&& final(self).clock == old(self).clock.seen(now)
                },
            final(self).wf(),
    {
        let now: u128 = self.clock.now();
        let event = self.finish_pending_escape_at(now);
        assert(gave_up_at(old(self)@, self@, event, now));
        event
    }

    /// Removes and returns the oldest event.
    pub fn next(&mut self) -> (r: Option<InternalEvent>)
        ensures
            match r {
                Some(event) => {
                    &&& old(self)@.events.len() > 0
                    &&& event@ == old(self)@.events[0]
                    &&& final(self)@ == (ParserState {
                        events: old(self)@.events.skip(1),
                        ..old(self)@
                    })
                },
                None => old(self)@.events.len() == 0 && final(self)@ == old(self)@,
            },
            final(self).clock == old(self).clock,
    {
        let event = self.internal_events.pop_front();
        proof {
            if event is Some {
                assert(self@.events =~= old(self)@.events.skip(1));
            }
        }
        event
    }

    /// Discards everything that was buffered. What remains of a sequence that was not complete is
    /// swallowed when it arrives.
    pub fn discard_buffered_input(&mut self) -> (r: InputDiscardStatus)
        requires
            old(self).wf(),
        ensures
            final(self)@ == old(self)@.discard(),
            r == discard_status(final(self)@.discarded),
            final(self).wf(),
            final(self).clock == old(self).clock,
    {
        proof {
            lemma_discard_keeps_wf(self@);
        }
        if self.discarded_sequence.is_none() {
            let buffer = self.buffer.as_slice();
            let len: usize = buffer.len();
            if begins_paste(buffer) {
                self.discarded_sequence =
                Some(DiscardedSequence::PasteBody(overlap_with_marker(buffer)));
            } else if len > 0 && is_paste_start_prefix(buffer) {
                self.discarded_sequence = Some(DiscardedSequence::PasteStart(len));
            } else if begins_with(buffer, OSC) {
                self.discarded_sequence =
                Some(
                    if buffer[len - 1] == ESC {
                        DiscardedSequence::OscEscape
                    } else {
                        DiscardedSequence::OscBody
                    },
                );
            } else if begins_csi_with(buffer, X10) {
                self.discarded_sequence = Some(DiscardedSequence::X10Mouse(6 - len));
            } else if begins_with(buffer, CSI) {
                self.discarded_sequence = Some(DiscardedSequence::Csi);
            } else if begins_with(buffer, SS3) {
                self.discarded_sequence = Some(DiscardedSequence::Ss3);
            }
        }
        self.buffer.clear();
        self.internal_events.clear();
        self.pending_escape_deadline = None;
        if !osc_discarded(self.discarded_sequence) {
            self.pending_osc_deadline = None;
        }
        assert(self@ =~= old(self)@.discard());
        match self.discarded_sequence {
            Some(
                DiscardedSequence::PasteStart(_) | DiscardedSequence::PasteBody(_),
            ) => InputDiscardStatus::BracketedPasteInProgress,
            Some(_) => InputDiscardStatus::ControlSequenceInProgress,
            None => InputDiscardStatus::Complete,
        }
    }
}

/// Whether giving up at a moment turns one state into another and gives this event.
pub open spec fn gave_up_at(
    before: ParserState,
    after: ParserState,
    event: Option<InternalEvent>,
    now: u128,
) -> bool {
    &&& after == before.finish(now).0
    &&& event is Some <==> before.finish(now).1 is Some
    &&& event matches Some(event) ==> Some(event@) == before.finish(now).1
}

/// Giving up waiting keeps a parser in order.
pub(crate) proof fn lemma_finish_keeps_wf(state: ParserState, now: u128)
    requires
        state.wf(),
    ensures
        state.finish(now).0.wf(),
{
    if reached(state.escape_deadline, now) {
        reveal(decode);
        assert(state.buffer.len() == 1 && state.buffer[0] == ESC);
    } else {
        lemma_expire_keeps_wf(state, now);
    }
}

/// Discarding keeps a parser in order.
pub(crate) proof fn lemma_discard_keeps_wf(state: ParserState)
    requires
        state.wf(),
    ensures
        state.discard().wf(),
{
    lemma_marker_overlap_bound(state.buffer, 5);
    if state.discarded is None && state.buffer.len() == 6 && state.buffer.is_prefix_of(
        paste_start(),
    ) {
        assert(paste_start().is_prefix_of(state.buffer));
    }
}

pub(crate) proof fn lemma_marker_overlap_bound(bytes: Seq<u8>, limit: nat)
    ensures
        marker_overlap(bytes, limit) <= limit,
    decreases limit,
{
    if limit != 0 && !ends_with_marker(bytes, limit as int) {
        lemma_marker_overlap_bound(bytes, (limit - 1) as nat);
    }
}

/// Giving up an operating system command keeps a parser in order.
pub(crate) proof fn lemma_expire_keeps_wf(state: ParserState, now: u128)
    requires
        state.wf(),
    ensures
        state.expire_osc(now).wf(),
        state.expire_osc(now).escape_deadline == state.escape_deadline,
{
    if reached(state.osc_deadline, now) {
        assert(state.in_osc());
        if state.escape_deadline is Some {
            assert(state.buffer[0] == ESC && state.buffer.len() == 1);
        }
    }
}

proof fn lemma_decode_byte_keeps_wf(state: ParserState, byte: u8, more: bool)
    requires
        state.discarded is None,
        state.escape_deadline is None,
        opens_csi(state.buffer, X10) ==> state.buffer.len() < 6,
    ensures
        ({
            let next = state.decode_byte(byte, more);
            &&& next.discarded is None
            &&& next.escape_deadline is None
            &&& opens_csi(next.buffer, X10) ==> next.buffer.len() < 6
        }),
{
    let bytes = if state.buffer == seq![ESC] && byte == ESC {
        seq![byte]
    } else {
        state.buffer.push(byte)
    };
    if opens_csi(bytes, X10) && bytes.len() >= 6 {
        lemma_x10_mouse_is_bounded(bytes, more);
    }
}

/// Every byte keeps a parser in order.
pub(crate) proof fn lemma_step_keeps_wf(state: ParserState, byte: u8, more: bool, now: u128)
    requires
        state.wf(),
        state.escape_deadline is None,
    ensures
        state.step(byte, more, now).wf(),
        state.step(byte, more, now).escape_deadline is None,
{
    match state.discarded {
        Some(discarded) => match discard_step(discarded, byte) {
            DiscardStep::Restart { escape } => {
                let next = ParserState {
                    discarded: None,
                    osc_deadline: None,
                    buffer: if escape {
                        seq![ESC]
                    } else {
                        Seq::empty()
                    },
                    ..state
                };
                lemma_decode_byte_keeps_wf(next, byte, more);
            },
            _ => {},
        },
        None => {
            lemma_decode_byte_keeps_wf(state.leave_osc(byte), byte, more);
        },
    }
}

} // verus!
