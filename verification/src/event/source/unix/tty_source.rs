//! A source that waits for the terminal with `poll`: what it does with the answers of the
//! operating system.
//!
//! The source never waits or reads by itself. Each of its methods returns a [`Request`], which
//! says what to ask the operating system for next, and for each request there is a method that
//! takes the answer.
use crate::error::{Error, ErrorKind, ErrorView};
use crate::event::parse::decode;
use crate::event::source::unix::tty::{discard_status, Parser, ParserState};
use crate::event::source::unix::tty_laws::{
    law_reads_can_be_delayed, law_reads_can_be_split, lemma_advance_frames_events, same_input,
};
use crate::event::source::{
    application_events, for_applications, lemma_application_events_split,
    lemma_for_applications_views, move_application_events, EventSource,
};
use crate::event::types::{
    views, Event, EventView, InputDiscardStatus, InternalEvent, InternalEventView, KeyCode,
    KeyEvent, KeyModifiers,
};
use crate::time::{reached, PollTimeout, MAX_NANOS};
use std::collections::VecDeque;
use vstd::prelude::*;

verus! {

/// How many bytes are read from the terminal at once.
pub const TTY_BUFFER_SIZE: usize = 1_024;

/// The descriptors that have something to read.
#[derive(Debug, Clone, Copy, PartialEq, Eq, Structural)]
pub struct Ready {
    /// The terminal.
    pub tty: bool,
    /// The pipe that tells of a new window size.
    pub winch: bool,
    /// The pipe that wakes a waiting reader.
    pub wake: bool,
}

/// What to ask the operating system for.
#[derive(Debug, PartialEq, Eq)]
pub enum Request {
    /// Wait until a descriptor is ready, for at most so long: [`UnixInternalEventSource::polled`].
    Poll(Option<u128>),
    /// Read from the terminal: [`UnixInternalEventSource::tty_read`].
    ReadTty(Ready),
    /// Count what else the terminal holds: [`UnixInternalEventSource::tty_counted`].
    CountAvailable(Ready),
    /// Empty the pipe that tells of a new window size:
    /// [`UnixInternalEventSource::signals_drained`].
    DrainSignals,
    /// Find out the window size: [`UnixInternalEventSource::size_queried`].
    QuerySize,
    /// Empty the pipe that wakes a waiting reader: [`UnixInternalEventSource::wake_drained`].
    DrainWake,
    /// Nothing more: this is the result.
    Return(Result<Option<InternalEvent>, Error>),
}

/// What a [`Request`] says.
pub enum RequestView {
    Poll(Option<u128>),
    ReadTty(Ready),
    CountAvailable(Ready),
    DrainSignals,
    QuerySize,
    DrainWake,
    Event(InternalEventView),
    Nothing,
    Fail(ErrorView),
}

impl View for Request {
    type V = RequestView;

    open spec fn view(&self) -> RequestView {
        match *self {
            Request::Poll(timeout) => RequestView::Poll(timeout),
            Request::ReadTty(ready) => RequestView::ReadTty(ready),
            Request::CountAvailable(ready) => RequestView::CountAvailable(ready),
            Request::DrainSignals => RequestView::DrainSignals,
            Request::QuerySize => RequestView::QuerySize,
            Request::DrainWake => RequestView::DrainWake,
            Request::Return(Ok(Some(event))) => RequestView::Event(event@),
            Request::Return(Ok(None)) => RequestView::Nothing,
            Request::Return(Err(error)) => RequestView::Fail(error@),
        }
    }
}

/// The result with an event, where there is one.
pub open spec fn event_or_nothing(event: Option<InternalEventView>) -> RequestView {
    match event {
        Some(event) => RequestView::Event(event),
        None => RequestView::Nothing,
    }
}

impl ParserState {
    /// The beginning of a round: a buffered event is the result. Otherwise the terminal is waited
    /// for while there is time; a deadline that was reached gets one more look at the terminal.
    pub open spec fn round(self, timeout: PollTimeout, now: u128) -> (ParserState, RequestView) {
        if self.events.len() > 0 {
            (
                ParserState { events: self.events.skip(1), ..self },
                RequestView::Event(self.events[0]),
            )
        } else if timeout.left(now) == Some(0u128) && !self.expired(now) {
            (self, RequestView::Nothing)
        } else {
            (self, RequestView::Poll(self.wait(timeout.left(now), now)))
        }
    }

    /// The end of a round, when the terminal holds nothing more: a deadline that was reached gives
    /// an event, then a new window size does, then a waker ends the wait.
    pub open spec fn settle(self, ready: Ready, timeout: PollTimeout, now: u128) -> (
        ParserState,
        RequestView,
    ) {
        let (next, event) = self.finish(now);
        if event is Some {
            (next, RequestView::Event(event->0))
        } else if ready.winch {
            (next, RequestView::DrainSignals)
        } else if ready.wake {
            (next, RequestView::DrainWake)
        } else {
            next.round(timeout, now)
        }
    }

    /// The answer to waiting.
    pub open spec fn polled(
        self,
        timeout: PollTimeout,
        outcome: Result<Ready, Error>,
        now: u128,
    ) -> (ParserState, RequestView) {
        match outcome {
            Ok(ready) => if ready.tty {
                (self, RequestView::ReadTty(ready))
            } else {
                self.settle(ready, timeout, now)
            },
            Err(error) => if error.kind == ErrorKind::Interrupted {
                self.round(timeout, now)
            } else {
                (self, RequestView::Fail(error@))
            },
        }
    }

    /// The answer to reading from the terminal.
    pub open spec fn tty_read(
        self,
        timeout: PollTimeout,
        ready: Ready,
        outcome: Result<Seq<u8>, ErrorView>,
        now: u128,
    ) -> (ParserState, RequestView) {
        match outcome {
            Ok(bytes) => {
                let next = if bytes.len() > 0 {
                    self.advance_input(bytes, now)
                } else {
                    self
                };
                if next.events.len() > 0 {
                    (
                        ParserState { events: next.events.skip(1), ..next },
                        RequestView::Event(next.events[0]),
                    )
                } else if bytes.len() == 0 {
                    next.settle(ready, timeout, now)
                } else {
                    (next, RequestView::CountAvailable(ready))
                }
            },
            Err(error) => (self, RequestView::Fail(error)),
        }
    }

    /// The answer to counting what else the terminal holds. A terminal that always holds more does
    /// not keep the source beyond its time.
    pub open spec fn tty_counted(
        self,
        timeout: PollTimeout,
        ready: Ready,
        outcome: Result<u64, Error>,
        now: u128,
    ) -> (ParserState, RequestView) {
        match outcome {
            Ok(count) => if count == 0 {
                self.settle(ready, timeout, now)
            } else if timeout.is_elapsed(now) {
                (self.finish(now).0, event_or_nothing(self.finish(now).1))
            } else {
                (self, RequestView::ReadTty(ready))
            },
            Err(error) => (self, RequestView::Fail(error@)),
        }
    }
}

/// The answer to emptying the pipe that wakes a waiting reader: the call ends without an event.
pub open spec fn after_waking(outcome: Result<(), Error>) -> RequestView {
    match outcome {
        Ok(_) => RequestView::Nothing,
        Err(error) => RequestView::Fail(error@),
    }
}

/// What the outcome of reading says.
pub open spec fn read_view(outcome: Result<&[u8], Error>) -> Result<Seq<u8>, ErrorView> {
    match outcome {
        Ok(bytes) => Ok(bytes@),
        Err(error) => Err(error@),
    }
}

/// What to do after an attempt to read from a descriptor.
#[derive(Debug, PartialEq, Eq)]
pub enum ReadComplete {
    /// Try again, behind so many bytes.
    Again(usize),
    /// This is the result: how many bytes were read.
    Done(Result<usize, Error>),
}

/// What follows an attempt to read into the rest of a buffer that holds some bytes.
pub open spec fn after_attempt(
    filled: usize,
    len: usize,
    outcome: Result<usize, Error>,
) -> ReadComplete {
    match outcome {
        Ok(count) => if count == 0 || filled + count == len {
            ReadComplete::Done(Ok((filled + count) as usize))
        } else {
            ReadComplete::Again((filled + count) as usize)
        },
        Err(error) => match error.kind {
            ErrorKind::WouldBlock => ReadComplete::Done(Ok(filled)),
            ErrorKind::Interrupted => ReadComplete::Again(filled),
            _ => ReadComplete::Done(Err(error)),
        },
    }
}

/// Decides what follows an attempt to read from a descriptor that does not block into the rest of
/// a buffer. Reading goes on until the buffer is full or the descriptor would block or is at its
/// end; an interrupted attempt is repeated.
pub fn read_complete(filled: usize, len: usize, outcome: Result<usize, Error>) -> (r: ReadComplete)
    requires
        filled <= len,
        outcome matches Ok(count) ==> count <= len - filled,
    ensures
        r == after_attempt(filled, len, outcome),
{
    match outcome {
        Ok(count) => if count == 0 || count == len - filled {
            ReadComplete::Done(Ok(filled + count))
        } else {
            ReadComplete::Again(filled + count)
        },
        Err(error) => match error.kind {
            ErrorKind::WouldBlock => ReadComplete::Done(Ok(filled)),
            ErrorKind::Interrupted => ReadComplete::Again(filled),
            _ => ReadComplete::Done(Err(error)),
        },
    }
}

/// What attempts to read into a buffer come to, one after the other, where they come to an end.
pub open spec fn read_through(
    filled: usize,
    len: usize,
    outcomes: Seq<Result<usize, Error>>,
) -> Option<Result<usize, Error>>
    decreases outcomes.len(),
{
    if outcomes.len() == 0 {
        None
    } else {
        match after_attempt(filled, len, outcomes[0]) {
            ReadComplete::Again(filled) => read_through(filled, len, outcomes.skip(1)),
            ReadComplete::Done(result) => Some(result),
        }
    }
}

/// How many bytes attempts to read gave.
pub open spec fn bytes_given(outcomes: Seq<Result<usize, Error>>) -> nat
    decreases outcomes.len(),
{
    if outcomes.len() == 0 {
        0
    } else {
        bytes_given(outcomes.skip(1)) + match outcomes[0] {
            Ok(count) => count as nat,
            Err(_) => 0,
        }
    }
}

/// Whether an attempt to read gave bytes or was interrupted.
pub open spec fn goes_on(outcome: Result<usize, Error>) -> bool {
    match outcome {
        Ok(count) => count > 0,
        Err(error) => error.kind == ErrorKind::Interrupted,
    }
}

/// A source that waits for the terminal with `poll`.
#[derive(Debug)]
pub struct UnixInternalEventSource {
    pub parser: Parser,
}

impl UnixInternalEventSource {
    /// A source that has seen nothing.
    pub fn new() -> (r: UnixInternalEventSource)
        ensures
            r.parser@ == ParserState::initial(),
            r.parser.wf(),
    {
        UnixInternalEventSource { parser: Parser::default() }
    }

    /// Begins a round of reading an event; a call begins with one.
    pub fn try_read(&mut self, timeout: &PollTimeout, now: u128) -> (r: Request)
        requires
            old(self).parser.wf(),
        ensures
            (final(self).parser@, r@) == old(self).parser@.round(*timeout, now),
            final(self).parser.wf(),
            final(self).parser.clock == old(self).parser.clock,
    {
        if let Some(event) = self.parser.next() {
            return Request::Return(Ok(Some(event)));
        }
        let left = timeout.leftover(now);
        let over = match left {
            Some(left) => left == 0,
            None => false,
        };
        if over && !self.parser.pending_escape_expired_at(now) {
            Request::Return(Ok(None))
        } else {
            Request::Poll(self.parser.poll_timeout_at(left, now))
        }
    }

    /// Ends a round, when the terminal holds nothing more.
    fn settle(&mut self, ready: Ready, timeout: &PollTimeout, now: u128) -> (r: Request)
        requires
            old(self).parser.wf(),
        ensures
            (final(self).parser@, r@) == old(self).parser@.settle(ready, *timeout, now),
            final(self).parser.wf(),
            final(self).parser.clock == old(self).parser.clock,
    {
        match self.parser.finish_pending_escape_at(now) {
            Some(event) => Request::Return(Ok(Some(event))),
            None => if ready.winch {
                Request::DrainSignals
            } else if ready.wake {
                Request::DrainWake
            } else {
                self.try_read(timeout, now)
            },
        }
    }

    /// Takes the answer to [`Request::Poll`]. An interrupted wait begins anew.
    pub fn polled(
        &mut self,
        timeout: &PollTimeout,
        outcome: Result<Ready, Error>,
        now: u128,
    ) -> (r: Request)
        requires
            old(self).parser.wf(),
        ensures
            (final(self).parser@, r@) == old(self).parser@.polled(*timeout, outcome, now),
            final(self).parser.wf(),
            final(self).parser.clock == old(self).parser.clock,
    {
        match outcome {
            Ok(ready) => if ready.tty {
                Request::ReadTty(ready)
            } else {
                self.settle(ready, timeout, now)
            },
            Err(error) => if error.kind == ErrorKind::Interrupted {
                self.try_read(timeout, now)
            } else {
                Request::Return(Err(error))
            },
        }
    }

    /// Takes the answer to [`Request::ReadTty`], which is no bytes where there were none.
    pub fn tty_read(
        &mut self,
        timeout: &PollTimeout,
        ready: Ready,
        outcome: Result<&[u8], Error>,
        now: u128,
    ) -> (r: Request)
        requires
            old(self).parser.wf(),
            now <= MAX_NANOS,
        ensures
            (final(self).parser@, r@) == old(self).parser@.tty_read(
                *timeout,
                ready,
                read_view(outcome),
                now,
            ),
            final(self).parser.wf(),
            final(self).parser.clock == match outcome {
                Ok(bytes) => if bytes@.len() > 0 {
                    old(self).parser.clock.seen(now)
                } else {
                    old(self).parser.clock
                },
                Err(_) => old(self).parser.clock,
            },
    {
        match outcome {
            Ok(bytes) => {
                if bytes.len() > 0 {
                    self.parser.advance_input_at(bytes, now);
                }
                match self.parser.next() {
                    Some(event) => Request::Return(Ok(Some(event))),
                    None => if bytes.len() == 0 {
                        self.settle(ready, timeout, now)
                    } else {
                        Request::CountAvailable(ready)
                    },
                }
            },
            Err(error) => Request::Return(Err(error)),
        }
    }

    /// Takes the answer to [`Request::CountAvailable`].
    pub fn tty_counted(
        &mut self,
        timeout: &PollTimeout,
        ready: Ready,
        outcome: Result<u64, Error>,
        now: u128,
    ) -> (r: Request)
        requires
            old(self).parser.wf(),
        ensures
            (final(self).parser@, r@) == old(self).parser@.tty_counted(
                *timeout,
                ready,
                outcome,
                now,
            ),
            final(self).parser.wf(),
            final(self).parser.clock == old(self).parser.clock,
    {
        match outcome {
            Ok(count) => if count == 0 {
                self.settle(ready, timeout, now)
            } else if timeout.elapsed(now) {
                Request::Return(Ok(self.parser.finish_pending_escape_at(now)))
            } else {
                Request::ReadTty(ready)
            },
            Err(error) => Request::Return(Err(error)),
        }
    }

    /// Takes the answer to [`Request::DrainSignals`].
    pub fn signals_drained(outcome: Result<(), Error>) -> (r: Request)
        ensures
            r@ == match outcome {
                Ok(_) => RequestView::QuerySize,
                Err(error) => RequestView::Fail(error@),
            },
    {
        match outcome {
            Ok(_) => Request::QuerySize,
            Err(error) => Request::Return(Err(error)),
        }
    }

    /// Takes the answer to [`Request::QuerySize`]: columns and rows.
    pub fn size_queried(outcome: Result<(u16, u16), Error>) -> (r: Request)
        ensures
            r@ == match outcome {
                Ok((columns, rows)) => RequestView::Event(
                    InternalEventView::Event(EventView::Resize(columns, rows)),
                ),
                Err(error) => RequestView::Fail(error@),
            },
    {
        match outcome {
            Ok((columns, rows)) => Request::Return(
                Ok(Some(InternalEvent::Event(Event::Resize(columns, rows)))),
            ),
            Err(error) => Request::Return(Err(error)),
        }
    }

    /// Takes the answer to [`Request::DrainWake`]: a waker ends the call without an event, however
    /// much time is left.
    pub fn wake_drained(outcome: Result<(), Error>) -> (r: Request)
        ensures
            r@ == after_waking(outcome),
    {
        match outcome {
            Ok(_) => Request::Return(Ok(None)),
            Err(error) => Request::Return(Err(error)),
        }
    }
}

/// Whether taking input at a moment turns one parser into another that has handed these events
/// out, the ones for applications among all that it had.
pub open spec fn buffered_at(
    before: ParserState,
    input: Seq<u8>,
    after: ParserState,
    decoded: Seq<InternalEvent>,
    now: u128,
) -> bool {
    let advanced = before.advance_input(input, now);
    &&& now <= MAX_NANOS
    &&& after == (ParserState { events: Seq::empty(), ..advanced })
    &&& views(decoded) == application_events(advanced.events)
}

impl EventSource for UnixInternalEventSource {
    open spec fn in_order(&self) -> bool {
        self.parser.wf()
    }

    open spec fn buffers(
        before: Self,
        input: Seq<u8>,
        after: Self,
        decoded: Seq<InternalEvent>,
    ) -> bool {
        &&& exists|now: u128|
            {
                &&& before.parser.clock.latest <= now
                &&& #[trigger] buffered_at(before.parser@, input, after.parser@, decoded, now)
                &&& after.parser.clock == before.parser.clock.seen(now)
            }
    }

    open spec fn discards(before: Self, after: Self, status: InputDiscardStatus) -> bool {
        &&& after.parser@ == before.parser@.discard()
        &&& status == discard_status(after.parser@.discarded)
        &&& after.parser.clock == before.parser.clock
    }

    fn buffer_input(&mut self, input: &[u8], events: &mut VecDeque<InternalEvent>) {
        let now: u128 = self.parser.clock.now();
        self.parser.advance_input_at(input, now);
        let ghost advanced = self.parser;
        move_application_events(&mut self.parser.internal_events, events);
        proof {
            let decoded = for_applications(advanced.internal_events@);
            lemma_for_applications_views(advanced.internal_events@);
            assert(self.parser@ =~= (ParserState { events: Seq::empty(), ..advanced@ }));
            assert(buffered_at(old(self).parser@, input@, self.parser@, decoded, now));
            assert(Self::buffers(*old(self), input@, *self, decoded));
        }
    }

    fn discard_buffered_input(&mut self) -> (r: InputDiscardStatus) {
        self.parser.discard_buffered_input()
    }
}

/// A deadline that was reached does not end a call before the terminal was looked at once more,
/// without waiting: a continuation that is there already is read first.
pub proof fn law_continuation_is_read_first(
    state: ParserState,
    timeout: PollTimeout,
    ready: Ready,
    now: u128,
)
    requires
        state.expired(now),
        state.events.len() == 0,
    ensures
        state.round(timeout, now) == (state, RequestView::Poll(Some(0u128))),
        ready.tty ==> state.polled(timeout, Ok(ready), now) == (
            state,
            RequestView::ReadTty(ready),
        ),
{
}

/// A call whose time is over ends: it does not wait again, and a terminal that always holds more
/// does not keep it.
pub proof fn law_call_ends_in_time(
    state: ParserState,
    timeout: PollTimeout,
    ready: Ready,
    count: u64,
    now: u128,
)
    requires
        timeout.is_elapsed(now),
    ensures
        state.expired(now) || !(state.round(timeout, now).1 is Poll),
        count > 0 ==> {
            let request = state.tty_counted(timeout, ready, Ok(count), now).1;
            request is Event || request is Nothing
        },
{
}

/// Every wait ends when the time of the call does, at the latest.
pub proof fn law_wait_is_within_the_call(state: ParserState, timeout: PollTimeout, now: u128)
    ensures
        state.round(timeout, now).1 is Poll && timeout.left(now) is Some ==> {
            let wait = state.round(timeout, now).1->Poll_0;
            wait is Some && wait->0 <= timeout.left(now)->0
        },
{
}

/// But for a waker, a call returns without an event only when its time is over and none is
/// buffered; one without a limit waits until there is an event or a failure.
pub proof fn law_nothing_is_returned_early(
    state: ParserState,
    timeout: PollTimeout,
    ready: Ready,
    polled: Result<Ready, Error>,
    read: Result<Seq<u8>, ErrorView>,
    counted: Result<u64, Error>,
    now: u128,
)
    ensures
        state.round(timeout, now).1 is Nothing ==> timeout.is_elapsed(now) && state.events.len()
            == 0,
        state.polled(timeout, polled, now).1 is Nothing ==> timeout.is_elapsed(now),
        state.tty_read(timeout, ready, read, now).1 is Nothing ==> timeout.is_elapsed(now),
        state.tty_counted(timeout, ready, counted, now).1 is Nothing ==> timeout.is_elapsed(now),
{
}

/// A waker ends a call without an event, however much time is left, where nothing else is to be
/// returned: no deadline was reached, and neither the terminal nor the window size has news.
pub proof fn law_waker_ends_a_call(
    state: ParserState,
    timeout: PollTimeout,
    ready: Ready,
    now: u128,
)
    requires
        ready.wake,
        !ready.tty,
        !ready.winch,
        !state.expired(now),
    ensures
        state.polled(timeout, Ok(ready), now) == (state, RequestView::DrainWake),
        after_waking(Ok(())) is Nothing,
{
}

/// A buffered event is returned at once, in order, even if no time is left.
pub proof fn law_buffered_event_is_returned(state: ParserState, timeout: PollTimeout, now: u128)
    requires
        state.events.len() > 0,
    ensures
        state.round(timeout, now) == (
            ParserState { events: state.events.skip(1), ..state },
            RequestView::Event(state.events[0]),
        ),
{
}

/// However a descriptor splits what it has, all of it is read up to where it would block.
pub proof fn law_reading_goes_on_until_it_would_block(
    filled: usize,
    len: usize,
    outcomes: Seq<Result<usize, Error>>,
    blocked: Error,
)
    requires
        forall|i: int| 0 <= i < outcomes.len() ==> #[trigger] goes_on(outcomes[i]),
        blocked.kind == ErrorKind::WouldBlock,
        filled + bytes_given(outcomes) <= len,
    ensures
        read_through(filled, len, outcomes.push(Err(blocked))) == Some(
            Ok::<usize, Error>((filled + bytes_given(outcomes)) as usize),
        ),
    decreases outcomes.len(),
{
    let all = outcomes.push(Err(blocked));
    if outcomes.len() > 0 {
        let rest = outcomes.skip(1);
        assert(all.skip(1) =~= rest.push(Err(blocked)));
        assert(goes_on(outcomes[0]));
        assert forall|i: int| 0 <= i < rest.len() implies #[trigger] goes_on(rest[i]) by {
            assert(goes_on(outcomes[i + 1]));
        }
        match after_attempt(filled, len, outcomes[0]) {
            ReadComplete::Again(filled) => {
                law_reading_goes_on_until_it_would_block(filled, len, rest, blocked);
            },
            ReadComplete::Done(_) => {
                assert(bytes_given(rest) == 0);
            },
        }
    }
}

/// Reading ends as soon as the buffer is full: no byte beyond is taken.
pub proof fn law_reading_ends_with_the_buffer(
    filled: usize,
    len: usize,
    outcomes: Seq<Result<usize, Error>>,
    later: Seq<Result<usize, Error>>,
)
    requires
        forall|i: int| 0 <= i < outcomes.len() ==> #[trigger] goes_on(outcomes[i]),
        filled < len,
        filled + bytes_given(outcomes) == len,
    ensures
        read_through(filled, len, outcomes + later) == Some(Ok::<usize, Error>(len)),
    decreases outcomes.len(),
{
    let all = outcomes + later;
    let rest = outcomes.skip(1);
    assert(all.skip(1) =~= rest + later);
    assert(goes_on(outcomes[0]));
    assert forall|i: int| 0 <= i < rest.len() implies #[trigger] goes_on(rest[i]) by {
        assert(goes_on(outcomes[i + 1]));
    }
    if let ReadComplete::Again(filled) = after_attempt(filled, len, outcomes[0]) {
        law_reading_ends_with_the_buffer(filled, len, rest, later);
    }
}

/// Taking input from elsewhere in two parts hands out what taking it at once does, in the same
/// order, unless an operating system command was given up in between; what remains in the parser
/// is the same but for deadlines, and at one moment it is the same altogether.
pub proof fn law_input_from_elsewhere_can_be_split(
    before: ParserState,
    a: Seq<u8>,
    between: ParserState,
    first: Seq<InternalEvent>,
    at: u128,
    b: Seq<u8>,
    after: ParserState,
    second: Seq<InternalEvent>,
    later: u128,
    whole: ParserState,
    decoded: Seq<InternalEvent>,
)
    requires
        before.wf(),
        buffered_at(before, a, between, first, at),
        buffered_at(between, b, after, second, later),
        buffered_at(before, a + b, whole, decoded, at),
        !reached(between.osc_deadline, later),
    ensures
        views(first + second) == views(decoded),
        same_input(after, whole),
        at == later ==> after == whole,
{
    let halfway = before.advance_input(a, at);
    law_reads_can_be_delayed(before, a, b, true, at, later);
    law_reads_can_be_split(before, a, b, true, at);
    lemma_advance_frames_events(halfway, b, later);
    lemma_application_events_split(halfway.events, between.advance_input(b, later).events);
    assert(views(first + second) =~= views(first) + views(second));
}

/// What is read from the terminal is decoded: the first event is the result and the others stay;
/// without one, the terminal is asked for more.
pub proof fn law_read_bytes_are_decoded(
    state: ParserState,
    timeout: PollTimeout,
    ready: Ready,
    bytes: Seq<u8>,
    now: u128,
)
    requires
        bytes.len() > 0,
    ensures
        ({
            let decoded = state.advance_input(bytes, now);
            let (next, request) = state.tty_read(timeout, ready, Ok(bytes), now);
            &&& decoded.events.len() > 0 ==> request == RequestView::Event(decoded.events[0])
                && next == (ParserState { events: decoded.events.skip(1), ..decoded })
            &&& decoded.events.len() == 0 ==> request == RequestView::CountAvailable(ready) && next
                == decoded
        }),
{
}

/// Where the terminal holds nothing more, whether it said so at once, with an empty read or by its
/// count, what is ready besides it comes next: a new window size, then a waker, and otherwise
/// another wait while there is time.
pub proof fn law_news_come_in_order(
    state: ParserState,
    timeout: PollTimeout,
    ready: Ready,
    now: u128,
)
    requires
        state.events.len() == 0,
        !state.expired(now),
    ensures
        ({
            let quiet = state.polled(timeout, Ok(Ready { tty: false, ..ready }), now);
            &&& state.tty_read(timeout, ready, Ok(Seq::empty()), now) == quiet
            &&& state.tty_counted(timeout, ready, Ok(0), now) == quiet
            &&& quiet.0 == state
            &&& quiet.1 == if ready.winch {
                RequestView::DrainSignals
            } else if ready.wake {
                RequestView::DrainWake
            } else if timeout.is_elapsed(now) {
                RequestView::Nothing
            } else {
                RequestView::Poll(state.wait(timeout.left(now), now))
            }
        }),
        ready.tty ==> state.polled(timeout, Ok(ready), now) == (
            state,
            RequestView::ReadTty(ready),
        ),
{
}

/// An escape whose deadline was reached is returned as the escape key once the terminal holds
/// nothing more, before any other news.
pub proof fn law_reached_deadline_gives_the_key(
    state: ParserState,
    timeout: PollTimeout,
    ready: Ready,
    now: u128,
)
    requires
        state.wf(),
        reached(state.escape_deadline, now),
        !ready.tty,
    ensures
        state.polled(timeout, Ok(ready), now) == (
            ParserState { buffer: Seq::empty(), escape_deadline: None, ..state },
            RequestView::Event(
                InternalEventView::Event(
                    EventView::Key(KeyEvent::new(KeyCode::Esc, KeyModifiers::spec_none())),
                ),
            ),
        ),
{
    reveal(decode);
    assert(state.buffer == seq![0x1bu8]);
}

/// A failure ends a call and changes nothing, but for an interrupted wait, which begins anew; a
/// terminal that holds more is read on while there is time.
pub proof fn law_failures_end_a_call(
    state: ParserState,
    timeout: PollTimeout,
    ready: Ready,
    error: Error,
    count: u64,
    now: u128,
)
    ensures
        error.kind != ErrorKind::Interrupted ==> state.polled(timeout, Err(error), now) == (
            state,
            RequestView::Fail(error@),
        ),
        error.kind == ErrorKind::Interrupted ==> state.polled(timeout, Err(error), now)
            == state.round(timeout, now),
        state.tty_read(timeout, ready, Err(error@), now) == (state, RequestView::Fail(error@)),
        state.tty_counted(timeout, ready, Err(error), now) == (state, RequestView::Fail(error@)),
        count > 0 && !timeout.is_elapsed(now) ==> state.tty_counted(timeout, ready, Ok(count), now)
            == (state, RequestView::ReadTty(ready)),
{
}

/// Input from elsewhere hands out all that applications see of what it decodes to, behind what was
/// decoded before, and leaves no events behind.
pub proof fn law_input_from_elsewhere_is_handed_out(
    before: ParserState,
    input: Seq<u8>,
    after: ParserState,
    decoded: Seq<InternalEvent>,
    now: u128,
)
    requires
        buffered_at(before, input, after, decoded, now),
    ensures
        views(decoded) == application_events(before.advance_input(input, now).events),
        after == (ParserState { events: Seq::empty(), ..before.advance_input(input, now) }),
{
}

/// A failure other than an interruption or a descriptor that would block ends reading with that
/// failure, and the end of a descriptor ends it with what was read.
pub proof fn law_reading_ends(
    filled: usize,
    len: usize,
    error: Error,
    later: Seq<Result<usize, Error>>,
)
    requires
        filled <= len,
    ensures
        error.kind != ErrorKind::WouldBlock && error.kind != ErrorKind::Interrupted
            ==> read_through(filled, len, seq![Err::<usize, Error>(error)] + later) == Some(
            Err::<usize, Error>(error),
        ),
        read_through(filled, len, seq![Ok::<usize, Error>(0)] + later) == Some(
            Ok::<usize, Error>(filled),
        ),
{
}

/// Where the terminal holds nothing more, giving up what has waited too long comes first: the event
/// that this gives is the result, and without one the call goes on as if nothing had waited.
pub proof fn law_giving_up_comes_first(
    state: ParserState,
    timeout: PollTimeout,
    ready: Ready,
    now: u128,
)
    requires
        state.wf(),
        !ready.tty,
        state.events.len() == 0,
    ensures
        ({
            let (next, event) = state.finish(now);
            let answer = state.polled(timeout, Ok(ready), now);
            &&& event matches Some(event) ==> answer == (next, RequestView::Event(event))
            &&& event is None ==> answer == next.polled(timeout, Ok(ready), now)
            &&& !next.expired(now)
        }),
{
    reveal(decode);
    if reached(state.escape_deadline, now) {
        assert(state.buffer[0] == 0x1b && state.buffer.len() == 1);
    }
}

} // verus!
