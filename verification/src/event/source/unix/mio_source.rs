//! A source that waits for the terminal with an event queue: what it does with the answers of the
//! operating system.
//!
//! The source never waits or reads by itself. Each of its methods returns a [`Request`], which
//! says what to ask the operating system for next, and for each request there is a method that
//! takes the answer.
use crate::error::{Error, ErrorKind, ErrorView};
use crate::event::parse::decode;
use crate::event::source::unix::mio::{Parser, ParserState};
use crate::event::source::unix::mio_laws::{law_reads_can_be_split, lemma_buffer_frames_events};
use crate::event::source::unix::tty_source::{read_view, TTY_BUFFER_SIZE};
use crate::event::source::{
    application_events, for_applications, lemma_application_events_split,
    lemma_for_applications_views, move_application_events, EventSource,
};
use crate::event::types::{
    views, Event, EventView, InputDiscardStatus, InternalEvent, InternalEventView, KeyCode,
    KeyEvent, KeyModifiers,
};
use crate::time::{reached, PollTimeout, MAX_NANOS};
use std::collections::VecDeque;
use vstd::prelude::*;

verus! {

/// What an event of the queue is about.
#[derive(Debug, Clone, Copy, PartialEq, Eq, Structural)]
pub enum Token {
    /// The terminal.
    Tty,
    /// A signal.
    Signal,
    /// The waker.
    Wake,
}

/// What to ask the operating system for.
#[derive(Debug, PartialEq, Eq)]
pub enum Request {
    /// Wait for events, for at most so long: [`UnixInternalEventSource::polled`].
    Poll(Option<u128>),
    /// Read from the terminal: [`UnixInternalEventSource::tty_read`].
    ReadTty,
    /// Take a signal: [`UnixInternalEventSource::signal_taken`].
    TakeSignal,
    /// Find out the window size: [`UnixInternalEventSource::size_queried`].
    QuerySize,
    /// Nothing more: this is the result.
    Return(Result<Option<InternalEvent>, Error>),
}

/// What a [`Request`] says.
pub enum RequestView {
    Poll(Option<u128>),
    ReadTty,
    TakeSignal,
    QuerySize,
    Event(InternalEventView),
    Nothing,
    Fail(ErrorView),
}

impl View for Request {
    type V = RequestView;

    open spec fn view(&self) -> RequestView {
        match *self {
            Request::Poll(timeout) => RequestView::Poll(timeout),
            Request::ReadTty => RequestView::ReadTty,
            Request::TakeSignal => RequestView::TakeSignal,
            Request::QuerySize => RequestView::QuerySize,
            Request::Return(Ok(Some(event))) => RequestView::Event(event@),
            Request::Return(Ok(None)) => RequestView::Nothing,
            Request::Return(Err(error)) => RequestView::Fail(error@),
        }
    }
}

/// The result with an event, where there is one.
pub open spec fn event_or_nothing(event: Option<InternalEventView>) -> RequestView {
    match event {
        Some(event) => RequestView::Event(event),
        None => RequestView::Nothing,
    }
}

/// What a [`UnixInternalEventSource`] holds.
#[verifier::ext_equal]
pub struct SourceState {
    pub parser: ParserState,
    /// The events of the queue that have not been looked at.
    pub tokens: Seq<Token>,
}

impl SourceState {
    /// Takes the oldest event, where there is one, and asks for something else otherwise.
    pub open spec fn event_or(self, otherwise: (SourceState, RequestView)) -> (
        SourceState,
        RequestView,
    ) {
        if self.parser.events.len() > 0 {
            (
                SourceState {
                    parser: ParserState { events: self.parser.events.skip(1), ..self.parser },
                    ..self
                },
                RequestView::Event(self.parser.events[0]),
            )
        } else {
            otherwise
        }
    }

    /// Ends the call, with an event where the deadline was reached.
    pub open spec fn give_up(self, now: u128) -> (SourceState, RequestView) {
        (
            SourceState { parser: self.parser.finish(now).0, ..self },
            event_or_nothing(self.parser.finish(now).1),
        )
    }

    /// The end of a wait that brought nothing to look at: a deadline that was reached gives an
    /// event; otherwise the wait begins anew while there is time.
    pub open spec fn waited(self, timeout: PollTimeout, now: u128) -> (SourceState, RequestView) {
        let (next, request) = self.give_up(now);
        if request is Event || timeout.is_elapsed(now) {
            (next, request)
        } else {
            next.round(timeout, now)
        }
    }

    /// Waits for the terminal.
    pub open spec fn round(self, timeout: PollTimeout, now: u128) -> (SourceState, RequestView) {
        (self, RequestView::Poll(self.parser.wait(timeout.left(now), now)))
    }

    /// The beginning of a call: a buffered event is the result, otherwise the terminal is waited
    /// for, even if no time is left.
    pub open spec fn begin(self, timeout: PollTimeout, now: u128) -> (SourceState, RequestView) {
        self.event_or(self.round(timeout, now))
    }

    /// Looks at the next event of the queue. After the last one the call ends if its time is over.
    pub open spec fn next_token(self, timeout: PollTimeout, now: u128) -> (
        SourceState,
        RequestView,
    ) {
        if self.tokens.len() == 0 {
            if timeout.is_elapsed(now) {
                self.give_up(now)
            } else {
                self.round(timeout, now)
            }
        } else {
            (
                SourceState { tokens: self.tokens.skip(1), ..self },
                match self.tokens[0] {
                    Token::Tty => RequestView::ReadTty,
                    Token::Signal => RequestView::TakeSignal,
                    Token::Wake => RequestView::Nothing,
                },
            )
        }
    }

    /// The answer to waiting.
    pub open spec fn polled(
        self,
        timeout: PollTimeout,
        outcome: Result<Seq<Token>, Error>,
        now: u128,
    ) -> (SourceState, RequestView) {
        match outcome {
            Ok(tokens) => if tokens.len() == 0 {
                (SourceState { tokens, ..self }).waited(timeout, now)
            } else {
                (SourceState { tokens, ..self }).next_token(timeout, now)
            },
            Err(error) => if error.kind == ErrorKind::Interrupted {
                self.round(timeout, now)
            } else {
                (self, RequestView::Fail(error@))
            },
        }
    }

    /// The answer to reading from the terminal, which is read until nothing is left or an event is
    /// complete.
    pub open spec fn tty_read(
        self,
        timeout: PollTimeout,
        outcome: Result<Seq<u8>, ErrorView>,
        now: u128,
    ) -> (SourceState, RequestView) {
        match outcome {
            Ok(bytes) => {
                let next = SourceState {
                    parser: if bytes.len() > 0 {
                        self.parser.advance(bytes, bytes.len() == TTY_BUFFER_SIZE)
                    } else {
                        self.parser
                    },
                    ..self
                };
                next.event_or((next, RequestView::ReadTty))
            },
            Err(error) => match error.kind {
                ErrorKind::WouldBlock => self.next_token(timeout, now),
                ErrorKind::Interrupted => (self, RequestView::ReadTty),
                _ => self.event_or((self, RequestView::ReadTty)),
            },
        }
    }

    /// The answer to taking a signal: whether it tells of a new window size.
    pub open spec fn signal_taken(self, timeout: PollTimeout, winch: bool, now: u128) -> (
        SourceState,
        RequestView,
    ) {
        if winch {
            (self, RequestView::QuerySize)
        } else {
            self.next_token(timeout, now)
        }
    }
}

/// What the outcome of waiting says.
pub open spec fn polled_view(outcome: Result<VecDeque<Token>, Error>) -> Result<
    Seq<Token>,
    Error,
> {
    match outcome {
        Ok(tokens) => Ok(tokens@),
        Err(error) => Err(error),
    }
}

/// A source that waits for the terminal with an event queue.
#[derive(Debug)]
pub struct UnixInternalEventSource {
    pub parser: Parser,
    /// The events of the queue that have not been looked at.
    pub tokens: VecDeque<Token>,
}

impl View for UnixInternalEventSource {
    type V = SourceState;

    open spec fn view(&self) -> SourceState {
        SourceState { parser: self.parser@, tokens: self.tokens@ }
    }
}

impl UnixInternalEventSource {
    /// A source that has seen nothing.
    pub fn new() -> (r: UnixInternalEventSource)
        ensures
            r@ == (SourceState { parser: ParserState::initial(), tokens: Seq::empty() }),
            r.parser.wf(),
    {
        let r = UnixInternalEventSource { parser: Parser::default(), tokens: VecDeque::new() };
        assert(r@ =~= (SourceState { parser: ParserState::initial(), tokens: Seq::empty() }));
        r
    }

    fn round(&self, timeout: &PollTimeout, now: u128) -> (r: Request)
        ensures
            (self@, r@) == self@.round(*timeout, now),
    {
        Request::Poll(self.parser.poll_timeout_at(timeout.leftover(now), now))
    }

    /// Begins reading an event.
    pub fn try_read(&mut self, timeout: &PollTimeout, now: u128) -> (r: Request)
        requires
            old(self).parser.wf(),
        ensures
            (final(self)@, r@) == old(self)@.begin(*timeout, now),
            final(self).parser.wf(),
            final(self).parser.clock == old(self).parser.clock,
    {
        match self.parser.next() {
            Some(event) => Request::Return(Ok(Some(event))),
            None => self.round(timeout, now),
        }
    }

    /// Looks at the next event of the queue.
    fn next_token(&mut self, timeout: &PollTimeout, now: u128) -> (r: Request)
        requires
            old(self).parser.wf(),
        ensures
            (final(self)@, r@) == old(self)@.next_token(*timeout, now),
            final(self).parser.wf(),
            final(self).parser.clock == old(self).parser.clock,
    {
        match self.tokens.pop_front() {
            Some(token) => {
                assert(self@.tokens =~= old(self)@.tokens.skip(1));
                match token {
                    Token::Tty => Request::ReadTty,
                    Token::Signal => Request::TakeSignal,
                    Token::Wake => Request::Return(Ok(None)),
                }
            },
            None => if timeout.elapsed(now) {
                Request::Return(Ok(self.parser.finish_pending_escape_at(now)))
            } else {
                self.round(timeout, now)
            },
        }
    }

    /// Takes the answer to [`Request::Poll`]. An interrupted wait begins anew.
    pub fn polled(
        &mut self,
        timeout: &PollTimeout,
        outcome: Result<VecDeque<Token>, Error>,
        now: u128,
    ) -> (r: Request)
        requires
            old(self).parser.wf(),
        ensures
            (final(self)@, r@) == old(self)@.polled(*timeout, polled_view(outcome), now),
            final(self).parser.wf(),
            final(self).parser.clock == old(self).parser.clock,
    {
        match outcome {
            Ok(tokens) => {
                self.tokens = tokens;
                if self.tokens.len() == 0 {
                    let event = self.parser.finish_pending_escape_at(now);
                    if event.is_some() || timeout.elapsed(now) {
                        Request::Return(Ok(event))
                    } else {
                        self.round(timeout, now)
                    }
                } else {
                    self.next_token(timeout, now)
                }
            },
            Err(error) => if error.kind == ErrorKind::Interrupted {
                self.round(timeout, now)
            } else {
                Request::Return(Err(error))
            },
        }
    }

    /// Takes the answer to [`Request::ReadTty`]. Where nothing is left to read, the next event of
    /// the queue follows; a failure of another kind is passed over.
    pub fn tty_read(
        &mut self,
        timeout: &PollTimeout,
        outcome: Result<&[u8], Error>,
        now: u128,
    ) -> (r: Request)
        requires
            old(self).parser.wf(),
        ensures
            (final(self)@, r@) == old(self)@.tty_read(*timeout, read_view(outcome), now),
            final(self).parser.wf(),
            final(self).parser.clock == old(self).parser.clock,
    {
        match outcome {
            Ok(bytes) => {
                if bytes.len() > 0 {
                    self.parser.advance(bytes, bytes.len() == TTY_BUFFER_SIZE);
                }
            },
            Err(error) => match error.kind {
                ErrorKind::WouldBlock => return self.next_token(timeout, now),
                ErrorKind::Interrupted => return Request::ReadTty,
                _ => {},
            },
        }
        match self.parser.next() {
            Some(event) => Request::Return(Ok(Some(event))),
            None => Request::ReadTty,
        }
    }

    /// Takes the answer to [`Request::TakeSignal`]: whether it tells of a new window size.
    pub fn signal_taken(&mut self, timeout: &PollTimeout, winch: bool, now: u128) -> (r: Request)
        requires
            old(self).parser.wf(),
        ensures
            (final(self)@, r@) == old(self)@.signal_taken(*timeout, winch, now),
            final(self).parser.wf(),
            final(self).parser.clock == old(self).parser.clock,
    {
        if winch {
            Request::QuerySize
        } else {
            self.next_token(timeout, now)
        }
    }

    /// Takes the answer to [`Request::QuerySize`]: columns and rows.
    pub fn size_queried(outcome: Result<(u16, u16), Error>) -> (r: Request)
        ensures
            r@ == match outcome {
                Ok((columns, rows)) => RequestView::Event(
                    InternalEventView::Event(EventView::Resize(columns, rows)),
                ),
                Err(error) => RequestView::Fail(error@),
            },
    {
        match outcome {
            Ok((columns, rows)) => Request::Return(
                Ok(Some(InternalEvent::Event(Event::Resize(columns, rows)))),
            ),
            Err(error) => Request::Return(Err(error)),
        }
    }
}

/// Whether taking input at a moment turns one parser into another that has handed these events
/// out, the ones for applications among all that it had.
pub open spec fn buffered_at(
    before: ParserState,
    input: Seq<u8>,
    after: ParserState,
    decoded: Seq<InternalEvent>,
    now: u128,
) -> bool {
    let advanced = before.buffer_external(input, now);
    &&& now <= MAX_NANOS
    &&& after == (ParserState { events: Seq::empty(), ..advanced })
    &&& views(decoded) == application_events(advanced.events)
}

impl EventSource for UnixInternalEventSource {
    open spec fn in_order(&self) -> bool {
        self.parser.wf()
    }

    open spec fn buffers(
        before: Self,
        input: Seq<u8>,
        after: Self,
        decoded: Seq<InternalEvent>,
    ) -> bool {
        &&& exists|now: u128|
            {
                &&& before.parser.clock.latest <= now
                &&& #[trigger] buffered_at(before.parser@, input, after.parser@, decoded, now)
                &&& after.parser.clock == before.parser.clock.seen(now)
            }
        &&& after.tokens@ == before.tokens@
    }

    open spec fn discards(before: Self, after: Self, status: InputDiscardStatus) -> bool {
        &&& exists|now: u128|
            {
                &&& before.parser.clock.latest <= now <= MAX_NANOS
                &&& after.parser@ == #[trigger] before.parser@.discard(now)
                &&& after.parser.clock == before.parser.clock.seen(now)
            }
        &&& status == after.parser@.discard_status()
        &&& after.tokens@ == before.tokens@
    }

    fn buffer_input(&mut self, input: &[u8], events: &mut VecDeque<InternalEvent>) {
        let now: u128 = self.parser.clock.now();
        self.parser.buffer_external_input_at(input, now);
        let ghost advanced = self.parser;
        move_application_events(&mut self.parser.internal_events, events);
        proof {
            let decoded = for_applications(advanced.internal_events@);
            lemma_for_applications_views(advanced.internal_events@);
            assert(self.parser@ =~= (ParserState { events: Seq::empty(), ..advanced@ }));
            assert(buffered_at(old(self).parser@, input@, self.parser@, decoded, now));
            assert(Self::buffers(*old(self), input@, *self, decoded));
        }
    }

    fn discard_buffered_input(&mut self) -> (r: InputDiscardStatus) {
        self.parser.discard_buffered_input()
    }
}

/// A deadline that was reached does not end a call before the terminal was looked at once more,
/// without waiting: a continuation that is there already is read first.
pub proof fn law_continuation_is_read_first(
    state: SourceState,
    timeout: PollTimeout,
    tokens: Seq<Token>,
    now: u128,
)
    requires
        reached(state.parser.escape_deadline, now),
        state.parser.events.len() == 0,
    ensures
        state.begin(timeout, now) == (state, RequestView::Poll(Some(0u128))),
        tokens.len() > 0 && tokens[0] is Tty ==> state.polled(timeout, Ok(tokens), now) == (
            SourceState { tokens: tokens.skip(1), ..state },
            RequestView::ReadTty,
        ),
{
}

/// A call whose time is over does not wait again once it has waited.
pub proof fn law_call_ends_in_time(
    state: SourceState,
    timeout: PollTimeout,
    tokens: Seq<Token>,
    now: u128,
)
    requires
        timeout.is_elapsed(now),
    ensures
        !(state.next_token(timeout, now).1 is Poll),
        !(state.polled(timeout, Ok(tokens), now).1 is Poll),
{
}

/// Every wait ends when the time of the call does, at the latest.
pub proof fn law_wait_is_within_the_call(state: SourceState, timeout: PollTimeout, now: u128)
    ensures
        state.round(timeout, now).1 is Poll && timeout.left(now) is Some ==> {
            let wait = state.round(timeout, now).1->Poll_0;
            wait is Some && wait->0 <= timeout.left(now)->0
        },
{
}

/// But for a waker, a call returns without an event only when its time is over; one without a limit
/// waits until there is an event or a failure.
pub proof fn law_nothing_is_returned_early(
    state: SourceState,
    timeout: PollTimeout,
    tokens: Seq<Token>,
    read: Result<Seq<u8>, ErrorView>,
    winch: bool,
    now: u128,
)
    requires
        !timeout.is_elapsed(now),
    ensures
        !(state.begin(timeout, now).1 is Nothing),
        state.polled(timeout, Ok(tokens), now).1 is Nothing ==> tokens.len() > 0 && tokens[0]
            is Wake,
        state.tty_read(timeout, read, now).1 is Nothing ==> state.tokens.len() > 0
            && state.tokens[0] is Wake,
        state.signal_taken(timeout, winch, now).1 is Nothing ==> state.tokens.len() > 0
            && state.tokens[0] is Wake,
{
}

/// A waker ends a call without an event, however much time is left.
pub proof fn law_waker_ends_a_call(
    state: SourceState,
    timeout: PollTimeout,
    tokens: Seq<Token>,
    now: u128,
)
    requires
        tokens.len() > 0,
        tokens[0] is Wake,
    ensures
        state.polled(timeout, Ok(tokens), now).1 is Nothing,
        (SourceState { tokens, ..state }).next_token(timeout, now).1 is Nothing,
{
}

/// Taking input from elsewhere in two parts hands out what taking it at once does, in the same
/// order, and leaves the parser as that does.
pub proof fn law_input_from_elsewhere_can_be_split(
    before: ParserState,
    a: Seq<u8>,
    between: ParserState,
    first: Seq<InternalEvent>,
    at: u128,
    b: Seq<u8>,
    after: ParserState,
    second: Seq<InternalEvent>,
    later: u128,
    whole: ParserState,
    decoded: Seq<InternalEvent>,
)
    requires
        buffered_at(before, a, between, first, at),
        buffered_at(between, b, after, second, later),
        buffered_at(before, a + b, whole, decoded, later),
    ensures
        views(first + second) == views(decoded),
        after == whole,
{
    let halfway = before.buffer_external(a, at);
    law_reads_can_be_split(before, a, b, true, at, later);
    lemma_buffer_frames_events(halfway, b, later);
    lemma_application_events_split(halfway.events, between.buffer_external(b, later).events);
    assert(views(first + second) =~= views(first) + views(second));
}

/// What is read from the terminal is decoded: the first event is the result and the others stay;
/// without one, the terminal is read on. A read that fills the buffer leaves more to come.
pub proof fn law_read_bytes_are_decoded(
    state: SourceState,
    timeout: PollTimeout,
    bytes: Seq<u8>,
    now: u128,
)
    requires
        bytes.len() > 0,
    ensures
        ({
            let decoded = state.parser.advance(bytes, bytes.len() == 1024);
            let (next, request) = state.tty_read(timeout, Ok(bytes), now);
            &&& next.tokens == state.tokens
            &&& decoded.events.len() > 0 ==> request == RequestView::Event(decoded.events[0])
                && next.parser == (ParserState { events: decoded.events.skip(1), ..decoded })
            &&& decoded.events.len() == 0 ==> request == RequestView::ReadTty && next.parser
                == decoded
        }),
{
}

/// The events of the queue are looked at in order, each once, and the terminal is read until it
/// would block.
pub proof fn law_tokens_are_looked_at_in_order(
    state: SourceState,
    timeout: PollTimeout,
    token: Token,
    others: Seq<Token>,
    blocked: ErrorView,
    now: u128,
)
    requires
        state.tokens == seq![token] + others,
        blocked.kind == ErrorKind::WouldBlock,
    ensures
        ({
            let next = state.polled(timeout, Ok(state.tokens), now);
            &&& next.0 == (SourceState { tokens: others, ..state })
            &&& next.1 == match token {
                Token::Tty => RequestView::ReadTty,
                Token::Signal => RequestView::TakeSignal,
                Token::Wake => RequestView::Nothing,
            }
            &&& state.tty_read(timeout, Err(blocked), now) == next
            &&& state.signal_taken(timeout, false, now) == next
            &&& state.signal_taken(timeout, true, now) == (state, RequestView::QuerySize)
        }),
{
    assert(state.tokens.skip(1) =~= others);
}

/// Behind the last event of the queue the call ends if its time is over, and waits again otherwise.
pub proof fn law_call_waits_behind_the_last_token(
    state: SourceState,
    timeout: PollTimeout,
    now: u128,
)
    requires
        state.tokens.len() == 0,
        !reached(state.parser.escape_deadline, now),
    ensures
        state.signal_taken(timeout, false, now) == (
            state,
            if timeout.is_elapsed(now) {
                RequestView::Nothing
            } else {
                RequestView::Poll(state.parser.wait(timeout.left(now), now))
            },
        ),
        state.polled(timeout, Ok(Seq::empty()), now) == state.signal_taken(timeout, false, now),
{
    assert(state =~= (SourceState { tokens: Seq::empty(), ..state }));
}

/// An escape whose deadline was reached is the escape key when a wait brought nothing.
pub proof fn law_reached_deadline_gives_the_key(
    state: SourceState,
    timeout: PollTimeout,
    now: u128,
)
    requires
        state.parser.wf(),
        reached(state.parser.escape_deadline, now),
    ensures
        state.polled(timeout, Ok(Seq::empty()), now) == (
            SourceState {
                parser: ParserState {
                    buffer: Seq::empty(),
                    escape_deadline: None,
                    ..state.parser
                },
                tokens: Seq::empty(),
            },
            RequestView::Event(
                InternalEventView::Event(
                    EventView::Key(KeyEvent::new(KeyCode::Esc, KeyModifiers::spec_none())),
                ),
            ),
        ),
{
    reveal(decode);
    assert(state.parser.buffer == seq![0x1bu8]);
}

/// A buffered event is returned at once, in order, even if no time is left.
pub proof fn law_buffered_event_is_returned(state: SourceState, timeout: PollTimeout, now: u128)
    requires
        state.parser.events.len() > 0,
    ensures
        state.begin(timeout, now) == (
            SourceState {
                parser: ParserState { events: state.parser.events.skip(1), ..state.parser },
                ..state
            },
            RequestView::Event(state.parser.events[0]),
        ),
{
}

/// A failed wait ends a call and changes nothing; an interrupted one begins anew. A read that was
/// interrupted is repeated, and so is one that failed otherwise.
pub proof fn law_failures_of_waits_end_a_call(
    state: SourceState,
    timeout: PollTimeout,
    error: Error,
    now: u128,
)
    requires
        state.parser.events.len() == 0,
    ensures
        error.kind != ErrorKind::Interrupted ==> state.polled(timeout, Err(error), now) == (
            state,
            RequestView::Fail(error@),
        ),
        error.kind == ErrorKind::Interrupted ==> state.polled(timeout, Err(error), now) == (
            state,
            RequestView::Poll(state.parser.wait(timeout.left(now), now)),
        ),
        error.kind != ErrorKind::WouldBlock ==> state.tty_read(timeout, Err(error@), now) == (
            state,
            RequestView::ReadTty,
        ),
{
}

/// Input from elsewhere hands out all that applications see of what it decodes to, behind what was
/// decoded before, and leaves no events behind.
pub proof fn law_input_from_elsewhere_is_handed_out(
    before: ParserState,
    input: Seq<u8>,
    after: ParserState,
    decoded: Seq<InternalEvent>,
    now: u128,
)
    requires
        buffered_at(before, input, after, decoded, now),
    ensures
        views(decoded) == application_events(before.buffer_external(input, now).events),
        after == (ParserState { events: Seq::empty(), ..before.buffer_external(input, now) }),
{
}

} // verus!
