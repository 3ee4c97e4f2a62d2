//! A reader, which picks events from a source and keeps those that were not asked for.
//!
//! The reader never waits by itself. Its methods return a [`Step`], which says whether the source
//! has to be read next, and for each method that can ask for it there is one that takes what the
//! source returned.
use crate::error::{Error, ErrorKind, ErrorView};
use crate::event::filter::Filter;
use crate::event::source::EventSource;
use crate::event::stream_color::{extract_paste_colors, extracted};
use crate::event::types::{
    views, Event, EventView, InputDiscardStatus, InternalEvent, InternalEventView,
};
use crate::time::PollTimeout;
use std::collections::VecDeque;
use vstd::prelude::*;

verus! {

/// What to do next.
#[derive(Debug, PartialEq, Eq)]
pub enum Step<T> {
    /// Read from the source, for at most so long.
    TryRead(Option<u128>),
    /// Nothing more: this is the result.
    Done(Result<T, Error>),
}

/// What a [`Step`] says.
pub enum StepView<T> {
    TryRead(Option<u128>),
    Done(T),
    Fail(ErrorView),
}

impl<T> View for Step<T> {
    type V = StepView<T>;

    open spec fn view(&self) -> StepView<T> {
        match *self {
            Step::TryRead(timeout) => StepView::TryRead(timeout),
            Step::Done(Ok(value)) => StepView::Done(value),
            Step::Done(Err(error)) => StepView::Fail(error@),
        }
    }
}

/// The error that a reader without a source gives.
pub open spec fn not_initialized() -> ErrorView {
    ErrorView {
        kind: ErrorKind::Other,
        os_code: None,
        message: "Failed to initialize input reader"@,
    }
}

fn not_initialized_error() -> (r: Error)
    ensures
        r@ == not_initialized(),
{
    Error::new(ErrorKind::Other, "Failed to initialize input reader")
}

/// Where the first event stands that a filter chooses; the number of events if there is none.
pub open spec fn first_chosen<F: Filter>(filter: F, events: Seq<InternalEvent>) -> nat
    decreases events.len(),
{
    if events.len() == 0 || filter.accepts(events[0]) {
        0
    } else {
        1 + first_chosen(filter, events.skip(1))
    }
}

/// Whether a filter chooses one of the events.
pub open spec fn has_chosen<F: Filter>(filter: F, events: Seq<InternalEvent>) -> bool {
    exists|i: int| 0 <= i < events.len() && #[trigger] filter.accepts(events[i])
}

/// The first chosen event stands behind events that are not chosen.
pub proof fn lemma_first_chosen<F: Filter>(filter: F, events: Seq<InternalEvent>)
    ensures
        first_chosen(filter, events) <= events.len(),
        first_chosen(filter, events) < events.len() ==> filter.accepts(
            events[first_chosen(filter, events) as int],
        ),
        forall|i: int|
            0 <= i < first_chosen(filter, events) ==> !(#[trigger] filter.accepts(events[i])),
        has_chosen(filter, events) <==> first_chosen(filter, events) < events.len(),
    decreases events.len(),
{
    if events.len() > 0 && !filter.accepts(events[0]) {
        let rest = events.skip(1);
        lemma_first_chosen(filter, rest);
        assert forall|i: int| 0 <= i < first_chosen(filter, events) implies !(
        #[trigger] filter.accepts(events[i])) by {
            if i > 0 {
                assert(events[i] == rest[i - 1]);
            }
        }
    }
}

/// An event as applications see it: text that was looked through is an ordinary paste.
pub open spec fn unwrapped(event: InternalEventView) -> InternalEventView {
    match event {
        InternalEventView::ProcessedPaste(text) => InternalEventView::Event(EventView::Paste(text)),
        event => event,
    }
}

/// The same for the event itself.
pub open spec fn unwrapped_event(event: InternalEvent) -> InternalEvent {
    match event {
        InternalEvent::ProcessedPaste(text) => InternalEvent::Event(Event::Paste(text)),
        event => event,
    }
}

/// Returns an event as applications see it.
pub fn unwrap_processed_paste(event: InternalEvent) -> (r: InternalEvent)
    ensures
        r == unwrapped_event(event),
        r@ == unwrapped(event@),
{
    match event {
        InternalEvent::ProcessedPaste(text) => InternalEvent::Event(Event::Paste(text)),
        event => event,
    }
}

/// A step with its event as applications see it.
pub open spec fn unwrapped_step(step: StepView<InternalEvent>) -> StepView<InternalEvent> {
    match step {
        StepView::Done(event) => StepView::Done(unwrapped_event(event)),
        step => step,
    }
}

fn unwrap_step(step: Step<InternalEvent>) -> (r: Step<InternalEvent>)
    ensures
        r@ == unwrapped_step(step@),
{
    match step {
        Step::Done(Ok(event)) => Step::Done(Ok(unwrap_processed_paste(event))),
        step => step,
    }
}

/// Whether an event that was read is handed out as it should be, with its reports of default
/// colors taken out: of a paste the first extracted event is handed out and the others become the
/// front of the queue.
pub open spec fn hands_out(
    event: InternalEvent,
    before: Seq<InternalEvent>,
    after: Seq<InternalEvent>,
    result: InternalEvent,
) -> bool {
    match event {
        InternalEvent::Event(Event::Paste(text)) => {
            &&& result@ == unwrapped(extracted(text@)[0])
            &&& after.len() == extracted(text@).len() - 1 + before.len()
            &&& views(after.take(extracted(text@).len() - 1)) == extracted(text@).skip(1)
            &&& after.skip(extracted(text@).len() - 1) == before
        },
        event => result == unwrapped_event(event) && after == before,
    }
}

/// What a reader holds.
#[verifier::ext_equal]
pub struct ReaderState {
    /// The events that can be read, the oldest first.
    pub events: Seq<InternalEvent>,
    /// The events that a poll under way has not chosen.
    pub skipped: Seq<InternalEvent>,
}

impl ReaderState {
    /// The beginning of a poll.
    pub open spec fn poll<F: Filter>(
        self,
        connected: bool,
        filter: F,
        timeout: PollTimeout,
        now: u128,
    ) -> StepView<bool> {
        if has_chosen(filter, self.events) {
            StepView::Done(true)
        } else if connected {
            StepView::TryRead(timeout.left(now))
        } else {
            StepView::Fail(not_initialized())
        }
    }

    /// A poll, once the source has been read. A chosen event becomes the front of the queue; the
    /// events that were not chosen become its back when there is one or the time is over. A source
    /// that returns nothing has no time left or was woken, which ends the poll; where it was woken,
    /// nothing moves.
    pub open spec fn poll_resumed<F: Filter>(
        self,
        filter: F,
        outcome: Result<Option<InternalEvent>, Error>,
        timeout: PollTimeout,
        now: u128,
    ) -> (ReaderState, StepView<bool>) {
        match outcome {
            Ok(Some(event)) => if filter.accepts(event) {
                (
                    ReaderState {
                        events: seq![event] + self.events + self.skipped,
                        skipped: Seq::empty(),
                    },
                    StepView::Done(true),
                )
            } else {
                (ReaderState { skipped: self.skipped.push(event), ..self }).waited(timeout, now)
            },
            Ok(None) => if timeout.is_elapsed(now) {
                (
                    ReaderState { events: self.events + self.skipped, skipped: Seq::empty() },
                    StepView::Done(false),
                )
            } else {
                (self, StepView::Done(false))
            },
            Err(error) => if error.kind == ErrorKind::Interrupted {
                (self, StepView::Done(false))
            } else {
                (self, StepView::Fail(error@))
            },
        }
    }

    /// A poll whose event was not chosen: it ends with its time.
    pub open spec fn waited(self, timeout: PollTimeout, now: u128) -> (
        ReaderState,
        StepView<bool>,
    ) {
        if timeout.is_elapsed(now) {
            (
                ReaderState { events: self.events + self.skipped, skipped: Seq::empty() },
                StepView::Done(false),
            )
        } else {
            (self, StepView::TryRead(timeout.left(now)))
        }
    }

    /// The beginning of a read that has passed over some events already. The first chosen event is
    /// the result, and the events that were passed over become the back of the queue. A read that
    /// fails drops them.
    pub open spec fn read_queued<F: Filter>(
        self,
        passed: Seq<InternalEvent>,
        connected: bool,
        filter: F,
    ) -> (ReaderState, Seq<InternalEvent>, StepView<InternalEvent>) {
        let at = first_chosen(filter, self.events) as int;
        if at < self.events.len() {
            (
                ReaderState {
                    events: self.events.skip(at + 1) + passed + self.events.take(at),
                    ..self
                },
                Seq::empty(),
                StepView::Done(self.events[at]),
            )
        } else if connected {
            (
                ReaderState { events: Seq::empty(), ..self },
                passed + self.events,
                StepView::TryRead(None),
            )
        } else {
            (
                ReaderState { events: Seq::empty(), ..self },
                Seq::empty(),
                StepView::Fail(not_initialized()),
            )
        }
    }

    /// A read, once the source has been read. It goes on until there is a chosen event; an
    /// interruption begins it anew.
    pub open spec fn read_resumed<F: Filter>(
        self,
        passed: Seq<InternalEvent>,
        connected: bool,
        filter: F,
        outcome: Result<Option<InternalEvent>, Error>,
    ) -> (ReaderState, Seq<InternalEvent>, StepView<InternalEvent>) {
        let forever = PollTimeout { timeout: None, start: 0 };
        match self.poll_resumed(filter, outcome, forever, 0) {
            (next, StepView::TryRead(timeout)) => (next, passed, StepView::TryRead(timeout)),
            (next, StepView::Done(_)) => next.read_queued(passed, connected, filter),
            (next, StepView::Fail(error)) => (next, Seq::empty(), StepView::Fail(error)),
        }
    }
}

/// Whether a step of a read is turned into one that hands events out with the reports of default
/// colors taken out of pastes.
pub open spec fn hands_out_step(
    queued: (ReaderState, Seq<InternalEvent>, StepView<InternalEvent>),
    after: ReaderState,
    passed: Seq<InternalEvent>,
    step: StepView<InternalEvent>,
) -> bool {
    &&& passed == queued.1
    &&& after.skipped == queued.0.skipped
    &&& match queued.2 {
        StepView::Done(event) => step is Done && hands_out(
            event,
            queued.0.events,
            after.events,
            step->Done_0,
        ),
        _ => step == queued.2 && after == queued.0,
    }
}

/// The events that a read under way has passed over.
#[derive(Debug)]
pub struct PendingRead {
    pub passed: VecDeque<InternalEvent>,
}

impl PendingRead {
    pub fn new() -> (r: PendingRead)
        ensures
            r.passed@ == Seq::<InternalEvent>::empty(),
    {
        PendingRead { passed: VecDeque::new() }
    }
}

/// Reads events from a source.
#[derive(Debug)]
pub struct InternalEventReader<S> {
    /// The events that can be read, the oldest first.
    pub events: VecDeque<InternalEvent>,
    /// The source, where it could be opened.
    pub source: Option<S>,
    /// The events that a poll under way has not chosen.
    pub skipped_events: Vec<InternalEvent>,
}

impl<S> View for InternalEventReader<S> {
    type V = ReaderState;

    open spec fn view(&self) -> ReaderState {
        ReaderState { events: self.events@, skipped: self.skipped_events@ }
    }
}

impl<S: EventSource> InternalEventReader<S> {
    /// What holds of a reader between calls.
    pub open spec fn in_order(&self) -> bool {
        self.source matches Some(source) ==> source.in_order()
    }

    /// Decodes bytes that were consumed elsewhere and appends their events to the queue.
    pub fn buffer_input(&mut self, input: &[u8]) -> (r: Result<(), Error>)
        requires
            old(self).in_order(),
        ensures
            final(self).in_order(),
            final(self)@.skipped == old(self)@.skipped,
            match old(self).source {
                Some(source) => {
                    &&& r is Ok
                    &&& final(self).source is Some
                    &&& exists|decoded: Seq<InternalEvent>| #[trigger]
                        S::buffers(source, input@, final(self).source->0, decoded)
                            && final(self)@.events == old(self)@.events + decoded
                },
                None => r is Err && r->Err_0@ == not_initialized() && *final(self) == *old(self),
            },
    {
        match &mut self.source {
            Some(source) => {
                source.buffer_input(input, &mut self.events);
                Ok(())
            },
            None => Err(not_initialized_error()),
        }
    }

    /// Discards all input that was read: what the source has buffered and both queues.
    pub fn discard_buffered_input(&mut self) -> (r: Result<InputDiscardStatus, Error>)
        requires
            old(self).in_order(),
        ensures
            final(self).in_order(),
            match old(self).source {
                Some(source) => {
                    &&& r is Ok
                    &&& final(self).source is Some
                    &&& S::discards(source, final(self).source->0, r->Ok_0)
                    &&& final(self)@ == (ReaderState {
                        events: Seq::empty(),
                        skipped: Seq::empty(),
                    })
                },
                None => r is Err && r->Err_0@ == not_initialized() && *final(self) == *old(self),
            },
    {
        match &mut self.source {
            Some(source) => {
                let status = source.discard_buffered_input();
                self.events.clear();
                self.skipped_events.clear();
                Ok(status)
            },
            None => Err(not_initialized_error()),
        }
    }
}

impl<S> InternalEventReader<S> {
    /// A reader that has read nothing, with its source where that could be opened.
    pub fn new(source: Option<S>) -> (r: InternalEventReader<S>)
        ensures
            r.source == source,
            r@ == (ReaderState { events: Seq::empty(), skipped: Seq::empty() }),
    {
        let r = InternalEventReader {
            events: VecDeque::with_capacity(32),
            source,
            skipped_events: Vec::with_capacity(32),
        };
        assert(r@ =~= (ReaderState { events: Seq::empty(), skipped: Seq::empty() }));
        r
    }

    /// Begins to wait for a chosen event: `Ok(true)` once there is one, `Ok(false)` when the time
    /// is over, the source was woken or the wait is interrupted.
    pub fn poll<F: Filter>(&mut self, timeout: &PollTimeout, filter: &F, now: u128) -> (r: Step<
        bool,
    >)
        ensures
            *final(self) == *old(self),
            r@ == old(self)@.poll(old(self).source is Some, *filter, *timeout, now),
    {
        let mut i: usize = 0;
        while i < self.events.len()
            invariant
                i <= self.events@.len(),
                *self == *old(self),
                forall|k: int| 0 <= k < i ==> !(#[trigger] filter.accepts(self.events@[k])),
            decreases self.events@.len() - i,
        {
            if filter.eval(&self.events[i]) {
                return Step::Done(Ok(true));
            }
            i = i + 1;
        }
        match &self.source {
            Some(_) => Step::TryRead(timeout.leftover(now)),
            None => Step::Done(Err(not_initialized_error())),
        }
    }

    /// Goes on with [`InternalEventReader::poll`], given what the source returned.
    pub fn resume_poll<F: Filter>(
        &mut self,
        timeout: &PollTimeout,
        filter: &F,
        outcome: Result<Option<InternalEvent>, Error>,
        now: u128,
    ) -> (r: Step<bool>)
        ensures
            final(self).source == old(self).source,
            (final(self)@, r@) == old(self)@.poll_resumed(*filter, outcome, *timeout, now),
    {
        let (chosen, over) = match outcome {
            Ok(None) => {
                if !timeout.elapsed(now) {
                    return Step::Done(Ok(false));
                }
                (None, true)
            },
            Ok(Some(event)) => if filter.eval(&event) {
                (Some(event), true)
            } else {
                self.skipped_events.push(event);
                (None, timeout.elapsed(now))
            },
            Err(error) => {
                if error.kind() == ErrorKind::Interrupted {
                    return Step::Done(Ok(false));
                }
                return Step::Done(Err(error));
            },
        };
        let ghost before = self@;
        if over {
            self.queue_skipped();
            if let Some(event) = chosen {
                self.events.push_front(event);
                assert(self.events@ =~= seq![event] + before.events + before.skipped);
                return Step::Done(Ok(true));
            }
            return Step::Done(Ok(false));
        }
        Step::TryRead(timeout.leftover(now))
    }

    /// Moves the events that a poll has not chosen to the back of the queue.
    fn queue_skipped(&mut self)
        ensures
            final(self).source == old(self).source,
            final(self)@ == (ReaderState {
                events: old(self)@.events + old(self)@.skipped,
                skipped: Seq::empty(),
            }),
    {
        let mut skipped: Vec<InternalEvent> = Vec::new();
        std::mem::swap(&mut skipped, &mut self.skipped_events);
        let ghost all = skipped@;
        assert(self.events@ =~= old(self).events@ + all.take(0));
        for event in it: skipped
            invariant
                it.seq() == all,
                self.events@ == old(self).events@ + all.take(it.index()),
                self.skipped_events@ == Seq::<InternalEvent>::empty(),
                self.source == old(self).source,
        {
            self.events.push_back(event);
            assert(self.events@ =~= old(self).events@ + all.take(it.index() + 1));
        }
        assert(all.take(all.len() as int) =~= all);
    }

    /// Begins to read a chosen event. The events before it stay in the queue.
    pub fn read_queued<F: Filter>(&mut self, filter: &F, read: &mut PendingRead) -> (r: Step<
        InternalEvent,
    >)
        ensures
            final(self).source == old(self).source,
            (final(self)@, final(read).passed@, r@) == old(self)@.read_queued(
                old(read).passed@,
                old(self).source is Some,
                *filter,
            ),
    {
        let ghost all = self.events@;
        let ghost passed = read.passed@;
        let ghost mut taken: int = 0;
        proof {
            assert(all.skip(0) =~= all);
            assert(read.passed@ =~= passed + all.take(0));
        }
        loop
            invariant
                0 <= taken <= all.len(),
                self.events@ == all.skip(taken),
                self.skipped_events == old(self).skipped_events,
                self.source == old(self).source,
                read.passed@ == passed + all.take(taken),
                first_chosen(*filter, all) == taken + first_chosen(*filter, all.skip(taken)),
                all == old(self).events@,
                passed == old(read).passed@,
            ensures
                taken == all.len(),
            decreases all.len() - taken,
        {
            match self.events.pop_front() {
                Some(event) => {
                    assert(self.events@ =~= all.skip(taken + 1));
                    assert(all.skip(taken).skip(1) =~= all.skip(taken + 1));
                    if filter.eval(&event) {
                        assert(event == all[taken]);
                        self.queue_passed(read);
                        assert(self.events@ =~= all.skip(taken + 1) + passed + all.take(taken));
                        return Step::Done(Ok(event));
                    }
                    read.passed.push_back(event);
                    proof {
                        assert(read.passed@ =~= passed + all.take(taken + 1));
                        taken = taken + 1;
                    }
                },
                None => {
                    break;
                },
            }
        }
        assert(self.events@ =~= Seq::<InternalEvent>::empty());
        assert(all.take(taken) =~= all);
        match &self.source {
            Some(_) => Step::TryRead(None),
            None => {
                read.passed.clear();
                Step::Done(Err(not_initialized_error()))
            },
        }
    }

    /// Moves the events that a read has passed over to the back of the queue.
    fn queue_passed(&mut self, read: &mut PendingRead)
        ensures
            final(self).source == old(self).source,
            final(self).skipped_events == old(self).skipped_events,
            final(self).events@ == old(self).events@ + old(read).passed@,
            final(read).passed@ == Seq::<InternalEvent>::empty(),
    {
        self.events.append(&mut read.passed);
    }

    /// Goes on with [`InternalEventReader::read_queued`], given what the source returned.
    pub fn resume_read_queued<F: Filter>(
        &mut self,
        filter: &F,
        read: &mut PendingRead,
        outcome: Result<Option<InternalEvent>, Error>,
    ) -> (r: Step<InternalEvent>)
        ensures
            final(self).source == old(self).source,
            (final(self)@, final(read).passed@, r@) == old(self)@.read_resumed(
                old(read).passed@,
                old(self).source is Some,
                *filter,
                outcome,
            ),
    {
        let forever = PollTimeout::new(None, 0);
        match self.resume_poll(&forever, filter, outcome, 0) {
            Step::TryRead(timeout) => Step::TryRead(timeout),
            Step::Done(Ok(_)) => self.read_queued(filter, read),
            Step::Done(Err(error)) => {
                read.passed.clear();
                Step::Done(Err(error))
            },
        }
    }

    /// Begins to read a chosen event as applications see it.
    pub fn read<F: Filter>(&mut self, filter: &F, read: &mut PendingRead) -> (r: Step<
        InternalEvent,
    >)
        ensures
            final(self).source == old(self).source,
            ({
                let queued = old(self)@.read_queued(
                    old(read).passed@,
                    old(self).source is Some,
                    *filter,
                );
                &&& final(self)@ == queued.0
                &&& final(read).passed@ == queued.1
                &&& r@ == unwrapped_step(queued.2)
            }),
    {
        unwrap_step(self.read_queued(filter, read))
    }

    /// Goes on with [`InternalEventReader::read`], given what the source returned.
    pub fn resume_read<F: Filter>(
        &mut self,
        filter: &F,
        read: &mut PendingRead,
        outcome: Result<Option<InternalEvent>, Error>,
    ) -> (r: Step<InternalEvent>)
        ensures
            final(self).source == old(self).source,
            ({
                let queued = old(self)@.read_resumed(
                    old(read).passed@,
                    old(self).source is Some,
                    *filter,
                    outcome,
                );
                &&& final(self)@ == queued.0
                &&& final(read).passed@ == queued.1
                &&& r@ == unwrapped_step(queued.2)
            }),
    {
        unwrap_step(self.resume_read_queued(filter, read, outcome))
    }

    /// Begins to read a chosen event as applications see it, with the reports of default colors
    /// taken out of a paste. What a paste leaves stays in the queue, so that whoever reads next
    /// finds it.
    pub fn read_with_color_reports<F: Filter>(&mut self, filter: &F, read: &mut PendingRead) -> (r:
        Step<InternalEvent>)
        ensures
            final(self).source == old(self).source,
            hands_out_step(
                old(self)@.read_queued(old(read).passed@, old(self).source is Some, *filter),
                final(self)@,
                final(read).passed@,
                r@,
            ),
    {
        let step = self.read_queued(filter, read);
        self.hand_out_step(step)
    }

    /// Goes on with [`InternalEventReader::read_with_color_reports`], given what the source
    /// returned.
    pub fn resume_read_with_color_reports<F: Filter>(
        &mut self,
        filter: &F,
        read: &mut PendingRead,
        outcome: Result<Option<InternalEvent>, Error>,
    ) -> (r: Step<InternalEvent>)
        ensures
            final(self).source == old(self).source,
            hands_out_step(
                old(self)@.read_resumed(
                    old(read).passed@,
                    old(self).source is Some,
                    *filter,
                    outcome,
                ),
                final(self)@,
                final(read).passed@,
                r@,
            ),
    {
        let step = self.resume_read_queued(filter, read, outcome);
        self.hand_out_step(step)
    }

    fn hand_out_step(&mut self, step: Step<InternalEvent>) -> (r: Step<InternalEvent>)
        ensures
            final(self).source == old(self).source,
            forall|passed: Seq<InternalEvent>|
                hands_out_step((old(self)@, passed, step@), final(self)@, passed, r@),
    {
        match step {
            Step::Done(Ok(event)) => Step::Done(Ok(self.hand_out(event))),
            step => step,
        }
    }

    fn hand_out(&mut self, event: InternalEvent) -> (r: InternalEvent)
        ensures
            final(self).source == old(self).source,
            final(self)@.skipped == old(self)@.skipped,
            hands_out(event, old(self)@.events, final(self)@.events, r),
    {
        match event {
            InternalEvent::Event(Event::Paste(text)) => {
                let mut events = extract_paste_colors(text);
                let ghost all = events@;
                assert(views(all).len() == all.len());
                let first = events.pop_front().expect("paste extraction retains a paste");
                events.append(&mut self.events);
                std::mem::swap(&mut self.events, &mut events);
                proof {
                    assert(self.events@ =~= all.skip(1) + old(self).events@);
                    assert(self.events@.take(all.len() - 1) =~= all.skip(1));
                    assert(views(all.skip(1)) =~= views(all).skip(1));
                    assert(self.events@.skip(all.len() - 1) =~= old(self).events@);
                }
                unwrap_processed_paste(first)
            },
            event => unwrap_processed_paste(event),
        }
    }
}

} // verus!
