//! In which order a reader hands events out and keeps them, and what it chooses.
use crate::error::{Error, ErrorKind};
use crate::event::filter::{
    CursorPositionFilter, EventFilter, Filter, OscColorFilter, StreamFilter,
};
use crate::event::read::{
    first_chosen, hands_out, hands_out_step, has_chosen, lemma_first_chosen, unwrapped_event,
    unwrapped_step, ReaderState, StepView,
};
use crate::event::types::{Event, InternalEvent, OscColorPayload};
use crate::time::PollTimeout;
use vstd::prelude::*;

verus! {

/// Whether a filter chooses none of the events.
pub open spec fn none_chosen<F: Filter>(filter: F, events: Seq<InternalEvent>) -> bool {
    forall|i: int| 0 <= i < events.len() ==> !(#[trigger] filter.accepts(events[i]))
}

/// Whether a step is the failure of a reader without a source.
pub open spec fn has_no_source<T>(step: StepView<T>) -> bool {
    step matches StepView::Fail(error) && error.kind == ErrorKind::Other && error.os_code is None
        && error.message == "Failed to initialize input reader"@
}

proof fn lemma_first_chosen_at<F: Filter>(filter: F, events: Seq<InternalEvent>, at: nat)
    requires
        at <= events.len(),
        none_chosen(filter, events.take(at as int)),
        at < events.len() ==> filter.accepts(events[at as int]),
    ensures
        first_chosen(filter, events) == at,
        has_chosen(filter, events) <==> at < events.len(),
{
    lemma_first_chosen(filter, events);
    let found = first_chosen(filter, events);
    if found < at {
        assert(events.take(at as int)[found as int] == events[found as int]);
        assert(!filter.accepts(events.take(at as int)[found as int]));
    }
}

/// A read returns the first event that is chosen. The events behind it come first from then on,
/// then those that were passed over, each in the order in which they came.
pub proof fn law_read_returns_the_first_chosen<F: Filter>(
    state: ReaderState,
    passed: Seq<InternalEvent>,
    connected: bool,
    filter: F,
    before: Seq<InternalEvent>,
    event: InternalEvent,
    after: Seq<InternalEvent>,
)
    requires
        state.events == before.push(event) + after,
        none_chosen(filter, before),
        filter.accepts(event),
    ensures
        state.read_queued(passed, connected, filter) == (
            ReaderState { events: after + passed + before, ..state },
            Seq::<InternalEvent>::empty(),
            StepView::Done(event),
        ),
{
    let at = before.len();
    assert(state.events.take(at as int) =~= before);
    assert(state.events[at as int] == event);
    lemma_first_chosen_at(filter, state.events, at);
    assert(state.events.skip((at + 1) as int) =~= after);
}

/// A read without a chosen event waits, and keeps what it has passed over in the order in which it
/// came; without a source it fails and drops it.
pub proof fn law_read_without_a_chosen_event<F: Filter>(
    state: ReaderState,
    passed: Seq<InternalEvent>,
    filter: F,
)
    requires
        none_chosen(filter, state.events),
    ensures
        state.read_queued(passed, true, filter) == (
            ReaderState { events: Seq::empty(), ..state },
            passed + state.events,
            StepView::<InternalEvent>::TryRead(None),
        ),
        ({
            let (next, left, step) = state.read_queued(passed, false, filter);
            &&& next == (ReaderState { events: Seq::empty(), ..state })
            &&& left == Seq::<InternalEvent>::empty()
            &&& has_no_source(step)
        }),
{
    assert(state.events.take(state.events.len() as int) =~= state.events);
    lemma_first_chosen_at(filter, state.events, state.events.len());
}

/// A chosen event that arrives ends a read. What the reader held comes first from then on, then
/// what arrived before the event, then what was passed over, each in the order in which it came.
pub proof fn law_read_returns_the_event_that_arrives<F: Filter>(
    state: ReaderState,
    passed: Seq<InternalEvent>,
    connected: bool,
    filter: F,
    event: InternalEvent,
)
    requires
        filter.accepts(event),
    ensures
        state.read_resumed(passed, connected, filter, Ok(Some(event))) == (
            ReaderState {
                events: state.events + state.skipped + passed,
                skipped: Seq::empty(),
            },
            Seq::<InternalEvent>::empty(),
            StepView::Done(event),
        ),
{
    let polled = ReaderState {
        events: seq![event] + state.events + state.skipped,
        skipped: Seq::empty(),
    };
    let rest = state.events + state.skipped;
    assert(polled.events =~= Seq::<InternalEvent>::empty().push(event) + rest);
    law_read_returns_the_first_chosen(
        polled,
        passed,
        connected,
        filter,
        Seq::empty(),
        event,
        rest,
    );
    assert(rest + passed + Seq::<InternalEvent>::empty() =~= rest + passed);
}

/// An event that arrives and is not chosen is kept behind those that arrived before it, and the
/// read goes on.
pub proof fn law_read_passes_over_what_arrives<F: Filter>(
    state: ReaderState,
    passed: Seq<InternalEvent>,
    connected: bool,
    filter: F,
    event: InternalEvent,
)
    requires
        !filter.accepts(event),
    ensures
        state.read_resumed(passed, connected, filter, Ok(Some(event))) == (
            ReaderState { skipped: state.skipped.push(event), ..state },
            passed,
            StepView::<InternalEvent>::TryRead(None),
        ),
{
}

/// A source that returns nothing or is interrupted makes a read begin anew; any other failure ends
/// it.
pub proof fn law_read_without_an_event<F: Filter>(
    state: ReaderState,
    passed: Seq<InternalEvent>,
    filter: F,
    error: Error,
)
    requires
        none_chosen(filter, state.events),
    ensures
        ({
            let anew = (
                ReaderState { events: Seq::empty(), ..state },
                passed + state.events,
                StepView::<InternalEvent>::TryRead(None),
            );
            &&& state.read_resumed(passed, true, filter, Ok(None)) == anew
            &&& error.kind == ErrorKind::Interrupted ==> state.read_resumed(
                passed,
                true,
                filter,
                Err(error),
            ) == anew
            &&& error.kind != ErrorKind::Interrupted ==> state.read_resumed(
                passed,
                true,
                filter,
                Err(error),
            ) == (state, Seq::<InternalEvent>::empty(), StepView::<InternalEvent>::Fail(error@))
        }),
{
    law_read_without_a_chosen_event(state, passed, filter);
}

/// What a read is after the source has returned these events one after the other.
pub open spec fn read_through<F: Filter>(
    state: ReaderState,
    passed: Seq<InternalEvent>,
    filter: F,
    arriving: Seq<InternalEvent>,
) -> (ReaderState, Seq<InternalEvent>, StepView<InternalEvent>)
    decreases arriving.len(),
{
    if arriving.len() == 0 {
        state.read_queued(passed, true, filter)
    } else {
        let (before, left, _) = read_through(state, passed, filter, arriving.drop_last());
        before.read_resumed(left, true, filter, Ok(Some(arriving.last())))
    }
}

proof fn lemma_read_through<F: Filter>(
    state: ReaderState,
    filter: F,
    arriving: Seq<InternalEvent>,
)
    requires
        none_chosen(filter, state.events),
        none_chosen(filter, arriving),
    ensures
        read_through(state, Seq::empty(), filter, arriving) == (
            ReaderState { events: Seq::empty(), skipped: state.skipped + arriving },
            state.events,
            StepView::<InternalEvent>::TryRead(None),
        ),
    decreases arriving.len(),
{
    law_read_without_a_chosen_event(state, Seq::empty(), filter);
    if arriving.len() == 0 {
        assert(Seq::<InternalEvent>::empty() + state.events =~= state.events);
        assert(state.skipped + arriving =~= state.skipped);
    } else {
        let front = arriving.drop_last();
        assert forall|i: int| 0 <= i < front.len() implies !(#[trigger] filter.accepts(
            front[i],
        )) by {
            assert(front[i] == arriving[i]);
        }
        lemma_read_through(state, filter, front);
        assert(!filter.accepts(arriving[arriving.len() - 1]));
        let before = ReaderState { events: Seq::empty(), skipped: state.skipped + front };
        law_read_passes_over_what_arrives(before, state.events, true, filter, arriving.last());
        assert((state.skipped + front).push(arriving.last()) =~= state.skipped + arriving);
    }
}

/// A whole read that has to wait: it returns the first chosen event that arrives, and what arrived
/// before it and what was queued stay, each in the order in which it came.
pub proof fn law_whole_read_keeps_the_order<F: Filter>(
    state: ReaderState,
    filter: F,
    arriving: Seq<InternalEvent>,
    event: InternalEvent,
)
    requires
        none_chosen(filter, state.events),
        none_chosen(filter, arriving),
        filter.accepts(event),
    ensures
        read_through(state, Seq::empty(), filter, arriving.push(event)) == (
            ReaderState {
                events: state.skipped + arriving + state.events,
                skipped: Seq::empty(),
            },
            Seq::<InternalEvent>::empty(),
            StepView::Done(event),
        ),
{
    lemma_read_through(state, filter, arriving);
    let all = arriving.push(event);
    assert(all.drop_last() =~= arriving);
    let before = ReaderState { events: Seq::empty(), skipped: state.skipped + arriving };
    law_read_returns_the_event_that_arrives(before, state.events, true, filter, event);
    assert(Seq::<InternalEvent>::empty() + (state.skipped + arriving) + state.events
        =~= state.skipped + arriving + state.events);
}

/// A poll begins with the queue: it ends at once exactly if a chosen event is there, wherever it
/// stands; otherwise the source is read for the time that is left.
pub proof fn law_poll_begins_with_the_queue<F: Filter>(
    state: ReaderState,
    connected: bool,
    filter: F,
    timeout: PollTimeout,
    now: u128,
    at: int,
)
    ensures
        0 <= at < state.events.len() && filter.accepts(state.events[at]) ==> state.poll(
            connected,
            filter,
            timeout,
            now,
        ) == StepView::Done(true),
        none_chosen(filter, state.events) && connected ==> state.poll(
            connected,
            filter,
            timeout,
            now,
        ) == StepView::<bool>::TryRead(timeout.left(now)),
        none_chosen(filter, state.events) && !connected ==> has_no_source(
            state.poll(connected, filter, timeout, now),
        ),
{
}

/// What follows a read of the source in a poll: a chosen event becomes the front of the queue, and
/// the events that were not chosen its back, in the order in which they came, when one is chosen or
/// the time is over. Until then they wait.
pub proof fn law_poll_keeps_the_order<F: Filter>(
    state: ReaderState,
    filter: F,
    event: InternalEvent,
    error: Error,
    timeout: PollTimeout,
    now: u128,
)
    ensures
        filter.accepts(event) ==> state.poll_resumed(filter, Ok(Some(event)), timeout, now) == (
            ReaderState {
                events: seq![event] + state.events + state.skipped,
                skipped: Seq::empty(),
            },
            StepView::Done(true),
        ),
        !filter.accepts(event) && timeout.is_elapsed(now) ==> state.poll_resumed(
            filter,
            Ok(Some(event)),
            timeout,
            now,
        ) == (
            ReaderState {
                events: state.events + state.skipped.push(event),
                skipped: Seq::empty(),
            },
            StepView::Done(false),
        ),
        !filter.accepts(event) && !timeout.is_elapsed(now) ==> state.poll_resumed(
            filter,
            Ok(Some(event)),
            timeout,
            now,
        ) == (
            ReaderState { skipped: state.skipped.push(event), ..state },
            StepView::<bool>::TryRead(timeout.left(now)),
        ),
        timeout.is_elapsed(now) ==> state.poll_resumed(filter, Ok(None), timeout, now) == (
            ReaderState { events: state.events + state.skipped, skipped: Seq::empty() },
            StepView::Done(false),
        ),
        error.kind == ErrorKind::Interrupted ==> state.poll_resumed(
            filter,
            Err(error),
            timeout,
            now,
        ) == (state, StepView::Done(false)),
        error.kind != ErrorKind::Interrupted ==> state.poll_resumed(
            filter,
            Err(error),
            timeout,
            now,
        ) == (state, StepView::<bool>::Fail(error@)),
{
}

/// What each filter chooses: the events that applications see, the cursor position, the reports of
/// one slot.
pub proof fn law_filters_choose_their_events(
    event: Event,
    text: String,
    column: u16,
    row: u16,
    slot: u8,
    other: u8,
    payload: OscColorPayload,
)
    ensures
        EventFilter.accepts(InternalEvent::Event(event)),
        EventFilter.accepts(InternalEvent::ProcessedPaste(text)),
        !EventFilter.accepts(InternalEvent::CursorPosition(column, row)),
        !EventFilter.accepts(InternalEvent::OscColor { slot, payload }),
        !EventFilter.accepts(InternalEvent::PrimaryDeviceAttributes),
        CursorPositionFilter.accepts(InternalEvent::CursorPosition(column, row)),
        !CursorPositionFilter.accepts(InternalEvent::Event(event)),
        !CursorPositionFilter.accepts(InternalEvent::ProcessedPaste(text)),
        !CursorPositionFilter.accepts(InternalEvent::OscColor { slot, payload }),
        (OscColorFilter { slot: other }).accepts(InternalEvent::OscColor { slot, payload }) <==> slot
            == other,
        !(OscColorFilter { slot: other }).accepts(InternalEvent::Event(event)),
        !(OscColorFilter { slot: other }).accepts(InternalEvent::ProcessedPaste(text)),
        !(OscColorFilter { slot: other }).accepts(InternalEvent::CursorPosition(column, row)),
        StreamFilter::Input.accepts(InternalEvent::Event(event)),
        StreamFilter::Input.accepts(InternalEvent::ProcessedPaste(text)),
        StreamFilter::InputAndColors.accepts(InternalEvent::Event(event)),
        StreamFilter::InputAndColors.accepts(InternalEvent::ProcessedPaste(text)),
        !StreamFilter::Input.accepts(InternalEvent::OscColor { slot, payload }),
        StreamFilter::InputAndColors.accepts(InternalEvent::OscColor { slot, payload }) <==> (slot
            == 10 || slot == 11) && payload is Rgb,
        !StreamFilter::InputAndColors.accepts(InternalEvent::CursorPosition(column, row)),
{
}

/// Only text that was looked through changes on its way out: it is an ordinary paste again.
pub proof fn law_only_processed_pastes_are_unwrapped(event: InternalEvent, text: String)
    ensures
        unwrapped_event(InternalEvent::ProcessedPaste(text)) == InternalEvent::Event(
            Event::Paste(text),
        ),
        !(event is ProcessedPaste) ==> unwrapped_event(event) == event,
        unwrapped_step(StepView::Done(event)) == StepView::Done(unwrapped_event(event)),
        unwrapped_step(StepView::TryRead(None)) == StepView::<InternalEvent>::TryRead(None),
{
}

/// An event that is no paste is handed out as it is, and leaves the queue alone.
pub proof fn law_other_events_are_handed_out(
    event: InternalEvent,
    before: Seq<InternalEvent>,
    after: Seq<InternalEvent>,
    result: InternalEvent,
)
    requires
        hands_out(event, before, after, result),
        !(event is ProcessedPaste),
        !(event matches InternalEvent::Event(Event::Paste(_))),
    ensures
        result == event,
        after == before,
{
}

/// Reading with reports taken out waits, fails and keeps events as any read does; only the event
/// that it returns is looked through.
pub proof fn law_reading_with_colors_is_reading(
    queued: (ReaderState, Seq<InternalEvent>, StepView<InternalEvent>),
    after: ReaderState,
    passed: Seq<InternalEvent>,
    step: StepView<InternalEvent>,
)
    requires
        hands_out_step(queued, after, passed, step),
    ensures
        passed == queued.1,
        after.skipped == queued.0.skipped,
        !(queued.2 is Done) ==> step == queued.2 && after == queued.0,
        queued.2 matches StepView::Done(event) ==> step is Done && hands_out(
            event,
            queued.0.events,
            after.events,
            step->Done_0,
        ),
{
}

} // verus!
