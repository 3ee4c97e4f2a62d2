//! What holds of readers.
use crate::error::{Error, ErrorKind};
use crate::event::filter::{EventFilter, Filter, StreamFilter};
use crate::event::read::{
    first_chosen, hands_out, has_chosen, lemma_first_chosen, unwrapped_event, ReaderState, StepView,
};
use crate::event::stream_color::{extract, extracted, is_color, is_streamed, reported_color};
use crate::event::stream_color_laws::law_paste_comes_last;
use crate::event::types::{views, Event, EventView, InternalEvent, InternalEventView};
use crate::time::PollTimeout;
use vstd::multiset::Multiset;
use vstd::prelude::*;
use vstd::seq_lib::group_to_multiset_ensures;
use vstd::utf8::{decode_utf8, encode_utf8};

verus! {

/// All events that a reader holds, in whatever order.
pub open spec fn held(state: ReaderState, passed: Seq<InternalEvent>) -> Multiset<InternalEvent> {
    state.events.to_multiset().add(state.skipped.to_multiset()).add(passed.to_multiset())
}

/// The event that the source returned, where it did.
pub open spec fn arrived(outcome: Result<Option<InternalEvent>, Error>) -> Multiset<InternalEvent> {
    match outcome {
        Ok(Some(event)) => Multiset::singleton(event),
        _ => Multiset::empty(),
    }
}

proof fn lemma_concat(a: Seq<InternalEvent>, b: Seq<InternalEvent>)
    ensures
        (a + b).to_multiset() =~= a.to_multiset().add(b.to_multiset()),
{
    vstd::seq_lib::lemma_multiset_commutative(a, b);
}

proof fn lemma_single(event: InternalEvent)
    ensures
        seq![event].to_multiset() =~= Multiset::singleton(event),
        Seq::<InternalEvent>::empty().to_multiset() =~= Multiset::empty(),
{
    broadcast use group_to_multiset_ensures;

    assert(seq![event] =~= Seq::<InternalEvent>::empty().push(event));
}

/// A poll loses no event: whatever it was after, every event that the reader held or that arrived
/// is still held.
pub proof fn law_poll_keeps_events<F: Filter>(
    state: ReaderState,
    passed: Seq<InternalEvent>,
    filter: F,
    outcome: Result<Option<InternalEvent>, Error>,
    timeout: PollTimeout,
    now: u128,
)
    ensures
        held(state.poll_resumed(filter, outcome, timeout, now).0, passed) =~= held(
            state,
            passed,
        ).add(arrived(outcome)),
{
    broadcast use group_to_multiset_ensures;

    let next = state.poll_resumed(filter, outcome, timeout, now).0;
    match outcome {
        Ok(Some(event)) => {
            lemma_single(event);
            lemma_concat(seq![event], state.events);
            lemma_concat(seq![event] + state.events, state.skipped);
            lemma_concat(state.events, state.skipped.push(event));
        },
        Ok(None) => {
            lemma_concat(state.events, state.skipped);
        },
        Err(_) => {},
    }
}

/// A poll that reports an event has one at hand: the read that follows returns a chosen event
/// without waiting, and the very event that ended the poll where that arrived in it.
pub proof fn law_polled_event_can_be_read<F: Filter>(
    state: ReaderState,
    connected: bool,
    filter: F,
    outcome: Result<Option<InternalEvent>, Error>,
    timeout: PollTimeout,
    now: u128,
)
    ensures
        state.poll(connected, filter, timeout, now) == StepView::Done(true) ==> {
            let step = state.read_queued(Seq::empty(), connected, filter).2;
            step is Done && filter.accepts(step->Done_0)
        },
        ({
            let (next, polled) = state.poll_resumed(filter, outcome, timeout, now);
            polled == StepView::Done(true) ==> next.read_queued(
                Seq::empty(),
                connected,
                filter,
            ).2 == StepView::Done(outcome->Ok_0->0)
        }),
{
    lemma_first_chosen(filter, state.events);
    let (next, polled) = state.poll_resumed(filter, outcome, timeout, now);
    if polled == StepView::Done(true) {
        assert(next.events[0] == outcome->Ok_0->0);
    }
}

/// A read that succeeds takes the first chosen event and nothing else.
pub proof fn law_read_takes_one_event<F: Filter>(
    state: ReaderState,
    passed: Seq<InternalEvent>,
    connected: bool,
    filter: F,
)
    ensures
        ({
            let (next, left, step) = state.read_queued(passed, connected, filter);
            step matches StepView::Done(event) ==> {
                let at = first_chosen(filter, state.events) as int;
                &&& at < state.events.len() && event == state.events[at]
                &&& filter.accepts(event)
                &&& forall|i: int| 0 <= i < at ==> !(#[trigger] filter.accepts(state.events[i]))
                &&& held(next, left).add(Multiset::singleton(event)) =~= held(state, passed)
            }
        }),
{
    broadcast use group_to_multiset_ensures;

    lemma_first_chosen(filter, state.events);
    let at = first_chosen(filter, state.events) as int;
    if at < state.events.len() {
        let event = state.events[at];
        let before = state.events.take(at);
        let after = state.events.skip(at + 1);
        lemma_single(event);
        assert(state.events =~= before + seq![event] + after);
        lemma_concat(before, seq![event]);
        lemma_concat(before + seq![event], after);
        lemma_concat(after, passed);
        lemma_concat(after + passed, before);
    }
}

/// A read that has to wait loses no event either.
pub proof fn law_waiting_read_keeps_events<F: Filter>(
    state: ReaderState,
    passed: Seq<InternalEvent>,
    filter: F,
    outcome: Result<Option<InternalEvent>, Error>,
)
    ensures
        ({
            let (next, left, step) = state.read_queued(passed, true, filter);
            step is TryRead ==> held(next, left) =~= held(state, passed)
        }),
        ({
            let (next, left, step) = state.read_resumed(passed, true, filter, outcome);
            &&& step is TryRead ==> held(next, left) =~= held(state, passed).add(arrived(outcome))
            &&& step matches StepView::Done(event) ==> held(next, left).add(
                Multiset::singleton(event),
            ) =~= held(state, passed).add(arrived(outcome))
        }),
{
    broadcast use group_to_multiset_ensures;

    let forever = PollTimeout { timeout: None, start: 0 };
    let polled = state.poll_resumed(filter, outcome, forever, 0);
    law_poll_keeps_events(state, passed, filter, outcome, forever, 0);
    law_read_takes_one_event(polled.0, passed, true, filter);
    lemma_concat(passed, state.events);
    lemma_concat(passed, polled.0.events);
}

/// Events that are all chosen are read in the order in which they came.
pub proof fn law_chosen_events_are_read_in_order<F: Filter>(
    state: ReaderState,
    connected: bool,
    filter: F,
)
    requires
        state.events.len() > 0,
        filter.accepts(state.events[0]),
    ensures
        state.read_queued(Seq::empty(), connected, filter) == (
            ReaderState { events: state.events.skip(1), ..state },
            Seq::<InternalEvent>::empty(),
            StepView::Done(state.events[0]),
        ),
{
    assert(state.events.skip(1) + Seq::<InternalEvent>::empty() + state.events.take(0)
        =~= state.events.skip(1));
}

/// A read forever does not end without an event or an error: no answer but a chosen event, or an
/// error that is no interruption, ends it.
pub proof fn law_read_goes_on_until_an_event<F: Filter>(
    state: ReaderState,
    passed: Seq<InternalEvent>,
    filter: F,
    outcome: Result<Option<InternalEvent>, Error>,
)
    requires
        !has_chosen(filter, state.events),
        outcome matches Ok(Some(event)) ==> !filter.accepts(event),
        outcome matches Err(error) ==> error.kind == ErrorKind::Interrupted,
    ensures
        state.read_resumed(passed, true, filter, outcome).2 == StepView::<InternalEvent>::TryRead(
            None,
        ),
{
    lemma_first_chosen(filter, state.events);
}

/// Text that was looked through is handed out as it is: it is not looked through again.
pub proof fn law_processed_paste_is_not_rescanned(
    text: String,
    before: Seq<InternalEvent>,
    after: Seq<InternalEvent>,
    result: InternalEvent,
)
    requires
        hands_out(InternalEvent::ProcessedPaste(text), before, after, result),
    ensures
        result == InternalEvent::Event(Event::Paste(text)),
        after == before,
{
}

/// A paste with reports leaves the rest of its text in the queue, behind the other reports and
/// before everything else, so that whoever reads next finds it.
pub proof fn law_rest_of_paste_stays_in_queue(
    text: String,
    before: Seq<InternalEvent>,
    after: Seq<InternalEvent>,
    result: InternalEvent,
)
    requires
        hands_out(InternalEvent::Event(Event::Paste(text)), before, after, result),
        extract(encode_utf8(text@), 0).0.len() > 0,
    ensures
        ({
            let (reports, rest) = extract(encode_utf8(text@), 0);
            let n = reports.len() as int;
            &&& result@ == reports[0]
            &&& after.len() == n + before.len()
            &&& views(after.take(n - 1)) == reports.skip(1)
            &&& after[n - 1]@ == InternalEventView::ProcessedPaste(decode_utf8(rest))
            &&& unwrapped_event(after[n - 1])@ == InternalEventView::Event(
                EventView::Paste(decode_utf8(rest)),
            )
            &&& after.skip(n) == before
        }),
{
    let (reports, rest) = extract(encode_utf8(text@), 0);
    let n = reports.len() as int;
    let events = extracted(text@);
    law_paste_comes_last(text@);
    assert(is_color(events[0]));
    let front = after.take(n);
    assert(views(front) == events.skip(1));
    assert(views(front)[n - 1] == events.skip(1)[n - 1]);
    assert(views(front)[n - 1] == front[n - 1]@);
    assert(front.take(n - 1) =~= after.take(n - 1));
    assert(views(front.take(n - 1)) =~= views(front).take(n - 1));
    assert(events.skip(1).take(n - 1) =~= reports.skip(1));
}

/// A paste without reports is handed out alone.
pub proof fn law_plain_paste_is_handed_out(
    text: String,
    before: Seq<InternalEvent>,
    after: Seq<InternalEvent>,
    result: InternalEvent,
)
    requires
        hands_out(InternalEvent::Event(Event::Paste(text)), before, after, result),
        extract(encode_utf8(text@), 0).0.len() == 0,
    ensures
        result@ == InternalEventView::Event(EventView::Paste(text@)),
        after == before,
{
    assert(after.skip(0) =~= after);
}

/// What a reader hands out to a stream that asked for input and colors is what such a stream is
/// made for, and so is what it leaves in the queue for it.
pub proof fn law_stream_gets_what_it_is_made_for(
    event: InternalEvent,
    before: Seq<InternalEvent>,
    after: Seq<InternalEvent>,
    result: InternalEvent,
)
    requires
        StreamFilter::InputAndColors.accepts(event),
        hands_out(event, before, after, result),
    ensures
        is_streamed(result),
        forall|i: int|
            0 <= i < after.len() - before.len() ==> StreamFilter::InputAndColors.accepts(
                #[trigger] after[i],
            ),
{
    match event {
        InternalEvent::Event(Event::Paste(text)) => {
            let events = extracted(text@);
            law_paste_comes_last(text@);
            let front = after.take(events.len() - 1);
            assert forall|i: int|
                0 <= i < after.len() - before.len() implies StreamFilter::InputAndColors.accepts(
                #[trigger] after[i],
            ) by {
                assert(views(front)[i] == events.skip(1)[i]);
                assert(views(front)[i] == front[i]@);
                if i + 1 < events.len() - 1 {
                    assert(is_color(events[i + 1]));
                }
            }
        },
        _ => {},
    }
}

/// Reports of default colors are opt-in: only a filter that asks for them chooses them, and every
/// filter of streams chooses the events that applications see.
pub proof fn law_color_reports_are_opt_in(event: InternalEvent)
    ensures
        StreamFilter::Input.accepts(event) <==> EventFilter.accepts(event),
        StreamFilter::Input.accepts(event) ==> StreamFilter::InputAndColors.accepts(event),
        reported_color(event) is Some ==> !StreamFilter::Input.accepts(event)
            && StreamFilter::InputAndColors.accepts(event),
        event is OscColor && reported_color(event) is None
            ==> !StreamFilter::InputAndColors.accepts(event),
{
}

/// Waking a source ends a poll without an event, however much time is left: the source then
/// returns nothing, which makes the poll return `false`. Where time is left, nothing moves.
pub proof fn law_waker_ends_a_poll<F: Filter>(
    state: ReaderState,
    filter: F,
    timeout: PollTimeout,
    now: u128,
)
    ensures
        state.poll_resumed(filter, Ok(None), timeout, now).1 == StepView::Done(false),
        !timeout.is_elapsed(now) ==> state.poll_resumed(filter, Ok(None), timeout, now).0 == state,
{
}

/// A poll says that there is no event only when its time is over, when the source returned nothing
/// or when it was interrupted.
pub proof fn law_poll_does_not_end_early<F: Filter>(
    state: ReaderState,
    connected: bool,
    filter: F,
    outcome: Result<Option<InternalEvent>, Error>,
    timeout: PollTimeout,
    now: u128,
)
    requires
        !timeout.is_elapsed(now),
        outcome matches Ok(event) ==> event is Some,
        outcome matches Err(error) ==> error.kind != ErrorKind::Interrupted,
    ensures
        state.poll(connected, filter, timeout, now) != StepView::Done(false),
        state.poll_resumed(filter, outcome, timeout, now).1 != StepView::Done(false),
{
}

} // verus!
