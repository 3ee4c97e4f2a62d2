//! Sources of events.
pub mod unix;
pub mod windows;

use crate::event::types::{
    lemma_views_push, views, EventView, InputDiscardStatus, InternalEvent, InternalEventView,
};
use std::collections::VecDeque;
use vstd::prelude::*;

verus! {

/// The part of a source of events that a reader deals with between reads. What a source does is
/// for the source to say; by itself the trait says nothing of it.
pub trait EventSource: Sized {
    /// What holds of a source between calls.
    open spec fn in_order(&self) -> bool {
        true
    }

    /// Whether bytes that were consumed elsewhere turn one source into another and decode to these
    /// events.
    open spec fn buffers(
        before: Self,
        input: Seq<u8>,
        after: Self,
        decoded: Seq<InternalEvent>,
    ) -> bool {
        true
    }

    /// Whether discarding turns one source into another with this report.
    open spec fn discards(before: Self, after: Self, status: InputDiscardStatus) -> bool {
        true
    }

    /// Decodes bytes that were consumed elsewhere and appends their events in order.
    fn buffer_input(&mut self, input: &[u8], events: &mut VecDeque<InternalEvent>)
        requires
            old(self).in_order(),
        ensures
            final(self).in_order(),
            exists|decoded: Seq<InternalEvent>| #[trigger]
                Self::buffers(*old(self), input@, *final(self), decoded) && final(events)@ == old(
                    events,
                )@ + decoded,
    ;

    /// Discards the input that the source has buffered.
    fn discard_buffered_input(&mut self) -> (r: InputDiscardStatus)
        requires
            old(self).in_order(),
        ensures
            final(self).in_order(),
            Self::discards(*old(self), *final(self), r),
    ;
}

/// The events among the decoded ones that applications see.
pub open spec fn application_events(events: Seq<InternalEventView>) -> Seq<InternalEventView> {
    events.filter(|event: InternalEventView| event is Event)
}

/// The same for the events themselves.
pub open spec fn for_applications(events: Seq<InternalEvent>) -> Seq<InternalEvent> {
    events.filter(|event: InternalEvent| event is Event)
}

pub(crate) proof fn lemma_for_applications_views(events: Seq<InternalEvent>)
    ensures
        views(for_applications(events)) == application_events(views(events)),
    decreases events.len(),
{
    reveal(Seq::filter);
    if events.len() == 0 {
        assert(views(for_applications(events)) =~= application_events(views(events)));
    } else {
        lemma_for_applications_views(events.drop_last());
        assert(views(events).drop_last() =~= views(events.drop_last()));
        if events.last() is Event {
            lemma_views_push(for_applications(events.drop_last()), events.last());
        }
    }
}

/// The events that applications see among two queues are those of the one and of the other.
pub(crate) proof fn lemma_application_events_split(
    a: Seq<InternalEventView>,
    b: Seq<InternalEventView>,
)
    ensures
        application_events(a + b) == application_events(a) + application_events(b),
{
    Seq::filter_distributes_over_add(a, b, |event: InternalEventView| event is Event);
}

/// Moves the events that applications see to the back of a queue and drops the others.
pub(crate) fn move_application_events(
    from: &mut VecDeque<InternalEvent>,
    to: &mut VecDeque<InternalEvent>,
)
    ensures
        final(from)@ == Seq::<InternalEvent>::empty(),
        final(to)@ == old(to)@ + for_applications(old(from)@),
{
    let ghost all = from@;
    let ghost mut taken: int = 0;
    proof {
        reveal(Seq::filter);
        assert(all.skip(0) =~= all);
        assert(all.take(0) =~= Seq::<InternalEvent>::empty());
        assert(to@ =~= old(to)@ + for_applications(all.take(0)));
    }
    loop
        invariant
            0 <= taken <= all.len(),
            from@ == all.skip(taken),
            to@ == old(to)@ + for_applications(all.take(taken)),
        ensures
            taken == all.len(),
        decreases all.len() - taken,
    {
        match from.pop_front() {
            Some(event) => {
                proof {
                    reveal(Seq::filter);
                    assert(all.take(taken + 1).drop_last() =~= all.take(taken));
                    assert(from@ =~= all.skip(taken + 1));
                    taken = taken + 1;
                }
                if let InternalEvent::Event(_) = &event {
                    to.push_back(event);
                }
                assert(to@ =~= old(to)@ + for_applications(all.take(taken)));
            },
            None => {
                break;
            },
        }
    }
    assert(all.take(taken) =~= all);
}

/// Applications see every event that is one for them, in order, and none of the answers of the
/// terminal.
pub proof fn law_applications_see_their_events(
    events: Seq<InternalEventView>,
    event: EventView,
    other: InternalEventView,
)
    requires
        !(other is Event),
    ensures
        application_events(Seq::empty()) == Seq::<InternalEventView>::empty(),
        application_events(events.push(InternalEventView::Event(event))) == application_events(
            events,
        ).push(InternalEventView::Event(event)),
        application_events(events.push(other)) == application_events(events),
{
    reveal(Seq::filter);
    let more = events.push(InternalEventView::Event(event));
    assert(more.drop_last() =~= events);
    assert(events.push(other).drop_last() =~= events);
}

} // verus!
