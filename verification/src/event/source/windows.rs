//! A source that reads records from a Windows console: what it does with the records and with
//! the answers of the console.
//!
//! The source never waits or reads by itself. Each of its methods returns a [`Request`], which
//! says what to ask for next, and for each request there is a method that takes the answer. Key
//! and mouse records belong to the console; they are carried to whoever decodes them.
use crate::error::Error;
use crate::event::types::{Event, InternalEvent};
use crate::time::PollTimeout;
use std::collections::VecDeque;
use vstd::prelude::*;

verus! {

/// The mouse buttons that are held.
#[derive(Debug, Clone, Copy, PartialEq, Eq, Structural)]
pub struct MouseButtonsPressed {
    pub left: bool,
    pub right: bool,
    pub middle: bool,
}

/// A record of the console, with its own key records `K` and mouse records `M`.
#[derive(Debug, Clone, PartialEq, Eq)]
pub enum InputRecord<K, M> {
    /// A key.
    KeyEvent(K),
    /// The mouse, and the buttons that are held from then on.
    MouseEvent { record: M, pressed: MouseButtonsPressed },
    /// The window has a new size.
    WindowBufferSizeEvent { x: i16, y: i16 },
    /// The window gained or lost focus.
    FocusEvent { set_focus: bool },
    /// A record without meaning here.
    Other,
}

/// What to ask for.
#[derive(Debug, PartialEq, Eq)]
pub enum Request<K, M> {
    /// Decode a key, given the first half of a character where one waits for its second:
    /// [`WindowsEventSource::key_decoded`].
    DecodeKey { key: K, surrogate: Option<u16> },
    /// Decode a mouse record, given the buttons that were held before:
    /// [`WindowsEventSource::mouse_decoded`].
    DecodeMouse { mouse: M, pressed: MouseButtonsPressed },
    /// Wait for the console, for at most so long: [`WindowsEventSource::polled`].
    Poll(Option<u128>),
    /// Read all records of the console: [`WindowsEventSource::console_read`].
    ReadConsole,
    /// Nothing more: this is the result.
    Return(Result<Option<InternalEvent>, Error>),
}

/// A size in cells as applications count it: the console counts from 0.
pub open spec fn cells(size: i16) -> u16 {
    if size >= -1 {
        (size + 1) as u16
    } else {
        (size + 0x10001) as u16
    }
}

/// The event that a record gives by itself.
pub open spec fn record_event<K, M>(record: InputRecord<K, M>) -> Option<Event> {
    match record {
        InputRecord::WindowBufferSizeEvent { x, y } => Some(Event::Resize(cells(x), cells(y))),
        InputRecord::FocusEvent { set_focus } => Some(
            if set_focus {
                Event::FocusGained
            } else {
                Event::FocusLost
            },
        ),
        _ => None,
    }
}

fn count_cells(size: i16) -> (r: u16)
    ensures
        r == cells(size),
{
    let count: i32 = size as i32 + 1;
    if count >= 0 {
        count as u16
    } else {
        (count + 0x10000) as u16
    }
}

/// What a [`WindowsEventSource`] holds.
#[verifier::ext_equal]
pub struct SourceState<K, M> {
    /// The records that have not been looked at, the oldest first.
    pub records: Seq<InputRecord<K, M>>,
    /// The first half of a character that waits for its second.
    pub surrogate: Option<u16>,
    /// The mouse buttons that are held.
    pub pressed: MouseButtonsPressed,
}

impl<K, M> SourceState<K, M> {
    /// The beginning of a round: looks at the oldest record, or waits for the console where there
    /// is none. Time can end a call only after a record was looked at.
    pub open spec fn round(self, timeout: PollTimeout, now: u128) -> (
        SourceState<K, M>,
        Request<K, M>,
    )
        decreases self.records.len(), 0int,
    {
        if self.records.len() == 0 {
            (self, Request::Poll(timeout.left(now)))
        } else {
            let rest = SourceState { records: self.records.skip(1), ..self };
            match self.records[0] {
                InputRecord::KeyEvent(record) => (
                    rest,
                    Request::DecodeKey { key: record, surrogate: self.surrogate },
                ),
                InputRecord::MouseEvent { record, pressed } => (
                    SourceState { pressed, ..rest },
                    Request::DecodeMouse { mouse: record, pressed: self.pressed },
                ),
                record => rest.decoded(record_event(record), timeout, now),
            }
        }
    }

    /// What follows a record that was decoded: its event, the end of the call where there is none
    /// and the time is over, or the next record.
    pub open spec fn decoded(self, event: Option<Event>, timeout: PollTimeout, now: u128) -> (
        SourceState<K, M>,
        Request<K, M>,
    )
        decreases self.records.len(), 1int,
    {
        if event is Some {
            (self, Request::Return(Ok(Some(InternalEvent::Event(event->0)))))
        } else if timeout.is_elapsed(now) {
            (self, Request::Return(Ok(None)))
        } else {
            self.round(timeout, now)
        }
    }

    /// What follows a wait that brought nothing to read, or a read.
    pub open spec fn waited(self, timeout: PollTimeout, now: u128) -> (
        SourceState<K, M>,
        Request<K, M>,
    ) {
        if timeout.is_elapsed(now) {
            (self, Request::Return(Ok(None)))
        } else {
            self.round(timeout, now)
        }
    }

    /// The answer to waiting: whether there is something to read, where the wait was not cut
    /// short.
    pub open spec fn polled(
        self,
        timeout: PollTimeout,
        outcome: Result<Option<bool>, Error>,
        now: u128,
    ) -> (SourceState<K, M>, Request<K, M>) {
        match outcome {
            Ok(Some(true)) => (self, Request::ReadConsole),
            Ok(_) => self.waited(timeout, now),
            Err(error) => (self, Request::Return(Err(error))),
        }
    }

    /// The answer to reading.
    pub open spec fn console_read(
        self,
        timeout: PollTimeout,
        outcome: Result<Seq<InputRecord<K, M>>, Error>,
        now: u128,
    ) -> (SourceState<K, M>, Request<K, M>) {
        match outcome {
            Ok(records) => (SourceState { records: self.records + records, ..self }).waited(
                timeout,
                now,
            ),
            Err(error) => (self, Request::Return(Err(error))),
        }
    }
}

/// What the outcome of reading says.
pub open spec fn console_view<K, M>(outcome: Result<Vec<InputRecord<K, M>>, Error>) -> Result<
    Seq<InputRecord<K, M>>,
    Error,
> {
    match outcome {
        Ok(records) => Ok(records@),
        Err(error) => Err(error),
    }
}

/// Appends records in order.
fn append_records<T>(pending: &mut VecDeque<T>, records: Vec<T>)
    ensures
        final(pending)@ == old(pending)@ + records@,
{
    let ghost all = records@;
    assert(pending@ =~= old(pending)@ + all.take(0));
    for record in it: records
        invariant
            it.seq() == all,
            pending@ == old(pending)@ + all.take(it.index()),
    {
        pending.push_back(record);
        assert(pending@ =~= old(pending)@ + all.take(it.index() + 1));
    }
    assert(all.take(all.len() as int) =~= all);
}

/// Reads the console once and queues the records in order. A failure leaves the queue empty.
pub fn refill_pending_input_records<T, E, F: FnOnce() -> Result<Vec<T>, E>>(
    pending_input_records: &mut VecDeque<T>,
    read_console_input: F,
) -> (r: Result<(), E>)
    requires
        old(pending_input_records)@.len() == 0,
        read_console_input.requires(()),
    ensures
        exists|outcome: Result<Vec<T>, E>|
            {
                &&& #[trigger] read_console_input.ensures((), outcome)
                &&& match outcome {
                    Ok(records) => r is Ok && final(pending_input_records)@ == records@,
                    Err(error) => r == Err::<(), E>(error) && final(pending_input_records)@
                        == old(pending_input_records)@,
                }
            },
{
    match read_console_input() {
        Ok(records) => {
            append_records(pending_input_records, records);
            assert(pending_input_records@ =~= records@);
            Ok(())
        },
        Err(error) => Err(error),
    }
}

/// A source that reads records from a Windows console.
#[derive(Debug)]
pub struct WindowsEventSource<K, M> {
    /// The records that have not been looked at, the oldest first.
    pub pending_input_records: VecDeque<InputRecord<K, M>>,
    /// The first half of a character that waits for its second.
    pub surrogate_buffer: Option<u16>,
    /// The mouse buttons that are held.
    pub mouse_buttons_pressed: MouseButtonsPressed,
}

impl<K, M> View for WindowsEventSource<K, M> {
    type V = SourceState<K, M>;

    open spec fn view(&self) -> SourceState<K, M> {
        SourceState {
            records: self.pending_input_records@,
            surrogate: self.surrogate_buffer,
            pressed: self.mouse_buttons_pressed,
        }
    }
}

impl<K, M> WindowsEventSource<K, M> {
    /// A source that has read nothing.
    pub fn new() -> (r: WindowsEventSource<K, M>)
        ensures
            r@ == (SourceState {
                records: Seq::<InputRecord<K, M>>::empty(),
                surrogate: None,
                pressed: MouseButtonsPressed { left: false, right: false, middle: false },
            }),
    {
        WindowsEventSource {
            pending_input_records: VecDeque::new(),
            surrogate_buffer: None,
            mouse_buttons_pressed: MouseButtonsPressed {
                left: false,
                right: false,
                middle: false,
            },
        }
    }

    /// Begins a round of reading an event; a call begins with one.
    pub fn try_read(&mut self, timeout: &PollTimeout, now: u128) -> (r: Request<K, M>)
        ensures
            (final(self)@, r) == old(self)@.round(*timeout, now),
        decreases old(self)@.records.len(),
    {
        match self.pending_input_records.pop_front() {
            Some(record) => {
                assert(self@.records =~= old(self)@.records.skip(1));
                let event = match record {
                    InputRecord::KeyEvent(record) => {
                        return Request::DecodeKey { key: record, surrogate: self.surrogate_buffer };
                    },
                    InputRecord::MouseEvent { record, pressed } => {
                        let before = self.mouse_buttons_pressed;
                        self.mouse_buttons_pressed = pressed;
                        return Request::DecodeMouse { mouse: record, pressed: before };
                    },
                    InputRecord::WindowBufferSizeEvent { x, y } => Some(
                        Event::Resize(count_cells(x), count_cells(y)),
                    ),
                    InputRecord::FocusEvent { set_focus } => Some(
                        if set_focus {
                            Event::FocusGained
                        } else {
                            Event::FocusLost
                        },
                    ),
                    InputRecord::Other => None,
                };
                match event {
                    Some(event) => Request::Return(Ok(Some(InternalEvent::Event(event)))),
                    None => if timeout.elapsed(now) {
                        Request::Return(Ok(None))
                    } else {
                        self.try_read(timeout, now)
                    },
                }
            },
            None => Request::Poll(timeout.leftover(now)),
        }
    }

    fn decoded(&mut self, event: Option<Event>, timeout: &PollTimeout, now: u128) -> (r: Request<
        K,
        M,
    >)
        ensures
            (final(self)@, r) == old(self)@.decoded(event, *timeout, now),
    {
        match event {
            Some(event) => Request::Return(Ok(Some(InternalEvent::Event(event)))),
            None => if timeout.elapsed(now) {
                Request::Return(Ok(None))
            } else {
                self.try_read(timeout, now)
            },
        }
    }

    /// Takes the answer to [`Request::DecodeKey`]: the event, and the first half of a character
    /// that waits for its second.
    pub fn key_decoded(
        &mut self,
        event: Option<Event>,
        surrogate: Option<u16>,
        timeout: &PollTimeout,
        now: u128,
    ) -> (r: Request<K, M>)
        ensures
            (final(self)@, r) == (SourceState { surrogate, ..old(self)@ }).decoded(
                event,
                *timeout,
                now,
            ),
    {
        self.surrogate_buffer = surrogate;
        self.decoded(event, timeout, now)
    }

    /// Takes the answer to [`Request::DecodeMouse`].
    pub fn mouse_decoded(&mut self, event: Option<Event>, timeout: &PollTimeout, now: u128) -> (r:
        Request<K, M>)
        ensures
            (final(self)@, r) == old(self)@.decoded(event, *timeout, now),
    {
        self.decoded(event, timeout, now)
    }

    fn waited(&mut self, timeout: &PollTimeout, now: u128) -> (r: Request<K, M>)
        ensures
            (final(self)@, r) == old(self)@.waited(*timeout, now),
    {
        if timeout.elapsed(now) {
            Request::Return(Ok(None))
        } else {
            self.try_read(timeout, now)
        }
    }

    /// Takes the answer to [`Request::Poll`]: whether there is something to read, where the wait
    /// was not cut short.
    pub fn polled(
        &mut self,
        timeout: &PollTimeout,
        outcome: Result<Option<bool>, Error>,
        now: u128,
    ) -> (r: Request<K, M>)
        ensures
            (final(self)@, r) == old(self)@.polled(*timeout, outcome, now),
    {
        match outcome {
            Ok(Some(true)) => Request::ReadConsole,
            Ok(_) => self.waited(timeout, now),
            Err(error) => Request::Return(Err(error)),
        }
    }

    /// Takes the answer to [`Request::Poll`] where a waker ended the wait: the call ends without an
    /// event, however much time is left.
    pub fn woken() -> (r: Request<K, M>)
        ensures
            r == Request::<K, M>::Return(Ok(None)),
    {
        Request::Return(Ok(None))
    }

    /// Takes the answer to [`Request::ReadConsole`].
    pub fn console_read(
        &mut self,
        timeout: &PollTimeout,
        outcome: Result<Vec<InputRecord<K, M>>, Error>,
        now: u128,
    ) -> (r: Request<K, M>)
        requires
            old(self)@.records.len() == 0,
        ensures
            (final(self)@, r) == old(self)@.console_read(*timeout, console_view(outcome), now),
    {
        let read_console_input = move || -> (r: Result<Vec<InputRecord<K, M>>, Error>)
            ensures
                r == outcome,
            { outcome };
        match refill_pending_input_records(&mut self.pending_input_records, read_console_input) {
            Ok(_) => {
                assert(self@ =~= (SourceState {
                    records: old(self)@.records + outcome->Ok_0@,
                    ..old(self)@
                }));
                self.waited(timeout, now)
            },
            Err(error) => Request::Return(Err(error)),
        }
    }
}

/// Records are looked at in the order in which they came: what remains is the end of what there
/// was, and all that was passed over gives no event.
pub proof fn law_records_are_looked_at_in_order<K, M>(
    state: SourceState<K, M>,
    timeout: PollTimeout,
    now: u128,
)
    ensures
        ({
            let (next, request) = state.round(timeout, now);
            let looked_at = state.records.len() - next.records.len();
            &&& 0 <= looked_at
            &&& next.records == state.records.skip(looked_at)
            &&& forall|i: int| 0 <= i < looked_at - 1 ==> #[trigger] state.records[i] is Other
            &&& looked_at == 0 ==> state.records.len() == 0 && request is Poll
            &&& looked_at > 0 ==> match state.records[looked_at - 1] {
                InputRecord::KeyEvent(key) => request == (Request::<K, M>::DecodeKey {
                    key,
                    surrogate: state.surrogate,
                }),
                InputRecord::MouseEvent { record, pressed } => request == (Request::<
                    K,
                    M,
                >::DecodeMouse { mouse: record, pressed: state.pressed }) && next.pressed
                    == pressed,
                InputRecord::Other => request is Poll || request == Request::<K, M>::Return(
                    Ok(None),
                ),
                record => request == Request::<K, M>::Return(
                    Ok(Some(InternalEvent::Event(record_event(record)->0))),
                ),
            }
        }),
    decreases state.records.len(),
{
    if state.records.len() == 0 {
        assert(state.records.skip(0) =~= state.records);
    } else {
        let rest = SourceState { records: state.records.skip(1), ..state };
        let (next, request) = state.round(timeout, now);
        let event = record_event(state.records[0]);
        if !(state.records[0] is KeyEvent) && !(state.records[0] is MouseEvent) {
            assert((next, request) == rest.decoded(event, timeout, now));
        }
        if state.records[0] is Other && !timeout.is_elapsed(now) {
            law_records_are_looked_at_in_order(rest, timeout, now);
            let looked_at = rest.records.len() - next.records.len();
            assert(rest.records.skip(looked_at) =~= state.records.skip(looked_at + 1));
            assert forall|i: int| 0 <= i < looked_at implies
                #[trigger] state.records[i] is Other by {
                if i > 0 {
                    assert(state.records[i] == rest.records[i - 1]);
                }
            }
            if looked_at > 0 {
                assert(state.records[looked_at] == rest.records[looked_at - 1]);
            }
        }
    }
}

/// Whether a number of cells is one more than a size, in sixteen bits.
pub open spec fn is_one_more(cells: u16, size: i16) -> bool {
    (cells - (size + 1)) % 65536 == 0
}

/// A new window size is one more than the console counts, in sixteen bits, and focus is told as it
/// is; these records are events by themselves.
pub proof fn law_records_are_their_events<K, M>(
    state: SourceState<K, M>,
    x: i16,
    y: i16,
    set_focus: bool,
    rest: Seq<InputRecord<K, M>>,
    timeout: PollTimeout,
    now: u128,
)
    ensures
        ({
            let sized = SourceState {
                records: seq![InputRecord::WindowBufferSizeEvent { x, y }] + rest,
                ..state
            };
            let (next, request) = sized.round(timeout, now);
            &&& next == (SourceState { records: rest, ..state })
            &&& exists|columns: u16, rows: u16|
                {
                    &&& #[trigger] is_one_more(columns, x)
                    &&& #[trigger] is_one_more(rows, y)
                    &&& request == Request::<K, M>::Return(
                        Ok(Some(InternalEvent::Event(Event::Resize(columns, rows)))),
                    )
                }
        }),
        ({
            let focused = SourceState {
                records: seq![InputRecord::FocusEvent { set_focus }] + rest,
                ..state
            };
            focused.round(timeout, now) == (
                SourceState { records: rest, ..state },
                Request::<K, M>::Return(
                    Ok(
                        Some(
                            InternalEvent::Event(
                                if set_focus {
                                    Event::FocusGained
                                } else {
                                    Event::FocusLost
                                },
                            ),
                        ),
                    ),
                ),
            )
        }),
{
    let record = InputRecord::<K, M>::WindowBufferSizeEvent { x, y };
    let sized = SourceState { records: seq![record] + rest, ..state };
    let after = SourceState { records: rest, ..state };
    assert(sized.records.skip(1) =~= rest);
    assert((SourceState { records: sized.records.skip(1), ..sized }) =~= after);
    assert(sized.round(timeout, now) == after.decoded(record_event(record), timeout, now));
    let columns = cells(x);
    let rows = cells(y);
    assert(is_one_more(columns, x));
    assert(is_one_more(rows, y));
    assert(sized.round(timeout, now).1 == Request::<K, M>::Return(
        Ok(Some(InternalEvent::Event(Event::Resize(columns, rows)))),
    ));
    let focus = InputRecord::<K, M>::FocusEvent { set_focus };
    let focused = SourceState { records: seq![focus] + rest, ..state };
    assert(focused.records.skip(1) =~= rest);
    assert((SourceState { records: focused.records.skip(1), ..focused }) =~= after);
    assert(focused.round(timeout, now) == after.decoded(record_event(focus), timeout, now));
}

/// What follows a record that was decoded elsewhere, a wait and a read: the event where there is
/// one, the end of the call where its time is over, and the next record otherwise.
pub proof fn law_answers_are_taken_in_order<K, M>(
    state: SourceState<K, M>,
    event: Event,
    error: Error,
    records: Seq<InputRecord<K, M>>,
    timeout: PollTimeout,
    now: u128,
)
    ensures
        state.decoded(Some(event), timeout, now) == (
            state,
            Request::<K, M>::Return(Ok(Some(InternalEvent::Event(event)))),
        ),
        timeout.is_elapsed(now) ==> state.decoded(None, timeout, now) == (
            state,
            Request::<K, M>::Return(Ok(None)),
        ),
        !timeout.is_elapsed(now) ==> state.decoded(None, timeout, now) == state.round(timeout, now),
        state.polled(timeout, Ok(Some(true)), now) == (state, Request::<K, M>::ReadConsole),
        state.polled(timeout, Ok(Some(false)), now) == state.decoded(None, timeout, now),
        state.polled(timeout, Ok(None), now) == state.decoded(None, timeout, now),
        state.polled(timeout, Err(error), now) == (state, Request::<K, M>::Return(Err(error))),
        state.console_read(timeout, Err(error), now) == (
            state,
            Request::<K, M>::Return(Err(error)),
        ),
        state.console_read(timeout, Ok(records), now) == (SourceState {
            records: state.records + records,
            ..state
        }).decoded(None, timeout, now),
        state.records.len() == 0 ==> state.round(timeout, now) == (
            state,
            Request::<K, M>::Poll(timeout.left(now)),
        ),
{
}

} // verus!
