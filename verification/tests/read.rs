//! Readers, on a source that the tests script.
use crossterm::error::{Error, ErrorKind};
use crossterm::event::filter::{CursorPositionFilter, EventFilter, Filter, OscColorFilter};
use crossterm::event::read::{unwrap_processed_paste, InternalEventReader, PendingRead, Step};
use crossterm::event::source::EventSource;
use crossterm::event::{
    Event, InputDiscardStatus, InternalEvent, KeyCode, OscColorPayload,
};
use crossterm::time::{PollTimeout, MILLISECOND};
use std::collections::VecDeque;

const SECOND: u128 = 1_000 * MILLISECOND;

#[derive(Debug, Clone)]
struct InternalEventFilter;

impl Filter for InternalEventFilter {
    fn accepts(&self, _: InternalEvent) -> bool {
        true
    }

    fn eval(&self, _: &InternalEvent) -> bool {
        true
    }
}

#[derive(Default)]
struct FakeSource {
    events: VecDeque<InternalEvent>,
    error: Option<Error>,
}

impl FakeSource {
    fn new(events: &[InternalEvent]) -> FakeSource {
        FakeSource {
            events: events.to_vec().into(),
            error: Some(Error::new(ErrorKind::Other, "")),
        }
    }

    fn with_events(events: &[InternalEvent]) -> FakeSource {
        FakeSource {
            events: events.to_vec().into(),
            error: None,
        }
    }

    fn try_read(&mut self) -> Result<Option<InternalEvent>, Error> {
        // Return error if set in case there's just one remaining event
        if self.events.len() == 1 {
            if let Some(error) = self.error.take() {
                return Err(error);
            }
        }

        // Return all events from the queue
        if let Some(event) = self.events.pop_front() {
            return Ok(Some(event));
        }

        // Return error if there're no more events
        if let Some(error) = self.error.take() {
            return Err(error);
        }

        // Timeout
        Ok(None)
    }
}

impl EventSource for FakeSource {
    fn buffer_input(&mut self, _input: &[u8], events: &mut VecDeque<InternalEvent>) {
        events.extend(
            self.events
                .drain(..)
                .filter(|event| matches!(event, InternalEvent::Event(_))),
        );
    }

    fn discard_buffered_input(&mut self) -> InputDiscardStatus {
        self.events.clear();
        InputDiscardStatus::Complete
    }
}

fn try_read(reader: &mut InternalEventReader<FakeSource>) -> Result<Option<InternalEvent>, Error> {
    reader.source.as_mut().expect("a source to read").try_read()
}

fn poll<F: Filter>(
    reader: &mut InternalEventReader<FakeSource>,
    timeout: Option<u128>,
    filter: &F,
) -> Result<bool, Error> {
    let timeout = PollTimeout::new(timeout, 0);
    let mut step = reader.poll(&timeout, filter, 0);
    loop {
        step = match step {
            Step::TryRead(_) => {
                let outcome = try_read(reader);
                reader.resume_poll(&timeout, filter, outcome, 0)
            }
            Step::Done(result) => return result,
        };
    }
}

fn read<F: Filter>(
    reader: &mut InternalEventReader<FakeSource>,
    filter: &F,
) -> Result<InternalEvent, Error> {
    let mut pending = PendingRead::new();
    let mut step = reader.read(filter, &mut pending);
    loop {
        step = match step {
            Step::TryRead(_) => {
                let outcome = try_read(reader);
                reader.resume_read(filter, &mut pending, outcome)
            }
            Step::Done(result) => return result,
        };
    }
}

fn read_with_color_reports<F: Filter>(
    reader: &mut InternalEventReader<FakeSource>,
    filter: &F,
) -> Result<InternalEvent, Error> {
    let mut pending = PendingRead::new();
    let mut step = reader.read_with_color_reports(filter, &mut pending);
    loop {
        step = match step {
            Step::TryRead(_) => {
                let outcome = try_read(reader);
                reader.resume_read_with_color_reports(filter, &mut pending, outcome)
            }
            Step::Done(result) => return result,
        };
    }
}

#[test]
fn test_poll_fails_without_event_source() {
    let mut reader: InternalEventReader<FakeSource> = InternalEventReader {
        events: VecDeque::new(),
        source: None,
        skipped_events: Vec::with_capacity(32),
    };

    assert!(poll(&mut reader, None, &InternalEventFilter).is_err());
    assert!(poll(&mut reader, Some(0 * SECOND), &InternalEventFilter)
        .is_err());
    assert!(poll(&mut reader, Some(10 * SECOND), &InternalEventFilter)
        .is_err());
}

#[test]
fn test_poll_returns_true_for_matching_event_in_queue_at_front() {
    let mut reader: InternalEventReader<FakeSource> = InternalEventReader {
        events: vec![InternalEvent::Event(Event::Resize(10, 10))].into(),
        source: None,
        skipped_events: Vec::with_capacity(32),
    };

    assert!(poll(&mut reader, None, &InternalEventFilter).unwrap());
}

#[test]
fn test_poll_returns_true_for_matching_event_in_queue_at_back() {
    let mut reader: InternalEventReader<FakeSource> = InternalEventReader {
        events: vec![
            InternalEvent::Event(Event::Resize(10, 10)),
            InternalEvent::CursorPosition(10, 20),
        ]
        .into(),
        source: None,
        skipped_events: Vec::with_capacity(32),
    };

    assert!(poll(&mut reader, None, &CursorPositionFilter).unwrap());
}

#[test]
fn test_read_returns_matching_event_in_queue_at_front() {
    const EVENT: InternalEvent = InternalEvent::Event(Event::Resize(10, 10));

    let mut reader: InternalEventReader<FakeSource> = InternalEventReader {
        events: vec![EVENT].into(),
        source: None,
        skipped_events: Vec::with_capacity(32),
    };

    assert_eq!(read(&mut reader, &InternalEventFilter).unwrap(), EVENT);
}

#[test]
fn test_read_returns_matching_event_in_queue_at_back() {
    const CURSOR_EVENT: InternalEvent = InternalEvent::CursorPosition(10, 20);

    let mut reader: InternalEventReader<FakeSource> = InternalEventReader {
        events: vec![InternalEvent::Event(Event::Resize(10, 10)), CURSOR_EVENT].into(),
        source: None,
        skipped_events: Vec::with_capacity(32),
    };

    assert_eq!(read(&mut reader, &CursorPositionFilter).unwrap(), CURSOR_EVENT);
}

#[test]
fn test_read_does_not_consume_skipped_event() {
    const SKIPPED_EVENT: InternalEvent = InternalEvent::Event(Event::Resize(10, 10));
    const CURSOR_EVENT: InternalEvent = InternalEvent::CursorPosition(10, 20);

    let mut reader: InternalEventReader<FakeSource> = InternalEventReader {
        events: vec![SKIPPED_EVENT, CURSOR_EVENT].into(),
        source: None,
        skipped_events: Vec::with_capacity(32),
    };

    assert_eq!(read(&mut reader, &CursorPositionFilter).unwrap(), CURSOR_EVENT);
    assert_eq!(read(&mut reader, &InternalEventFilter).unwrap(), SKIPPED_EVENT);
}

#[test]
fn color_stream_leaves_extracted_paste_in_shared_reader() {
    let key = InternalEvent::Event(Event::Key(KeyCode::Char('z').into()));
    let mut reader: InternalEventReader<FakeSource> = InternalEventReader {
        events: VecDeque::from([
            InternalEvent::Event(Event::Paste(
                "hello \x1b]11;rgb:11/22/33\x07world".to_string(),
            )),
            key.clone(),
        ]),
        source: None,
        skipped_events: Vec::new(),
    };

    assert_eq!(
        read_with_color_reports(&mut reader, &InternalEventFilter)
            .unwrap(),
        InternalEvent::OscColor {
            slot: 11,
            payload: OscColorPayload::Rgb {
                r: 17,
                g: 34,
                b: 51
            },
        }
    );
    // A replacement reader, including an ordinary EventStream, must still see the paste.
    assert_eq!(
        read(&mut reader, &EventFilter).unwrap(),
        InternalEvent::Event(Event::Paste("hello world".to_string()))
    );
    assert_eq!(read(&mut reader, &EventFilter).unwrap(), key);
}

#[test]
fn color_stream_does_not_rescan_the_retained_paste() {
    for (input, retained) in [
        (
            "before\x1b]11;rgb:11/22/\x1b]10;rgb:aa/bb/cc\x0733\x07after",
            "before\x1b]11;rgb:11/22/33\x07after",
        ),
        (
            "\x1b\x1b]10;rgb:aa/bb/cc\x07]11;rgb:44/55/66\x07plain",
            "\x1b]11;rgb:44/55/66\x07plain",
        ),
    ] {
        let key = InternalEvent::Event(Event::Key(KeyCode::Char('z').into()));
        let mut reader: InternalEventReader<FakeSource> = InternalEventReader {
            events: VecDeque::from([
                InternalEvent::Event(Event::Paste(input.to_string())),
                key.clone(),
            ]),
            source: None,
            skipped_events: Vec::new(),
        };
        assert_eq!(
            read_with_color_reports(&mut reader, &InternalEventFilter)
                .unwrap(),
            InternalEvent::OscColor {
                slot: 10,
                payload: OscColorPayload::Rgb {
                    r: 170,
                    g: 187,
                    b: 204
                },
            }
        );
        assert!(poll(&mut reader, Some(0), &EventFilter).unwrap());
        assert_eq!(
            read_with_color_reports(&mut reader, &InternalEventFilter)
                .unwrap(),
            InternalEvent::Event(Event::Paste(retained.to_string()))
        );
        assert_eq!(read(&mut reader, &EventFilter).unwrap(), key);
    }
}

#[test]
fn test_buffer_input_preserves_events_around_terminal_responses() {
    let input = [
        InternalEvent::Event(Event::Resize(10, 10)),
        InternalEvent::CursorPosition(4, 8),
        InternalEvent::Event(Event::Resize(20, 20)),
    ];
    let mut reader: InternalEventReader<FakeSource> = InternalEventReader {
        events: VecDeque::new(),
        source: Some(FakeSource::with_events(&input)),
        skipped_events: Vec::with_capacity(32),
    };

    reader.buffer_input(b"raw terminal input").unwrap();

    assert_eq!(
        reader.events,
        VecDeque::from([
            InternalEvent::Event(Event::Resize(10, 10)),
            InternalEvent::Event(Event::Resize(20, 20)),
        ])
    );
}

#[test]
fn test_discard_buffered_input_clears_all_event_queues() {
    let mut reader: InternalEventReader<FakeSource> = InternalEventReader {
        events: VecDeque::from([InternalEvent::Event(Event::Resize(10, 10))]),
        source: Some(FakeSource::with_events(&[InternalEvent::Event(
            Event::Resize(20, 20),
        )])),
        skipped_events: vec![InternalEvent::CursorPosition(4, 8)],
    };

    assert_eq!(
        reader.discard_buffered_input().unwrap(),
        InputDiscardStatus::Complete
    );

    assert!(reader.events.is_empty());
    assert!(reader.skipped_events.is_empty());
    assert_eq!(
        reader
            .source
            .as_mut()
            .unwrap()
            .try_read()
            .unwrap(),
        None
    );
}

#[test]
fn test_poll_timeouts_if_source_has_no_events() {
    let source = FakeSource::default();

    let mut reader: InternalEventReader<FakeSource> = InternalEventReader {
        events: VecDeque::new(),
        source: Some(source),
        skipped_events: Vec::with_capacity(32),
    };

    assert!(!poll(&mut reader, Some(0 * SECOND), &InternalEventFilter)
        .unwrap());
}

#[test]
fn test_poll_returns_true_if_source_has_at_least_one_event() {
    let source = FakeSource::with_events(&[InternalEvent::Event(Event::Resize(10, 10))]);

    let mut reader: InternalEventReader<FakeSource> = InternalEventReader {
        events: VecDeque::new(),
        source: Some(source),
        skipped_events: Vec::with_capacity(32),
    };

    assert!(poll(&mut reader, None, &InternalEventFilter).unwrap());
    assert!(poll(&mut reader, Some(0 * SECOND), &InternalEventFilter)
        .unwrap());
}

#[test]
fn test_reads_returns_event_if_source_has_at_least_one_event() {
    const EVENT: InternalEvent = InternalEvent::Event(Event::Resize(10, 10));

    let source = FakeSource::with_events(&[EVENT]);

    let mut reader: InternalEventReader<FakeSource> = InternalEventReader {
        events: VecDeque::new(),
        source: Some(source),
        skipped_events: Vec::with_capacity(32),
    };

    assert_eq!(read(&mut reader, &InternalEventFilter).unwrap(), EVENT);
}

#[test]
fn test_read_returns_events_if_source_has_events() {
    const EVENT: InternalEvent = InternalEvent::Event(Event::Resize(10, 10));

    let source = FakeSource::with_events(&[EVENT, EVENT, EVENT]);

    let mut reader: InternalEventReader<FakeSource> = InternalEventReader {
        events: VecDeque::new(),
        source: Some(source),
        skipped_events: Vec::with_capacity(32),
    };

    assert_eq!(read(&mut reader, &InternalEventFilter).unwrap(), EVENT);
    assert_eq!(read(&mut reader, &InternalEventFilter).unwrap(), EVENT);
    assert_eq!(read(&mut reader, &InternalEventFilter).unwrap(), EVENT);
}

#[test]
fn test_poll_returns_false_after_all_source_events_are_consumed() {
    const EVENT: InternalEvent = InternalEvent::Event(Event::Resize(10, 10));

    let source = FakeSource::with_events(&[EVENT, EVENT, EVENT]);

    let mut reader: InternalEventReader<FakeSource> = InternalEventReader {
        events: VecDeque::new(),
        source: Some(source),
        skipped_events: Vec::with_capacity(32),
    };

    assert_eq!(read(&mut reader, &InternalEventFilter).unwrap(), EVENT);
    assert_eq!(read(&mut reader, &InternalEventFilter).unwrap(), EVENT);
    assert_eq!(read(&mut reader, &InternalEventFilter).unwrap(), EVENT);
    assert!(!poll(&mut reader, Some(0 * SECOND), &InternalEventFilter)
        .unwrap());
}

#[test]
fn test_poll_propagates_error() {
    let mut reader: InternalEventReader<FakeSource> = InternalEventReader {
        events: VecDeque::new(),
        source: Some(FakeSource::new(&[])),
        skipped_events: Vec::with_capacity(32),
    };

    assert_eq!(
        poll(&mut reader, Some(0 * SECOND), &InternalEventFilter)
            .err()
            .map(|e| format!("{:?}", &e.kind())),
        Some(format!("{:?}", ErrorKind::Other))
    );
}

#[test]
fn test_read_propagates_error() {
    let mut reader: InternalEventReader<FakeSource> = InternalEventReader {
        events: VecDeque::new(),
        source: Some(FakeSource::new(&[])),
        skipped_events: Vec::with_capacity(32),
    };

    assert_eq!(
        read(&mut reader, &InternalEventFilter)
            .err()
            .map(|e| format!("{:?}", &e.kind())),
        Some(format!("{:?}", ErrorKind::Other))
    );
}

#[test]
fn test_poll_continues_after_error() {
    const EVENT: InternalEvent = InternalEvent::Event(Event::Resize(10, 10));

    let source = FakeSource::new(&[EVENT, EVENT]);

    let mut reader: InternalEventReader<FakeSource> = InternalEventReader {
        events: VecDeque::new(),
        source: Some(source),
        skipped_events: Vec::with_capacity(32),
    };

    assert_eq!(read(&mut reader, &InternalEventFilter).unwrap(), EVENT);
    assert!(read(&mut reader, &InternalEventFilter).is_err());
    assert!(poll(&mut reader, Some(0 * SECOND), &InternalEventFilter)
        .unwrap());
}

#[test]
fn test_read_continues_after_error() {
    const EVENT: InternalEvent = InternalEvent::Event(Event::Resize(10, 10));

    let source = FakeSource::new(&[EVENT, EVENT]);

    let mut reader: InternalEventReader<FakeSource> = InternalEventReader {
        events: VecDeque::new(),
        source: Some(source),
        skipped_events: Vec::with_capacity(32),
    };

    assert_eq!(read(&mut reader, &InternalEventFilter).unwrap(), EVENT);
    assert!(read(&mut reader, &InternalEventFilter).is_err());
    assert_eq!(read(&mut reader, &InternalEventFilter).unwrap(), EVENT);
}

fn resize(size: u16) -> InternalEvent {
    InternalEvent::Event(Event::Resize(size, size))
}

#[test]
fn poll_keeps_the_events_it_passes_over_behind_the_chosen_one() {
    let cursor = InternalEvent::CursorPosition(4, 8);
    let mut reader = InternalEventReader {
        events: VecDeque::from([resize(1)]),
        source: Some(FakeSource::with_events(&[resize(2), resize(3), cursor.clone()])),
        skipped_events: Vec::new(),
    };
    assert!(poll(&mut reader, None, &CursorPositionFilter).unwrap());
    assert_eq!(
        reader.events,
        VecDeque::from([cursor.clone(), resize(1), resize(2), resize(3)])
    );
    assert!(reader.skipped_events.is_empty());
    assert_eq!(read(&mut reader, &CursorPositionFilter).unwrap(), cursor);
    for size in 1..=3 {
        assert_eq!(read(&mut reader, &EventFilter).unwrap(), resize(size));
    }
}

#[test]
fn poll_keeps_the_events_it_passes_over_when_its_time_is_over() {
    let mut reader = InternalEventReader {
        events: VecDeque::from([resize(1)]),
        source: Some(FakeSource::with_events(&[resize(2)])),
        skipped_events: Vec::new(),
    };
    assert!(!poll(&mut reader, Some(0), &CursorPositionFilter).unwrap());
    assert_eq!(reader.events, VecDeque::from([resize(1), resize(2)]));
}

#[test]
fn poll_asks_for_the_time_that_is_left() {
    let mut reader = InternalEventReader::new(Some(FakeSource::default()));
    let timeout = PollTimeout::new(Some(10), 100);
    assert_eq!(
        reader.poll(&timeout, &CursorPositionFilter, 100),
        Step::TryRead(Some(10))
    );
    assert_eq!(
        reader.resume_poll(&timeout, &CursorPositionFilter, Ok(Some(resize(1))), 107),
        Step::TryRead(Some(3))
    );
    assert_eq!(
        reader.resume_poll(&timeout, &CursorPositionFilter, Ok(Some(resize(2))), 110),
        Step::Done(Ok(false))
    );
    assert_eq!(reader.events, VecDeque::from([resize(1), resize(2)]));
}

#[test]
fn a_woken_source_ends_a_poll_but_not_a_read() {
    let mut reader = InternalEventReader::new(Some(FakeSource::default()));
    let forever = PollTimeout::new(None, 0);
    assert_eq!(
        reader.poll(&forever, &CursorPositionFilter, 0),
        Step::TryRead(None)
    );
    assert_eq!(
        reader.resume_poll(&forever, &CursorPositionFilter, Ok(Some(resize(1))), 0),
        Step::TryRead(None)
    );
    assert_eq!(
        reader.resume_poll(&forever, &CursorPositionFilter, Ok(None), 0),
        Step::Done(Ok(false))
    );
    assert!(reader.events.is_empty());
    assert_eq!(reader.skipped_events, vec![resize(1)]);

    let mut pending = PendingRead::new();
    assert_eq!(
        reader.read(&CursorPositionFilter, &mut pending),
        Step::TryRead(None)
    );
    assert_eq!(
        reader.resume_read(&CursorPositionFilter, &mut pending, Ok(None)),
        Step::TryRead(None)
    );
    let cursor = InternalEvent::CursorPosition(4, 8);
    assert_eq!(
        reader.resume_read(&CursorPositionFilter, &mut pending, Ok(Some(cursor.clone()))),
        Step::Done(Ok(cursor))
    );
    assert_eq!(reader.events, VecDeque::from([resize(1)]));
    assert!(reader.skipped_events.is_empty());
}

#[test]
fn a_source_without_time_ends_a_poll_and_queues_what_was_passed_over() {
    let mut reader = InternalEventReader::new(Some(FakeSource::default()));
    let timeout = PollTimeout::new(Some(10), 0);
    assert_eq!(
        reader.resume_poll(&timeout, &CursorPositionFilter, Ok(Some(resize(1))), 9),
        Step::TryRead(Some(1))
    );
    assert_eq!(
        reader.resume_poll(&timeout, &CursorPositionFilter, Ok(None), 10),
        Step::Done(Ok(false))
    );
    assert_eq!(reader.events, VecDeque::from([resize(1)]));
    assert!(reader.skipped_events.is_empty());
}

#[test]
fn an_interruption_ends_a_poll_but_not_a_read() {
    let mut reader: InternalEventReader<FakeSource> = InternalEventReader {
        events: VecDeque::from([resize(1)]),
        source: Some(FakeSource::default()),
        skipped_events: Vec::new(),
    };
    let interrupted = Error::new(ErrorKind::Interrupted, "");
    let timeout = PollTimeout::new(None, 0);
    assert_eq!(
        reader.resume_poll(&timeout, &CursorPositionFilter, Err(interrupted.clone()), 0),
        Step::Done(Ok(false))
    );
    let mut pending = PendingRead::new();
    assert_eq!(
        reader.read(&CursorPositionFilter, &mut pending),
        Step::TryRead(None)
    );
    assert_eq!(
        reader.resume_read(&CursorPositionFilter, &mut pending, Err(interrupted)),
        Step::TryRead(None)
    );
    let cursor = InternalEvent::CursorPosition(4, 8);
    assert_eq!(
        reader.resume_read(&CursorPositionFilter, &mut pending, Ok(Some(cursor.clone()))),
        Step::Done(Ok(cursor))
    );
    assert_eq!(reader.events, VecDeque::from([resize(1)]));
    assert!(pending.passed.is_empty());
}

#[test]
fn a_read_puts_what_it_passed_over_behind_the_rest() {
    let cursor = InternalEvent::CursorPosition(4, 8);
    let mut reader = InternalEventReader {
        events: VecDeque::from([resize(1), resize(2), cursor.clone(), resize(3)]),
        source: None,
        skipped_events: Vec::new(),
    };
    assert_eq!(read(&mut reader, &CursorPositionFilter).unwrap(), cursor);
    assert_eq!(
        reader.events,
        VecDeque::from([resize(3), resize(1), resize(2)])
    );
}

#[test]
fn a_read_that_fails_drops_what_it_passed_over() {
    let mut reader: InternalEventReader<FakeSource> = InternalEventReader {
        events: VecDeque::from([resize(1)]),
        source: None,
        skipped_events: Vec::new(),
    };
    let error = read(&mut reader, &CursorPositionFilter).unwrap_err();
    assert_eq!(error.kind(), ErrorKind::Other);
    assert_eq!(error.message, "Failed to initialize input reader");
    assert!(reader.events.is_empty());
}

#[test]
fn a_reader_without_a_source_takes_and_discards_no_input() {
    let mut reader: InternalEventReader<FakeSource> = InternalEventReader {
        events: VecDeque::from([resize(1)]),
        source: None,
        skipped_events: Vec::new(),
    };
    for error in [
        reader.buffer_input(b"a").unwrap_err(),
        reader.discard_buffered_input().unwrap_err(),
    ] {
        assert_eq!(error.kind(), ErrorKind::Other);
        assert_eq!(error.message, "Failed to initialize input reader");
    }
    assert_eq!(reader.events, VecDeque::from([resize(1)]));
}

#[test]
fn only_reports_of_the_slot_are_chosen() {
    let report = |slot| InternalEvent::OscColor {
        slot,
        payload: OscColorPayload::Unrecognized("?".to_string()),
    };
    assert!(OscColorFilter { slot: 10 }.eval(&report(10)));
    assert!(!OscColorFilter { slot: 10 }.eval(&report(11)));
    assert!(!OscColorFilter { slot: 10 }.eval(&resize(10)));
    assert!(EventFilter.eval(&InternalEvent::ProcessedPaste("text".to_string())));
    assert!(!EventFilter.eval(&report(10)));
}

#[test]
fn only_processed_pastes_are_unwrapped() {
    assert_eq!(
        unwrap_processed_paste(InternalEvent::ProcessedPaste("text".to_string())),
        InternalEvent::Event(Event::Paste("text".to_string()))
    );
    assert_eq!(unwrap_processed_paste(resize(1)), resize(1));
}
