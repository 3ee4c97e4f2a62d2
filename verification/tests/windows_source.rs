//! Records of a Windows console.
use crossterm::error::{Error, ErrorKind};
use crossterm::event::source::windows::{
    refill_pending_input_records, InputRecord, MouseButtonsPressed, Request, WindowsEventSource,
};
use crossterm::event::{Event, InternalEvent, KeyCode};
use crossterm::time::PollTimeout;
use std::cell::Cell;
use std::collections::VecDeque;

#[test]
fn refill_pending_input_records_reads_once_and_preserves_order() {
    let read_count = Cell::new(0);
    let records = vec![1, 2, 3];
    let mut pending = VecDeque::new();

    refill_pending_input_records::<i32, Error, _>(&mut pending, || {
        read_count.set(read_count.get() + 1);
        Ok(records.clone())
    })
    .unwrap();

    assert_eq!(read_count.get(), 1);
    assert_eq!(pending.into_iter().collect::<Vec<_>>(), records);
}

#[test]
fn refill_pending_input_records_propagates_read_errors() {
    let mut pending = VecDeque::<u8>::new();
    let error = refill_pending_input_records(&mut pending, || {
        Err(Error::new(ErrorKind::Other, "read failed"))
    })
    .unwrap_err();

    assert_eq!(error.kind(), ErrorKind::Other);
    assert!(pending.is_empty());
}

const HELD: MouseButtonsPressed = MouseButtonsPressed {
    left: true,
    right: false,
    middle: false,
};

const RELEASED: MouseButtonsPressed = MouseButtonsPressed {
    left: false,
    right: false,
    middle: false,
};

#[test]
fn records_are_looked_at_in_order() {
    let forever = PollTimeout::new(None, 0);
    let mut source: WindowsEventSource<char, u8> = WindowsEventSource::new();
    assert_eq!(source.try_read(&forever, 0), Request::Poll(None));
    assert_eq!(
        source.polled(&forever, Ok(Some(true)), 0),
        Request::ReadConsole
    );
    let records = vec![
        InputRecord::Other,
        InputRecord::KeyEvent('a'),
        InputRecord::MouseEvent {
            record: 7,
            pressed: HELD,
        },
        InputRecord::WindowBufferSizeEvent { x: 79, y: 23 },
        InputRecord::FocusEvent { set_focus: true },
        InputRecord::FocusEvent { set_focus: false },
        InputRecord::MouseEvent {
            record: 8,
            pressed: RELEASED,
        },
    ];
    assert_eq!(
        source.console_read(&forever, Ok(records), 0),
        Request::DecodeKey {
            key: 'a',
            surrogate: None
        }
    );
    // A key that gives no event is followed by the next record.
    assert_eq!(
        source.key_decoded(None, Some(0xd83d), &forever, 0),
        Request::DecodeMouse {
            mouse: 7,
            pressed: RELEASED
        }
    );
    assert_eq!(source.surrogate_buffer, Some(0xd83d));
    assert_eq!(
        source.mouse_decoded(None, &forever, 0),
        Request::Return(Ok(Some(InternalEvent::Event(Event::Resize(80, 24)))))
    );
    assert_eq!(
        source.try_read(&forever, 0),
        Request::Return(Ok(Some(InternalEvent::Event(Event::FocusGained))))
    );
    assert_eq!(
        source.try_read(&forever, 0),
        Request::Return(Ok(Some(InternalEvent::Event(Event::FocusLost))))
    );
    assert_eq!(
        source.try_read(&forever, 0),
        Request::DecodeMouse {
            mouse: 8,
            pressed: HELD
        }
    );
    assert_eq!(source.mouse_decoded(None, &forever, 0), Request::Poll(None));
}

#[test]
fn window_sizes_wrap_as_sixteen_bits() {
    let forever = PollTimeout::new(None, 0);
    for (x, columns) in [(0, 1), (-1, 0), (-2, 65_535), (i16::MAX, 32_768)] {
        let mut source: WindowsEventSource<char, u8> = WindowsEventSource::new();
        source
            .pending_input_records
            .push_back(InputRecord::WindowBufferSizeEvent { x, y: 0 });
        assert_eq!(
            source.try_read(&forever, 0),
            Request::Return(Ok(Some(InternalEvent::Event(Event::Resize(columns, 1)))))
        );
    }
}

#[test]
fn console_calls_end_in_time_and_report_failures() {
    let timeout = PollTimeout::new(Some(10), 0);
    let mut source: WindowsEventSource<char, u8> = WindowsEventSource::new();
    assert_eq!(source.try_read(&timeout, 4), Request::Poll(Some(6)));
    assert_eq!(
        source.polled(&timeout, Ok(Some(false)), 9),
        Request::Poll(Some(1))
    );
    assert_eq!(
        source.polled(&timeout, Ok(None), 10),
        Request::Return(Ok(None))
    );
    // A record is looked at even when the time is over.
    assert_eq!(
        source.console_read(&timeout, Ok(vec![InputRecord::KeyEvent('a')]), 10),
        Request::Return(Ok(None))
    );
    assert_eq!(
        source.try_read(&timeout, 10),
        Request::DecodeKey {
            key: 'a',
            surrogate: None
        }
    );
    let key = Event::Key(KeyCode::Char('a').into());
    assert_eq!(
        source.key_decoded(Some(key.clone()), None, &timeout, 10),
        Request::Return(Ok(Some(InternalEvent::Event(key))))
    );

    assert_eq!(
        WindowsEventSource::<char, u8>::woken(),
        Request::Return(Ok(None))
    );
    let error = Error::new(ErrorKind::Other, "console");
    assert_eq!(
        source.polled(&timeout, Err(error.clone()), 0),
        Request::Return(Err(error.clone()))
    );
    assert_eq!(
        source.console_read(&timeout, Err(error.clone()), 0),
        Request::Return(Err(error))
    );
}
