//! A source that waits with `poll`, on a terminal that the tests script.
use crossterm::error::{Error, ErrorKind};
use crossterm::event::source::unix::tty::{BUFFERED_ESCAPE_TIMEOUT, OSC_TIMEOUT};
use crossterm::event::source::unix::tty_source::{
    read_complete, ReadComplete, Ready, Request, UnixInternalEventSource, TTY_BUFFER_SIZE,
};
use crossterm::event::source::EventSource;
use crossterm::event::{
    Event, InputDiscardStatus, InternalEvent, KeyCode, KeyEvent, KeyModifiers, OscColorPayload,
};
use crossterm::time::{PollTimeout, MILLISECOND};
use std::collections::VecDeque;

/// A terminal with its own clock, which only moves when it is waited for.
#[derive(Default)]
struct Terminal {
    now: u128,
    input: VecDeque<u8>,
    endless: bool,
    winch: bool,
    wake: bool,
    reads: usize,
}

impl Terminal {
    fn write_all(&mut self, bytes: &[u8]) {
        self.input.extend(bytes);
    }

    fn wait(&mut self, timeout: Option<u128>) -> Ready {
        let ready = Ready {
            tty: self.endless || !self.input.is_empty(),
            winch: self.winch,
            wake: self.wake,
        };
        if !ready.tty && !ready.winch && !ready.wake {
            self.now += timeout.expect("the call would never end");
        }
        ready
    }

    fn read(&mut self) -> Vec<u8> {
        self.reads += 1;
        if self.endless {
            self.now += MILLISECOND;
            return vec![b'y'; TTY_BUFFER_SIZE];
        }
        let count = self.input.len().min(TTY_BUFFER_SIZE);
        self.input.drain(..count).collect()
    }

    fn try_read(
        &mut self,
        source: &mut UnixInternalEventSource,
        timeout: Option<u128>,
    ) -> Result<Option<InternalEvent>, Error> {
        let timeout = PollTimeout::new(timeout, self.now);
        let mut request = source.try_read(&timeout, self.now);
        loop {
            request = match request {
                Request::Poll(wait) => {
                    let ready = self.wait(wait);
                    source.polled(&timeout, Ok(ready), self.now)
                }
                Request::ReadTty(ready) => {
                    let bytes = self.read();
                    source.tty_read(&timeout, ready, Ok(&bytes), self.now)
                }
                Request::CountAvailable(ready) => {
                    let count = if self.endless { 1 } else { self.input.len() as u64 };
                    source.tty_counted(&timeout, ready, Ok(count), self.now)
                }
                Request::DrainSignals => {
                    self.winch = false;
                    UnixInternalEventSource::signals_drained(Ok(()))
                }
                Request::QuerySize => UnixInternalEventSource::size_queried(Ok((80, 24))),
                Request::DrainWake => {
                    self.wake = false;
                    UnixInternalEventSource::wake_drained(Ok(()))
                }
                Request::Return(result) => return result,
            };
        }
    }
}

fn source_with_input() -> (UnixInternalEventSource, Terminal) {
    (UnixInternalEventSource::new(), Terminal::default())
}

fn key(code: KeyCode, modifiers: KeyModifiers) -> InternalEvent {
    InternalEvent::Event(Event::Key(KeyEvent::new(code, modifiers)))
}

#[test]
fn live_color_report_can_split_after_escape() {
    let (mut source, mut terminal) = source_with_input();
    terminal.write_all(b"\x1b");
    assert_eq!(
        terminal
            .try_read(&mut source, Some(MILLISECOND))
            .unwrap(),
        None
    );
    terminal.write_all(b"]11;rgb:11/22/33\x07z");
    assert_eq!(
        terminal
            .try_read(&mut source, Some(100 * MILLISECOND))
            .unwrap(),
        Some(InternalEvent::OscColor {
            slot: 11,
            payload: OscColorPayload::Rgb {
                r: 17,
                g: 34,
                b: 51
            },
        })
    );
    assert_eq!(
        terminal
            .try_read(&mut source, Some(100 * MILLISECOND))
            .unwrap(),
        Some(InternalEvent::Event(Event::Key(KeyCode::Char('z').into())))
    );
}

#[test]
fn separate_live_escape_presses_are_preserved() {
    let (mut source, mut terminal) = source_with_input();
    terminal.write_all(b"\x1b");
    assert_eq!(
        terminal
            .try_read(&mut source, Some(MILLISECOND))
            .unwrap(),
        None
    );
    terminal.write_all(b"\x1b");
    for _ in 0..2 {
        assert_eq!(
            terminal
                .try_read(&mut source, Some(100 * MILLISECOND))
                .unwrap(),
            Some(InternalEvent::Event(Event::Key(KeyCode::Esc.into())))
        );
    }
}

#[test]
fn standalone_live_escape_has_a_bounded_wait() {
    let (mut source, mut terminal) = source_with_input();
    terminal.write_all(b"\x1b");
    assert_eq!(
        terminal
            .try_read(&mut source, Some(100 * MILLISECOND))
            .unwrap(),
        Some(InternalEvent::Event(Event::Key(KeyCode::Esc.into())))
    );
    assert_eq!(terminal.now, BUFFERED_ESCAPE_TIMEOUT);
    assert_eq!(
        source.discard_buffered_input(),
        InputDiscardStatus::Complete
    );
}

#[test]
fn tty_expired_buffered_escape_reads_already_available_continuation_first() {
    let (mut source, mut terminal) = source_with_input();
    source.parser.advance_input(b"\x1b");
    source.parser.pending_escape_deadline = Some(terminal.now);
    terminal.write_all(b"[A");

    assert_eq!(
        terminal.try_read(&mut source, Some(0)).unwrap(),
        Some(InternalEvent::Event(Event::Key(KeyCode::Up.into())))
    );
}

#[test]
fn tty_expired_buffered_escape_remains_usable_without_a_continuation() {
    let (mut source, mut terminal) = source_with_input();
    source.parser.advance_input(b"\x1b");
    source.parser.pending_escape_deadline = Some(terminal.now);

    assert_eq!(
        terminal.try_read(&mut source, Some(0)).unwrap(),
        Some(InternalEvent::Event(Event::Key(KeyCode::Esc.into())))
    );
    assert_eq!(
        source.discard_buffered_input(),
        InputDiscardStatus::Complete
    );
}

#[test]
fn discarded_paste_respects_poll_timeout_on_a_blocking_descriptor() {
    let (mut source, mut terminal) = source_with_input();
    source.parser.advance(b"\x1b[200~", true);
    assert_eq!(
        source.discard_buffered_input(),
        InputDiscardStatus::BracketedPasteInProgress
    );

    terminal.write_all(b"1y\r");
    assert_eq!(
        terminal
            .try_read(&mut source, Some(25 * MILLISECOND))
            .unwrap(),
        None
    );
    assert_eq!(terminal.now, 25 * MILLISECOND);
    assert_eq!(
        source.discard_buffered_input(),
        InputDiscardStatus::BracketedPasteInProgress
    );

    terminal.write_all(b"\x1b[201~");
    assert_eq!(
        terminal
            .try_read(&mut source, Some(25 * MILLISECOND))
            .unwrap(),
        None
    );
    assert_eq!(
        source.discard_buffered_input(),
        InputDiscardStatus::Complete
    );
}

#[test]
fn discarded_paste_drains_input_larger_than_the_read_buffer() {
    let (mut source, mut terminal) = source_with_input();
    source.parser.advance(b"\x1b[200~", true);
    source.discard_buffered_input();
    let mut input = vec![b'y'; TTY_BUFFER_SIZE * 2 + 1];
    input.extend_from_slice(b"\x1b[201~n");
    terminal.write_all(&input);

    assert_eq!(
        terminal
            .try_read(&mut source, Some(100 * MILLISECOND))
            .unwrap(),
        Some(InternalEvent::Event(Event::Key(KeyCode::Char('n').into())))
    );
    assert_eq!(terminal.reads, 3);
}

#[test]
fn continuously_readable_discarded_paste_respects_poll_deadline() {
    let (mut source, mut terminal) = source_with_input();
    source.parser.advance(b"\x1b[200~", true);
    assert_eq!(
        source.discard_buffered_input(),
        InputDiscardStatus::BracketedPasteInProgress
    );
    terminal.endless = true;

    for call in 1..=2 {
        assert_eq!(
            terminal
                .try_read(&mut source, Some(10 * MILLISECOND))
                .unwrap(),
            None
        );
        assert_eq!(
            source.discard_buffered_input(),
            InputDiscardStatus::BracketedPasteInProgress
        );
        assert_eq!(terminal.now, call * 10 * MILLISECOND);
    }
}

#[test]
fn expired_osc_wakes_reader_without_new_input() {
    for prefix in [b"\x1b]".as_slice(), b"\x1b]10;rgb:", b"\x1b]10;rgb:\x1b"] {
        for discard in [false, true] {
            let (mut source, mut terminal) = source_with_input();
            source.parser.buffer_external_input(prefix);
            if discard {
                source.parser.discard_buffered_input();
            }
            source.parser.pending_osc_deadline = Some(terminal.now);
            let expected = if discard {
                None
            } else if prefix == b"\x1b]" {
                Some(key(KeyCode::Char(']'), KeyModifiers::alt()))
            } else if prefix.ends_with(b"\x1b") {
                Some(key(KeyCode::Esc, KeyModifiers::none()))
            } else {
                None
            };
            assert_eq!(terminal.try_read(&mut source, Some(0)).unwrap(), expected);
            assert_eq!(
                source.discard_buffered_input(),
                InputDiscardStatus::Complete
            );
        }
    }
}

#[test]
fn unterminated_osc_preserves_ctrl_c_and_following_input() {
    for prefix in [b"\x1b]".as_slice(), b"\x1b]10;rgb:"] {
        for separate_write in [false, true] {
            let (mut source, mut terminal) = source_with_input();
            if separate_write {
                terminal.write_all(prefix);
                assert_eq!(
                    terminal
                        .try_read(&mut source, Some(50 * MILLISECOND))
                        .unwrap(),
                    None
                );
                terminal.write_all(b"\x03q");
            } else {
                let mut input = prefix.to_vec();
                input.extend_from_slice(b"\x03q");
                terminal.write_all(&input);
            }
            for expected in [
                key(KeyCode::Char('c'), KeyModifiers::control()),
                key(KeyCode::Char('q'), KeyModifiers::none()),
            ] {
                assert_eq!(
                    terminal.try_read(&mut source, None).unwrap(),
                    Some(expected)
                );
            }
        }
    }
}

#[test]
fn bare_alt_bracket_eventually_resolves_without_more_input() {
    let (mut source, mut terminal) = source_with_input();
    terminal.write_all(b"\x1b]");
    assert_eq!(
        terminal.try_read(&mut source, None).unwrap(),
        Some(key(KeyCode::Char(']'), KeyModifiers::alt()))
    );
    assert_eq!(terminal.now, OSC_TIMEOUT);
    terminal.write_all(b"\x03q");
    assert_eq!(
        terminal.try_read(&mut source, None).unwrap(),
        Some(key(KeyCode::Char('c'), KeyModifiers::control()))
    );
    assert_eq!(
        terminal.try_read(&mut source, None).unwrap(),
        Some(key(KeyCode::Char('q'), KeyModifiers::none()))
    );
}

#[test]
fn a_new_window_size_is_an_event_and_a_waker_ends_the_call() {
    let (mut source, mut terminal) = source_with_input();
    terminal.winch = true;
    terminal.wake = true;
    assert_eq!(
        terminal.try_read(&mut source, None).unwrap(),
        Some(InternalEvent::Event(Event::Resize(80, 24)))
    );
    assert_eq!(terminal.try_read(&mut source, None).unwrap(), None);
    assert!(!terminal.winch && !terminal.wake);
}

#[test]
fn failures_of_the_operating_system_are_returned() {
    let error = Error::new(ErrorKind::Other, "broken");
    let failed = Request::Return(Err(error.clone()));
    let timeout = PollTimeout::new(None, 0);
    let ready = Ready {
        tty: true,
        winch: false,
        wake: false,
    };
    let mut source = UnixInternalEventSource::new();
    assert_eq!(source.polled(&timeout, Err(error.clone()), 0), failed);
    assert_eq!(
        source.tty_read(&timeout, ready, Err(error.clone()), 0),
        failed
    );
    assert_eq!(
        source.tty_counted(&timeout, ready, Err(error.clone()), 0),
        failed
    );
    assert_eq!(
        UnixInternalEventSource::signals_drained(Err(error.clone())),
        failed
    );
    assert_eq!(
        UnixInternalEventSource::size_queried(Err(error.clone())),
        failed
    );
    assert_eq!(
        UnixInternalEventSource::wake_drained(Err(error)),
        failed
    );
    // An interrupted wait begins anew.
    let interrupted = Error::new(ErrorKind::Interrupted, "");
    assert_eq!(
        source.polled(&timeout, Err(interrupted), 0),
        Request::Poll(None)
    );
}

#[test]
fn reading_goes_on_until_the_buffer_is_full_or_it_would_block() {
    assert_eq!(read_complete(0, 8, Ok(3)), ReadComplete::Again(3));
    assert_eq!(read_complete(3, 8, Ok(5)), ReadComplete::Done(Ok(8)));
    assert_eq!(read_complete(3, 8, Ok(0)), ReadComplete::Done(Ok(3)));
    assert_eq!(
        read_complete(0, 8, Err(Error::new(ErrorKind::WouldBlock, ""))),
        ReadComplete::Done(Ok(0))
    );
    assert_eq!(
        read_complete(3, 8, Err(Error::new(ErrorKind::WouldBlock, ""))),
        ReadComplete::Done(Ok(3))
    );
    assert_eq!(
        read_complete(3, 8, Err(Error::new(ErrorKind::Interrupted, ""))),
        ReadComplete::Again(3)
    );
    let error = Error::new(ErrorKind::Other, "broken");
    assert_eq!(
        read_complete(3, 8, Err(error.clone())),
        ReadComplete::Done(Err(error))
    );
}

#[test]
fn a_buffered_event_is_returned_although_no_time_is_left() {
    let (mut source, mut terminal) = source_with_input();
    source.parser.advance(b"ab", false);
    for c in ['a', 'b'] {
        assert_eq!(
            terminal.try_read(&mut source, Some(0)).unwrap(),
            Some(key(KeyCode::Char(c), KeyModifiers::none()))
        );
    }
    assert_eq!(terminal.try_read(&mut source, Some(0)).unwrap(), None);
}

#[test]
fn input_from_elsewhere_can_be_split_anywhere() {
    let input = b"a\x1b[4;8Rb\x1b[A\x1b]11;rgb:1/2/3\x07\x1b[200~c\x1b[201~\r";
    let mut expected = VecDeque::new();
    UnixInternalEventSource::new().buffer_input(input, &mut expected);
    assert_eq!(expected.len(), 5);
    for split in 0..=input.len() {
        let mut source = UnixInternalEventSource::new();
        let mut events = VecDeque::new();
        source.buffer_input(&input[..split], &mut events);
        source.buffer_input(&input[split..], &mut events);
        assert_eq!(events, expected, "split {split}");
    }
}

#[test]
fn input_from_elsewhere_keeps_only_what_applications_see() {
    let mut source = UnixInternalEventSource::new();
    let mut events = VecDeque::new();
    source.buffer_input(b"a\x1b[4;8Rb\x1b[", &mut events);
    source.buffer_input(b"A", &mut events);
    assert_eq!(
        events,
        VecDeque::from([
            key(KeyCode::Char('a'), KeyModifiers::none()),
            key(KeyCode::Char('b'), KeyModifiers::none()),
            key(KeyCode::Up, KeyModifiers::none()),
        ])
    );
}
