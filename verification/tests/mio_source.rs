//! A source that waits with `mio`, on a terminal that the tests script.
use crossterm::error::{Error, ErrorKind};
use crossterm::event::source::unix::mio_source::{Request, Token, UnixInternalEventSource};
use crossterm::event::source::unix::tty_source::TTY_BUFFER_SIZE;
use crossterm::event::source::EventSource;
use crossterm::event::{Event, InputDiscardStatus, InternalEvent, KeyCode};
use crossterm::time::{PollTimeout, MILLISECOND};
use std::collections::VecDeque;

/// A terminal with its own clock, which only moves when it is waited for.
#[derive(Default)]
struct Terminal {
    now: u128,
    input: VecDeque<u8>,
    signals: VecDeque<bool>,
    wake: bool,
}

impl Terminal {
    fn write_all(&mut self, bytes: &[u8]) {
        self.input.extend(bytes);
    }

    fn wait(&mut self, timeout: Option<u128>) -> VecDeque<Token> {
        let mut tokens = VecDeque::new();
        if !self.input.is_empty() {
            tokens.push_back(Token::Tty);
        }
        if !self.signals.is_empty() {
            tokens.push_back(Token::Signal);
        }
        if self.wake {
            tokens.push_back(Token::Wake);
        }
        if tokens.is_empty() {
            self.now += timeout.expect("the call would never end");
        }
        tokens
    }

    fn try_read(
        &mut self,
        source: &mut UnixInternalEventSource,
        timeout: Option<u128>,
    ) -> Result<Option<InternalEvent>, Error> {
        let timeout = PollTimeout::new(timeout, self.now);
        let mut request = source.try_read(&timeout, self.now);
        loop {
            request = match request {
                Request::Poll(wait) => {
                    let tokens = self.wait(wait);
                    source.polled(&timeout, Ok(tokens), self.now)
                }
                Request::ReadTty => {
                    let count = self.input.len().min(TTY_BUFFER_SIZE);
                    let bytes: Vec<u8> = self.input.drain(..count).collect();
                    let outcome = if bytes.is_empty() {
                        Err(Error::new(ErrorKind::WouldBlock, ""))
                    } else {
                        Ok(bytes.as_slice())
                    };
                    source.tty_read(&timeout, outcome, self.now)
                }
                Request::TakeSignal => {
                    let winch = self.signals.pop_front() == Some(true);
                    source.signal_taken(&timeout, winch, self.now)
                }
                Request::QuerySize => UnixInternalEventSource::size_queried(Ok((80, 24))),
                Request::Return(result) => return result,
            };
        }
    }
}

fn key(code: KeyCode) -> InternalEvent {
    InternalEvent::Event(Event::Key(code.into()))
}

#[test]
fn mio_expired_buffered_escape_reads_already_available_continuation_first() {
    let mut terminal = Terminal::default();
    let mut source = UnixInternalEventSource::new();
    source.parser.buffer_external_input(b"\x1b");
    source.parser.pending_escape_deadline = Some(terminal.now);
    terminal.write_all(b"[A");

    assert_eq!(
        terminal.try_read(&mut source, Some(0)).unwrap(),
        Some(InternalEvent::Event(Event::Key(KeyCode::Up.into())))
    );
}

#[test]
fn mio_expired_buffered_escape_remains_usable_without_a_continuation() {
    let mut terminal = Terminal::default();
    let mut source = UnixInternalEventSource::new();
    source.parser.buffer_external_input(b"\x1b");
    source.parser.pending_escape_deadline = Some(terminal.now);
    assert_eq!(
        source.discard_buffered_input(),
        InputDiscardStatus::BracketedPasteInProgress
    );
    assert_eq!(
        source.discard_buffered_input(),
        InputDiscardStatus::BracketedPasteInProgress
    );

    assert_eq!(
        terminal.try_read(&mut source, Some(0)).unwrap(),
        Some(InternalEvent::Event(Event::Key(KeyCode::Esc.into())))
    );
    assert_eq!(
        source.discard_buffered_input(),
        InputDiscardStatus::Complete
    );
}

#[test]
fn mio_discard_inside_the_end_of_a_paste_swallows_on() {
    let mut source = UnixInternalEventSource::new();
    source.parser.advance(b"\x1b[200~unfinished\x1b[20", true);
    assert_eq!(
        source.discard_buffered_input(),
        InputDiscardStatus::BracketedPasteInProgress
    );
    source.parser.advance(b"1~n", false);
    assert_eq!(source.parser.next(), None);
    source.parser.advance(b"\x1b[201~n", false);
    assert_eq!(source.parser.next(), Some(key(KeyCode::Char('n'))));
}

#[test]
fn mio_buffered_events_come_first_and_in_order() {
    let mut terminal = Terminal::default();
    let mut source = UnixInternalEventSource::new();
    terminal.write_all(b"abc");
    for c in ['a', 'b', 'c'] {
        assert_eq!(
            terminal.try_read(&mut source, Some(0)).unwrap(),
            Some(key(KeyCode::Char(c)))
        );
    }
    assert_eq!(
        terminal
            .try_read(&mut source, Some(5 * MILLISECOND))
            .unwrap(),
        None
    );
    assert_eq!(terminal.now, 5 * MILLISECOND);
}

#[test]
fn mio_tokens_are_looked_at_in_order() {
    let mut terminal = Terminal::default();
    let mut source = UnixInternalEventSource::new();
    terminal.write_all(b"\x1b[");
    terminal.signals.push_back(false);
    terminal.wake = true;
    assert_eq!(terminal.try_read(&mut source, None).unwrap(), None);

    terminal.wake = false;
    terminal.signals.push_back(true);
    assert_eq!(
        terminal.try_read(&mut source, None).unwrap(),
        Some(InternalEvent::Event(Event::Resize(80, 24)))
    );
    terminal.write_all(b"A");
    assert_eq!(
        terminal.try_read(&mut source, None).unwrap(),
        Some(key(KeyCode::Up))
    );
}

#[test]
fn mio_failures_of_the_operating_system_are_returned() {
    let error = Error::new(ErrorKind::Other, "broken");
    let timeout = PollTimeout::new(None, 0);
    let mut source = UnixInternalEventSource::new();
    assert_eq!(
        source.polled(&timeout, Err(error.clone()), 0),
        Request::Return(Err(error.clone()))
    );
    assert_eq!(
        UnixInternalEventSource::size_queried(Err(error.clone())),
        Request::Return(Err(error.clone()))
    );
    let interrupted = Error::new(ErrorKind::Interrupted, "");
    assert_eq!(
        source.polled(&timeout, Err(interrupted.clone()), 0),
        Request::Poll(None)
    );
    // Reading goes on behind an interruption, and behind an error that nothing handles.
    assert_eq!(
        source.tty_read(&timeout, Err(interrupted), 0),
        Request::ReadTty
    );
    assert_eq!(source.tty_read(&timeout, Err(error), 0), Request::ReadTty);
}

#[test]
fn mio_input_from_elsewhere_keeps_only_what_applications_see() {
    let mut source = UnixInternalEventSource::new();
    let mut events = VecDeque::new();
    source.buffer_input(b"a\x1b[4;8Rb\x1b[", &mut events);
    source.buffer_input(b"A", &mut events);
    assert_eq!(
        events,
        VecDeque::from([
            key(KeyCode::Char('a')),
            key(KeyCode::Char('b')),
            key(KeyCode::Up),
        ])
    );
}

#[test]
fn mio_a_wait_that_brought_nothing_begins_anew_while_there_is_time() {
    let timeout = PollTimeout::new(Some(10), 0);
    let mut source = UnixInternalEventSource::new();
    assert_eq!(
        source.polled(&timeout, Ok(VecDeque::new()), 4),
        Request::Poll(Some(6))
    );
    assert_eq!(
        source.polled(&timeout, Ok(VecDeque::new()), 10),
        Request::Return(Ok(None))
    );
    let forever = PollTimeout::new(None, 0);
    assert_eq!(
        source.polled(&forever, Ok(VecDeque::new()), 10),
        Request::Poll(None)
    );
}

#[test]
fn mio_input_from_elsewhere_can_be_split_anywhere() {
    let input = b"a\x1b[4;8Rb\x1b[A\x1b]11;rgb:1/2/3\x07\x1b[200~c\x1b[201~\r";
    let mut expected = VecDeque::new();
    UnixInternalEventSource::new().buffer_input(input, &mut expected);
    assert_eq!(expected.len(), 5);
    for split in 0..=input.len() {
        let mut source = UnixInternalEventSource::new();
        let mut events = VecDeque::new();
        source.buffer_input(&input[..split], &mut events);
        source.buffer_input(&input[split..], &mut events);
        assert_eq!(events, expected, "split {split}");
    }
}
