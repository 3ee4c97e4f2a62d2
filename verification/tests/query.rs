//! Queries for the default colors, on a terminal that the tests script.
use crossterm::error::{Error, ErrorKind};
use crossterm::event::{Event, InternalEvent, OscColorPayload};
use crossterm::style::query::{
    query_background_color, query_foreground_color, ColorQuery, Request, QUERY_TIMEOUT,
};
use crossterm::style::{unsupported, Color};
use std::collections::VecDeque;

#[derive(Default)]
struct Terminal {
    raw: bool,
    enable: Option<Error>,
    disable: Option<Error>,
    tty: Option<Error>,
    stdout: Option<Error>,
    polls: VecDeque<Result<bool, Error>>,
    events: VecDeque<Result<InternalEvent, Error>>,
    written: Vec<String>,
    log: Vec<&'static str>,
}

fn outcome(error: &Option<Error>) -> Result<(), Error> {
    match error {
        Some(error) => Err(error.clone()),
        None => Ok(()),
    }
}

impl Terminal {
    fn run(&mut self, started: (ColorQuery, Request)) -> Result<Option<Color>, Error> {
        let (mut query, mut request) = started;
        loop {
            request = match request {
                Request::IsRawMode => query.raw_mode_known(self.raw),
                Request::EnableRawMode => {
                    self.log.push("enable");
                    query.raw_mode_enabled(outcome(&self.enable))
                }
                Request::WriteTty(text) => {
                    self.log.push("tty");
                    self.written.push(text);
                    query.tty_written(outcome(&self.tty))
                }
                Request::WriteStdout(text) => {
                    self.log.push("stdout");
                    self.written.push(text);
                    query.stdout_written(outcome(&self.stdout))
                }
                Request::Poll(timeout) => {
                    assert_eq!(timeout, QUERY_TIMEOUT);
                    self.log.push("poll");
                    query.polled(self.polls.pop_front().expect("a poll"))
                }
                Request::Read => {
                    self.log.push("read");
                    query.event_read(self.events.pop_front().expect("an event"))
                }
                Request::DisableRawMode => {
                    self.log.push("disable");
                    query.raw_mode_disabled(outcome(&self.disable))
                }
                Request::Return(result) => return result,
            };
        }
    }
}

fn other(message: &str) -> Error {
    Error::new(ErrorKind::Other, message)
}

fn rgb(slot: u8) -> InternalEvent {
    InternalEvent::OscColor {
        slot,
        payload: OscColorPayload::Rgb { r: 1, g: 2, b: 3 },
    }
}

#[test]
fn a_query_in_raw_mode_leaves_it_alone() {
    let mut terminal = Terminal {
        raw: true,
        polls: VecDeque::from([Ok(true)]),
        events: VecDeque::from([Ok(rgb(10))]),
        ..Terminal::default()
    };
    assert_eq!(
        terminal.run(query_foreground_color()).unwrap(),
        Some(Color::Rgb { r: 1, g: 2, b: 3 })
    );
    assert_eq!(terminal.written, ["\x1b]10;?\x1b\\"]);
    assert_eq!(terminal.log, ["tty", "poll", "read"]);
}

#[test]
fn a_query_restores_raw_mode_and_falls_back_to_stdout() {
    let mut terminal = Terminal {
        tty: Some(other("read only")),
        polls: VecDeque::from([
            Err(Error::new(ErrorKind::Interrupted, "")),
            Ok(true),
            Ok(true),
        ]),
        events: VecDeque::from([
            Ok(InternalEvent::Event(Event::FocusGained)),
            Ok(InternalEvent::OscColor {
                slot: 11,
                payload: OscColorPayload::Unrecognized("?".to_string()),
            }),
        ]),
        ..Terminal::default()
    };
    assert_eq!(terminal.run(query_background_color()).unwrap(), None);
    assert_eq!(
        terminal.written,
        ["\x1b]11;?\x1b\\", "\x1b]11;?\x1b\\"]
    );
    assert_eq!(
        terminal.log,
        ["enable", "tty", "stdout", "poll", "poll", "read", "poll", "read", "disable"]
    );
}

#[test]
fn a_terminal_that_does_not_answer_is_an_error() {
    for raw in [false, true] {
        let mut terminal = Terminal {
            raw,
            polls: VecDeque::from([Ok(false)]),
            ..Terminal::default()
        };
        let error = terminal.run(query_foreground_color()).unwrap_err();
        assert_eq!(error.kind(), ErrorKind::Other);
        assert_eq!(
            error.message,
            "The terminal did not report OSC color 10 within a normal duration"
        );
        assert_eq!(terminal.log.contains(&"disable"), !raw);
    }
}

#[test]
fn failures_of_the_terminal_are_returned_after_raw_mode_is_restored() {
    let failing = [
        Terminal {
            tty: Some(other("tty")),
            stdout: Some(other("broken")),
            ..Terminal::default()
        },
        Terminal {
            polls: VecDeque::from([Err(other("broken"))]),
            ..Terminal::default()
        },
        Terminal {
            polls: VecDeque::from([Ok(true)]),
            events: VecDeque::from([Err(other("broken"))]),
            ..Terminal::default()
        },
    ];
    for mut terminal in failing {
        assert_eq!(
            terminal.run(query_background_color()).unwrap_err(),
            other("broken")
        );
        assert_eq!(terminal.log.first(), Some(&"enable"));
        assert_eq!(terminal.log.last(), Some(&"disable"));
    }
}

#[test]
fn raw_mode_that_cannot_be_changed_is_an_error() {
    let mut terminal = Terminal {
        enable: Some(other("enable")),
        ..Terminal::default()
    };
    assert_eq!(
        terminal.run(query_foreground_color()).unwrap_err(),
        other("enable")
    );
    assert_eq!(terminal.log, ["enable"]);

    let mut terminal = Terminal {
        disable: Some(other("disable")),
        polls: VecDeque::from([Ok(true)]),
        events: VecDeque::from([Ok(rgb(11))]),
        ..Terminal::default()
    };
    assert_eq!(
        terminal.run(query_background_color()).unwrap_err(),
        other("disable")
    );
}

#[test]
fn a_query_waits_two_seconds_for_its_own_slot() {
    assert_eq!(QUERY_TIMEOUT, 2_000_000_000);
    let (foreground, request) = query_foreground_color();
    assert_eq!(request, Request::IsRawMode);
    assert_eq!(foreground.filter().slot, 10);
    assert_eq!(query_background_color().0.filter().slot, 11);
}

#[test]
fn queries_without_input_events_are_unsupported() {
    let error = unsupported::query_foreground_color().unwrap_err();
    assert_eq!(error.kind(), ErrorKind::Unsupported);
    assert_eq!(
        error.message,
        "query_foreground_color requires the \"events\" feature on Unix platforms"
    );
    let error = unsupported::query_background_color().unwrap_err();
    assert_eq!(error.kind(), ErrorKind::Unsupported);
    assert_eq!(
        error.message,
        "query_background_color requires the \"events\" feature on Unix platforms"
    );
}
