//! Decoding the bytes of a terminal, for a source that waits with `mio`.
use crossterm::event::source::unix::mio::Parser;
use crossterm::event::{Event, InputDiscardStatus, InternalEvent, KeyCode};

#[test]
fn mio_externally_buffered_escape_remains_available_for_its_continuation() {
    let mut parser = Parser::default();
    parser.buffer_external_input(b"\x1b");
    assert_eq!(parser.next(), None);

    parser.advance(b"[A", false);
    assert_eq!(
        parser.next(),
        Some(InternalEvent::Event(Event::Key(KeyCode::Up.into())))
    );
}

#[test]
fn mio_standalone_buffered_escape_is_emitted_after_its_ambiguity_window() {
    let mut parser = Parser::default();
    parser.buffer_external_input(b"\x1b");
    assert_eq!(parser.finish_pending_escape(), None);

    parser.pending_escape_deadline = Some(parser.clock.now());
    assert_eq!(
        parser.finish_pending_escape(),
        Some(InternalEvent::Event(Event::Key(KeyCode::Esc.into())))
    );
}

#[test]
fn mio_discarded_bracketed_paste_suppresses_delayed_input_until_its_end() {
    let mut parser = Parser::default();
    parser.advance(b"\x1b[200~unfinished", true);
    assert_eq!(parser.next(), None);

    assert_eq!(
        parser.discard_buffered_input(),
        InputDiscardStatus::BracketedPasteInProgress
    );
    parser.advance(b"1y\r\x1b[20", true);
    assert_eq!(parser.next(), None);
    assert_eq!(
        parser.discard_buffered_input(),
        InputDiscardStatus::BracketedPasteInProgress
    );
    parser.advance(b"1~n", false);
    assert_eq!(
        parser.next(),
        Some(InternalEvent::Event(Event::Key(KeyCode::Char('n').into())))
    );
    assert_eq!(
        parser.discard_buffered_input(),
        InputDiscardStatus::Complete
    );
}

#[test]
fn mio_discarded_partial_paste_marker_preserves_its_remaining_boundary() {
    let mut parser = Parser::default();
    parser.advance(b"\x1b[2", true);

    assert_eq!(
        parser.discard_buffered_input(),
        InputDiscardStatus::BracketedPasteInProgress
    );
    parser.advance(b"00~1y\r\x1b[201~n", false);

    assert_eq!(
        parser.next(),
        Some(InternalEvent::Event(Event::Key(KeyCode::Char('n').into())))
    );
}

#[test]
fn mio_discarded_paste_uses_constant_buffer_space() {
    let mut parser = Parser::default();
    parser.advance(b"\x1b[200~", true);
    parser.discard_buffered_input();

    parser.advance(&[b'y'; 1_024], true);

    assert!(parser.buffer.is_empty());
    assert_eq!(parser.next(), None);
}

#[test]
fn mio_reads_can_be_split_anywhere() {
    let input = "aß\x1b[A\x1b]11;rgb:11/22/33\x1b\\\x1b[200~\x1b[201\x1b[201~\x1b[M !!\r".as_bytes();
    let collect = |mut parser: Parser| {
        let mut events = Vec::new();
        while let Some(event) = parser.next() {
            events.push(event);
        }
        events
    };
    let mut whole = Parser::default();
    whole.advance(input, false);
    let expected = collect(whole);
    assert_eq!(expected.len(), 7);
    for split in 0..input.len() {
        let mut parser = Parser::default();
        parser.advance(&input[..split], true);
        parser.advance(&input[split..], false);
        assert_eq!(collect(parser), expected, "split {split}");
    }
}

#[test]
fn mio_keeps_a_discarded_escape_for_its_continuation() {
    let mut parser = Parser::default();
    parser.buffer_external_input(b"\x1b");
    let deadline = parser.pending_escape_deadline;
    assert_eq!(
        parser.discard_buffered_input(),
        InputDiscardStatus::BracketedPasteInProgress
    );
    assert_eq!(parser.pending_escape_deadline, deadline);
    parser.advance(b"[A", false);
    assert_eq!(
        parser.next(),
        Some(InternalEvent::Event(Event::Key(KeyCode::Up.into())))
    );
}
