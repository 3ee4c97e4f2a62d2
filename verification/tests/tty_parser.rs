//! Decoding the bytes of a terminal, for a source that waits with `poll`.
use crossterm::event::source::unix::tty::{Parser, OSC_TIMEOUT};
use crossterm::event::{Event, InputDiscardStatus, InternalEvent, KeyCode};
use crossterm::time::MILLISECOND;

fn collect(parser: &mut Parser) -> Vec<InternalEvent> {
    let mut events = Vec::new();
    while let Some(event) = parser.next() {
        events.push(event);
    }
    events
}

#[test]
fn escape_before_a_control_sequence_preserves_both_events() {
    let input = b"\x1b\x1b[A";
    for split in 1..input.len() {
        let mut parser = Parser::default();
        parser.advance_input(&input[..split]);
        parser.advance_input(&input[split..]);
        assert_eq!(
            collect(&mut parser),
            vec![
                InternalEvent::Event(Event::Key(KeyCode::Esc.into())),
                InternalEvent::Event(Event::Key(KeyCode::Up.into())),
            ]
        );
    }
}

#[test]
fn tty_externally_buffered_escape_remains_available_for_its_continuation() {
    let mut parser = Parser::default();
    parser.advance_input(b"\x1b");
    assert_eq!(parser.next(), None);

    parser.advance(b"[A", false);
    assert_eq!(
        parser.next(),
        Some(InternalEvent::Event(Event::Key(KeyCode::Up.into())))
    );
}

#[test]
fn tty_standalone_buffered_escape_is_emitted_after_its_ambiguity_window() {
    let mut parser = Parser::default();
    parser.advance_input(b"\x1b");
    assert_eq!(parser.finish_pending_escape(), None);

    parser.pending_escape_deadline = Some(parser.clock.now());
    assert_eq!(
        parser.finish_pending_escape(),
        Some(InternalEvent::Event(Event::Key(KeyCode::Esc.into())))
    );
}

#[test]
fn discarded_escape_suppresses_a_delayed_modifier_suffix() {
    for suffix in [b'y', b'1'] {
        let mut parser = Parser::default();
        parser.advance_input(b"\x1b");
        parser.pending_escape_deadline = Some(parser.clock.now());

        assert_eq!(
            parser.discard_buffered_input(),
            InputDiscardStatus::BracketedPasteInProgress
        );
        assert_eq!(parser.finish_pending_escape(), None);
        parser.advance(std::slice::from_ref(&suffix), false);

        assert_eq!(parser.next(), None);
        assert_eq!(
            parser.discard_buffered_input(),
            InputDiscardStatus::Complete
        );
    }
}

#[test]
fn tty_discarded_bracketed_paste_suppresses_delayed_input_until_its_end() {
    let mut parser = Parser::default();
    parser.advance(b"\x1b[200~unfinished", true);
    assert_eq!(parser.next(), None);

    assert_eq!(
        parser.discard_buffered_input(),
        InputDiscardStatus::BracketedPasteInProgress
    );
    parser.advance(b"1y\r\x1b[20", true);
    assert_eq!(parser.next(), None);
    assert_eq!(
        parser.discard_buffered_input(),
        InputDiscardStatus::BracketedPasteInProgress
    );
    parser.advance(b"1~n", false);
    assert_eq!(
        parser.next(),
        Some(InternalEvent::Event(Event::Key(KeyCode::Char('n').into())))
    );
    assert_eq!(
        parser.discard_buffered_input(),
        InputDiscardStatus::Complete
    );
}

#[test]
fn tty_discarded_partial_paste_marker_preserves_its_remaining_boundary() {
    let mut parser = Parser::default();
    parser.advance(b"\x1b[2", true);

    assert_eq!(
        parser.discard_buffered_input(),
        InputDiscardStatus::BracketedPasteInProgress
    );
    parser.advance(b"00~1y\r\x1b[201~n", false);

    assert_eq!(
        parser.next(),
        Some(InternalEvent::Event(Event::Key(KeyCode::Char('n').into())))
    );
}

#[test]
fn discarded_partial_mouse_sequence_preserves_all_remaining_payload_bytes() {
    for sequence in [b"\x1b[M @y".as_slice(), b"\x1b[M\x1b@y".as_slice()] {
        for boundary in 1..sequence.len() {
            let mut parser = Parser::default();
            parser.advance(&sequence[..boundary], true);
            assert_ne!(
                parser.discard_buffered_input(),
                InputDiscardStatus::Complete
            );

            let remainder = &sequence[boundary..];
            for (index, byte) in remainder.iter().enumerate() {
                parser.advance(std::slice::from_ref(byte), false);
                assert_eq!(parser.next(), None);
                assert_eq!(
                    parser.discard_buffered_input() == InputDiscardStatus::Complete,
                    index + 1 == remainder.len(),
                );
            }

            parser.advance(b"n", false);
            assert_eq!(
                parser.next(),
                Some(InternalEvent::Event(Event::Key(KeyCode::Char('n').into())))
            );
        }
    }
}

#[test]
fn completed_unsupported_control_sequences_do_not_remain_buffered() {
    for sequence in [
        b"\x1b]52;c;ignored\x07".as_slice(),
        b"\x1b]52;c;ignored\x1b\\".as_slice(),
        b"\x1b[?1h".as_slice(),
        b"\x1b[?1;2$y".as_slice(),
    ] {
        let mut parser = Parser::default();
        for byte in sequence {
            parser.advance(std::slice::from_ref(byte), true);
        }
        assert!(parser.buffer.is_empty());
        assert_eq!(
            parser.discard_buffered_input(),
            InputDiscardStatus::Complete
        );
        parser.advance(b"n", false);

        assert_eq!(
            parser.next(),
            Some(InternalEvent::Event(Event::Key(KeyCode::Char('n').into())))
        );
    }
}

#[test]
fn completed_control_sequence_preserves_a_following_incomplete_boundary() {
    for (incomplete, continuation, status) in [
        (
            b"\x1b[2".as_slice(),
            b"00~1y\r\x1b[201~n".as_slice(),
            InputDiscardStatus::BracketedPasteInProgress,
        ),
        (
            b"\x1b]10;unfinished".as_slice(),
            b"1y\r\x07n".as_slice(),
            InputDiscardStatus::ControlSequenceInProgress,
        ),
    ] {
        let mut parser = Parser::default();
        let mut input = b"\x1b]52;c;ignored\x07".to_vec();
        input.extend_from_slice(incomplete);
        parser.advance(&input, true);
        assert_eq!(parser.discard_buffered_input(), status);
        parser.advance(continuation, false);

        assert_eq!(
            parser.next(),
            Some(InternalEvent::Event(Event::Key(KeyCode::Char('n').into())))
        );
    }
}

#[test]
fn legacy_mouse_and_function_key_sequences_remain_recognized() {
    let mut parser = Parser::default();
    parser.advance(b"\x1b[[A", false);
    assert_eq!(
        parser.next(),
        Some(InternalEvent::Event(Event::Key(KeyCode::F(1).into())))
    );

    parser.advance(b"\x1b[M !!", false);
    assert!(matches!(
        parser.next(),
        Some(InternalEvent::Event(Event::Mouse(_)))
    ));
}

#[test]
fn discarded_double_bracket_csi_suppresses_its_delayed_suffix() {
    for (suffix, completion) in [
        (b"[A".as_slice(), b"".as_slice()),
        (b"[B".as_slice(), b"".as_slice()),
        (b"[C".as_slice(), b"".as_slice()),
        (b"[D".as_slice(), b"".as_slice()),
        (b"[E".as_slice(), b"".as_slice()),
        (b"[y".as_slice(), b"".as_slice()),
        (b"[1".as_slice(), b"A".as_slice()),
        (b"[1y".as_slice(), b"".as_slice()),
    ] {
        let mut sequence = b"\x1b[".to_vec();
        sequence.extend_from_slice(suffix);
        for boundary in 1..sequence.len().min(4) {
            let mut parser = Parser::default();
            parser.advance(&sequence[..boundary], true);
            assert_ne!(
                parser.discard_buffered_input(),
                InputDiscardStatus::Complete
            );

            parser.advance(&sequence[boundary..], true);
            assert_eq!(parser.next(), None);
            if !completion.is_empty() {
                assert_eq!(
                    parser.discard_buffered_input(),
                    InputDiscardStatus::ControlSequenceInProgress
                );
                parser.advance(completion, true);
            }
            assert_eq!(
                parser.discard_buffered_input(),
                InputDiscardStatus::Complete
            );

            parser.advance(b"n", false);
            assert_eq!(
                parser.next(),
                Some(InternalEvent::Event(Event::Key(KeyCode::Char('n').into())))
            );
        }
    }
}

#[test]
fn discarded_osc_suppresses_delayed_input_until_its_terminator() {
    for terminator in [b"\x07".as_slice(), b"\x1b\\".as_slice()] {
        let mut parser = Parser::default();
        parser.advance(b"\x1b]10;unfinished", true);
        assert_eq!(
            parser.discard_buffered_input(),
            InputDiscardStatus::ControlSequenceInProgress
        );

        parser.advance(b"1y\r", true);
        assert!(parser.buffer.is_empty());
        assert_eq!(parser.next(), None);
        for byte in terminator {
            parser.advance(std::slice::from_ref(byte), true);
        }
        parser.advance(b"n", false);

        assert_eq!(
            parser.next(),
            Some(InternalEvent::Event(Event::Key(KeyCode::Char('n').into())))
        );
        assert_eq!(
            parser.discard_buffered_input(),
            InputDiscardStatus::Complete
        );
    }
}

#[test]
fn discarded_control_sequences_suppress_delayed_input_until_the_final_byte() {
    for prefix in [b"\x1b[?".as_slice(), b"\x1bO".as_slice()] {
        let mut parser = Parser::default();
        parser.advance(prefix, true);
        assert_eq!(
            parser.discard_buffered_input(),
            InputDiscardStatus::ControlSequenceInProgress
        );

        parser.advance(b"1\r", true);
        assert!(parser.buffer.is_empty());
        assert_eq!(parser.next(), None);
        parser.advance(b"An", false);

        assert_eq!(
            parser.next(),
            Some(InternalEvent::Event(Event::Key(KeyCode::Char('n').into())))
        );
    }
}

#[test]
fn ambiguous_paste_prefix_remains_quarantined_as_a_control_sequence() {
    let mut parser = Parser::default();
    parser.advance(b"\x1b[2", true);
    assert_eq!(
        parser.discard_buffered_input(),
        InputDiscardStatus::BracketedPasteInProgress
    );

    parser.advance(b"1\r", true);
    assert_eq!(parser.next(), None);
    assert_eq!(
        parser.discard_buffered_input(),
        InputDiscardStatus::ControlSequenceInProgress
    );
    parser.advance(b"~n", false);

    assert_eq!(
        parser.next(),
        Some(InternalEvent::Event(Event::Key(KeyCode::Char('n').into())))
    );
}

#[test]
fn discarded_sequences_preserve_a_buffered_terminator_prefix() {
    for (prefix, suffix, status) in [
        (
            b"\x1b]10;unfinished\x1b".as_slice(),
            b"\\n".as_slice(),
            InputDiscardStatus::ControlSequenceInProgress,
        ),
        (
            b"\x1b[200~unfinished\x1b[20".as_slice(),
            b"1~n".as_slice(),
            InputDiscardStatus::BracketedPasteInProgress,
        ),
    ] {
        let mut parser = Parser::default();
        parser.advance(prefix, true);
        assert_eq!(parser.discard_buffered_input(), status);
        parser.advance(suffix, false);

        assert_eq!(
            parser.next(),
            Some(InternalEvent::Event(Event::Key(KeyCode::Char('n').into())))
        );
    }
}

#[test]
fn tty_discarded_paste_uses_constant_buffer_space() {
    let mut parser = Parser::default();
    parser.advance(b"\x1b[200~", true);
    parser.discard_buffered_input();

    parser.advance(&[b'y'; 1_024], true);

    assert!(parser.buffer.is_empty());
    assert_eq!(parser.next(), None);
}

#[test]
fn an_escape_waits_twenty_milliseconds() {
    let mut parser = Parser::default();
    parser.advance_input_at(b"\x1b", 5 * MILLISECOND);
    assert_eq!(parser.pending_escape_deadline, Some(25 * MILLISECOND));
    assert_eq!(
        parser.poll_timeout_at(None, 10 * MILLISECOND),
        Some(15 * MILLISECOND)
    );
    assert_eq!(
        parser.poll_timeout_at(Some(MILLISECOND), 10 * MILLISECOND),
        Some(MILLISECOND)
    );
    assert!(!parser.pending_escape_expired_at(25 * MILLISECOND - 1));
    assert_eq!(parser.finish_pending_escape_at(25 * MILLISECOND - 1), None);
    assert!(parser.pending_escape_expired_at(25 * MILLISECOND));
    assert_eq!(
        parser.finish_pending_escape_at(25 * MILLISECOND),
        Some(InternalEvent::Event(Event::Key(KeyCode::Esc.into())))
    );
    assert!(parser.buffer.is_empty());
    assert!(!parser.pending_escape_expired());
    assert_eq!(parser.poll_timeout(None), None);
}

#[test]
fn a_command_waits_from_when_it_began() {
    let mut parser = Parser::default();
    parser.advance_at(b"\x1b]10;", true, 0);
    parser.advance_at(b"rgb:", true, OSC_TIMEOUT - 1);
    assert_eq!(parser.pending_osc_deadline, Some(OSC_TIMEOUT));
    assert_eq!(
        parser.poll_timeout_at(None, OSC_TIMEOUT - 1),
        Some(1)
    );
    parser.advance_at(b"q", false, OSC_TIMEOUT);
    assert_eq!(
        collect(&mut parser),
        vec![InternalEvent::Event(Event::Key(KeyCode::Char('q').into()))]
    );
}

#[test]
fn reads_can_be_split_anywhere() {
    let input = "aß\x1b[A\x1b]11;rgb:11/22/33\x1b\\\x1b[200~\x1b[201\x1b[201~\x1b\x1b[M !!\x1b[99;5u\r";
    let input = input.as_bytes();
    let mut whole = Parser::default();
    whole.advance_at(input, false, 0);
    let expected = collect(&mut whole);
    assert_eq!(expected.len(), 9);
    for split in 0..input.len() {
        let mut parser = Parser::default();
        parser.advance_at(&input[..split], true, 0);
        parser.advance_at(&input[split..], false, 0);
        assert_eq!(collect(&mut parser), expected, "split {split}");
    }
}

#[test]
fn a_paste_can_be_discarded_at_every_byte() {
    let paste = b"\x1b[200~keys \x1b[A and \x1b[20 and \x1b]10;?\x07\x1b[201~";
    for split in 1..paste.len() {
        let mut parser = Parser::default();
        parser.advance(&paste[..split], true);
        assert_eq!(
            parser.discard_buffered_input(),
            InputDiscardStatus::BracketedPasteInProgress
        );
        parser.advance(&paste[split..], true);
        assert_eq!(parser.next(), None);
        assert_eq!(
            parser.discard_buffered_input(),
            InputDiscardStatus::Complete
        );
        parser.advance(b"n", false);
        assert_eq!(
            parser.next(),
            Some(InternalEvent::Event(Event::Key(KeyCode::Char('n').into())))
        );
    }
}

#[test]
fn control_sequences_can_be_discarded_at_every_byte() {
    for sequence in [
        b"\x1b[20;10R".as_slice(),
        b"\x1b[200;5~",
        b"\x1b[2~",
        b"\x1b[?64;1c",
        b"\x1b[<0;20;10M",
        b"\x1b[M\x1b\x1b\x1b",
        b"\x1b]11;rgb:11/22/33\x07",
        b"\x1b]11;rgb:11/22/33\x1b\\",
    ] {
        for split in 1..sequence.len() {
            let mut parser = Parser::default();
            parser.advance_at(&sequence[..split], true, 0);
            assert_ne!(
                parser.discard_buffered_input(),
                InputDiscardStatus::Complete
            );
            parser.advance_at(&sequence[split..], true, 0);
            assert_eq!(parser.next(), None, "{sequence:?}, split {split}");
            assert_eq!(
                parser.discard_buffered_input(),
                InputDiscardStatus::Complete
            );
            parser.advance_at(b"n", false, 0);
            assert_eq!(
                parser.next(),
                Some(InternalEvent::Event(Event::Key(KeyCode::Char('n').into())))
            );
        }
    }
}

#[test]
fn readings_of_the_clock_follow_the_moments_that_were_seen() {
    let mut parser = Parser::default();
    let far = 3_600_000 * MILLISECOND;
    parser.advance_at(b"\x1b]", true, far);
    assert_eq!(parser.clock.latest, far);
    assert_eq!(parser.poll_timeout(None), Some(OSC_TIMEOUT));
    assert!(!parser.pending_escape_expired());
    parser.advance(b"10;", true);
    assert_eq!(parser.pending_osc_deadline, Some(far + OSC_TIMEOUT));
}
