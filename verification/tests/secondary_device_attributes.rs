//! Secondary device attributes must remain terminal input, including across startup replay.
use crossterm::event::source::unix::{mio, tty};
use crossterm::event::{Event, InternalEvent, KeyCode};

fn from_tty(mut parser: tty::Parser) -> Vec<InternalEvent> {
    let mut events = Vec::new();
    while let Some(event) = parser.next() {
        events.push(event);
    }
    events
}

fn from_mio(mut parser: mio::Parser) -> Vec<InternalEvent> {
    let mut events = Vec::new();
    while let Some(event) = parser.next() {
        events.push(event);
    }
    events
}

#[test]
fn secondary_device_attributes_do_not_become_keys_at_any_split() {
    for reply in ["\x1b[>1;95;0c", "\x1b[>64;2500;0c", "\x1b[>1;4000;46c"] {
        let input = format!("a{reply}b");
        let expected = vec![
            InternalEvent::Event(Event::Key(KeyCode::Char('a').into())),
            InternalEvent::Event(Event::Key(KeyCode::Char('b').into())),
        ];
        for split in 0..=input.len() {
            let mut parser = tty::Parser::default();
            parser.buffer_external_input(&input.as_bytes()[..split]);
            parser.advance(&input.as_bytes()[split..], /*more*/ false);
            assert_eq!(
                from_tty(parser),
                expected,
                "reply {reply:?}, split {split}"
            );

            let mut parser = mio::Parser::default();
            parser.buffer_external_input(&input.as_bytes()[..split]);
            parser.advance(&input.as_bytes()[split..], /*more*/ false);
            assert_eq!(
                from_mio(parser),
                expected,
                "reply {reply:?}, split {split}"
            );
        }
    }
}

#[test]
fn secondary_device_attributes_inside_paste_remain_text() {
    let expected = vec![InternalEvent::Event(Event::Paste("\x1b[>1;95;0c".into()))];

    let mut parser = tty::Parser::default();
    parser.advance(b"\x1b[200~\x1b[>1;95;0c\x1b[201~", /*more*/ false);
    assert_eq!(from_tty(parser), expected);

    let mut parser = mio::Parser::default();
    parser.advance(b"\x1b[200~\x1b[>1;95;0c\x1b[201~", /*more*/ false);
    assert_eq!(from_mio(parser), expected);
}
