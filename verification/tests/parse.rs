//! Decoding single keys and control sequences.
use crossterm::event::parse::{parse_event, ParseError};
use crossterm::event::{
    Event, InternalEvent, KeyCode, KeyEvent, KeyEventKind, KeyModifiers,
    KeyboardEnhancementFlags, MouseButton, MouseEventKind, OscColorPayload,
};

fn parse(bytes: &[u8]) -> Result<Option<InternalEvent>, ParseError> {
    parse_event(bytes, false)
}

fn key(code: KeyCode, modifiers: KeyModifiers) -> Result<Option<InternalEvent>, ParseError> {
    Ok(Some(InternalEvent::Event(Event::Key(KeyEvent::new(
        code, modifiers,
    )))))
}

#[test]
fn control_characters_are_keys() {
    let none = KeyModifiers::none();
    let control = KeyModifiers::control();
    assert_eq!(parse(b"\r"), key(KeyCode::Enter, none));
    assert_eq!(parse(b"\t"), key(KeyCode::Tab, none));
    assert_eq!(parse(b"\x7f"), key(KeyCode::Backspace, none));
    assert_eq!(parse(b"\x00"), key(KeyCode::Char(' '), control));
    assert_eq!(parse(b"\x03"), key(KeyCode::Char('c'), control));
    assert_eq!(parse(b"\x1f"), key(KeyCode::Char('7'), control));
}

#[test]
fn characters_are_keys_with_shift_where_they_are_upper_case() {
    let none = KeyModifiers::none();
    let shift = KeyModifiers::shift();
    assert_eq!(parse(b"a"), key(KeyCode::Char('a'), none));
    assert_eq!(parse(b"A"), key(KeyCode::Char('A'), shift));
    assert_eq!(parse("ß".as_bytes()), key(KeyCode::Char('ß'), none));
    assert_eq!(parse("Ä".as_bytes()), key(KeyCode::Char('Ä'), shift));
    assert_eq!(parse("€".as_bytes()), key(KeyCode::Char('€'), none));
    assert_eq!(parse("𐌼".as_bytes()), key(KeyCode::Char('𐌼'), none));
    for split in 1..4 {
        assert_eq!(parse(&"𐌼".as_bytes()[..split]), Ok(None));
    }
    assert_eq!(parse(b"\x80"), Err(ParseError));
    assert_eq!(parse(b"\xc3\x41"), Err(ParseError));
}

#[test]
fn a_lone_escape_depends_on_what_can_follow() {
    assert_eq!(parse_event(b"\x1b", true), Ok(None));
    assert_eq!(parse(b"\x1b"), key(KeyCode::Esc, KeyModifiers::none()));
    assert_eq!(parse(b"\x1bc"), key(KeyCode::Char('c'), KeyModifiers::alt()));
    assert_eq!(parse_event(b"\x1b]", true), Ok(None));
    assert_eq!(parse(b"\x1b]"), key(KeyCode::Char(']'), KeyModifiers::alt()));
    assert_eq!(parse(b""), Ok(None));
}

#[test]
fn control_sequences_are_keys() {
    let none = KeyModifiers::none();
    assert_eq!(parse(b"\x1b[D"), key(KeyCode::Left, none));
    assert_eq!(parse(b"\x1bOP"), key(KeyCode::F(1), none));
    assert_eq!(parse(b"\x1b[[E"), key(KeyCode::F(5), none));
    assert_eq!(parse(b"\x1b[Z"), key(KeyCode::BackTab, KeyModifiers::shift()));
    assert_eq!(parse(b"\x1b[2D"), key(KeyCode::Left, KeyModifiers::shift()));
    assert_eq!(
        parse(b"\x1b[1;5C"),
        key(KeyCode::Right, KeyModifiers::control())
    );
    assert_eq!(parse(b"\x1b[3~"), key(KeyCode::Delete, none));
    assert_eq!(
        parse(b"\x1b[3;2~"),
        key(KeyCode::Delete, KeyModifiers::shift())
    );
    assert_eq!(parse(b"\x1b[99;5u"), key(KeyCode::Char('c'), KeyModifiers::control()));
    assert_eq!(parse(b"\x1b[57428u"), parse(b"\x1b[57428;1u"));
    assert_eq!(parse(b"\x1b[3"), Ok(None));
    assert_eq!(parse(b"\x1b[999~"), Err(ParseError));
    let released = match parse(b"\x1b[97;1:3u") {
        Ok(Some(InternalEvent::Event(Event::Key(key)))) => key,
        other => panic!("{other:?}"),
    };
    assert_eq!(released.code, KeyCode::Char('a'));
    assert_eq!(released.kind, KeyEventKind::Release);
}

#[test]
fn reports_are_internal_events() {
    assert_eq!(
        parse(b"\x1b[20;10R"),
        Ok(Some(InternalEvent::CursorPosition(9, 19)))
    );
    assert_eq!(
        parse(b"\x1b[?64;1c"),
        Ok(Some(InternalEvent::PrimaryDeviceAttributes))
    );
    assert_eq!(
        parse(b"\x1b[?1u"),
        Ok(Some(InternalEvent::KeyboardEnhancementFlags(
            KeyboardEnhancementFlags {
                disambiguate_escape_codes: true,
                report_event_types: false,
                report_alternate_keys: false,
                report_all_keys_as_escape_codes: false,
            }
        )))
    );
    assert_eq!(
        parse(b"\x1b[I"),
        Ok(Some(InternalEvent::Event(Event::FocusGained)))
    );
    assert_eq!(
        parse(b"\x1b[O"),
        Ok(Some(InternalEvent::Event(Event::FocusLost)))
    );
    assert_eq!(parse(b"\x1b[0;5R"), Err(ParseError));
}

#[test]
fn mouse_reports_are_mouse_events() {
    for bytes in [
        b"\x1b[<0;20;10M".as_slice(),
        b"\x1b[32;20;10M",
        b"\x1b[M \x34\x2a",
    ] {
        let mouse = match parse(bytes) {
            Ok(Some(InternalEvent::Event(Event::Mouse(mouse)))) => mouse,
            other => panic!("{other:?}"),
        };
        assert_eq!(mouse.kind, MouseEventKind::Down(MouseButton::Left));
        assert_eq!((mouse.column, mouse.row), (19, 9));
    }
    let released = match parse(b"\x1b[<0;20;10m") {
        Ok(Some(InternalEvent::Event(Event::Mouse(mouse)))) => mouse,
        other => panic!("{other:?}"),
    };
    assert_eq!(released.kind, MouseEventKind::Up(MouseButton::Left));
}

#[test]
fn pastes_are_text_even_where_it_is_not_valid() {
    assert_eq!(
        parse(b"\x1b[200~o\x1b[2D\x1b[201~"),
        Ok(Some(InternalEvent::Event(Event::Paste(
            "o\x1b[2D".to_string()
        ))))
    );
    assert_eq!(parse(b"\x1b[200~o"), Ok(None));
    assert_eq!(
        parse(b"\x1b[200~\xff\x1b[201~"),
        Ok(Some(InternalEvent::Event(Event::Paste(
            "\u{fffd}".to_string()
        ))))
    );
}

#[test]
fn color_reports_are_read_as_the_color_they_name() {
    for (bytes, slot, (r, g, b)) in [
        (b"\x1b]10;rgb:0/8/f\x07".as_slice(), 10, (0, 136, 255)),
        (b"\x1b]11;rgb:00/80/ff\x1b\\", 11, (0, 128, 255)),
        (b"\x1b]11;rgb:000/800/FFF\x07", 11, (0, 127, 255)),
        (b"\x1b]10;rgb:0000/8000/ffff\x07", 10, (0, 127, 255)),
    ] {
        assert_eq!(
            parse(bytes),
            Ok(Some(InternalEvent::OscColor {
                slot,
                payload: OscColorPayload::Rgb { r, g, b },
            }))
        );
    }
    for text in ["rgb:11/22", "rgb:1/2/3/4", "rgb:11111/2/3", "red", "rgb:g/0/0"] {
        assert_eq!(
            parse(format!("\x1b]10;{text}\x07").as_bytes()),
            Ok(Some(InternalEvent::OscColor {
                slot: 10,
                payload: OscColorPayload::Unrecognized(text.to_string()),
            }))
        );
    }
    assert_eq!(parse(b"\x1b]12;rgb:0/0/0\x07"), Ok(None));
    assert_eq!(parse(b"\x1b]10;rgb:0/0/0"), Ok(None));
}
