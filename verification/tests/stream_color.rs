//! Reports of the default colors among events and inside pastes.
use crossterm::error::{Error, ErrorKind};
use crossterm::event::filter::{Filter, StreamFilter};
use crossterm::event::stream_color::{
    color_report, extract_paste_colors, ColorEventStream, EventWithColor, Poll,
    MAX_COLOR_REPORT_BYTES,
};
use crossterm::event::{Event, InternalEvent, KeyCode, OscColorPayload};
use crossterm::style::Color;

#[test]
fn color_reports_are_opt_in_and_require_valid_rgb() {
    let input = InternalEvent::Event(Event::Key(KeyCode::Char('x').into()));
    let color = InternalEvent::OscColor {
        slot: 11,
        payload: OscColorPayload::Rgb { r: 1, g: 2, b: 3 },
    };
    let invalid = InternalEvent::OscColor {
        slot: 10,
        payload: OscColorPayload::Unrecognized("?".to_string()),
    };

    assert!(StreamFilter::Input.eval(&input));
    assert!(StreamFilter::InputAndColors.eval(&input));
    assert!(!StreamFilter::Input.eval(&color));
    assert!(StreamFilter::InputAndColors.eval(&color));
    assert!(!StreamFilter::InputAndColors.eval(&invalid));
    assert_eq!(
        color_report(&color),
        Some(EventWithColor::BackgroundColor(Color::Rgb {
            r: 1,
            g: 2,
            b: 3
        }))
    );
}

#[test]
fn extracts_color_reports_without_splitting_pasted_text() {
    let events = extract_paste_colors(
        "α\x1b]10;rgb:eeee/eeee/eeee\x07 β\x1b]11;rgb:11/22/33\x1b\\γ".to_string(),
    );
    assert_eq!(
        events.into_iter().collect::<Vec<_>>(),
        vec![
            InternalEvent::OscColor {
                slot: 10,
                payload: OscColorPayload::Rgb {
                    r: 238,
                    g: 238,
                    b: 238
                },
            },
            InternalEvent::OscColor {
                slot: 11,
                payload: OscColorPayload::Rgb {
                    r: 17,
                    g: 34,
                    b: 51
                },
            },
            InternalEvent::ProcessedPaste("α βγ".to_string()),
        ]
    );
}

#[test]
fn preserves_unrelated_malformed_and_incomplete_paste_sequences() {
    for text in [
        "\x1b]52;preserve me\x07".to_string(),
        "\x1b]10;rgb:invalid\x07".to_string(),
        "\x1b]11;rgb:11/22/33\x1b".to_string(),
        format!("\x1b]10;{}\x07", "x".repeat(2048)),
    ] {
        assert_eq!(
            extract_paste_colors(text.clone())
                .into_iter()
                .collect::<Vec<_>>(),
            vec![InternalEvent::Event(Event::Paste(text))]
        );
    }
}

#[test]
fn a_paste_of_nothing_but_reports_leaves_an_empty_text() {
    let events = extract_paste_colors("\x1b]10;rgb:0/8/f\x07\x1b]11;rgb:000/fff/800\x07".into());
    assert_eq!(
        events.into_iter().collect::<Vec<_>>(),
        vec![
            InternalEvent::OscColor {
                slot: 10,
                payload: OscColorPayload::Rgb {
                    r: 0,
                    g: 136,
                    b: 255
                },
            },
            InternalEvent::OscColor {
                slot: 11,
                payload: OscColorPayload::Rgb {
                    r: 0,
                    g: 255,
                    b: 127
                },
            },
            InternalEvent::ProcessedPaste(String::new()),
        ]
    );
}

#[test]
fn short_texts_are_kept() {
    for text in ["", "a", "\x1b]", "\x1b", "αβ"] {
        assert_eq!(
            extract_paste_colors(text.to_string())
                .into_iter()
                .collect::<Vec<_>>(),
            vec![InternalEvent::Event(Event::Paste(text.to_string()))]
        );
    }
}

#[test]
fn a_terminator_beyond_the_limit_is_not_looked_for() {
    // What precedes the terminator is a report that names no color, however long; the report
    // behind it is taken out.
    for filler in [
        MAX_COLOR_REPORT_BYTES - 6,
        MAX_COLOR_REPORT_BYTES,
        MAX_COLOR_REPORT_BYTES * 2,
    ] {
        let noise = format!("\x1b]10;{}\x07", "x".repeat(filler));
        let events = extract_paste_colors(format!("{noise}\x1b]11;rgb:11/22/33\x07"));
        assert_eq!(
            events.into_iter().collect::<Vec<_>>(),
            vec![
                InternalEvent::OscColor {
                    slot: 11,
                    payload: OscColorPayload::Rgb {
                        r: 17,
                        g: 34,
                        b: 51
                    },
                },
                InternalEvent::ProcessedPaste(noise),
            ]
        );
    }
}

#[test]
fn color_reports_name_their_slot() {
    let report = |slot| InternalEvent::OscColor {
        slot,
        payload: OscColorPayload::Rgb { r: 1, g: 2, b: 3 },
    };
    let color = Color::Rgb { r: 1, g: 2, b: 3 };
    assert_eq!(
        color_report(&report(10)),
        Some(EventWithColor::ForegroundColor(color))
    );
    assert_eq!(
        color_report(&report(11)),
        Some(EventWithColor::BackgroundColor(color))
    );
    assert_eq!(color_report(&report(12)), None);
    assert_eq!(
        color_report(&InternalEvent::Event(Event::FocusGained)),
        None
    );
}

#[test]
fn a_stream_maps_what_its_inner_stream_gives() {
    let mut stream = ColorEventStream::new(());
    let event = Event::Paste("\x1b]11;rgb:11/22/33\x07".to_string());
    // A paste was looked through where it was read; here it is an event like any other.
    assert_eq!(
        stream.poll_next(Poll::Ready(Some(Ok(InternalEvent::Event(event.clone()))))),
        Poll::Ready(Some(Ok(EventWithColor::from(event))))
    );
    assert_eq!(
        stream.poll_next(Poll::Ready(Some(Ok(InternalEvent::OscColor {
            slot: 10,
            payload: OscColorPayload::Rgb { r: 1, g: 2, b: 3 },
        })))),
        Poll::Ready(Some(Ok(EventWithColor::ForegroundColor(Color::Rgb {
            r: 1,
            g: 2,
            b: 3
        }))))
    );
    let error = Error::new(ErrorKind::Other, "closed");
    assert_eq!(
        stream.poll_next(Poll::Ready(Some(Err(error.clone())))),
        Poll::Ready(Some(Err(error)))
    );
    assert_eq!(stream.poll_next(Poll::Ready(None)), Poll::Ready(None));
    assert_eq!(stream.poll_next(Poll::Pending), Poll::Pending);
}
