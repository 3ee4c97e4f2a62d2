//! Reports of the default colors among the events of a stream, and inside pasted text.
use crate::error::Error;
use crate::event::bytes::{BACKSLASH, BEL, ESC, OSC};
use crate::event::parse::{decode, parse_event, Decoded};
use crate::event::types::{
    lemma_views_push, views, Event, EventView, InternalEvent, InternalEventView, OscColorPayload,
};
use crate::style::Color;
use std::collections::VecDeque;
use vstd::prelude::*;
use vstd::slice::slice_subrange;
use vstd::string::{StringExecFns, StringSliceAdditionalSpecFns};
use vstd::utf8::{
    decode_utf8, encode_utf8, encode_utf8_decode_utf8, encode_utf8_valid_utf8, is_char_boundary,
    is_char_boundary_iff_not_is_continuation_byte, is_char_boundary_start_end_of_seq,
    is_continuation_byte, length_of_first_scalar, pop_first_scalar, valid_utf8,
    valid_utf8_split,
};

verus! {

/// An ordinary input event or a terminal default-color report.
#[derive(Debug, Clone, PartialEq, Eq)]
pub enum EventWithColor {
    /// An ordinary keyboard, paste, mouse, focus, or resize event.
    Event(Event),
    /// The terminal's default foreground color, reported by OSC 10.
    ForegroundColor(Color),
    /// The terminal's default background color, reported by OSC 11.
    BackgroundColor(Color),
}

impl From<Event> for EventWithColor {
    fn from(event: Event) -> (r: EventWithColor) {
        EventWithColor::Event(event)
    }
}

impl vstd::std_specs::convert::FromSpecImpl<Event> for EventWithColor {
    open spec fn obeys_from_spec() -> bool {
        true
    }

    open spec fn from_spec(event: Event) -> EventWithColor {
        EventWithColor::Event(event)
    }
}

/// The default color that an event reports: slot 10 is the foreground, slot 11 the background.
pub open spec fn reported_color(event: InternalEvent) -> Option<EventWithColor> {
    match event {
        InternalEvent::OscColor { slot, payload: OscColorPayload::Rgb { r, g, b } } => {
            if slot == 10 {
                Some(EventWithColor::ForegroundColor(Color::Rgb { r, g, b }))
            } else if slot == 11 {
                Some(EventWithColor::BackgroundColor(Color::Rgb { r, g, b }))
            } else {
                None
            }
        },
        _ => None,
    }
}

/// Returns the default color that an event reports.
pub fn color_report(event: &InternalEvent) -> (r: Option<EventWithColor>)
    ensures
        r == reported_color(*event),
{
    match event {
        InternalEvent::OscColor { slot, payload: OscColorPayload::Rgb { r, g, b } } => {
            let color = Color::Rgb { r: *r, g: *g, b: *b };
            if *slot == 10 {
                Some(EventWithColor::ForegroundColor(color))
            } else if *slot == 11 {
                Some(EventWithColor::BackgroundColor(color))
            } else {
                None
            }
        },
        _ => None,
    }
}

/// Whether what an event says is a default color.
pub open spec fn is_color(event: InternalEventView) -> bool {
    event matches InternalEventView::OscColor { slot, payload } && (slot == 10 || slot == 11)
        && payload is Rgb
}

/// How long a report inside a paste can be.
pub const MAX_COLOR_REPORT_BYTES: usize = 1024;

/// Where the first terminator of an operating system command ends that stands between two places.
pub open spec fn command_end(bytes: Seq<u8>, from: int, limit: int) -> Option<int>
    decreases limit - from,
{
    if from >= limit {
        None
    } else if bytes[from] == BEL {
        Some(from + 1)
    } else if bytes[from] == ESC && from + 1 < limit && bytes[from + 1] == BACKSLASH {
        Some(from + 2)
    } else {
        command_end(bytes, from + 1, limit)
    }
}

/// How far a report that begins at a place can reach.
pub open spec fn report_limit(bytes: Seq<u8>, cursor: int) -> int {
    if cursor + MAX_COLOR_REPORT_BYTES <= bytes.len() {
        cursor + MAX_COLOR_REPORT_BYTES
    } else {
        bytes.len() as int
    }
}

/// The report of a default color that begins at a place, and where it ends.
pub open spec fn report_at(bytes: Seq<u8>, cursor: int) -> Option<(int, InternalEventView)> {
    match command_end(bytes, cursor + 2, report_limit(bytes, cursor)) {
        Some(end) => match decode(bytes.subrange(cursor, end), false) {
            Decoded::Event(event) => if is_color(event) {
                Some((end, event))
            } else {
                None
            },
            _ => None,
        },
        None => None,
    }
}

/// Whether an operating system command with something in it begins at a place.
pub open spec fn command_at(bytes: Seq<u8>, cursor: int) -> bool {
    cursor + 2 < bytes.len() && bytes[cursor] == ESC && bytes[cursor + 1] == OSC
}

/// A terminator ends behind where it was looked for, and not behind the limit.
pub proof fn lemma_command_end_bound(bytes: Seq<u8>, from: int, limit: int)
    ensures
        command_end(bytes, from, limit) matches Some(end) ==> from < end <= limit,
    decreases limit - from,
{
    if from < limit {
        lemma_command_end_bound(bytes, from + 1, limit);
    }
}

/// What a paste holds from a place on: the reports of default colors in it, and the bytes of all
/// the rest.
pub open spec fn extract(bytes: Seq<u8>, cursor: int) -> (Seq<InternalEventView>, Seq<u8>)
    decreases bytes.len() - cursor,
{
    proof {
        lemma_command_end_bound(bytes, cursor + 2, report_limit(bytes, cursor));
    }
    if cursor + 2 >= bytes.len() {
        (Seq::empty(), bytes.skip(cursor))
    } else if !command_at(bytes, cursor) {
        let (reports, rest) = extract(bytes, cursor + 1);
        (reports, seq![bytes[cursor]] + rest)
    } else {
        match report_at(bytes, cursor) {
            Some((end, event)) => {
                let (reports, rest) = extract(bytes, end);
                (seq![event] + reports, rest)
            },
            None => {
                let (reports, rest) = extract(bytes, cursor + 2);
                (reports, bytes.subrange(cursor, cursor + 2) + rest)
            },
        }
    }
}

/// The events that a pasted text becomes. Without a report it stays as it is; otherwise the
/// reports come first, and what remains of the text is marked as looked through.
pub open spec fn extracted(text: Seq<char>) -> Seq<InternalEventView> {
    let (reports, rest) = extract(encode_utf8(text), 0);
    if reports.len() == 0 {
        seq![InternalEventView::Event(EventView::Paste(text))]
    } else {
        reports.push(InternalEventView::ProcessedPaste(decode_utf8(rest)))
    }
}

/// Encoding texts one after the other encodes the text that they form.
proof fn lemma_encode_concat(a: Seq<char>, b: Seq<char>)
    ensures
        encode_utf8(a + b) == encode_utf8(a) + encode_utf8(b),
    decreases a.len(),
{
    if a.len() == 0 {
        assert(a + b =~= b);
        assert(encode_utf8(a) + encode_utf8(b) =~= encode_utf8(b));
    } else {
        lemma_encode_concat(a.drop_first(), b);
        assert((a + b).drop_first() =~= a.drop_first() + b);
        assert(encode_utf8(a + b) =~= encode_utf8(a) + encode_utf8(b));
    }
}

/// A character begins behind every ASCII character.
pub(crate) proof fn lemma_boundary_after_ascii(bytes: Seq<u8>, i: int)
    requires
        valid_utf8(bytes),
        0 <= i < bytes.len(),
        bytes[i] <= 0x7f,
    ensures
        is_char_boundary(bytes, i + 1),
    decreases bytes.len(),
{
    let width = length_of_first_scalar(bytes);
    if i == 0 {
        assert(is_char_boundary(pop_first_scalar(bytes), 0));
    } else {
        assert(i >= width) by {
            if i < width {
                assert(is_continuation_byte(bytes[i]));
            }
        }
        lemma_boundary_after_ascii(pop_first_scalar(bytes), i - width);
    }
}

/// Returns the text between two places where characters begin.
fn text_between(text: &str, from: usize, to: usize) -> (r: &str)
    requires
        from <= to <= text.spec_bytes().len(),
        is_char_boundary(text.spec_bytes(), from as int),
        is_char_boundary(text.spec_bytes(), to as int),
    ensures
        r.spec_bytes() == text.spec_bytes().subrange(from as int, to as int),
{
    let ghost bytes = text.spec_bytes();
    proof {
        encode_utf8_valid_utf8(text@);
        valid_utf8_split(bytes, to as int);
        let head = bytes.subrange(0, to as int);
        if from < to {
            is_char_boundary_iff_not_is_continuation_byte(bytes, from as int);
            is_char_boundary_iff_not_is_continuation_byte(head, from as int);
        } else {
            is_char_boundary_start_end_of_seq(head);
        }
    }
    let head = text.split_at(to).0;
    let part = head.split_at(from).1;
    assert(part.spec_bytes() =~= bytes.subrange(from as int, to as int));
    part
}

/// Returns where the first terminator of an operating system command ends that stands between two
/// places.
fn find_command_end(bytes: &[u8], from: usize, limit: usize) -> (r: Option<usize>)
    requires
        from <= limit <= bytes@.len(),
    ensures
        r is Some <==> command_end(bytes@, from as int, limit as int) is Some,
        r matches Some(end) ==> {
            &&& Some(end as int) == command_end(bytes@, from as int, limit as int)
            &&& from < end <= limit
            &&& bytes@[end - 1] <= 0x7f
        },
{
    let mut i: usize = from;
    while i < limit
        invariant
            from <= i <= limit <= bytes@.len(),
            command_end(bytes@, from as int, limit as int) == command_end(
                bytes@,
                i as int,
                limit as int,
            ),
        decreases limit - i,
    {
        if bytes[i] == BEL {
            return Some(i + 1);
        }
        if bytes[i] == ESC && i + 1 < limit && bytes[i + 1] == BACKSLASH {
            return Some(i + 2);
        }
        i = i + 1;
    }
    None
}

/// Returns the report of a default color that begins at a place, and where it ends.
fn read_report_at(bytes: &[u8], cursor: usize) -> (r: Option<(usize, InternalEvent)>)
    requires
        cursor + 2 < bytes@.len(),
    ensures
        r is Some <==> report_at(bytes@, cursor as int) is Some,
        r matches Some((end, event)) ==> {
            &&& Some((end as int, event@)) == report_at(bytes@, cursor as int)
            &&& cursor + 2 < end <= bytes@.len()
            &&& bytes@[end - 1] <= 0x7f
        },
{
    let limit: usize = if bytes.len() - cursor >= MAX_COLOR_REPORT_BYTES {
        cursor + MAX_COLOR_REPORT_BYTES
    } else {
        bytes.len()
    };
    match find_command_end(bytes, cursor + 2, limit) {
        Some(end) => match parse_event(slice_subrange(bytes, cursor, end), false) {
            Ok(Some(event)) => if color_report(&event).is_some() {
                Some((end, event))
            } else {
                None
            },
            _ => None,
        },
        None => None,
    }
}

/// Takes the reports of default colors out of a pasted text.
///
/// A terminal that answers while it is pasted into can put its answer in the middle of the text.
/// The text is not split at the answers; it comes last. Commands that are no such report, that are
/// malformed or that are not complete remain part of the text.
pub fn extract_paste_colors(text: String) -> (r: VecDeque<InternalEvent>)
    ensures
        views(r@) == extracted(text@),
{
    let mut events: VecDeque<InternalEvent> = VecDeque::new();
    let mut retained = String::new();
    let mut copied: usize = 0;
    let mut cursor: usize = 0;
    let all = text.as_str();
    let bytes = all.as_bytes();
    let ghost whole = extract(bytes@, 0);
    proof {
        encode_utf8_valid_utf8(text@);
        is_char_boundary_start_end_of_seq(bytes@);
        assert(bytes@.subrange(0, 0) =~= Seq::<u8>::empty());
        assert(views(events@) + whole.0 =~= whole.0);
        assert(encode_utf8(retained@) =~= Seq::<u8>::empty());
        assert(encode_utf8(retained@) + bytes@.subrange(0, 0) + whole.1 =~= whole.1);
    }
    while cursor < bytes.len() && bytes.len() - cursor > 2
        invariant
            copied <= cursor <= bytes@.len(),
            all@ == text@,
            bytes@ == encode_utf8(text@),
            valid_utf8(bytes@),
            is_char_boundary(bytes@, copied as int),
            whole == extract(bytes@, 0),
            whole.0 == views(events@) + extract(bytes@, cursor as int).0,
            whole.1 == encode_utf8(retained@) + bytes@.subrange(copied as int, cursor as int)
                + extract(bytes@, cursor as int).1,
            (copied == 0) == (events@.len() == 0),
        decreases bytes@.len() - cursor,
    {
        let ghost here = extract(bytes@, cursor as int);
        let ghost kept = bytes@.subrange(copied as int, cursor as int);
        if bytes[cursor] != ESC || bytes[cursor + 1] != OSC {
            proof {
                let next = extract(bytes@, cursor + 1);
                assert(bytes@.subrange(copied as int, cursor + 1) =~= kept + seq![
                    bytes@[cursor as int],
                ]);
                assert(whole.1 =~= encode_utf8(retained@) + bytes@.subrange(
                    copied as int,
                    cursor + 1,
                ) + next.1);
            }
            cursor = cursor + 1;
            continue;
        }
        match read_report_at(bytes, cursor) {
            Some((end, event)) => {
                proof {
                    is_char_boundary_iff_not_is_continuation_byte(bytes@, cursor as int);
                    lemma_boundary_after_ascii(bytes@, end - 1);
                    lemma_views_push(events@, event);
                }
                let part = text_between(all, copied, cursor);
                proof {
                    lemma_encode_concat(retained@, part@);
                    let next = extract(bytes@, end as int);
                    assert(views(events@) + here.0 =~= views(events@).push(event@) + next.0);
                    assert(bytes@.subrange(end as int, end as int) =~= Seq::<u8>::empty());
                    assert(encode_utf8(retained@) + kept + next.1 =~= encode_utf8(retained@)
                        + kept + Seq::<u8>::empty() + next.1);
                }
                retained.append(part);
                events.push_back(event);
                copied = end;
                cursor = end;
            },
            None => {
                proof {
                    let next = extract(bytes@, cursor + 2);
                    assert(bytes@.subrange(copied as int, cursor + 2) =~= kept + bytes@.subrange(
                        cursor as int,
                        cursor + 2,
                    ));
                    assert(whole.1 =~= encode_utf8(retained@) + bytes@.subrange(
                        copied as int,
                        cursor + 2,
                    ) + next.1);
                }
                cursor = cursor + 2;
            },
        }
    }
    proof {
        assert(extract(bytes@, cursor as int) == (
            Seq::<InternalEventView>::empty(),
            bytes@.skip(cursor as int),
        ));
        assert(whole.0 =~= views(events@));
        assert(bytes@.subrange(copied as int, cursor as int) + bytes@.skip(cursor as int)
            =~= bytes@.subrange(copied as int, bytes@.len() as int));
        assert(whole.1 =~= encode_utf8(retained@) + bytes@.subrange(
            copied as int,
            bytes@.len() as int,
        ));
    }
    if copied == 0 {
        let event = InternalEvent::Event(Event::Paste(text));
        proof {
            lemma_views_push(events@, event);
            assert(views(events@.push(event)) =~= extracted(text@));
        }
        events.push_back(event);
    } else {
        let part = text_between(all, copied, bytes.len());
        proof {
            lemma_encode_concat(retained@, part@);
            encode_utf8_decode_utf8(retained@ + part@);
        }
        retained.append(part);
        let event = InternalEvent::ProcessedPaste(retained);
        proof {
            lemma_views_push(events@, event);
        }
        events.push_back(event);
    }
    events
}

/// What polling a stream gives.
#[derive(Debug, Clone, PartialEq, Eq)]
pub enum Poll<T> {
    /// A value, or the end of the stream.
    Ready(T),
    /// Nothing yet.
    Pending,
}

/// An opt-in event stream that includes terminal default-color reports.
///
/// It must not be combined with another terminal event reader. The reports inside a paste are
/// taken out where the paste is read, so that replacing a stream loses none of them; here a paste
/// is an event like any other.
#[derive(Debug)]
pub struct ColorEventStream<I> {
    /// The stream of the events that [`crate::event::filter::StreamFilter::InputAndColors`]
    /// chooses.
    pub inner: I,
}

/// Whether an event is one that the stream is made for.
pub open spec fn is_streamed(event: InternalEvent) -> bool {
    event is Event || reported_color(event) is Some
}

/// The item that an event becomes.
pub open spec fn item(event: InternalEvent) -> EventWithColor {
    match event {
        InternalEvent::Event(event) => EventWithColor::Event(event),
        event => reported_color(event)->0,
    }
}

/// The items that what the inner stream gives becomes.
pub open spec fn items(polled: Poll<Option<Result<InternalEvent, Error>>>) -> Poll<
    Option<Result<EventWithColor, Error>>,
> {
    match polled {
        Poll::Ready(Some(Ok(event))) => Poll::Ready(Some(Ok(item(event)))),
        Poll::Ready(Some(Err(error))) => Poll::Ready(Some(Err(error))),
        Poll::Ready(None) => Poll::Ready(None),
        Poll::Pending => Poll::Pending,
    }
}

impl<I> ColorEventStream<I> {
    pub fn new(inner: I) -> (r: ColorEventStream<I>)
        ensures
            r.inner == inner,
    {
        ColorEventStream { inner }
    }

    /// Takes what polling the inner stream gives.
    pub fn poll_next(&mut self, polled: Poll<Option<Result<InternalEvent, Error>>>) -> (r: Poll<
        Option<Result<EventWithColor, Error>>,
    >)
        requires
            polled matches Poll::Ready(Some(Ok(event))) ==> is_streamed(event),
        ensures
            *final(self) == *old(self),
            r == items(polled),
    {
        match polled {
            Poll::Ready(Some(Ok(InternalEvent::Event(event)))) => Poll::Ready(
                Some(Ok(EventWithColor::Event(event))),
            ),
            Poll::Ready(Some(Ok(event))) => Poll::Ready(
                Some(
                    Ok(
                        color_report(&event).expect(
                            "color stream filter only accepts recognized color reports",
                        ),
                    ),
                ),
            ),
            Poll::Ready(Some(Err(error))) => Poll::Ready(Some(Err(error))),
            Poll::Ready(None) => Poll::Ready(None),
            Poll::Pending => Poll::Pending,
        }
    }
}

} // verus!
