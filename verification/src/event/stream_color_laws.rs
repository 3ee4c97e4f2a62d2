//! What holds of taking the reports of default colors out of pastes.
use crate::error::Error;
use crate::event::bytes::{BACKSLASH, BEL, ESC};
use crate::event::parse::laws::{law_color_report_is_read, report};
use crate::event::parse::{decode, Decoded};
use crate::event::stream_color::{
    command_at, command_end, extract, extracted, is_color, items, lemma_boundary_after_ascii,
    lemma_command_end_bound, report_at, report_limit, reported_color, EventWithColor, Poll,
};
use crate::event::types::{
    Event, EventView, InternalEvent, InternalEventView, OscColorPayload, OscColorPayloadView,
};
use crate::style::Color;
use vstd::prelude::*;
use vstd::utf8::{
    decode_utf8_encode_utf8, encode_utf8, encode_utf8_valid_utf8, is_char_boundary,
    is_char_boundary_iff_not_is_continuation_byte, is_char_boundary_start_end_of_seq, valid_utf8,
    valid_utf8_concat, valid_utf8_split,
};

verus! {

/// A paste without a report of a default color stays as it is.
pub proof fn law_paste_without_reports_is_kept(text: Seq<char>)
    requires
        forall|cursor: int|
            #[trigger] command_at(encode_utf8(text), cursor) ==> report_at(
                encode_utf8(text),
                cursor,
            ) is None,
    ensures
        extracted(text) == seq![InternalEventView::Event(EventView::Paste(text))],
{
    lemma_without_reports(encode_utf8(text), 0);
}

proof fn lemma_without_reports(bytes: Seq<u8>, cursor: int)
    requires
        forall|at: int| #[trigger] command_at(bytes, at) ==> report_at(bytes, at) is None,
    ensures
        extract(bytes, cursor).0.len() == 0,
    decreases bytes.len() - cursor,
{
    if cursor + 2 < bytes.len() {
        if command_at(bytes, cursor) {
            lemma_without_reports(bytes, cursor + 2);
        } else {
            lemma_without_reports(bytes, cursor + 1);
        }
    }
}

/// What is taken out of a paste are reports of default colors.
proof fn lemma_reports_are_colors(bytes: Seq<u8>, cursor: int)
    ensures
        forall|i: int|
            0 <= i < extract(bytes, cursor).0.len() ==> is_color(
                #[trigger] extract(bytes, cursor).0[i],
            ),
    decreases bytes.len() - cursor,
{
    lemma_command_end_bound(bytes, cursor + 2, report_limit(bytes, cursor));
    if cursor + 2 < bytes.len() {
        if !command_at(bytes, cursor) {
            lemma_reports_are_colors(bytes, cursor + 1);
            assert(extract(bytes, cursor).0 == extract(bytes, cursor + 1).0);
        } else {
            match report_at(bytes, cursor) {
                Some((end, event)) => {
                    lemma_reports_are_colors(bytes, end);
                    let reports = extract(bytes, cursor).0;
                    let others = extract(bytes, end).0;
                    assert(reports == seq![event] + others);
                    assert forall|i: int| 0 <= i < reports.len() implies is_color(
                        #[trigger] reports[i],
                    ) by {
                        if i > 0 {
                            assert(reports[i] == others[i - 1]);
                        }
                    }
                },
                None => {
                    lemma_reports_are_colors(bytes, cursor + 2);
                    assert(extract(bytes, cursor).0 == extract(bytes, cursor + 2).0);
                },
            }
        }
    }
}

/// What remains of UTF-8 from a place on, behind a part that was kept, is UTF-8.
proof fn lemma_rest_is_utf8(bytes: Seq<u8>, copied: int, cursor: int)
    requires
        valid_utf8(bytes),
        0 <= copied <= cursor <= bytes.len(),
        is_char_boundary(bytes, copied),
    ensures
        valid_utf8(bytes.subrange(copied, cursor) + extract(bytes, cursor).1),
    decreases bytes.len() - cursor,
{
    let kept = bytes.subrange(copied, cursor);
    lemma_command_end_bound(bytes, cursor + 2, report_limit(bytes, cursor));
    if cursor + 2 >= bytes.len() {
        valid_utf8_split(bytes, copied);
        assert(kept + bytes.skip(cursor) =~= bytes.subrange(copied, bytes.len() as int));
    } else if !command_at(bytes, cursor) {
        lemma_rest_is_utf8(bytes, copied, cursor + 1);
        assert(kept + extract(bytes, cursor).1 =~= bytes.subrange(copied, cursor + 1) + extract(
            bytes,
            cursor + 1,
        ).1);
    } else {
        match report_at(bytes, cursor) {
            Some((end, _)) => {
                lemma_command_end_is_ascii(bytes, cursor + 2, report_limit(bytes, cursor));
                lemma_boundary_after_ascii(bytes, end - 1);
                lemma_rest_is_utf8(bytes, end, end);
                let rest = extract(bytes, end).1;
                assert(bytes.subrange(end, end) + rest =~= rest);
                is_char_boundary_iff_not_is_continuation_byte(bytes, cursor);
                lemma_part_is_utf8(bytes, copied, cursor);
                valid_utf8_concat(kept, rest);
            },
            None => {
                lemma_rest_is_utf8(bytes, copied, cursor + 2);
                assert(kept + extract(bytes, cursor).1 =~= bytes.subrange(copied, cursor + 2)
                    + extract(bytes, cursor + 2).1);
            },
        }
    }
}

/// UTF-8 between two places where characters begin is UTF-8.
proof fn lemma_part_is_utf8(bytes: Seq<u8>, from: int, to: int)
    requires
        valid_utf8(bytes),
        0 <= from <= to <= bytes.len(),
        is_char_boundary(bytes, from),
        is_char_boundary(bytes, to),
    ensures
        valid_utf8(bytes.subrange(from, to)),
{
    valid_utf8_split(bytes, to);
    let head = bytes.subrange(0, to);
    if from < to {
        is_char_boundary_iff_not_is_continuation_byte(bytes, from);
        is_char_boundary_iff_not_is_continuation_byte(head, from);
    } else {
        is_char_boundary_start_end_of_seq(head);
    }
    valid_utf8_split(head, from);
    assert(head.subrange(from, to) =~= bytes.subrange(from, to));
}

proof fn lemma_command_end_is_ascii(bytes: Seq<u8>, from: int, limit: int)
    requires
        0 <= from,
    ensures
        command_end(bytes, from, limit) matches Some(end) ==> bytes[end - 1] <= 0x7f,
    decreases limit - from,
{
    if from < limit {
        lemma_command_end_is_ascii(bytes, from + 1, limit);
    }
}

/// A pasted text becomes reports of default colors and, behind them, one paste: the text itself if
/// there are no reports, and otherwise exactly the bytes that are not part of one, as text.
pub proof fn law_paste_comes_last(text: Seq<char>)
    ensures
        ({
            let events = extracted(text);
            let (reports, rest) = extract(encode_utf8(text), 0);
            &&& events.len() == reports.len() + 1
            &&& events.drop_last() == reports
            &&& forall|i: int| 0 <= i < reports.len() ==> names_a_color(#[trigger] events[i])
            &&& match events.last() {
                InternalEventView::Event(EventView::Paste(kept)) => reports.len() == 0 && kept
                    == text,
                InternalEventView::ProcessedPaste(kept) => reports.len() > 0 && encode_utf8(kept)
                    == rest,
                _ => false,
            }
        }),
{
    let bytes = encode_utf8(text);
    let (reports, rest) = extract(bytes, 0);
    lemma_reports_are_colors(bytes, 0);
    encode_utf8_valid_utf8(text);
    is_char_boundary_start_end_of_seq(bytes);
    lemma_rest_is_utf8(bytes, 0, 0);
    assert(bytes.subrange(0, 0) + rest =~= rest);
    decode_utf8_encode_utf8(rest);
    assert(extracted(text).drop_last() =~= reports);
    assert forall|i: int| 0 <= i < reports.len() implies names_a_color(
        #[trigger] extracted(text)[i],
    ) by {
        assert(extracted(text)[i] == reports[i]);
        assert(is_color(reports[i]));
    }
}

/// Text in which no operating system command begins remains where it is, other sequences included.
pub proof fn law_plain_text_is_kept(bytes: Seq<u8>, cursor: int, end: int)
    requires
        0 <= cursor <= end <= bytes.len(),
        forall|i: int|
            cursor <= i < end && i + 2 < bytes.len() ==> !(#[trigger] bytes[i] == 0x1b && bytes[i
                + 1] == 0x5d),
    ensures
        extract(bytes, cursor) == (
            extract(bytes, end).0,
            bytes.subrange(cursor, end) + extract(bytes, end).1,
        ),
    decreases end - cursor,
{
    let (reports, rest) = extract(bytes, end);
    if cursor == end {
        assert(bytes.subrange(cursor, end) + rest =~= rest);
    } else if cursor + 2 >= bytes.len() {
        assert(end + 2 >= bytes.len());
        assert(bytes.subrange(cursor, end) + bytes.skip(end) =~= bytes.skip(cursor));
    } else {
        assert(!command_at(bytes, cursor));
        law_plain_text_is_kept(bytes, cursor + 1, end);
        assert(seq![bytes[cursor]] + (bytes.subrange(cursor + 1, end) + rest)
            =~= bytes.subrange(cursor, end) + rest);
    }
}

/// Whether an event says that the terminal has a default color: slot 10 or 11, with a color.
pub open spec fn names_a_color(event: InternalEventView) -> bool {
    event matches InternalEventView::OscColor { slot, payload } && (slot == 10 || slot == 11)
        && payload is Rgb
}

/// An operating system command with this body, ended by `BEL` or by `ESC \`.
pub open spec fn terminated(body: Seq<u8>, bell: bool) -> Seq<u8> {
    seq![0x1bu8, 0x5du8] + body + if bell {
        seq![0x07u8]
    } else {
        seq![0x1bu8, 0x5cu8]
    }
}

/// Whether such a command stands at a place, with nothing in its body that could end it, and is
/// not too long to be a report.
pub open spec fn stands_at(bytes: Seq<u8>, cursor: int, body: Seq<u8>, bell: bool) -> bool {
    let len = terminated(body, bell).len() as int;
    &&& 0 <= cursor
    &&& cursor + len <= bytes.len()
    &&& len <= 1024
    &&& bytes.subrange(cursor, cursor + len) == terminated(body, bell)
    &&& forall|i: int| 0 <= i < body.len() ==> #[trigger] body[i] != 0x07 && body[i] != 0x1b
}

proof fn lemma_command_stands(bytes: Seq<u8>, cursor: int, body: Seq<u8>, bell: bool)
    requires
        stands_at(bytes, cursor, body, bell),
    ensures
        command_at(bytes, cursor),
        command_end(bytes, cursor + 2, report_limit(bytes, cursor)) == Some(
            cursor + terminated(body, bell).len() as int,
        ),
{
    let whole = terminated(body, bell);
    let end = cursor + whole.len();
    let tail: int = if bell {
        1
    } else {
        2
    };
    let limit = report_limit(bytes, cursor);
    assert(whole[0] == bytes[cursor]);
    assert(whole[1] == bytes[cursor + 1]);
    assert(end <= limit);
    assert forall|i: int| cursor + 2 <= i < end - tail implies #[trigger] bytes[i] != BEL
        && bytes[i] != ESC by {
        assert(bytes[i] == whole[i - cursor]);
        assert(whole[i - cursor] == body[i - cursor - 2]);
    }
    lemma_command_end_at(bytes, cursor + 2, end - tail, limit);
    assert(bytes[end - 1] == whole[whole.len() - 1]);
    assert(bytes[end - tail] == whole[whole.len() - tail]);
    assert(command_end(bytes, end - tail, limit) == Some(end as int));
}

/// Every report of a default color is taken out, however it spells the color and wherever it
/// stands, and looking on begins behind it.
pub proof fn law_every_report_is_taken_out(
    bytes: Seq<u8>,
    cursor: int,
    body: Seq<u8>,
    bell: bool,
    color: InternalEventView,
)
    requires
        stands_at(bytes, cursor, body, bell),
        decode(terminated(body, bell), false) == Decoded::Event(color),
        names_a_color(color),
    ensures
        ({
            let end = cursor + terminated(body, bell).len();
            extract(bytes, cursor) == (
                seq![color] + extract(bytes, end as int).0,
                extract(bytes, end as int).1,
            )
        }),
{
    lemma_command_stands(bytes, cursor, body, bell);
}

/// A command that is no such report remains part of the text, and looking on begins behind its
/// first two bytes.
pub proof fn law_other_command_is_kept(bytes: Seq<u8>, cursor: int, body: Seq<u8>, bell: bool)
    requires
        stands_at(bytes, cursor, body, bell),
        !(decode(terminated(body, bell), false) matches Decoded::Event(event) && names_a_color(
            event,
        )),
    ensures
        extract(bytes, cursor) == (
            extract(bytes, cursor + 2).0,
            seq![0x1bu8, 0x5du8] + extract(bytes, cursor + 2).1,
        ),
{
    lemma_command_stands(bytes, cursor, body, bell);
    assert(bytes.subrange(cursor, cursor + 2) =~= seq![0x1bu8, 0x5du8]);
}

/// A command that does not end within 1024 bytes, or not at all, remains part of the text.
pub proof fn law_unterminated_command_is_kept(bytes: Seq<u8>, cursor: int)
    requires
        0 <= cursor,
        cursor + 2 < bytes.len(),
        bytes[cursor] == 0x1b,
        bytes[cursor + 1] == 0x5d,
        forall|i: int|
            cursor + 2 <= i < bytes.len() && i < cursor + 1024 ==> {
                &&& #[trigger] bytes[i] != 0x07
                &&& bytes[i] == 0x1b && i + 1 < bytes.len() && i + 1 < cursor + 1024 ==> bytes[i
                    + 1] != 0x5c
            },
    ensures
        extract(bytes, cursor) == (
            extract(bytes, cursor + 2).0,
            seq![0x1bu8, 0x5du8] + extract(bytes, cursor + 2).1,
        ),
{
    lemma_no_command_end(bytes, cursor + 2, report_limit(bytes, cursor));
    assert(bytes.subrange(cursor, cursor + 2) =~= seq![0x1bu8, 0x5du8]);
}

proof fn lemma_no_command_end(bytes: Seq<u8>, from: int, limit: int)
    requires
        0 <= from,
        limit <= bytes.len(),
        forall|i: int|
            from <= i < limit ==> {
                &&& #[trigger] bytes[i] != BEL
                &&& bytes[i] == ESC && i + 1 < limit ==> bytes[i + 1] != BACKSLASH
            },
    ensures
        command_end(bytes, from, limit) is None,
    decreases limit - from,
{
    if from < limit {
        lemma_no_command_end(bytes, from + 1, limit);
    }
}

/// At the end of a paste too little is left for a command, and it is kept.
pub proof fn law_end_of_paste_is_kept(bytes: Seq<u8>, cursor: int)
    requires
        0 <= cursor <= bytes.len(),
        bytes.len() <= cursor + 2,
    ensures
        extract(bytes, cursor) == (Seq::<InternalEventView>::empty(), bytes.skip(cursor)),
{
}

/// A report of a default color is taken out, wherever it stands, and looking on begins behind it.
pub proof fn law_report_is_taken_out(
    bytes: Seq<u8>,
    cursor: int,
    background: bool,
    r: u8,
    g: u8,
    b: u8,
    bell: bool,
)
    requires
        0 <= cursor,
        cursor + report(background, r, g, b, bell).len() <= bytes.len(),
        bytes.subrange(cursor, cursor + report(background, r, g, b, bell).len() as int) == report(
            background,
            r,
            g,
            b,
            bell,
        ),
    ensures
        ({
            let end = cursor + report(background, r, g, b, bell).len();
            let color = InternalEventView::OscColor {
                slot: if background {
                    11
                } else {
                    10
                },
                payload: OscColorPayloadView::Rgb { r, g, b },
            };
            extract(bytes, cursor) == (
                seq![color] + extract(bytes, end as int).0,
                extract(bytes, end as int).1,
            )
        }),
{
    let whole = report(background, r, g, b, bell);
    let end = cursor + whole.len();
    law_color_report_is_read(background, r, g, b, bell, false);
    assert(whole[0] == bytes[cursor]);
    assert(whole[1] == bytes[cursor + 1]);
    let limit = report_limit(bytes, cursor);
    assert(end <= limit);
    let tail: int = if bell {
        1
    } else {
        2
    };
    assert forall|i: int| cursor + 2 <= i < end - tail implies #[trigger] bytes[i] != BEL
        && bytes[i] != ESC by {
        assert(bytes[i] == whole[i - cursor]);
    }
    lemma_command_end_at(bytes, cursor + 2, end - tail, limit);
    assert(bytes[end - 1] == whole[whole.len() - 1]);
    assert(bytes[end - tail] == whole[whole.len() - tail]);
    assert(command_end(bytes, end - tail, limit) == Some(end as int));
}

proof fn lemma_command_end_at(bytes: Seq<u8>, from: int, to: int, limit: int)
    requires
        from <= to <= limit,
        forall|i: int| from <= i < to ==> #[trigger] bytes[i] != BEL && bytes[i] != ESC,
    ensures
        command_end(bytes, from, limit) == command_end(bytes, to, limit),
    decreases to - from,
{
    if from < to {
        lemma_command_end_at(bytes, from + 1, to, limit);
    }
}

/// A report names the foreground in slot 10 and the background in slot 11, with its own color, and
/// nothing else reports a color.
pub proof fn law_reports_name_their_color(slot: u8, r: u8, g: u8, b: u8, event: InternalEvent)
    ensures
        ({
            let report = InternalEvent::OscColor { slot, payload: OscColorPayload::Rgb { r, g, b } };
            let color = Color::Rgb { r, g, b };
            &&& reported_color(report) is Some <==> slot == 10 || slot == 11
            &&& slot == 10 ==> reported_color(report) == Some(
                EventWithColor::ForegroundColor(color),
            )
            &&& slot == 11 ==> reported_color(report) == Some(
                EventWithColor::BackgroundColor(color),
            )
        }),
        reported_color(event) is Some ==> (event matches InternalEvent::OscColor { payload, .. }
            && payload is Rgb),
{
}

/// A stream hands on what its inner stream gives: ordinary events as they are, reports as their
/// colors, failures, the end and nothing yet as these.
pub proof fn law_stream_hands_on(
    event: Event,
    slot: u8,
    r: u8,
    g: u8,
    b: u8,
    error: Error,
)
    ensures
        items(Poll::Ready(Some(Ok(InternalEvent::Event(event))))) == Poll::Ready(
            Some(Ok::<EventWithColor, Error>(EventWithColor::Event(event))),
        ),
        slot == 10 ==> items(
            Poll::Ready(
                Some(
                    Ok(InternalEvent::OscColor { slot, payload: OscColorPayload::Rgb { r, g, b } }),
                ),
            ),
        ) == Poll::Ready(
            Some(Ok::<EventWithColor, Error>(EventWithColor::ForegroundColor(Color::Rgb { r, g, b }))),
        ),
        slot == 11 ==> items(
            Poll::Ready(
                Some(
                    Ok(InternalEvent::OscColor { slot, payload: OscColorPayload::Rgb { r, g, b } }),
                ),
            ),
        ) == Poll::Ready(
            Some(Ok::<EventWithColor, Error>(EventWithColor::BackgroundColor(Color::Rgb { r, g, b }))),
        ),
        items(Poll::Ready(Some(Err(error)))) == Poll::Ready(
            Some(Err::<EventWithColor, Error>(error)),
        ),
        items(Poll::Ready(None)) == Poll::Ready(None::<Result<EventWithColor, Error>>),
        items(Poll::Pending) == Poll::<Option<Result<EventWithColor, Error>>>::Pending,
{
}

} // verus!
