//! What holds of queries for the default colors as a whole.
use crate::error::{Error, ErrorKind};
use crate::event::types::{InternalEvent, OscColorPayload};
use crate::style::query::{decimal, QueryState, RequestView};
use crate::style::Color;
use vstd::prelude::*;

verus! {

/// Whether an answer ends a query with a result: at once, or, where the query has enabled raw mode,
/// once that is disabled again. Where it cannot be disabled, that failure is the result.
pub open spec fn ends_with(
    before: QueryState,
    answered: (QueryState, RequestView),
    result: RequestView,
    error: Error,
) -> bool {
    if before.restore {
        &&& answered.1 is DisableRawMode
        &&& answered.0.result is Some
        &&& answered.0.raw_mode_disabled(Ok(())).1 == result
        &&& answered.0.raw_mode_disabled(Err(error)).1 == RequestView::Fail(error@)
    } else {
        answered == (before, result)
    }
}

/// The terminal's answer is the result: the color that it names, whatever the color and whether or
/// not the query had to enable raw mode, and no color where the answer names none.
pub proof fn law_answer_is_the_result(
    state: QueryState,
    slot: u8,
    r: u8,
    g: u8,
    b: u8,
    text: String,
    error: Error,
)
    ensures
        ends_with(
            state,
            state.event_read(
                Ok(InternalEvent::OscColor { slot, payload: OscColorPayload::Rgb { r, g, b } }),
            ),
            RequestView::Color(Some(Color::Rgb { r, g, b })),
            error,
        ),
        ends_with(
            state,
            state.event_read(
                Ok(
                    InternalEvent::OscColor {
                        slot,
                        payload: OscColorPayload::Unrecognized(text),
                    },
                ),
            ),
            RequestView::Color(None),
            error,
        ),
{
}

/// A failure to write to both outputs, to wait or to read is the result, but an interrupted wait
/// is begun anew.
pub proof fn law_failure_is_the_result(state: QueryState, failure: Error, error: Error)
    ensures
        ends_with(
            state,
            state.stdout_written(Err(failure)),
            RequestView::Fail(failure@),
            error,
        ),
        ends_with(state, state.event_read(Err(failure)), RequestView::Fail(failure@), error),
        failure.kind != ErrorKind::Interrupted ==> ends_with(
            state,
            state.polled(Err(failure)),
            RequestView::Fail(failure@),
            error,
        ),
        failure.kind == ErrorKind::Interrupted ==> state.polled(Err(failure)) == (
            state,
            RequestView::Poll(2_000_000_000),
        ),
{
}

/// Whether text is the decimal digits of a number.
pub open spec fn spells(text: Seq<char>, number: nat) -> bool
    decreases text.len(),
{
    if text.len() == 0 {
        false
    } else {
        let last = text.last() as u32;
        &&& 0x30 <= last <= 0x39
        &&& number % 10 == last - 0x30
        &&& if text.len() == 1 {
            number < 10
        } else {
            // No number but zero begins with a zero.
            number >= 10 && spells(text.drop_last(), number / 10)
        }
    }
}

proof fn lemma_decimal_spells(number: nat)
    ensures
        spells(decimal(number), number),
    decreases number,
{
    let text = decimal(number);
    let digit = (0x30 + number % 10) as u8;
    assert(text.last() == digit as char);
    assert(text.last() as u32 == digit);
    if number >= 10 {
        lemma_decimal_spells(number / 10);
        assert(text.drop_last() =~= decimal(number / 10));
    }
}

/// A terminal that does not answer in time is a failure that names the color.
pub proof fn law_silence_is_a_failure(state: QueryState, error: Error)
    ensures
        exists|digits: Seq<char>, result: RequestView|
            {
                &&& #[trigger] spells(digits, state.slot as nat)
                &&& #[trigger] ends_with(state, state.polled(Ok(false)), result, error)
                &&& result matches RequestView::Fail(failure) && {
                    &&& failure.kind == ErrorKind::Other
                    &&& failure.os_code is None
                    &&& failure.message == "The terminal did not report OSC color "@ + digits
                        + " within a normal duration"@
                }
            },
{
    lemma_decimal_spells(state.slot as nat);
    let digits = decimal(state.slot as nat);
    let result = RequestView::Fail(crate::style::query::no_report(state.slot));
    assert(spells(digits, state.slot as nat));
    assert(ends_with(state, state.polled(Ok(false)), result, error));
}

/// Whether text asks for a default color: `ESC ] slot ; ? ESC \`.
pub open spec fn asks_for(text: Seq<char>, slot: u8) -> bool {
    exists|digits: Seq<char>| #[trigger]
        spells(digits, slot as nat) && text == seq!['\x1b', ']'] + digits + seq![
            ';',
            '?',
            '\x1b',
            '\\',
        ]
}

/// A query asks for its own color: on the terminal once raw mode is enabled, and on the standard
/// output, with the same text, where that fails. It then waits two seconds for an answer, and reads
/// it when it is there; other events are waited past.
pub proof fn law_query_asks_and_waits(
    state: QueryState,
    error: Error,
    event: InternalEvent,
)
    ensures
        state.raw_mode_known(false) == (state, RequestView::EnableRawMode),
        state.raw_mode_known(true).0 == state,
        state.raw_mode_known(true).1 matches RequestView::WriteTty(text) && asks_for(
            text,
            state.slot,
        ),
        state.raw_mode_enabled(Ok(())).0 == (QueryState { restore: true, ..state }),
        state.raw_mode_enabled(Ok(())).1 == state.raw_mode_known(true).1,
        state.raw_mode_enabled(Err(error)) == (state, RequestView::Fail(error@)),
        state.tty_written(Ok(())) == (state, RequestView::Poll(2_000_000_000)),
        state.tty_written(Err(error)).0 == state,
        state.tty_written(Err(error)).1 matches RequestView::WriteStdout(text)
            && state.raw_mode_known(true).1 == RequestView::WriteTty(text),
        state.stdout_written(Ok(())) == (state, RequestView::Poll(2_000_000_000)),
        state.polled(Ok(true)) == (state, RequestView::Read),
        !(event is OscColor) ==> state.event_read(Ok(event)) == (
            state,
            RequestView::Poll(2_000_000_000),
        ),
{
    reveal_strlit("\x1B]");
    reveal_strlit(";?\x1B\\");
    lemma_decimal_spells(state.slot as nat);
    let digits = decimal(state.slot as nat);
    assert(spells(digits, state.slot as nat));
    assert("\x1B]"@ =~= seq!['\x1b', ']']);
    assert(";?\x1B\\"@ =~= seq![';', '?', '\x1b', '\\']);
}

} // verus!
