//! Queries for the default colors of the terminal.
//!
//! A query never writes or waits by itself. It gives a [`Request`], which says what to ask the
//! terminal for next, and for each request there is a method that takes the answer.
use crate::error::{Error, ErrorKind, ErrorView};
use crate::event::filter::OscColorFilter;
use crate::event::types::{InternalEvent, OscColorPayload};
use crate::style::Color;
use crate::time::MILLISECOND;
use vstd::prelude::*;
use vstd::string::StringExecFns;

verus! {

/// How long the terminal may take to answer.
pub const QUERY_TIMEOUT: u128 = 2_000 * MILLISECOND;

/// What to ask the terminal for.
#[derive(Debug, PartialEq, Eq)]
pub enum Request {
    /// Find out whether raw mode is enabled: [`ColorQuery::raw_mode_known`].
    IsRawMode,
    /// Enable raw mode: [`ColorQuery::raw_mode_enabled`].
    EnableRawMode,
    /// Write to the terminal and flush it: [`ColorQuery::tty_written`].
    WriteTty(String),
    /// Write to the standard output and flush it: [`ColorQuery::stdout_written`].
    WriteStdout(String),
    /// Wait for an event that [`ColorQuery::filter`] chooses, for at most so long:
    /// [`ColorQuery::polled`].
    Poll(u128),
    /// Read such an event: [`ColorQuery::event_read`].
    Read,
    /// Disable raw mode: [`ColorQuery::raw_mode_disabled`].
    DisableRawMode,
    /// Nothing more: this is the result.
    Return(Result<Option<Color>, Error>),
}

/// What a [`Request`] says.
pub enum RequestView {
    IsRawMode,
    EnableRawMode,
    WriteTty(Seq<char>),
    WriteStdout(Seq<char>),
    Poll(u128),
    Read,
    DisableRawMode,
    Color(Option<Color>),
    Fail(ErrorView),
}

impl View for Request {
    type V = RequestView;

    open spec fn view(&self) -> RequestView {
        match *self {
            Request::IsRawMode => RequestView::IsRawMode,
            Request::EnableRawMode => RequestView::EnableRawMode,
            Request::WriteTty(text) => RequestView::WriteTty(text@),
            Request::WriteStdout(text) => RequestView::WriteStdout(text@),
            Request::Poll(timeout) => RequestView::Poll(timeout),
            Request::Read => RequestView::Read,
            Request::DisableRawMode => RequestView::DisableRawMode,
            Request::Return(result) => result_view(result),
        }
    }
}

/// What the result of a query says.
pub open spec fn result_view(result: Result<Option<Color>, Error>) -> RequestView {
    match result {
        Ok(color) => RequestView::Color(color),
        Err(error) => RequestView::Fail(error@),
    }
}

/// The decimal digits of a number.
pub open spec fn decimal(number: nat) -> Seq<char>
    decreases number,
{
    let last = seq![(0x30 + number % 10) as u8 as char];
    if number < 10 {
        last
    } else {
        decimal(number / 10) + last
    }
}

/// The sequence that asks for a default color.
pub open spec fn query_text(slot: u8) -> Seq<char> {
    "\x1B]"@ + decimal(slot as nat) + ";?\x1B\\"@
}

/// The error that a terminal gives that does not answer.
pub open spec fn no_report(slot: u8) -> ErrorView {
    ErrorView {
        kind: ErrorKind::Other,
        os_code: None,
        message: "The terminal did not report OSC color "@ + decimal(slot as nat)
            + " within a normal duration"@,
    }
}

/// The color that a report names.
pub open spec fn payload_color(payload: OscColorPayload) -> Option<Color> {
    match payload {
        OscColorPayload::Rgb { r, g, b } => Some(Color::Rgb { r, g, b }),
        OscColorPayload::Unrecognized(_) => None,
    }
}

fn digit(number: u8) -> (r: &'static str)
    requires
        number < 10,
    ensures
        r@ == seq![(0x30 + number) as u8 as char],
{
    proof {
        reveal_strlit("0");
        reveal_strlit("1");
        reveal_strlit("2");
        reveal_strlit("3");
        reveal_strlit("4");
        reveal_strlit("5");
        reveal_strlit("6");
        reveal_strlit("7");
        reveal_strlit("8");
        reveal_strlit("9");
    }
    let text = match number {
        0 => "0",
        1 => "1",
        2 => "2",
        3 => "3",
        4 => "4",
        5 => "5",
        6 => "6",
        7 => "7",
        8 => "8",
        _ => "9",
    };
    assert(text@ =~= seq![(0x30 + number) as u8 as char]);
    text
}

/// Appends the decimal digits of a number to a text.
fn append_decimal(text: &mut String, number: u8)
    ensures
        final(text)@ == old(text)@ + decimal(number as nat),
    decreases number,
{
    if number >= 10 {
        append_decimal(text, number / 10);
    }
    text.append(digit(number % 10));
    assert(text@ =~= old(text)@ + decimal(number as nat));
}

/// A number inside a text.
fn numbered_text(before: &str, number: u8, after: &str) -> (r: String)
    ensures
        r@ == before@ + decimal(number as nat) + after@,
{
    let mut text = before.to_owned();
    append_decimal(&mut text, number);
    text.append(after);
    text
}

/// A query for a default color.
#[derive(Debug)]
pub struct ColorQuery {
    /// Which color: 10 is the foreground, 11 the background.
    pub slot: u8,
    /// Whether raw mode was enabled for the query and has to be disabled again.
    pub restore: bool,
    /// The result, while raw mode is being disabled.
    pub result: Option<Result<Option<Color>, Error>>,
}

/// What a [`ColorQuery`] holds.
#[verifier::ext_equal]
pub struct QueryState {
    pub slot: u8,
    pub restore: bool,
    pub result: Option<RequestView>,
}

impl View for ColorQuery {
    type V = QueryState;

    open spec fn view(&self) -> QueryState {
        QueryState {
            slot: self.slot,
            restore: self.restore,
            result: match self.result {
                Some(result) => Some(result_view(result)),
                None => None,
            },
        }
    }
}

impl QueryState {
    /// The end of a query with a result. Raw mode is disabled first where it was enabled.
    pub open spec fn finish(self, result: RequestView) -> (QueryState, RequestView) {
        if self.restore {
            (QueryState { result: Some(result), ..self }, RequestView::DisableRawMode)
        } else {
            (self, result)
        }
    }

    /// The answer to whether raw mode is enabled.
    pub open spec fn raw_mode_known(self, enabled: bool) -> (QueryState, RequestView) {
        if enabled {
            (self, RequestView::WriteTty(query_text(self.slot)))
        } else {
            (self, RequestView::EnableRawMode)
        }
    }

    /// The answer to enabling raw mode.
    pub open spec fn raw_mode_enabled(self, outcome: Result<(), Error>) -> (
        QueryState,
        RequestView,
    ) {
        match outcome {
            Ok(_) => (
                QueryState { restore: true, ..self },
                RequestView::WriteTty(query_text(self.slot)),
            ),
            Err(error) => (self, RequestView::Fail(error@)),
        }
    }

    /// The answer to writing to the terminal.
    pub open spec fn tty_written(self, outcome: Result<(), Error>) -> (QueryState, RequestView) {
        match outcome {
            Ok(_) => (self, RequestView::Poll(QUERY_TIMEOUT)),
            Err(_) => (self, RequestView::WriteStdout(query_text(self.slot))),
        }
    }

    /// The answer to writing to the standard output.
    pub open spec fn stdout_written(self, outcome: Result<(), Error>) -> (
        QueryState,
        RequestView,
    ) {
        match outcome {
            Ok(_) => (self, RequestView::Poll(QUERY_TIMEOUT)),
            Err(error) => self.finish(RequestView::Fail(error@)),
        }
    }

    /// The answer to waiting.
    pub open spec fn polled(self, outcome: Result<bool, Error>) -> (QueryState, RequestView) {
        match outcome {
            Ok(true) => (self, RequestView::Read),
            Ok(false) => self.finish(RequestView::Fail(no_report(self.slot))),
            Err(error) => if error.kind == ErrorKind::Interrupted {
                (self, RequestView::Poll(QUERY_TIMEOUT))
            } else {
                self.finish(RequestView::Fail(error@))
            },
        }
    }

    /// The answer to reading an event.
    pub open spec fn event_read(self, outcome: Result<InternalEvent, Error>) -> (
        QueryState,
        RequestView,
    ) {
        match outcome {
            Ok(InternalEvent::OscColor { payload, .. }) => self.finish(
                RequestView::Color(payload_color(payload)),
            ),
            Ok(_) => (self, RequestView::Poll(QUERY_TIMEOUT)),
            Err(error) => self.finish(RequestView::Fail(error@)),
        }
    }

    /// The answer to disabling raw mode: the result, where that succeeded.
    pub open spec fn raw_mode_disabled(self, outcome: Result<(), Error>) -> (
        QueryState,
        RequestView,
    ) {
        (
            QueryState { restore: false, result: None, ..self },
            match outcome {
                Ok(_) => self.result->0,
                Err(error) => RequestView::Fail(error@),
            },
        )
    }
}

/// Begins to query the terminal for its current foreground color.
pub fn query_foreground_color() -> (r: (ColorQuery, Request))
    ensures
        r.0@ == (QueryState { slot: 10, restore: false, result: None }),
        r.1@ == RequestView::IsRawMode,
{
    query_color_slot(10)
}

/// Begins to query the terminal for its current background color.
pub fn query_background_color() -> (r: (ColorQuery, Request))
    ensures
        r.0@ == (QueryState { slot: 11, restore: false, result: None }),
        r.1@ == RequestView::IsRawMode,
{
    query_color_slot(11)
}

fn query_color_slot(slot: u8) -> (r: (ColorQuery, Request))
    ensures
        r.0@ == (QueryState { slot, restore: false, result: None }),
        r.1@ == RequestView::IsRawMode,
{
    (ColorQuery { slot, restore: false, result: None }, Request::IsRawMode)
}

impl ColorQuery {
    /// The filter that chooses the answers to the query.
    pub fn filter(&self) -> (r: OscColorFilter)
        ensures
            r.slot == self.slot,
    {
        OscColorFilter { slot: self.slot }
    }

    fn finish(&mut self, result: Result<Option<Color>, Error>) -> (r: Request)
        ensures
            (final(self)@, r@) == old(self)@.finish(result_view(result)),
    {
        if self.restore {
            self.result = Some(result);
            Request::DisableRawMode
        } else {
            Request::Return(result)
        }
    }

    fn query_text(&self) -> (r: String)
        ensures
            r@ == query_text(self.slot),
    {
        numbered_text("\x1B]", self.slot, ";?\x1B\\")
    }

    /// Takes the answer to [`Request::IsRawMode`].
    pub fn raw_mode_known(&mut self, enabled: bool) -> (r: Request)
        ensures
            (final(self)@, r@) == old(self)@.raw_mode_known(enabled),
    {
        if enabled {
            Request::WriteTty(self.query_text())
        } else {
            Request::EnableRawMode
        }
    }

    /// Takes the answer to [`Request::EnableRawMode`].
    pub fn raw_mode_enabled(&mut self, outcome: Result<(), Error>) -> (r: Request)
        ensures
            (final(self)@, r@) == old(self)@.raw_mode_enabled(outcome),
    {
        match outcome {
            Ok(_) => {
                self.restore = true;
                Request::WriteTty(self.query_text())
            },
            Err(error) => Request::Return(Err(error)),
        }
    }

    /// Takes the answer to [`Request::WriteTty`].
    pub fn tty_written(&mut self, outcome: Result<(), Error>) -> (r: Request)
        ensures
            (final(self)@, r@) == old(self)@.tty_written(outcome),
    {
        match outcome {
            Ok(_) => Request::Poll(QUERY_TIMEOUT),
            Err(_) => Request::WriteStdout(self.query_text()),
        }
    }

    /// Takes the answer to [`Request::WriteStdout`].
    pub fn stdout_written(&mut self, outcome: Result<(), Error>) -> (r: Request)
        ensures
            (final(self)@, r@) == old(self)@.stdout_written(outcome),
    {
        match outcome {
            Ok(_) => Request::Poll(QUERY_TIMEOUT),
            Err(error) => self.finish(Err(error)),
        }
    }

    /// Takes the answer to [`Request::Poll`]: whether there is an event.
    pub fn polled(&mut self, outcome: Result<bool, Error>) -> (r: Request)
        ensures
            (final(self)@, r@) == old(self)@.polled(outcome),
    {
        match outcome {
            Ok(true) => Request::Read,
            Ok(false) => {
                let message = numbered_text(
                    "The terminal did not report OSC color ",
                    self.slot,
                    " within a normal duration",
                );
                self.finish(Err(Error::new(ErrorKind::Other, message.as_str())))
            },
            Err(error) => if error.kind() == ErrorKind::Interrupted {
                Request::Poll(QUERY_TIMEOUT)
            } else {
                self.finish(Err(error))
            },
        }
    }

    /// Takes the answer to [`Request::Read`].
    pub fn event_read(&mut self, outcome: Result<InternalEvent, Error>) -> (r: Request)
        ensures
            (final(self)@, r@) == old(self)@.event_read(outcome),
    {
        match outcome {
            Ok(InternalEvent::OscColor { payload, .. }) => {
                let color = match payload {
                    OscColorPayload::Rgb { r, g, b } => Some(Color::Rgb { r, g, b }),
                    OscColorPayload::Unrecognized(_) => None,
                };
                self.finish(Ok(color))
            },
            Ok(_) => Request::Poll(QUERY_TIMEOUT),
            Err(error) => self.finish(Err(error)),
        }
    }

    /// Takes the answer to [`Request::DisableRawMode`].
    pub fn raw_mode_disabled(&mut self, outcome: Result<(), Error>) -> (r: Request)
        requires
            old(self).result is Some,
        ensures
            (final(self)@, r@) == old(self)@.raw_mode_disabled(outcome),
    {
        self.restore = false;
        let result = self.result.take();
        match outcome {
            Ok(_) => Request::Return(result.unwrap()),
            Err(error) => Request::Return(Err(error)),
        }
    }
}

/// Raw mode does not stay enabled behind a query that enabled it: from when it is enabled on, no
/// answer ends the query but the one to disabling it, and the request to disable it comes with
/// the result kept.
pub proof fn law_raw_mode_is_restored(
    state: QueryState,
    written: Result<(), Error>,
    polled: Result<bool, Error>,
    read: Result<InternalEvent, Error>,
)
    requires
        state.restore,
    ensures
        ({
            let answers = seq![
                state.tty_written(written),
                state.stdout_written(written),
                state.polled(polled),
                state.event_read(read),
            ];
            forall|i: int|
                0 <= i < 4 ==> {
                    let (next, request) = #[trigger] answers[i];
                    &&& next.restore
                    &&& !(request is Color) && !(request is Fail)
                    &&& request is DisableRawMode ==> next.result is Some
                }
        }),
{
}

/// Disabling raw mode hands out the result that was kept, unless it fails.
pub proof fn law_kept_result_is_returned(state: QueryState, result: RequestView)
    ensures
        state.restore ==> state.finish(result).0.raw_mode_disabled(Ok(())).1 == result,
        !state.restore ==> state.finish(result).1 == result,
{
}

/// A query that enabled raw mode is the only one that disables it.
pub proof fn law_raw_mode_is_left_alone(
    state: QueryState,
    written: Result<(), Error>,
    polled: Result<bool, Error>,
    read: Result<InternalEvent, Error>,
)
    requires
        !state.restore,
    ensures
        !(state.raw_mode_known(true).1 is EnableRawMode),
        !state.raw_mode_known(true).0.restore,
        !(state.tty_written(written).1 is DisableRawMode),
        !(state.stdout_written(written).1 is DisableRawMode),
        !(state.polled(polled).1 is DisableRawMode),
        !(state.event_read(read).1 is DisableRawMode),
{
}

} // verus!
