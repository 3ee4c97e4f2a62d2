//! Queries for the default colors, where input events cannot be read.
use crate::error::{Error, ErrorKind, ErrorView};
use crate::style::Color;
use vstd::prelude::*;

verus! {

/// The error that a query gives.
pub open spec fn unsupported(message: Seq<char>) -> ErrorView {
    ErrorView { kind: ErrorKind::Unsupported, os_code: None, message }
}

/// Fails: the foreground color cannot be queried.
pub fn query_foreground_color() -> (r: Result<Option<Color>, Error>)
    ensures
        r is Err,
        r->Err_0@ == unsupported(
            "query_foreground_color requires the \"events\" feature on Unix platforms"@,
        ),
{
    Err(
        Error::new(
            ErrorKind::Unsupported,
            "query_foreground_color requires the \"events\" feature on Unix platforms",
        ),
    )
}

/// Fails: the background color cannot be queried.
pub fn query_background_color() -> (r: Result<Option<Color>, Error>)
    ensures
        r is Err,
        r->Err_0@ == unsupported(
            "query_background_color requires the \"events\" feature on Unix platforms"@,
        ),
{
    Err(
        Error::new(
            ErrorKind::Unsupported,
            "query_background_color requires the \"events\" feature on Unix platforms",
        ),
    )
}

} // verus!
