//! Filters, which choose the events that a reader is after.
use crate::event::stream_color::{color_report, reported_color};
use crate::event::types::InternalEvent;
use vstd::prelude::*;

verus! {

/// Chooses events.
pub trait Filter {
    /// Whether an event is chosen.
    spec fn accepts(&self, event: InternalEvent) -> bool;

    /// Returns whether an event is chosen.
    fn eval(&self, event: &InternalEvent) -> (r: bool)
        ensures
            r == self.accepts(*event),
    ;
}

/// Whether an event is one that applications see.
pub open spec fn is_input(event: InternalEvent) -> bool {
    event is Event || event is ProcessedPaste
}

/// Returns whether an event is one that applications see.
fn eval_input(event: &InternalEvent) -> (r: bool)
    ensures
        r == is_input(*event),
{
    match event {
        InternalEvent::Event(_) | InternalEvent::ProcessedPaste(_) => true,
        _ => false,
    }
}

/// Chooses the events that applications see.
#[derive(Debug, Clone, Copy)]
pub struct EventFilter;

impl Filter for EventFilter {
    open spec fn accepts(&self, event: InternalEvent) -> bool {
        is_input(event)
    }

    fn eval(&self, event: &InternalEvent) -> (r: bool) {
        eval_input(event)
    }
}

/// Chooses the cursor position.
#[derive(Debug, Clone, Copy)]
pub struct CursorPositionFilter;

impl Filter for CursorPositionFilter {
    open spec fn accepts(&self, event: InternalEvent) -> bool {
        event is CursorPosition
    }

    fn eval(&self, event: &InternalEvent) -> (r: bool) {
        match event {
            InternalEvent::CursorPosition(_, _) => true,
            _ => false,
        }
    }
}

/// Chooses the reports of one default color.
#[derive(Debug, Clone, Copy)]
pub struct OscColorFilter {
    pub slot: u8,
}

impl Filter for OscColorFilter {
    open spec fn accepts(&self, event: InternalEvent) -> bool {
        event matches InternalEvent::OscColor { slot, .. } && slot == self.slot
    }

    fn eval(&self, event: &InternalEvent) -> (r: bool) {
        match event {
            InternalEvent::OscColor { slot, .. } => *slot == self.slot,
            _ => false,
        }
    }
}

/// Chooses what a stream of events yields.
#[derive(Debug, Clone, Copy)]
pub enum StreamFilter {
    /// The events that applications see.
    Input,
    /// These, and the reports that name a default color.
    InputAndColors,
}

impl Filter for StreamFilter {
    open spec fn accepts(&self, event: InternalEvent) -> bool {
        is_input(event) || (self is InputAndColors && reported_color(event) is Some)
    }

    fn eval(&self, event: &InternalEvent) -> (r: bool) {
        match self {
            StreamFilter::Input => eval_input(event),
            StreamFilter::InputAndColors => eval_input(event) || color_report(event).is_some(),
        }
    }
}

} // verus!
