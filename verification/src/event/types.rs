//! The events and the parts they are made of.
use vstd::prelude::*;

verus! {

/// A media key.
#[derive(Debug, Clone, Copy, PartialEq, Eq, Structural)]
pub enum MediaKeyCode {
    Play,
    Pause,
    PlayPause,
    Reverse,
    Stop,
    FastForward,
    Rewind,
    TrackNext,
    TrackPrevious,
    Record,
    LowerVolume,
    RaiseVolume,
    MuteVolume,
}

/// A modifier key that was itself pressed.
#[derive(Debug, Clone, Copy, PartialEq, Eq, Structural)]
pub enum ModifierKeyCode {
    LeftShift,
    LeftControl,
    LeftAlt,
    LeftSuper,
    LeftHyper,
    LeftMeta,
    RightShift,
    RightControl,
    RightAlt,
    RightSuper,
    RightHyper,
    RightMeta,
    IsoLevel3Shift,
    IsoLevel5Shift,
}

/// A key.
#[derive(Debug, Clone, Copy, PartialEq, Eq, Structural)]
pub enum KeyCode {
    Backspace,
    Enter,
    Left,
    Right,
    Up,
    Down,
    Home,
    End,
    PageUp,
    PageDown,
    Tab,
    BackTab,
    Delete,
    Insert,
    /// A function key with its number.
    F(u8),
    /// A character.
    Char(char),
    Esc,
    CapsLock,
    ScrollLock,
    NumLock,
    PrintScreen,
    Pause,
    Menu,
    KeypadBegin,
    Media(MediaKeyCode),
    Modifier(ModifierKeyCode),
}

/// The modifier keys held during an event.
#[derive(Debug, Clone, Copy, PartialEq, Eq, Structural)]
pub struct KeyModifiers {
    pub shift: bool,
    pub control: bool,
    pub alt: bool,
    pub super_key: bool,
    pub hyper: bool,
    pub meta: bool,
}

impl KeyModifiers {
    /// No modifier at all.
    pub open spec fn spec_none() -> KeyModifiers {
        KeyModifiers {
            shift: false,
            control: false,
            alt: false,
            super_key: false,
            hyper: false,
            meta: false,
        }
    }

    pub open spec fn spec_shift() -> KeyModifiers {
        KeyModifiers { shift: true, ..KeyModifiers::spec_none() }
    }

    pub open spec fn spec_control() -> KeyModifiers {
        KeyModifiers { control: true, ..KeyModifiers::spec_none() }
    }

    pub open spec fn spec_alt() -> KeyModifiers {
        KeyModifiers { alt: true, ..KeyModifiers::spec_none() }
    }

    /// No modifier at all.
    #[verifier::when_used_as_spec(spec_none)]
    pub fn none() -> (r: KeyModifiers)
        ensures
            r == KeyModifiers::spec_none(),
    {
        KeyModifiers {
            shift: false,
            control: false,
            alt: false,
            super_key: false,
            hyper: false,
            meta: false,
        }
    }

    /// Shift alone.
    #[verifier::when_used_as_spec(spec_shift)]
    pub fn shift() -> (r: KeyModifiers)
        ensures
            r == KeyModifiers::spec_shift(),
    {
        KeyModifiers { shift: true, ..KeyModifiers::none() }
    }

    /// Control alone.
    #[verifier::when_used_as_spec(spec_control)]
    pub fn control() -> (r: KeyModifiers)
        ensures
            r == KeyModifiers::spec_control(),
    {
        KeyModifiers { control: true, ..KeyModifiers::none() }
    }

    /// Alt alone.
    #[verifier::when_used_as_spec(spec_alt)]
    pub fn alt() -> (r: KeyModifiers)
        ensures
            r == KeyModifiers::spec_alt(),
    {
        KeyModifiers { alt: true, ..KeyModifiers::none() }
    }
}

/// Whether a key went down, repeats or went up.
#[derive(Debug, Clone, Copy, PartialEq, Eq, Structural)]
pub enum KeyEventKind {
    Press,
    Repeat,
    Release,
}

/// Where a key is and which locks were on.
#[derive(Debug, Clone, Copy, PartialEq, Eq, Structural)]
pub struct KeyEventState {
    pub keypad: bool,
    pub caps_lock: bool,
    pub num_lock: bool,
}

impl KeyEventState {
    pub open spec fn spec_none() -> KeyEventState {
        KeyEventState { keypad: false, caps_lock: false, num_lock: false }
    }

    /// No particular state.
    #[verifier::when_used_as_spec(spec_none)]
    pub fn none() -> (r: KeyEventState)
        ensures
            r == KeyEventState::spec_none(),
    {
        KeyEventState { keypad: false, caps_lock: false, num_lock: false }
    }
}

/// A key event.
#[derive(Debug, Clone, Copy, PartialEq, Eq, Structural)]
pub struct KeyEvent {
    pub code: KeyCode,
    pub modifiers: KeyModifiers,
    pub kind: KeyEventKind,
    pub state: KeyEventState,
}

impl KeyEvent {
    pub open spec fn spec_new(code: KeyCode, modifiers: KeyModifiers) -> KeyEvent {
        KeyEvent { code, modifiers, kind: KeyEventKind::Press, state: KeyEventState::spec_none() }
    }

    /// A press of a key with modifiers.
    #[verifier::when_used_as_spec(spec_new)]
    pub fn new(code: KeyCode, modifiers: KeyModifiers) -> (r: KeyEvent)
        ensures
            r == KeyEvent::spec_new(code, modifiers),
    {
        KeyEvent { code, modifiers, kind: KeyEventKind::Press, state: KeyEventState::none() }
    }
}

/// A press of the key alone.
impl From<KeyCode> for KeyEvent {
    fn from(code: KeyCode) -> (r: KeyEvent) {
        KeyEvent::new(code, KeyModifiers::none())
    }
}

impl vstd::std_specs::convert::FromSpecImpl<KeyCode> for KeyEvent {
    open spec fn obeys_from_spec() -> bool {
        true
    }

    open spec fn from_spec(code: KeyCode) -> KeyEvent {
        KeyEvent::spec_new(code, KeyModifiers::spec_none())
    }
}

/// A mouse button.
#[derive(Debug, Clone, Copy, PartialEq, Eq, Structural)]
pub enum MouseButton {
    Left,
    Right,
    Middle,
}

/// What the mouse did.
#[derive(Debug, Clone, Copy, PartialEq, Eq, Structural)]
pub enum MouseEventKind {
    Down(MouseButton),
    Up(MouseButton),
    Drag(MouseButton),
    Moved,
    ScrollDown,
    ScrollUp,
    ScrollLeft,
    ScrollRight,
}

/// A mouse event; columns and rows count from zero.
#[derive(Debug, Clone, Copy, PartialEq, Eq, Structural)]
pub struct MouseEvent {
    pub kind: MouseEventKind,
    pub column: u16,
    pub row: u16,
    pub modifiers: KeyModifiers,
}

/// The parts of the keyboard protocol that are switched on.
#[derive(Debug, Clone, Copy, PartialEq, Eq, Structural)]
pub struct KeyboardEnhancementFlags {
    pub disambiguate_escape_codes: bool,
    pub report_event_types: bool,
    pub report_alternate_keys: bool,
    pub report_all_keys_as_escape_codes: bool,
}

/// An event that applications see.
#[derive(Debug, Clone, PartialEq, Eq)]
pub enum Event {
    /// The terminal window gained focus.
    FocusGained,
    /// The terminal window lost focus.
    FocusLost,
    /// A key event.
    Key(KeyEvent),
    /// A mouse event.
    Mouse(MouseEvent),
    /// Text that was pasted in bracketed paste mode.
    Paste(String),
    /// The window has a new size, in columns and rows.
    Resize(u16, u16),
}

/// The color in a report of a default color.
#[derive(Debug, Clone, PartialEq, Eq)]
pub enum OscColorPayload {
    /// A color with one byte for each component.
    Rgb { r: u8, g: u8, b: u8 },
    /// A report that names no color in a known notation.
    Unrecognized(String),
}

/// An event inside this library: what applications see, and the answers of the terminal.
#[derive(Debug, Clone, PartialEq, Eq)]
pub enum InternalEvent {
    /// An event that applications see.
    Event(Event),
    /// The cursor's column and row, counted from zero.
    CursorPosition(u16, u16),
    /// The parts of the keyboard protocol that are switched on.
    KeyboardEnhancementFlags(KeyboardEnhancementFlags),
    /// The terminal described itself.
    PrimaryDeviceAttributes,
    /// The terminal reported a default color.
    OscColor { slot: u8, payload: OscColorPayload },
    /// A paste whose color reports were taken out already.
    ProcessedPaste(String),
}

/// What remains of the input after everything that was buffered is discarded.
#[derive(Debug, Clone, Copy, PartialEq, Eq, Structural)]
pub enum InputDiscardStatus {
    /// Nothing: the next byte begins new input.
    Complete,
    /// The rest of a paste, or of its start marker, has yet to arrive.
    BracketedPasteInProgress,
    /// The rest of another control sequence has yet to arrive.
    ControlSequenceInProgress,
}

/// What an [`Event`] says.
pub enum EventView {
    FocusGained,
    FocusLost,
    Key(KeyEvent),
    Mouse(MouseEvent),
    Paste(Seq<char>),
    Resize(u16, u16),
}

/// What an [`OscColorPayload`] says.
pub enum OscColorPayloadView {
    Rgb { r: u8, g: u8, b: u8 },
    Unrecognized(Seq<char>),
}

/// What an [`InternalEvent`] says.
pub enum InternalEventView {
    Event(EventView),
    CursorPosition(u16, u16),
    KeyboardEnhancementFlags(KeyboardEnhancementFlags),
    PrimaryDeviceAttributes,
    OscColor { slot: u8, payload: OscColorPayloadView },
    ProcessedPaste(Seq<char>),
}

impl View for Event {
    type V = EventView;

    open spec fn view(&self) -> EventView {
        match *self {
            Event::FocusGained => EventView::FocusGained,
            Event::FocusLost => EventView::FocusLost,
            Event::Key(key) => EventView::Key(key),
            Event::Mouse(mouse) => EventView::Mouse(mouse),
            Event::Paste(text) => EventView::Paste(text@),
            Event::Resize(columns, rows) => EventView::Resize(columns, rows),
        }
    }
}

impl View for OscColorPayload {
    type V = OscColorPayloadView;

    open spec fn view(&self) -> OscColorPayloadView {
        match *self {
            OscColorPayload::Rgb { r, g, b } => OscColorPayloadView::Rgb { r, g, b },
            OscColorPayload::Unrecognized(text) => OscColorPayloadView::Unrecognized(text@),
        }
    }
}

impl View for InternalEvent {
    type V = InternalEventView;

    open spec fn view(&self) -> InternalEventView {
        match *self {
            InternalEvent::Event(event) => InternalEventView::Event(event@),
            InternalEvent::CursorPosition(column, row) => InternalEventView::CursorPosition(
                column,
                row,
            ),
            InternalEvent::KeyboardEnhancementFlags(flags) => {
                InternalEventView::KeyboardEnhancementFlags(flags)
            },
            InternalEvent::PrimaryDeviceAttributes => InternalEventView::PrimaryDeviceAttributes,
            InternalEvent::OscColor { slot, payload } => InternalEventView::OscColor {
                slot,
                payload: payload@,
            },
            InternalEvent::ProcessedPaste(text) => InternalEventView::ProcessedPaste(text@),
        }
    }
}

/// What a queue of events says, from front to back.
pub open spec fn views(events: Seq<InternalEvent>) -> Seq<InternalEventView> {
    events.map_values(|event: InternalEvent| event@)
}

/// The event for a key.
pub open spec fn key_view(key: KeyEvent) -> InternalEventView {
    InternalEventView::Event(EventView::Key(key))
}

/// Appending an event to a queue appends what it says.
pub(crate) proof fn lemma_views_push(events: Seq<InternalEvent>, event: InternalEvent)
    ensures
        views(events.push(event)) == views(events).push(event@),
{
    assert(views(events.push(event)) =~= views(events).push(event@));
}

/// The modifiers are those that they are named after and no others, and a key by itself went down
/// with no locks on.
pub proof fn law_modifiers_are_what_they_are_called(code: KeyCode, held: KeyModifiers)
    ensures
        forall|modifiers: KeyModifiers| #[trigger]
            only(modifiers, false, false, false) <==> modifiers == KeyModifiers::spec_none(),
        only(KeyModifiers::spec_shift(), true, false, false),
        only(KeyModifiers::spec_control(), false, true, false),
        only(KeyModifiers::spec_alt(), false, false, true),
        ({
            let key = KeyEvent::new(code, held);
            &&& key.code == code
            &&& key.modifiers == held
            &&& key.kind is Press
            &&& !key.state.keypad && !key.state.caps_lock && !key.state.num_lock
        }),
{
}

/// Whether exactly these of the three common modifiers, and none of the others, are held.
pub open spec fn only(modifiers: KeyModifiers, shift: bool, control: bool, alt: bool) -> bool {
    &&& modifiers.shift == shift
    &&& modifiers.control == control
    &&& modifiers.alt == alt
    &&& !modifiers.super_key && !modifiers.hyper && !modifiers.meta
}

} // verus!
