//! Message and data types of the selection service: subscriptions, events,
//! registrations, and the choice data handed to the interaction surface.

use vstd::prelude::*;

verus! {

/// One kind of user-generated event a client may subscribe to.
#[derive(Clone, Copy, Debug, PartialEq, Eq, Structural)]
pub enum Subscription {
    Select,
    CursorMove,
    InputChange,
    WindowClosed,
}

/// A set of subscription flags; each connection carries its own mask.
#[derive(Clone, Copy, Debug, PartialEq, Eq, Structural)]
pub struct SubscriptionMask {
    pub select: bool,
    pub cursor_move: bool,
    pub input_change: bool,
    pub window_closed: bool,
}

/// The mask with nothing in it.
pub open spec fn spec_empty_mask() -> SubscriptionMask {
    SubscriptionMask { select: false, cursor_move: false, input_change: false, window_closed: false }
}

/// The given mask with one more flag set.
pub open spec fn spec_with_flag(mask: SubscriptionMask, flag: Subscription) -> SubscriptionMask {
    match flag {
        Subscription::Select => SubscriptionMask { select: true, ..mask },
        Subscription::CursorMove => SubscriptionMask { cursor_move: true, ..mask },
        Subscription::InputChange => SubscriptionMask { input_change: true, ..mask },
        Subscription::WindowClosed => SubscriptionMask { window_closed: true, ..mask },
    }
}

impl SubscriptionMask {
    /// The empty mask: no event kind is wanted.
    pub fn empty() -> (r: SubscriptionMask)
        ensures
            r == spec_empty_mask(),
    {
        SubscriptionMask { select: false, cursor_move: false, input_change: false, window_closed: false }
    }

    /// Whether the mask includes the given flag.
    pub fn contains(&self, flag: Subscription) -> (r: bool)
        ensures
            r == self.spec_contains(flag),
    {
        match flag {
            Subscription::Select => self.select,
            Subscription::CursorMove => self.cursor_move,
            Subscription::InputChange => self.input_change,
            Subscription::WindowClosed => self.window_closed,
        }
    }

    pub open spec fn spec_contains(&self, flag: Subscription) -> bool {
        match flag {
            Subscription::Select => self.select,
            Subscription::CursorMove => self.cursor_move,
            Subscription::InputChange => self.input_change,
            Subscription::WindowClosed => self.window_closed,
        }
    }

    /// The mask with one more flag set.
    pub fn with(self, flag: Subscription) -> (r: SubscriptionMask)
        ensures
            r == spec_with_flag(self, flag),
            r.spec_contains(flag),
            forall|f: Subscription| f != flag ==> r.spec_contains(f) == self.spec_contains(f),
    {
        match flag {
            Subscription::Select => SubscriptionMask { select: true, ..self },
            Subscription::CursorMove => SubscriptionMask { cursor_move: true, ..self },
            Subscription::InputChange => SubscriptionMask { input_change: true, ..self },
            Subscription::WindowClosed => SubscriptionMask { window_closed: true, ..self },
        }
    }
}

/// The server-defined default subscription: `Select` and `WindowClosed`.
pub open spec fn spec_default_mask() -> SubscriptionMask {
    SubscriptionMask { select: true, cursor_move: false, input_change: false, window_closed: true }
}

impl Default for SubscriptionMask {
    /// The server-defined default subscription: `Select` and `WindowClosed`.
    fn default() -> (r: SubscriptionMask)
        ensures
            r == spec_default_mask(),
    {
        SubscriptionMask { select: true, cursor_move: false, input_change: false, window_closed: true }
    }
}

/// An event produced by the interaction surface for the current session.
#[derive(Debug)]
pub enum Event {
    Select(Option<usize>),
    CursorMove(usize),
    InputChange(String),
    WindowClosed,
}

impl Event {
    /// The subscription flag that governs this event kind.
    pub open spec fn flag(&self) -> Subscription {
        match self {
            Event::Select(_) => Subscription::Select,
            Event::CursorMove(_) => Subscription::CursorMove,
            Event::InputChange(_) => Subscription::InputChange,
            Event::WindowClosed => Subscription::WindowClosed,
        }
    }

    /// Whether a subscriber with the given mask wants this event.
    pub fn needed(&self, subscription: SubscriptionMask) -> (r: bool)
        ensures
            r == subscription.spec_contains(self.flag()),
    {
        match self {
            Event::Select(_) => subscription.contains(Subscription::Select),
            Event::CursorMove(_) => subscription.contains(Subscription::CursorMove),
            Event::InputChange(_) => subscription.contains(Subscription::InputChange),
            Event::WindowClosed => subscription.contains(Subscription::WindowClosed),
        }
    }
}

/// Whether the interaction surface re-ranks choices against the input text.
#[derive(Clone, Copy, Debug, PartialEq, Eq, Structural)]
pub enum Matcher {
    Off,
    Fuzzy,
}

impl Default for Matcher {
    /// The default matcher is fuzzy re-ranking.
    fn default() -> (r: Matcher)
        ensures
            r == Matcher::Fuzzy,
    {
        Matcher::Fuzzy
    }
}

/// The first line of every connection: version, wanted events, matcher kind.
#[derive(Clone, Copy, Debug)]
pub struct Registration {
    pub protocol_version: u8,
    pub subscribe_to: SubscriptionMask,
    pub matcher: Matcher,
}

/// A message sent to a remote client: a relayed surface event or one of the
/// out-of-band control notices.
#[derive(Debug)]
pub enum ServerEvent {
    Busy,
    Registered(usize),
    ServerTooOld(u8),
    Select(Option<usize>),
    CursorMove(usize),
    InputChange(String),
    WindowClosed,
}

impl From<Event> for ServerEvent {
    /// Each surface event maps to the server event of the same name.
    fn from(ui_event: Event) -> (r: ServerEvent) {
        match ui_event {
            Event::Select(n) => ServerEvent::Select(n),
            Event::CursorMove(n) => ServerEvent::CursorMove(n),
            Event::InputChange(input) => ServerEvent::InputChange(input),
            Event::WindowClosed => ServerEvent::WindowClosed,
        }
    }
}

impl vstd::std_specs::convert::FromSpecImpl<Event> for ServerEvent {
    open spec fn obeys_from_spec() -> bool {
        true
    }

    open spec fn from_spec(ui_event: Event) -> ServerEvent {
        spec_event_to_server_event(ui_event)
    }
}

/// The server event that relays a given surface event.
pub open spec fn spec_event_to_server_event(ui_event: Event) -> ServerEvent {
    match ui_event {
        Event::Select(n) => ServerEvent::Select(n),
        Event::CursorMove(n) => ServerEvent::CursorMove(n),
        Event::InputChange(input) => ServerEvent::InputChange(input),
        Event::WindowClosed => ServerEvent::WindowClosed,
    }
}

/// Shared, immutable text of a choice.
#[derive(Debug)]
pub struct ArcStr(pub String);

impl Clone for ArcStr {
    fn clone(&self) -> (r: Self)
        ensures
            r@ == self@,
    {
        ArcStr(self.0.clone())
    }
}

impl View for ArcStr {
    type V = Seq<char>;

    open spec fn view(&self) -> Seq<char> {
        self.0@
    }
}

impl ArcStr {
    pub fn new(text: String) -> (r: ArcStr)
        ensures
            r@ == text@,
    {
        ArcStr(text)
    }

    pub fn as_str(&self) -> (r: &str)
        ensures
            r@ == self@,
    {
        self.0.as_str()
    }
}

/// One selectable entry. The set it belongs to is ordered by
/// `(priority, id, text)`, not by insertion order; `priority` is rewritten
/// in place whenever the choices are re-scored against new input.
#[derive(Debug)]
pub struct Choice {
    pub priority: i64,
    pub id: usize,
    pub text: ArcStr,
}

impl Clone for Choice {
    fn clone(&self) -> (r: Self)
        ensures
            r@ == self@,
    {
        Choice { priority: self.priority, id: self.id, text: self.text.clone() }
    }
}

impl View for Choice {
    type V = (int, int, Seq<char>);

    open spec fn view(&self) -> (int, int, Seq<char>) {
        (self.priority as int, self.id as int, self.text@)
    }
}

/// Position of one list row relative to the currently selected row.
#[derive(Debug)]
pub struct Indices {
    pub current: usize,
    pub selected: Option<usize>,
}

impl Indices {
    /// Whether this row is the selected one.
    pub fn is_selected(&self) -> (r: bool)
        ensures
            r == (self.selected == Some(self.current)),
    {
        match self.selected {
            Some(selected) => self.current == selected,
            None => false,
        }
    }
}

} // verus!
