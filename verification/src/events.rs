//! The event listener: from one notification of the window manager to the
//! row that records it.

use crate::telegram_utils::{normalized_title, strip_message_counts};
use vstd::prelude::*;
use vstd::string::StringExecFns;

verus! {

/// The application identifier of the messaging application, whose titles are
/// recorded without their badges.
pub const TELEGRAM_APP_ID: &'static str = "org.telegram.desktop";

/// What a notification says has changed about a window.
#[derive(Clone, Copy, Debug, PartialEq, Eq, Structural)]
pub enum WindowChange {
    /// Another window got the focus.
    Focus,
    /// The title of a window changed.
    Title,
    /// Anything else, which is not recorded.
    Other,
}

/// The two kinds of change that are recorded, each in a table of its own.
#[derive(Clone, Copy, Debug, PartialEq, Eq, Structural)]
pub enum EventKind {
    Focus,
    Title,
}

impl EventKind {
    /// The table that holds the rows of this kind.
    pub fn table_name(&self) -> (name: &'static str)
        ensures
            name@ == match *self {
                EventKind::Focus => "focusevents"@,
                EventKind::Title => "titleevents"@,
            },
    {
        match self {
            EventKind::Focus => "focusevents",
            EventKind::Title => "titleevents",
        }
    }
}

/// One row of the change-event stream; the store adds the time of writing.
#[derive(Clone, Debug, PartialEq, Eq)]
pub struct ChangeEventRecord {
    pub kind: EventKind,
    pub app_id: String,
    pub title: String,
}

/// What a `ChangeEventRecord` stands for.
pub struct ChangeEvent {
    pub kind: EventKind,
    pub app_id: Seq<char>,
    pub title: Seq<char>,
}

impl View for ChangeEventRecord {
    type V = ChangeEvent;

    open spec fn view(&self) -> ChangeEvent {
        ChangeEvent { kind: self.kind, app_id: self.app_id@, title: self.title@ }
    }
}

/// The text of an optional field: empty where the field is absent.
pub open spec fn text_or_empty(field: Option<String>) -> Seq<char> {
    match field {
        Some(text) => text@,
        None => Seq::empty(),
    }
}

/// The title under which an event is recorded: without its badges for the
/// messaging application, as it is for every other.
pub open spec fn event_title(app_id: Seq<char>, name: Seq<char>) -> Seq<char> {
    if app_id == TELEGRAM_APP_ID@ {
        normalized_title(name)
    } else {
        name
    }
}

/// The row that records a notification: one for a change of focus or of
/// title, none for any other change.
pub open spec fn recorded_event(
    change: WindowChange,
    app_id: Option<String>,
    name: Option<String>,
) -> Option<ChangeEvent> {
    let id = text_or_empty(app_id);
    let title = event_title(id, text_or_empty(name));
    match change {
        WindowChange::Focus => Some(ChangeEvent { kind: EventKind::Focus, app_id: id, title }),
        WindowChange::Title => Some(ChangeEvent { kind: EventKind::Title, app_id: id, title }),
        WindowChange::Other => None,
    }
}

/// The text of an optional field, empty where the field is absent.
pub fn unwrap_or_empty(field: Option<String>) -> (text: String)
    ensures
        text@ == text_or_empty(field),
{
    match field {
        Some(text) => text,
        None => String::new(),
    }
}

/// Decides what to record of one notification about a window with the given
/// application identifier and title.
pub fn handle_event(change: WindowChange, app_id: Option<String>, name: Option<String>) -> (row:
    Option<ChangeEventRecord>)
    ensures
        match row {
            Some(r) => recorded_event(change, app_id, name) == Some(r@),
            None => recorded_event(change, app_id, name) is None,
        },
{
    let kind = match change {
        WindowChange::Focus => EventKind::Focus,
        WindowChange::Title => EventKind::Title,
        WindowChange::Other => {
            return None;
        },
    };
    let id = unwrap_or_empty(app_id);
    let raw = unwrap_or_empty(name);
    let marker = String::from_str(TELEGRAM_APP_ID);
    let title = if id == marker {
        strip_message_counts(raw)
    } else {
        raw
    };
    Some(ChangeEventRecord { kind, app_id: id, title })
}

} // verus!
