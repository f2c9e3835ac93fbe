use vstd::prelude::*;

use crate::device::{Action, InterfaceType};
use crate::text::str_equals;

verus! {

/// The appearance the user picked.
#[derive(PartialEq, Eq, Structural, Debug, Clone, Copy)]
pub enum Theme {
    Light,
    Dark,
    System,
}

/// Which power metric the status bar shows.
#[derive(PartialEq, Eq, Structural, Debug, Clone, Copy)]
pub enum StatusBarItem {
    System,
    Screen,
    Heatpipe,
}

impl Default for StatusBarItem {
    fn default() -> (r: Self)
        ensures
            r == StatusBarItem::System,
    {
        StatusBarItem::System
    }
}

/// The item a stored preference names: `"system"`, `"screen"` and
/// `"heatpipe"` name their items; any other string, and a missing value or one
/// that is not a string (`None`), mean `System`.
pub open spec fn spec_from_name(name: Option<Seq<char>>) -> StatusBarItem {
    match name {
        Some(n) => if n == "screen"@ {
            StatusBarItem::Screen
        } else if n == "heatpipe"@ {
            StatusBarItem::Heatpipe
        } else {
            StatusBarItem::System
        },
        None => StatusBarItem::System,
    }
}

/// The name under which an item is stored: its variant's name in lower case.
pub open spec fn stored_name(item: StatusBarItem) -> Seq<char> {
    match item {
        StatusBarItem::System => "system"@,
        StatusBarItem::Screen => "screen"@,
        StatusBarItem::Heatpipe => "heatpipe"@,
    }
}

/// Every item is read back from the name it is stored under.
pub proof fn lemma_status_bar_item_round_trip(item: StatusBarItem)
    ensures
        spec_from_name(Some(stored_name(item))) == item,
{
    reveal_strlit("system");
    reveal_strlit("screen");
    reveal_strlit("heatpipe");
    assert("system"@[1] != "screen"@[1]);
    assert("system"@.len() != "heatpipe"@.len());
    assert("heatpipe"@.len() != "screen"@.len());
}

impl StatusBarItem {
    /// Reads a stored preference forgivingly (see `spec_from_name`).
    pub fn from_name(name: Option<&str>) -> (r: Self)
        ensures
            r == spec_from_name(match name {
                Some(n) => Some(n@),
                None => None,
            }),
    {
        match name {
            Some(n) => {
                if str_equals(n, "screen") {
                    StatusBarItem::Screen
                } else if str_equals(n, "heatpipe") {
                    StatusBarItem::Heatpipe
                } else {
                    StatusBarItem::System
                }
            },
            None => StatusBarItem::System,
        }
    }
}

/// A change of a preference.
#[derive(PartialEq, Eq, Debug, Clone)]
pub enum PreferenceEvent {
    Theme(Theme),
    AnimationsEnabled(bool),
    UpdateInterval(u32),
    Language(String),
    StatusBarItem(StatusBarItem),
    StatusBarShowCharging(bool),
}

/// A remote device was attached or detached on an interface.
#[derive(Debug, Clone)]
pub struct DeviceEvent {
    pub udid: String,
    pub name: String,
    pub interface: InterfaceType,
    pub action: Action,
}

/// A new power reading (serialized) is available.
#[derive(Debug, Clone)]
pub struct PowerUpdatedEvent(pub String);

/// The main window finished loading.
#[derive(PartialEq, Eq, Structural, Debug, Clone, Copy)]
pub struct WindowLoadedEvent;

} // verus!
