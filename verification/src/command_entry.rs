//! What the entry line of the console does with a key.

use vstd::prelude::*;

verus! {

/// The keys that the entry line acts on.
#[derive(Debug, Clone, Copy, PartialEq, Eq, Structural)]
pub enum EntryKey {
    Enter,
    C,
    Tab,
    Right,
    End,
    Up,
    Down,
    PageUp,
    PageDown,
    Other,
}

/// What the entry line asks for.
#[derive(Debug, Clone, Copy, PartialEq, Eq, Structural)]
pub enum EntryAction {
    /// Run the line.
    Submit,
    /// Empty the line.
    ClearInput,
    /// Step on to the next completion.
    Autocomplete,
    /// Step back to the completion before.
    ReverseAutocomplete,
    /// Step back in the history.
    HistoryUp,
    /// Step on in the history.
    HistoryDown,
    /// Scroll the output up by a page.
    ScrollUp,
    /// Scroll the output down by a page.
    ScrollDown,
}

/// The state of the keyboard and of the entry line when a key event arrives.
#[derive(Debug, Clone, Copy, PartialEq, Eq, Structural)]
pub struct KeyPress {
    pub key: EntryKey,
    /// Whether the key went down; it went up otherwise.
    pub pressed: bool,
    pub ctrl: bool,
    pub shift: bool,
    /// Whether no text is selected in the line.
    pub selection_empty: bool,
    /// Whether the caret stands at the end of the line.
    pub caret_at_end: bool,
    /// Whether a completion hint is shown after the line.
    pub has_hint: bool,
}

/// What the entry line does with a key event: what it asks for, if anything, and
/// whether it keeps the event from going further.
#[derive(Debug, Clone, Copy, PartialEq, Eq, Structural)]
pub struct KeyResponse {
    pub action: Option<EntryAction>,
    pub handled: bool,
}

/// Whether the entry line takes the key event for itself: Enter, Tab, the arrows up
/// and down and the page keys always; `C` with Ctrl while nothing is selected; the
/// arrow right and End while the caret stands at the end of the line.
pub open spec fn takes_key(p: KeyPress) -> bool {
    match p.key {
        EntryKey::Enter | EntryKey::Tab | EntryKey::Up | EntryKey::Down | EntryKey::PageUp
        | EntryKey::PageDown => true,
        EntryKey::C => p.ctrl && p.selection_empty,
        EntryKey::Right | EntryKey::End => p.caret_at_end,
        EntryKey::Other => false,
    }
}

/// What the entry line asks for when it takes a key that went down.
pub open spec fn action_for(p: KeyPress) -> Option<EntryAction> {
    match p.key {
        EntryKey::Enter => Some(EntryAction::Submit),
        EntryKey::C => Some(EntryAction::ClearInput),
        EntryKey::Tab => if p.shift {
            Some(EntryAction::ReverseAutocomplete)
        } else {
            Some(EntryAction::Autocomplete)
        },
        EntryKey::Right | EntryKey::End => if p.has_hint {
            Some(EntryAction::Autocomplete)
        } else {
            None
        },
        EntryKey::Up => Some(EntryAction::HistoryUp),
        EntryKey::Down => Some(EntryAction::HistoryDown),
        EntryKey::PageUp => Some(EntryAction::ScrollUp),
        EntryKey::PageDown => Some(EntryAction::ScrollDown),
        EntryKey::Other => None,
    }
}

/// What the entry line does with a key event. A key that it takes goes no further,
/// whether it went down or up; it asks for something only when the key went down.
pub fn key_response(p: KeyPress) -> (r: KeyResponse)
    ensures
        r.handled == takes_key(p),
        r.action == (if takes_key(p) && p.pressed {
            action_for(p)
        } else {
            None
        }),
{
    let handled = match p.key {
        EntryKey::Enter | EntryKey::Tab | EntryKey::Up | EntryKey::Down | EntryKey::PageUp
        | EntryKey::PageDown => true,
        EntryKey::C => p.ctrl && p.selection_empty,
        EntryKey::Right | EntryKey::End => p.caret_at_end,
        EntryKey::Other => false,
    };
    if !handled || !p.pressed {
        return KeyResponse { action: None, handled };
    }
    let action = match p.key {
        EntryKey::Enter => Some(EntryAction::Submit),
        EntryKey::C => Some(EntryAction::ClearInput),
        EntryKey::Tab => if p.shift {
            Some(EntryAction::ReverseAutocomplete)
        } else {
            Some(EntryAction::Autocomplete)
        },
        EntryKey::Right | EntryKey::End => if p.has_hint {
            Some(EntryAction::Autocomplete)
        } else {
            None
        },
        EntryKey::Up => Some(EntryAction::HistoryUp),
        EntryKey::Down => Some(EntryAction::HistoryDown),
        EntryKey::PageUp => Some(EntryAction::ScrollUp),
        EntryKey::PageDown => Some(EntryAction::ScrollDown),
        EntryKey::Other => None,
    };
    KeyResponse { action, handled }
}

} // verus!
