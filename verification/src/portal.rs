//! Decisions of the portal backend.
//!
//! The backend talks to the desktop's global-shortcuts broker. What it asks
//! of the broker and what it makes of the broker's notifications is decided
//! here; the session itself belongs to the caller.

use vstd::prelude::*;

use crate::decimal::{decimal_text, id_of_text, id_text, lemma_id_text_round_trip, parse_id};
use crate::trigger::{KeybindId, KeybindTrigger};

verus! {

/// The window that the broker's dialogs belong to.
#[derive(Clone, Copy, Debug, PartialEq, Eq, Structural)]
pub enum WindowTarget {
    /// No window is named.
    Unspecified,
    /// A window of the legacy protocol, by its id.
    X11 { xid: u64 },
    /// A surface of the compositor protocol and the connection it lives on,
    /// both as native handles; a handle that was not given is zero.
    Wayland { surface: u64, display: u64 },
}

/// A handle as the native side takes it: zero stands for none.
pub open spec fn handle_or_null(handle: Option<u64>) -> u64 {
    match handle {
        Some(h) => h,
        None => 0,
    }
}

/// The window to name to the broker, given the protocol in use and the
/// handles that the caller has.
pub open spec fn window_target_of(
    wayland: bool,
    window_id: Option<u64>,
    display_id: Option<u64>,
) -> WindowTarget {
    if wayland {
        WindowTarget::Wayland {
            surface: handle_or_null(window_id),
            display: handle_or_null(display_id),
        }
    } else {
        match window_id {
            Some(xid) => WindowTarget::X11 { xid },
            None => WindowTarget::Unspecified,
        }
    }
}

/// Picks the window to name to the broker. Under the compositor protocol it
/// is the surface with its connection; under the legacy protocol the window
/// id, where the caller has one.
pub fn window_target(wayland: bool, window_id: Option<u64>, display_id: Option<u64>) -> (target:
    WindowTarget)
    ensures
        target == window_target_of(wayland, window_id, display_id),
{
    if wayland {
        let surface = match window_id {
            Some(h) => h,
            None => 0,
        };
        let display = match display_id {
            Some(h) => h,
            None => 0,
        };
        WindowTarget::Wayland { surface, display }
    } else {
        match window_id {
            Some(xid) => WindowTarget::X11 { xid },
            None => WindowTarget::Unspecified,
        }
    }
}

/// What the backend submits to the broker to have one shortcut bound.
#[derive(Clone, Debug, PartialEq, Eq)]
pub struct ShortcutBinding {
    /// The id under which the broker will report the shortcut.
    pub id: String,
    /// The text that the broker shows to the user for the shortcut.
    pub description: String,
    /// The trigger that the application would like the shortcut to have.
    pub preferred_trigger: String,
}

/// The binding request for a registration: the broker knows the shortcut by
/// the decimal text of its id, which also serves as its description, and is
/// asked for the trigger as the caller wrote it.
pub fn shortcut_binding(keybind: &str, id: KeybindId) -> (binding: ShortcutBinding)
    ensures
        binding.id@ == decimal_text(id as nat),
        binding.description@ == decimal_text(id as nat),
        binding.preferred_trigger@ == keybind@,
{
    ShortcutBinding {
        id: id_text(id),
        description: id_text(id),
        preferred_trigger: keybind.to_owned(),
    }
}

/// The two notifications of the broker about a bound shortcut.
#[derive(Clone, Copy, Debug, PartialEq, Eq, Structural)]
pub enum PortalSignal {
    Activated,
    Deactivated,
}

/// The trigger that a notification about the shortcut with id `id` stands for.
pub open spec fn signal_trigger_of(signal: PortalSignal, id: KeybindId) -> KeybindTrigger {
    match signal {
        PortalSignal::Activated => KeybindTrigger::Pressed(id),
        PortalSignal::Deactivated => KeybindTrigger::Released(id),
    }
}

/// The trigger that a notification gives which echoes the id text `echoed`.
pub open spec fn notification_trigger(signal: PortalSignal, echoed: Seq<char>) -> Option<
    KeybindTrigger,
> {
    match id_of_text(echoed) {
        Some(id) => Some(signal_trigger_of(signal, id)),
        None => None,
    }
}

/// A notification that echoes the id text of a binding stands for the
/// trigger of the id that the binding was requested for.
pub proof fn lemma_echo_gives_trigger(signal: PortalSignal, id: KeybindId)
    ensures
        notification_trigger(signal, decimal_text(id as nat)) == Some(signal_trigger_of(signal, id)),
{
    lemma_id_text_round_trip(id);
}

/// Turns a notification of the broker into a trigger. The broker echoes the
/// id text of the binding; a text that denotes no id gives no trigger.
pub fn signal_trigger(signal: PortalSignal, shortcut_id: &str) -> (trigger: Option<KeybindTrigger>)
    ensures
        trigger == notification_trigger(signal, shortcut_id@),
{
    match parse_id(shortcut_id) {
        Some(id) => Some(
            match signal {
                PortalSignal::Activated => KeybindTrigger::Pressed(id),
                PortalSignal::Deactivated => KeybindTrigger::Released(id),
            },
        ),
        None => None,
    }
}

} // verus!
