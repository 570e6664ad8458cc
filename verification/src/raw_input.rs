//! Decisions of the raw-input backend.
//!
//! The backend owns a native keyboard hook. For every event that the hook
//! delivers, the backend asks here whether the event is a key press, has the
//! keyboard layout say which text the key gives, and asks here which trigger,
//! if any, the press gives. Key releases give none.

use vstd::prelude::*;

use crate::errors::VenbindError;
use crate::registry::{lookup, Keybinds};
use crate::shortcut::{Keybind, Shortcut};
use crate::trigger::{KeybindId, KeybindTrigger};

verus! {

/// The hook's event type for a key that goes down.
pub const EVENT_KEY_PRESSED: u32 = 4;

/// The bits of the hook's modifier mask that say that a shift key, the left
/// or the right one, is held.
pub const MASK_SHIFT: u16 = 0x11;

/// The mask bits of the two ctrl keys.
pub const MASK_CTRL: u16 = 0x22;

/// The mask bits of the two alt keys.
pub const MASK_ALT: u16 = 0x88;

/// The status with which the hook's loop ends when nothing went wrong.
pub const UIOHOOK_SUCCESS: i32 = 0;

/// One of the keys of `modifier` is held according to `mask`.
pub open spec fn held(mask: u16, modifier: u16) -> bool {
    mask & modifier != 0
}

/// A modifier is held when its left key or its right key is down, whatever
/// else the mask shows.
pub proof fn lemma_either_side_holds(mask: u16)
    ensures
        held(mask, MASK_SHIFT) <==> mask & 0x01 != 0 || mask & 0x10 != 0,
        held(mask, MASK_CTRL) <==> mask & 0x02 != 0 || mask & 0x20 != 0,
        held(mask, MASK_ALT) <==> mask & 0x08 != 0 || mask & 0x80 != 0,
{
    assert(mask & 0x11 != 0 <==> mask & 0x01 != 0 || mask & 0x10 != 0) by (bit_vector);
    assert(mask & 0x22 != 0 <==> mask & 0x02 != 0 || mask & 0x20 != 0) by (bit_vector);
    assert(mask & 0x88 != 0 <==> mask & 0x08 != 0 || mask & 0x80 != 0) by (bit_vector);
}

/// The identity of a key press: the modifiers that the mask shows as held,
/// and the text of the key unless it is empty.
pub open spec fn key_shortcut(mask: u16, text: Seq<char>) -> Shortcut {
    Shortcut {
        shift: held(mask, MASK_SHIFT),
        alt: held(mask, MASK_ALT),
        ctrl: held(mask, MASK_CTRL),
        base: if text.len() == 0 {
            None
        } else {
            Some(text)
        },
    }
}

/// The trigger that a key press with identity `pressed` gives under the
/// registry `m`.
pub open spec fn press_trigger(m: Map<Shortcut, KeybindId>, pressed: Shortcut) -> Option<
    KeybindTrigger,
> {
    match lookup(m, pressed) {
        Some(id) => Some(KeybindTrigger::Pressed(id)),
        None => None,
    }
}

/// Whether an event of the hook is a key press, the only kind of event that
/// the backend acts on.
pub fn is_key_press(event_type: u32) -> (press: bool)
    ensures
        press == (event_type == EVENT_KEY_PRESSED),
{
    event_type == EVENT_KEY_PRESSED
}

impl Keybind {
    /// The identity of a key press, from the modifier mask of the event and
    /// the text that the layout gives for the key. A key without text counts
    /// as no base key.
    pub fn from_key(mask: u16, text: String) -> (pressed: Keybind)
        ensures
            pressed@ == key_shortcut(mask, text@),
    {
        let shift = mask & MASK_SHIFT != 0;
        let alt = mask & MASK_ALT != 0;
        let ctrl = mask & MASK_CTRL != 0;
        let character = if text.as_str().is_empty() {
            None
        } else {
            Some(text)
        };
        Keybind { shift, alt, ctrl, character }
    }
}

/// The trigger for a key press: `Pressed` with the id that the identity of
/// the press is registered under, and nothing if it is not registered.
pub fn key_press_trigger(keybinds: &Keybinds, mask: u16, text: String) -> (trigger: Option<
    KeybindTrigger,
>)
    ensures
        trigger == press_trigger(keybinds@, key_shortcut(mask, text@)),
{
    match keybinds.get_keybind_id(Keybind::from_key(mask, text)) {
        Some(id) => Some(KeybindTrigger::Pressed(id)),
        None => None,
    }
}

/// What the end of the hook's loop means: every status but success is a
/// failure of the backend.
pub fn hook_result(status: i32) -> (result: Result<(), VenbindError>)
    ensures
        result == if status == UIOHOOK_SUCCESS {
            Ok::<(), VenbindError>(())
        } else {
            Err::<(), VenbindError>(VenbindError::LibUIOHookError)
        },
{
    if status == UIOHOOK_SUCCESS {
        Ok(())
    } else {
        Err(VenbindError::LibUIOHookError)
    }
}

} // verus!
