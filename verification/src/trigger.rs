use vstd::prelude::*;

verus! {

/// Identifier chosen by the application for one registration. The engine
/// carries it around and never interprets it.
pub type KeybindId = u32;

/// A notification for a registered shortcut, in the order in which the
/// underlying events were observed.
#[derive(Clone, Copy, Debug, PartialEq, Eq, Structural)]
pub enum KeybindTrigger {
    Pressed(KeybindId),
    Released(KeybindId),
}

} // verus!
