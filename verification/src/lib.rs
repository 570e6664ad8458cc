//! The engine behind global keyboard shortcuts.
//!
//! An application registers shortcuts such as `ctrl+alt+m` under ids of its
//! choice and is told when one of them is pressed or released. Two backends
//! can deliver them: a session with the desktop's global-shortcuts broker, or
//! a native keyboard hook whose key presses are matched against the registry.
//!
//! This crate holds the engine's rules: how a shortcut text is read, what the
//! registry holds, which backend is chosen, what is asked of the broker and
//! which trigger an event gives. The caller does the talking to the desktop
//! and hands the outcomes in.

pub mod decimal;
pub mod errors;
pub mod portal;
pub mod raw_input;
pub mod registry;
pub mod selector;
pub mod shortcut;
pub mod trigger;

pub use errors::VenbindError;
pub use registry::Keybinds;
pub use selector::{register_keybind, start_keybinds, unregister_keybind, Engine};
pub use shortcut::Keybind;
pub use trigger::{KeybindId, KeybindTrigger};
