//! Backend selection, fallback and routing.
//!
//! An engine starts without a backend. Where the environment asks for it, the
//! portal backend is tried first; if that fails, or if it was not asked for,
//! the raw-input backend takes over. Once a backend is active it stays active,
//! and every registration is routed to it.
//!
//! The functions here decide; the caller does what they decide on (opens the
//! broker session, runs the hook) and reports back how it went.

use vstd::prelude::*;

use crate::decimal::decimal_text;
use crate::errors::VenbindError;
use crate::portal::{shortcut_binding, window_target, window_target_of, ShortcutBinding, WindowTarget};
use crate::registry::{registered, unregistered, Keybinds};
use crate::shortcut::{shortcut_of, Keybind, Shortcut};
use crate::trigger::KeybindId;

verus! {

/// Which backend delivers the shortcuts.
#[derive(Clone, Copy, Debug, PartialEq, Eq, Structural)]
pub enum Backend {
    /// No backend is active: the engine has not been started, or the portal
    /// backend is being tried and the outcome is not known yet.
    Uninitialized,
    /// The portal backend is active.
    Portal,
    /// The raw-input backend is active.
    RawInput,
}

/// What the environment says about the session the process runs in.
#[derive(Clone, Copy, Debug, PartialEq, Eq, Structural)]
pub struct Environment {
    /// The session runs under the compositor protocol.
    pub wayland: bool,
    /// The portal backend is to be tried under the legacy protocol too.
    pub force_portal: bool,
}

/// What the caller has to do next to bring a backend up.
#[derive(Clone, Copy, Debug, PartialEq, Eq, Structural)]
pub enum StartAction {
    /// Open a session with the broker for this window and report the outcome
    /// to `portal_started`.
    OpenPortal(WindowTarget),
    /// Install the native hook and run its loop.
    RunHook,
}

/// How the attempt to bring up the portal backend ended.
#[derive(Debug)]
pub enum PortalStart {
    /// The portal backend is active: its notifications are to be delivered.
    Active,
    /// The attempt failed for the given reason and the raw-input backend has
    /// taken over: the native hook is to be run.
    FellBack(VenbindError),
}

/// What a registration asks of the caller.
#[derive(Clone, Debug, PartialEq, Eq)]
pub enum Registration {
    /// Nothing: the registry of the raw-input backend holds the shortcut.
    Local,
    /// The broker is to bind the shortcut as given.
    Broker(ShortcutBinding),
}

/// Mathematical model of an engine.
pub struct EngineState {
    pub backend: Backend,
    pub bindings: Map<Shortcut, KeybindId>,
}

/// One engine: its backend and its registry.
pub struct Engine {
    backend: Backend,
    keybinds: Keybinds,
}

impl View for Engine {
    type V = EngineState;

    closed spec fn view(&self) -> EngineState {
        EngineState { backend: self.backend, bindings: self.keybinds@ }
    }
}

impl Engine {
    /// An engine that has not been started and holds no binding.
    pub fn new() -> (engine: Engine)
        ensures
            engine@.backend == Backend::Uninitialized,
            engine@.bindings == Map::<Shortcut, KeybindId>::empty(),
    {
        Engine { backend: Backend::Uninitialized, keybinds: Keybinds::new() }
    }

    /// The backend that is active, or `Uninitialized` while none is.
    pub fn backend(&self) -> (backend: Backend)
        ensures
            backend == self@.backend,
    {
        self.backend
    }

    /// The registry, as the raw-input backend reads it on every key press.
    pub fn keybinds(&self) -> (keybinds: &Keybinds)
        ensures
            keybinds@ == self@.bindings,
    {
        &self.keybinds
    }
}

/// Starts an engine: decides which backend is tried first. The portal
/// backend is tried where the session runs under the compositor protocol or
/// the environment forces it, and no backend is active until `portal_started`
/// has taken the outcome; else the raw-input backend becomes active at once.
pub fn start_keybinds(
    engine: &mut Engine,
    environment: Environment,
    window_id: Option<u64>,
    display_id: Option<u64>,
) -> (action: StartAction)
    requires
        old(engine)@.backend == Backend::Uninitialized,
    ensures
        final(engine)@.bindings == old(engine)@.bindings,
        environment.wayland || environment.force_portal ==> final(engine)@.backend
            == Backend::Uninitialized && action == StartAction::OpenPortal(
            window_target_of(environment.wayland, window_id, display_id),
        ),
        !(environment.wayland || environment.force_portal) ==> final(engine)@.backend
            == Backend::RawInput && action == StartAction::RunHook,
{
    if environment.wayland || environment.force_portal {
        StartAction::OpenPortal(window_target(environment.wayland, window_id, display_id))
    } else {
        engine.backend = Backend::RawInput;
        StartAction::RunHook
    }
}

/// Takes the outcome of opening the broker session. On success the portal
/// backend is active. On failure the raw-input backend takes over, and the
/// failure is handed back to be reported.
pub fn portal_started(engine: &mut Engine, outcome: Result<(), ashpd::Error>) -> (start:
    PortalStart)
    requires
        old(engine)@.backend == Backend::Uninitialized,
    ensures
        final(engine)@.bindings == old(engine)@.bindings,
        match outcome {
            Ok(()) => final(engine)@.backend == Backend::Portal && start == PortalStart::Active,
            Err(cause) => final(engine)@.backend == Backend::RawInput && start
                == PortalStart::FellBack(VenbindError::AshPdError(cause)),
        },
{
    match outcome {
        Ok(()) => {
            engine.backend = Backend::Portal;
            PortalStart::Active
        },
        Err(cause) => {
            engine.backend = Backend::RawInput;
            PortalStart::FellBack(VenbindError::from(cause))
        },
    }
}

/// Registers a shortcut under `id` with the active backend, which there must
/// be. The registry takes the mapping in either case; with the portal backend
/// the broker is asked to bind the shortcut as well.
pub fn register_keybind(engine: &mut Engine, keybind: String, id: KeybindId) -> (registration:
    Registration)
    requires
        old(engine)@.backend == Backend::Portal || old(engine)@.backend == Backend::RawInput,
    ensures
        final(engine)@.backend == old(engine)@.backend,
        final(engine)@.bindings == registered(old(engine)@.bindings, shortcut_of(keybind@), id),
        match registration {
            Registration::Local => old(engine)@.backend == Backend::RawInput,
            Registration::Broker(binding) => {
                &&& old(engine)@.backend == Backend::Portal
                &&& binding.id@ == decimal_text(id as nat)
                &&& binding.description@ == decimal_text(id as nat)
                &&& binding.preferred_trigger@ == keybind@
            },
        },
{
    let registration = match engine.backend {
        Backend::Portal => Registration::Broker(shortcut_binding(keybind.as_str(), id)),
        _ => Registration::Local,
    };
    engine.keybinds.register_keybind(Keybind::from_string(keybind), id);
    registration
}

/// Unregisters `id` with the active backend. Only the raw-input backend can
/// do so: it removes every mapping to `id`. With any other backend the
/// operation is unsupported and nothing changes.
pub fn unregister_keybind(engine: &mut Engine, id: KeybindId) -> (result: Result<(), VenbindError>)
    ensures
        final(engine)@.backend == old(engine)@.backend,
        old(engine)@.backend == Backend::RawInput ==> result == Ok::<(), VenbindError>(())
            && final(engine)@.bindings == unregistered(old(engine)@.bindings, id),
        old(engine)@.backend != Backend::RawInput ==> result == Err::<(), VenbindError>(
            VenbindError::UnsupportedOperation,
        ) && final(engine)@.bindings == old(engine)@.bindings,
{
    match engine.backend {
        Backend::RawInput => {
            engine.keybinds.unregister_keybind(id);
            Ok(())
        },
        _ => Err(VenbindError::UnsupportedOperation),
    }
}

} // verus!
