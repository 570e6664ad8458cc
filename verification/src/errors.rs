//! The errors that the engine reports.

use vstd::prelude::*;
use vstd::std_specs::convert::FromSpecImpl;

verus! {

/// The error type of the `ashpd` crate, through which the broker session
/// reports a failure. The engine passes such a value on and never looks into it.
#[verifier::external_type_specification]
#[verifier::external_body]
pub struct ExPortalFailure(ashpd::Error);

/// What can go wrong in the engine.
#[derive(Debug)]
pub enum VenbindError {
    /// The native input hook did not start, or its loop ended with a failure.
    LibUIOHookError,
    /// A failure that has no variant of its own.
    Message(String),
    /// The broker session could not be set up, or the broker refused a request.
    AshPdError(ashpd::Error),
    /// The active backend has no way to do what was asked of it.
    UnsupportedOperation,
}

impl From<ashpd::Error> for VenbindError {
    fn from(value: ashpd::Error) -> (error: VenbindError) {
        VenbindError::AshPdError(value)
    }
}

impl FromSpecImpl<ashpd::Error> for VenbindError {
    open spec fn obeys_from_spec() -> bool {
        true
    }

    open spec fn from_spec(value: ashpd::Error) -> VenbindError {
        VenbindError::AshPdError(value)
    }
}

/// The result of a request to the broker, as the engine reports it: a
/// failure of the broker becomes `AshPdError` and keeps its cause.
pub fn portal_result(outcome: Result<(), ashpd::Error>) -> (result: Result<(), VenbindError>)
    ensures
        result == match outcome {
            Ok(()) => Ok::<(), VenbindError>(()),
            Err(cause) => Err::<(), VenbindError>(VenbindError::AshPdError(cause)),
        },
{
    match outcome {
        Ok(()) => Ok(()),
        Err(cause) => Err(VenbindError::from(cause)),
    }
}

} // verus!
