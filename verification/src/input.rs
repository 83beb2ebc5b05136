//! Checks on what the user supplied, made before any plotting starts.

use vstd::prelude::*;

verus! {

/// What is wrong with the user's input.
#[derive(Clone, Copy, Debug, PartialEq, Eq)]
pub enum InputError {
    /// Neither a segment source, which names its target, nor an explicit target was
    /// given.
    MissingTarget,
}

impl InputError {
    /// The message shown to the user.
    pub fn message(&self) -> (text: &'static str)
        ensures
            text@ == "Need --segments or --target"@,
    {
        match self {
            InputError::MissingTarget => "Need --segments or --target",
        }
    }
}

/// The target to plot: the one named by the segment source if there is one, else the
/// one given explicitly.
pub open spec fn chosen_target(from_segments: Option<String>, explicit: Option<String>) -> Option<
    String,
> {
    match from_segments {
        Some(target) => Some(target),
        None => explicit,
    }
}

/// Decides which target to plot, or reports that none was supplied.
pub fn resolve_target(from_segments: Option<String>, explicit: Option<String>) -> (result: Result<
    String,
    InputError,
>)
    ensures
        match chosen_target(from_segments, explicit) {
            Some(target) => result == Ok::<String, InputError>(target),
            None => result == Err::<String, InputError>(InputError::MissingTarget),
        },
{
    match from_segments {
        Some(target) => Ok(target),
        None => match explicit {
            Some(target) => Ok(target),
            None => Err(InputError::MissingTarget),
        },
    }
}

} // verus!
