//! Starting the agent together with Windows.

use vstd::prelude::*;

verus! {

/// The name under which the agent is registered.
pub const APP_NAME: &'static str = "MeetingAgent";

/// Does the agent start with Windows? What cannot be told counts as no.
pub fn is_enabled(answer: Option<bool>) -> (r: bool)
    ensures
        r == (answer == Some(true)),
{
    match answer {
        Some(on) => on,
        None => false,
    }
}

/// What is asked of the registry.
#[derive(Debug, Clone, Copy, PartialEq, Eq, Structural)]
pub enum Registration {
    Enable,
    Disable,
}

/// What is to be asked of the registry so that the agent starts with Windows
/// or does not.
pub fn set_enabled(on: bool) -> (r: Registration)
    ensures
        r == if on {
            Registration::Enable
        } else {
            Registration::Disable
        },
{
    if on {
        Registration::Enable
    } else {
        Registration::Disable
    }
}

} // verus!
