//! Where a session is kept.

use vstd::prelude::*;

use crate::clock::{local_stamp, on_the_calendar, stamp_text, WallTime};

verus! {

/// The folder of a session.
#[derive(Debug)]
pub struct SessionDir {
    pub root: String,
}

/// The name of the folder of a session that starts now:
/// `session-YYYY-MM-DD_HHMMSS`. None where the calendar does not have the date.
pub fn session_name(now: &WallTime) -> (r: Option<String>)
    ensures
        match r {
            Some(name) => on_the_calendar(*now) && name@ == "session-"@ + stamp_text(*now),
            None => !on_the_calendar(*now),
        },
{
    match local_stamp(now) {
        Some(stamp) => {
            let mut name = "session-".to_owned();
            name.append(stamp.as_str());
            Some(name)
        },
        None => None,
    }
}

} // verus!
