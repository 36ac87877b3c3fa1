//! The dialog in which the user picks a folder.

use vstd::prelude::*;

use crate::text::{blank, is_blank};

verus! {

/// The code with which a dialog ends that the user has cancelled.
pub const CANCELLED: u32 = 0x8007_04C7;

/// How the dialog ended.
#[derive(Debug)]
pub enum Shown {
    /// The user picked this folder.
    Accepted(String),
    /// The dialog failed with this code.
    Failed(u32),
}

/// The folder that the user picked; none if they cancelled the dialog, and the
/// code of the failure if it failed otherwise.
pub fn pick_folder(shown: Shown) -> (r: Result<Option<String>, u32>)
    ensures
        match shown {
            Shown::Accepted(dir) => r == Ok::<Option<String>, u32>(Some(dir)),
            Shown::Failed(code) => if code == 0x8007_04C7 {
                r == Ok::<Option<String>, u32>(None)
            } else {
                r == Err::<Option<String>, u32>(code)
            },
        },
{
    match shown {
        Shown::Accepted(dir) => Ok(Some(dir)),
        Shown::Failed(code) => if code == CANCELLED {
            Ok(None)
        } else {
            Err(code)
        },
    }
}

/// May the dialog close with this name in its field? A blank one is refused,
/// and the dialog stays.
pub fn accepts_name(name: &str) -> (r: bool)
    ensures
        r == !blank(name@),
{
    !is_blank(name)
}

} // verus!
