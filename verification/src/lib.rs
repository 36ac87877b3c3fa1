//! The logic of a meeting capture agent: what it detects, what it keeps and
//! what it writes, each rule with its contract.

use vstd::prelude::*;

pub mod audio;
pub mod clock;
pub mod config;
pub mod dialog;
pub mod gui;
pub mod output;
pub mod persisted_state;
pub mod picture;
pub mod recorder;
pub mod report;
pub mod screen;
pub mod session;
pub mod state;
pub mod text;
pub mod timeline;
pub mod uia;

verus! {

} // verus!
