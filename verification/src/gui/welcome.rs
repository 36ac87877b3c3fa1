//! The window that welcomes the user and lets them pick a folder.

use vstd::prelude::*;

use crate::gui::base64::{encoded, icon_data_uri};
use crate::persisted_state::AgentState;
use crate::text::{replace_text, replaced, same_text};

verus! {

/// The page of the window: the template with the picture put in.
pub fn welcome_page(template: &str, icon_png: &[u8]) -> (r: String)
    ensures
        r@ == replaced(
            template@,
            "{{ICON_DATA_URI}}"@,
            "data:image/png;base64,"@ + encoded(icon_png@),
        ),
{
    proof {
        reveal_strlit("{{ICON_DATA_URI}}");
    }
    let icon = icon_data_uri(icon_png);
    replace_text(template, "{{ICON_DATA_URI}}", icon.as_str())
}

/// What the user does in the window.
#[derive(Debug, Clone, Copy, PartialEq, Eq, Structural)]
pub enum WelcomeAction {
    PickFolder,
    Dismissed,
}

/// What a message of the page means.
pub fn welcome_action(message: &str) -> (r: WelcomeAction)
    ensures
        r == if message@ == "ok"@ {
            WelcomeAction::PickFolder
        } else {
            WelcomeAction::Dismissed
        },
{
    if same_text(message, "ok") {
        WelcomeAction::PickFolder
    } else {
        WelcomeAction::Dismissed
    }
}

/// How picking a folder ended.
#[derive(Debug)]
pub enum Picked {
    Folder(String),
    Cancelled,
    Failed,
}

/// What becomes of the window.
#[derive(Debug)]
pub enum WelcomeStep {
    /// It stays.
    Stay,
    /// It closes, and the user has picked a folder.
    Done(String),
    /// It closes, and the agent with it.
    Leave,
}

/// What becomes of the window once a folder was asked for: without one it
/// stays as it is.
pub fn after_picking(picked: Picked) -> (r: WelcomeStep)
    ensures
        match picked {
            Picked::Folder(dir) => r == WelcomeStep::Done(dir),
            _ => r is Stay,
        },
{
    match picked {
        Picked::Folder(dir) => WelcomeStep::Done(dir),
        _ => WelcomeStep::Stay,
    }
}

/// How the welcome ended.
#[derive(Debug)]
pub enum Welcome {
    Picked(String),
    Dismissed,
    /// The window could not be shown; a plain message is shown instead.
    Failed,
}

/// Is the user to be welcomed? Only the first time.
pub fn needs_welcome(state: &AgentState) -> (r: bool)
    ensures
        r == !state.welcomed,
{
    !state.welcomed
}

/// What follows from the welcome: does the agent go on, and must what it
/// remembers be written?
#[derive(Debug, Clone, Copy, PartialEq, Eq, Structural)]
pub struct Startup {
    pub go_on: bool,
    pub save: bool,
    pub plain_message: bool,
}

/// The welcome is over. The agent remembers the folder that was picked; it
/// goes on unless the user has closed the window.
pub fn after_welcome(state: &mut AgentState, outcome: Welcome) -> (r: Startup)
    ensures
        match outcome {
            Welcome::Picked(dir) => {
                &&& r == (Startup { go_on: true, save: true, plain_message: false })
                &&& *final(state) == (AgentState {
                    last_save_dir: Some(dir),
                    welcomed: true,
                    ..*old(state)
                })
            },
            Welcome::Dismissed => {
                &&& r == (Startup { go_on: false, save: false, plain_message: false })
                &&& *final(state) == *old(state)
            },
            Welcome::Failed => {
                &&& r == (Startup { go_on: true, save: false, plain_message: true })
                &&& *final(state) == *old(state)
            },
        },
{
    match outcome {
        Welcome::Picked(dir) => {
            state.remember_welcome(dir);
            Startup { go_on: true, save: true, plain_message: false }
        },
        Welcome::Dismissed => Startup { go_on: false, save: false, plain_message: false },
        Welcome::Failed => Startup { go_on: true, save: false, plain_message: true },
    }
}

} // verus!
