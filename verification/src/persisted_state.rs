//! What the agent remembers of itself from one run to the next, apart from
//! what the user sets.

use vstd::prelude::*;

use crate::config::Stored;

verus! {

/// What the agent remembers.
#[derive(Debug)]
pub struct AgentState {
    /// The folder that the user picked last for sessions.
    pub last_save_dir: Option<String>,
    /// The folder of the last session.
    pub last_session_dir: Option<String>,
    /// A detected meeting is recorded without asking.
    pub auto_record_on_detect: bool,
    /// Events such as the start of a share are shown to the user.
    pub event_notifications: bool,
    /// The user has been welcomed and has picked a folder.
    pub welcomed: bool,
}

impl Default for AgentState {
    fn default() -> (r: Self)
        ensures
            r == (AgentState {
                last_save_dir: None,
                last_session_dir: None,
                auto_record_on_detect: false,
                event_notifications: true,
                welcomed: false,
            }),
    {
        AgentState {
            last_save_dir: None,
            last_session_dir: None,
            auto_record_on_detect: false,
            event_notifications: true,
            welcomed: false,
        }
    }
}

impl AgentState {
    /// What is remembered where nothing is.
    pub open spec fn fresh() -> Self {
        AgentState {
            last_save_dir: None,
            last_session_dir: None,
            auto_record_on_detect: false,
            event_notifications: true,
            welcomed: false,
        }
    }

    /// What was remembered, or a fresh memory where none could be read.
    pub fn load(stored: Stored<AgentState>) -> (r: Self)
        ensures
            r == match stored {
                Stored::Found(s) => s,
                _ => AgentState::fresh(),
            },
    {
        match stored {
            Stored::Found(s) => s,
            _ => AgentState::default(),
        }
    }

    /// Remembers the folder that the user picked.
    pub fn remember_save_dir(&mut self, dir: String)
        ensures
            *final(self) == (AgentState { last_save_dir: Some(dir), ..*old(self) }),
    {
        self.last_save_dir = Some(dir);
    }

    /// Remembers the folder of a session.
    pub fn remember_last_session(&mut self, dir: String)
        ensures
            *final(self) == (AgentState { last_session_dir: Some(dir), ..*old(self) }),
    {
        self.last_session_dir = Some(dir);
    }

    /// Remembers whether a detected meeting is recorded without asking.
    pub fn set_auto_record(&mut self, on: bool)
        ensures
            *final(self) == (AgentState { auto_record_on_detect: on, ..*old(self) }),
    {
        self.auto_record_on_detect = on;
    }

    /// Remembers whether events are shown to the user.
    pub fn set_event_notifications(&mut self, on: bool)
        ensures
            *final(self) == (AgentState { event_notifications: on, ..*old(self) }),
    {
        self.event_notifications = on;
    }

    /// Remembers that the user was welcomed and which folder they picked.
    pub fn remember_welcome(&mut self, dir: String)
        ensures
            *final(self) == (AgentState { last_save_dir: Some(dir), welcomed: true, ..*old(self) }),
    {
        self.last_save_dir = Some(dir);
        self.welcomed = true;
    }
}

} // verus!
