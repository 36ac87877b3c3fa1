//! What can happen during a session.

use vstd::prelude::*;

use crate::clock::{
    elapsed, has_utc, in_force, now_local, now_ms, rfc3339_text, wrap64, Clock, WallTime,
};

verus! {

/// A single thing that happened during a session.
///
/// `t_ms` is monotonic milliseconds since the start of the agent. `wall` is
/// the wall clock at that time, kept for the reader alone: nothing is ordered
/// by it.
#[derive(Debug)]
pub enum TimelineEvent {
    SessionStart { t_ms: u64, wall: String, note: Option<String> },
    SessionStop { t_ms: u64, wall: String },
    Caption {
        t_ms: u64,
        wall: String,
        speaker: Option<String>,
        text: String,
        /// By which a caption that was already written is known again.
        item_id: String,
    },
    AudioSegment { t_ms: u64, wall: String, path: String, kind: AudioKind, duration_ms: u64 },
    Slide {
        t_ms: u64,
        wall: String,
        path: String,
        presenter: Option<String>,
        phash_distance: u32,
    },
    ShareStart { t_ms: u64, wall: String, presenter: Option<String> },
    ShareStop { t_ms: u64, wall: String, presenter: Option<String> },
    Note { t_ms: u64, wall: String, level: String, msg: String },
}

/// Where audio came from.
#[derive(Debug, Clone, Copy, PartialEq, Eq, Structural)]
pub enum AudioKind {
    TeamsLoopback,
    DefaultLoopback,
    Microphone,
}

/// The monotonic time of an event.
pub open spec fn stamp(e: TimelineEvent) -> u64 {
    match e {
        TimelineEvent::SessionStart { t_ms, .. } => t_ms,
        TimelineEvent::SessionStop { t_ms, .. } => t_ms,
        TimelineEvent::Caption { t_ms, .. } => t_ms,
        TimelineEvent::AudioSegment { t_ms, .. } => t_ms,
        TimelineEvent::Slide { t_ms, .. } => t_ms,
        TimelineEvent::ShareStart { t_ms, .. } => t_ms,
        TimelineEvent::ShareStop { t_ms, .. } => t_ms,
        TimelineEvent::Note { t_ms, .. } => t_ms,
    }
}

impl TimelineEvent {
    /// The monotonic time of the event.
    pub fn t_ms(&self) -> (r: u64)
        ensures
            r == stamp(*self),
            match *self {
                TimelineEvent::SessionStart { t_ms, .. } => r == t_ms,
                TimelineEvent::SessionStop { t_ms, .. } => r == t_ms,
                TimelineEvent::Caption { t_ms, .. } => r == t_ms,
                TimelineEvent::AudioSegment { t_ms, .. } => r == t_ms,
                TimelineEvent::Slide { t_ms, .. } => r == t_ms,
                TimelineEvent::ShareStart { t_ms, .. } => r == t_ms,
                TimelineEvent::ShareStop { t_ms, .. } => r == t_ms,
                TimelineEvent::Note { t_ms, .. } => r == t_ms,
            },
    {
        match self {
            TimelineEvent::SessionStart { t_ms, .. } => *t_ms,
            TimelineEvent::SessionStop { t_ms, .. } => *t_ms,
            TimelineEvent::Caption { t_ms, .. } => *t_ms,
            TimelineEvent::AudioSegment { t_ms, .. } => *t_ms,
            TimelineEvent::Slide { t_ms, .. } => *t_ms,
            TimelineEvent::ShareStart { t_ms, .. } => *t_ms,
            TimelineEvent::ShareStop { t_ms, .. } => *t_ms,
            TimelineEvent::Note { t_ms, .. } => *t_ms,
        }
    }
}

/// The two stamps of an event that happens now: the monotonic time, and the
/// wall clock as it is written into the timeline.
pub fn now_event_stamps(clock: &Option<Clock>, counter: i64, wall: &WallTime) -> (r: (
    u64,
    Option<String>,
))
    requires
        i64::MIN <= counter - in_force(*clock).start <= i64::MAX,
    ensures
        r.0 == wrap64(elapsed(in_force(*clock), counter, 1000)),
        match r.1 {
            Some(t) => has_utc(*wall) && t@ == rfc3339_text(*wall),
            None => !has_utc(*wall),
        },
{
    (now_ms(clock, counter), now_local(wall))
}

/// A note in the timeline that is no warning.
pub fn info_note(t_ms: u64, wall: String, msg: &str) -> (r: TimelineEvent)
    ensures
        match r {
            TimelineEvent::Note { t_ms: t, wall: w, level, msg: m } => {
                &&& t == t_ms
                &&& w == wall
                &&& level@ == "info"@
                &&& m@ == msg@
            },
            _ => false,
        },
{
    TimelineEvent::Note { t_ms, wall, level: "info".to_owned(), msg: msg.to_owned() }
}

} // verus!
