//! What the user can set.

use vstd::prelude::*;

use crate::text::{copy_option_text, option_text};

verus! {

/// The settings of the agent, as the user writes them into the configuration
/// file.
#[derive(Debug)]
pub struct Config {
    /// The folder under which sessions are kept.
    pub output_root: String,
    /// At the end of every session the user is asked where it is kept.
    pub prompt_save_on_exit: bool,
    pub audio: AudioConfig,
    pub screen: ScreenConfig,
    pub caption: CaptionConfig,
    pub detect: DetectConfig,
}

/// Which sound is recorded.
#[derive(Debug)]
pub struct AudioConfig {
    pub capture_teams_loopback: bool,
    pub capture_microphone: bool,
    pub teams_process_name: String,
    /// Where the sound of Teams alone cannot be had, that of the whole system
    /// is taken.
    pub fallback_to_default_loopback: bool,
}

/// How the screen is recorded.
#[derive(Debug, Clone, Copy, PartialEq, Eq, Structural)]
pub struct ScreenConfig {
    pub enabled: bool,
    pub min_frame_interval_ms: u64,
    /// A picture counts as new where its hash differs from the last one in at
    /// least so many bits.
    pub phash_threshold: u32,
    pub only_during_share: bool,
}

/// Whether and how often captions are read.
#[derive(Debug, Clone, Copy, PartialEq, Eq, Structural)]
pub struct CaptionConfig {
    pub enabled: bool,
    pub poll_interval_ms: u64,
}

/// How often the detector looks for a meeting.
#[derive(Debug, Clone, Copy, PartialEq, Eq, Structural)]
pub struct DetectConfig {
    pub poll_interval_ms: u64,
    pub use_log_tail: bool,
}

/// The settings that hold where the user has written none, for sessions that
/// are kept under `root`.
pub open spec fn is_default(c: Config, root: Seq<char>) -> bool {
    &&& c.output_root@ == root
    &&& c.prompt_save_on_exit
    &&& c.audio.capture_teams_loopback
    &&& c.audio.capture_microphone
    &&& c.audio.teams_process_name@ == "ms-teams.exe"@
    &&& c.audio.fallback_to_default_loopback
    &&& c.screen == (ScreenConfig {
        enabled: true,
        min_frame_interval_ms: 500,
        phash_threshold: 8,
        only_during_share: true,
    })
    &&& c.caption == (CaptionConfig { enabled: true, poll_interval_ms: 400 })
    &&& c.detect == (DetectConfig { poll_interval_ms: 1500, use_log_tail: false })
}

/// What came of reading a file of settings.
pub enum Stored<T> {
    /// There is none.
    Missing,
    /// It is there and cannot be read.
    Unreadable,
    /// It was read and does not hold settings.
    Malformed,
    Found(T),
}

/// The shortest time between two readings of the captions, in milliseconds.
pub const MIN_CAPTION_POLL_MS: u64 = 50;

impl Config {
    /// The default settings, for sessions that are kept under `root`.
    pub fn default_under(root: String) -> (r: Self)
        ensures
            is_default(r, root@),
    {
        Config {
            output_root: root,
            prompt_save_on_exit: true,
            audio: AudioConfig {
                capture_teams_loopback: true,
                capture_microphone: true,
                teams_process_name: "ms-teams.exe".to_owned(),
                fallback_to_default_loopback: true,
            },
            screen: ScreenConfig {
                enabled: true,
                min_frame_interval_ms: 500,
                phash_threshold: 8,
                only_during_share: true,
            },
            caption: CaptionConfig { enabled: true, poll_interval_ms: 400 },
            detect: DetectConfig { poll_interval_ms: 1500, use_log_tail: false },
        }
    }

    /// The settings that were read, or the default ones where none could be.
    pub fn load_or_default(stored: Stored<Config>, default_root: String) -> (r: Self)
        ensures
            match stored {
                Stored::Found(c) => r == c,
                _ => is_default(r, default_root@),
            },
    {
        match stored {
            Stored::Found(c) => c,
            _ => Config::default_under(default_root),
        }
    }

    /// The settings of a run in which the user may not be asked where a session
    /// is kept.
    pub fn with_prompt(self, no_prompt_save: bool) -> (r: Self)
        ensures
            r == (Config {
                prompt_save_on_exit: self.prompt_save_on_exit && !no_prompt_save,
                ..self
            }),
    {
        Config {
            output_root: self.output_root,
            prompt_save_on_exit: self.prompt_save_on_exit && !no_prompt_save,
            audio: self.audio,
            screen: self.screen,
            caption: self.caption,
            detect: self.detect,
        }
    }

    /// The settings with another folder for sessions.
    pub fn with_output_root(self, root: String) -> (r: Self)
        ensures
            r == (Config { output_root: root, ..self }),
    {
        Config {
            output_root: root,
            prompt_save_on_exit: self.prompt_save_on_exit,
            audio: self.audio,
            screen: self.screen,
            caption: self.caption,
            detect: self.detect,
        }
    }
}

impl CaptionConfig {
    /// The time between two readings of the captions.
    pub fn poll_delay(&self) -> (r: u64)
        ensures
            r == if self.poll_interval_ms < 50 {
                50
            } else {
                self.poll_interval_ms
            },
    {
        if self.poll_interval_ms < MIN_CAPTION_POLL_MS {
            MIN_CAPTION_POLL_MS
        } else {
            self.poll_interval_ms
        }
    }
}

// ---------------------------------------------------------------------------
// Where sessions are kept
// ---------------------------------------------------------------------------

/// A remembered folder where it is still there, and another one otherwise.
pub open spec fn folder_or(
    remembered: Option<Seq<char>>,
    is_there: bool,
    other: Seq<char>,
) -> Seq<char> {
    match remembered {
        Some(dir) => if is_there {
            dir
        } else {
            other
        },
        None => other,
    }
}

/// A remembered folder where it is still there, and another one otherwise.
pub fn existing_or(remembered: &Option<String>, is_there: bool, other: &String) -> (r: String)
    ensures
        r@ == folder_or(option_text(*remembered), is_there, other@),
{
    match remembered {
        Some(dir) => if is_there {
            dir.clone()
        } else {
            other.clone()
        },
        None => other.clone(),
    }
}

/// The folder under which sessions are kept: the one named at the start of the
/// agent, or else the one that the user picked last if it is still there, or
/// else the configured one.
pub fn effective_output_root(
    named: &Option<String>,
    last_save_dir: &Option<String>,
    last_is_there: bool,
    configured: &String,
) -> (r: String)
    ensures
        r@ == match option_text(*named) {
            Some(dir) => dir,
            None => folder_or(option_text(*last_save_dir), last_is_there, configured@),
        },
{
    match named {
        Some(dir) => dir.clone(),
        None => existing_or(last_save_dir, last_is_there, configured),
    }
}

/// The folder that is remembered for a dialog: that of the last session, or
/// else the one that was picked last.
pub fn remembered_folder(last_session: &Option<String>, last_save_dir: &Option<String>) -> (r: Option<
    String,
>)
    ensures
        r == match *last_session {
            Some(dir) => Some(dir),
            None => *last_save_dir,
        },
{
    match last_session {
        Some(dir) => Some(dir.clone()),
        None => copy_option_text(last_save_dir),
    }
}

/// A remembered folder is taken exactly where there is one and it is still there.
pub proof fn law_remembered_folder_counts_while_it_is_there(
    remembered: Option<Seq<char>>,
    is_there: bool,
    other: Seq<char>,
)
    ensures
        remembered is Some && is_there ==> folder_or(remembered, is_there, other) == remembered->0,
        remembered is None || !is_there ==> folder_or(remembered, is_there, other) == other,
{
}

/// By default everything is captured, captions are read every 400 milliseconds,
/// meetings are looked for every 1500, and the user is asked where a session is
/// kept.
pub proof fn law_default_settings(c: Config, root: Seq<char>)
    requires
        is_default(c, root),
    ensures
        c.output_root@ == root,
        c.prompt_save_on_exit,
        c.audio.capture_teams_loopback,
        c.audio.capture_microphone,
        c.audio.fallback_to_default_loopback,
        c.audio.teams_process_name@ == "ms-teams.exe"@,
        c.screen.enabled,
        c.screen.min_frame_interval_ms == 500,
        c.screen.phash_threshold == 8,
        c.screen.only_during_share,
        c.caption.enabled,
        c.caption.poll_interval_ms == 400,
        c.detect.poll_interval_ms == 1500,
        !c.detect.use_log_tail,
{
}

} // verus!
