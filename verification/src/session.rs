//! The course of a run of the agent and of a session.

use vstd::prelude::*;

use crate::config::Config;
use crate::state::{HwndHandle, MeetingEvent};
use crate::text::copy_option_text;

verus! {

// ---------------------------------------------------------------------------
// How the agent is started
// ---------------------------------------------------------------------------

/// What the command line asks for.
#[derive(Debug, Clone, Copy, PartialEq, Eq, Structural)]
pub struct Options {
    pub console: bool,
    pub force_start: bool,
    pub diagnose: bool,
    pub diagnose_captions: bool,
    pub diagnose_share: bool,
}

/// What the agent does when it is started.
#[derive(Debug, Clone, Copy, PartialEq, Eq, Structural)]
pub enum Launch {
    /// Another one runs: the user is told so on the console.
    RefuseOnConsole,
    /// Another one runs: the user is told so in a window.
    RefuseInWindow,
    Diagnose,
    DiagnoseCaptions,
    DiagnoseShare,
    Console,
    Gui,
}

impl Options {
    /// Any of the modes that write to a console.
    pub open spec fn on_console(&self) -> bool {
        self.console || self.force_start || self.diagnose || self.diagnose_captions
            || self.diagnose_share
    }

    /// The short runs, which may stand beside a running agent.
    pub open spec fn may_run_beside(&self) -> bool {
        self.diagnose || self.diagnose_captions || self.diagnose_share || self.force_start
    }

    /// Is a console needed?
    pub fn needs_console(&self) -> (r: bool)
        ensures
            r == self.on_console(),
    {
        self.console || self.force_start || self.diagnose || self.diagnose_captions
            || self.diagnose_share
    }

    /// Must no other agent run?
    pub fn must_be_alone(&self) -> (r: bool)
        ensures
            r == !self.may_run_beside(),
    {
        !self.diagnose && !self.diagnose_captions && !self.diagnose_share && !self.force_start
    }

    /// What is to be done; `already_running` tells whether another agent runs.
    pub fn launch(&self, already_running: bool) -> (r: Launch)
        ensures
            r == if already_running && !self.may_run_beside() {
                if self.on_console() {
                    Launch::RefuseOnConsole
                } else {
                    Launch::RefuseInWindow
                }
            } else if self.diagnose {
                Launch::Diagnose
            } else if self.diagnose_captions {
                Launch::DiagnoseCaptions
            } else if self.diagnose_share {
                Launch::DiagnoseShare
            } else if self.on_console() {
                Launch::Console
            } else {
                Launch::Gui
            },
    {
        if self.must_be_alone() && already_running {
            return if self.needs_console() {
                Launch::RefuseOnConsole
            } else {
                Launch::RefuseInWindow
            };
        }
        if self.diagnose {
            Launch::Diagnose
        } else if self.diagnose_captions {
            Launch::DiagnoseCaptions
        } else if self.diagnose_share {
            Launch::DiagnoseShare
        } else if self.needs_console() {
            Launch::Console
        } else {
            Launch::Gui
        }
    }
}

/// Does another agent run? Told from the named mutex of the agent: whether it
/// could be had, and whether it was there already.
pub fn already_running(created: bool, existed: bool) -> (r: bool)
    ensures
        r == (created && existed),
{
    created && existed
}

/// Does a console event end the process, so that the session must be wound
/// down before it is answered? Ctrl-C and Ctrl-Break do not.
pub fn ends_process(ctrl_type: u32) -> (r: bool)
    ensures
        r == (ctrl_type == 2 || ctrl_type == 5 || ctrl_type == 6),
{
    ctrl_type == CTRL_CLOSE || ctrl_type == CTRL_LOGOFF || ctrl_type == CTRL_SHUTDOWN
}

/// The console window is closed.
pub const CTRL_CLOSE: u32 = 2;

/// The user logs off.
pub const CTRL_LOGOFF: u32 = 5;

/// The system is shut down.
pub const CTRL_SHUTDOWN: u32 = 6;

// ---------------------------------------------------------------------------
// A session
// ---------------------------------------------------------------------------

/// The meeting that a session captures.
#[derive(Debug)]
pub struct SessionContext {
    pub teams_hwnd: HwndHandle,
    pub teams_pid: u32,
    pub title: Option<String>,
}

impl SessionContext {
    /// A copy of the context.
    pub fn copy(&self) -> (r: Self)
        ensures
            r == *self,
    {
        SessionContext {
            teams_hwnd: self.teams_hwnd,
            teams_pid: self.teams_pid,
            title: copy_option_text(&self.title),
        }
    }
}

/// The width of the recorded video.
pub const VIDEO_WIDTH: u32 = 1920;

/// The height of the recorded video.
pub const VIDEO_HEIGHT: u32 = 1080;

/// The seconds that the workers of a session have to stop.
pub const WORKER_DRAIN_SECS: u64 = 5;

/// The seconds that the journal has to be written out.
pub const JOURNAL_DRAIN_SECS: u64 = 3;

/// What a session sets to work.
#[derive(Debug, Clone, Copy, PartialEq, Eq)]
pub struct SessionPlan {
    /// A video is recorded.
    pub recorder: bool,
    /// The process whose sound is taken; none where it is zero.
    pub audio_pid: u32,
    /// The window and the process whose picture is taken.
    pub screen: Option<(HwndHandle, u32)>,
    /// Captions are read, at first in this window if there is one.
    pub captions: Option<Option<HwndHandle>>,
    /// At the end the user is asked where the session is kept.
    pub prompt_save: bool,
}

/// What a session with these settings sets to work. Without a meeting there is
/// no picture, and so no video.
pub open spec fn planned(cfg: Config, ctx: Option<SessionContext>) -> SessionPlan {
    SessionPlan {
        recorder: cfg.screen.enabled && ctx is Some,
        audio_pid: match ctx {
            Some(c) => c.teams_pid,
            None => 0,
        },
        screen: match ctx {
            Some(c) => if cfg.screen.enabled {
                Some((c.teams_hwnd, c.teams_pid))
            } else {
                None
            },
            None => None,
        },
        captions: if cfg.caption.enabled {
            Some(
                match ctx {
                    Some(c) => Some(c.teams_hwnd),
                    None => None,
                },
            )
        } else {
            None
        },
        prompt_save: cfg.prompt_save_on_exit,
    }
}

/// What a session sets to work.
pub fn plan_session(cfg: &Config, ctx: &Option<SessionContext>) -> (r: SessionPlan)
    ensures
        r == planned(*cfg, *ctx),
{
    let (hwnd, audio_pid) = match ctx {
        Some(c) => (Some(c.teams_hwnd), c.teams_pid),
        None => (None, 0u32),
    };
    let screen = match hwnd {
        Some(h) => if cfg.screen.enabled {
            Some((h, audio_pid))
        } else {
            None
        },
        None => None,
    };
    SessionPlan {
        recorder: cfg.screen.enabled && hwnd.is_some(),
        audio_pid,
        screen,
        captions: if cfg.caption.enabled {
            Some(hwnd)
        } else {
            None
        },
        prompt_save: cfg.prompt_save_on_exit,
    }
}

/// A step of a session. Some can fail.
#[derive(Debug, Clone, Copy, PartialEq, Eq)]
pub enum SessionStep {
    /// Make the folder of the session.
    CreateDir,
    /// Start to write events into the journal.
    StartJournal,
    /// Start a video of this size.
    CreateRecorder { width: u32, height: u32 },
    /// Start to capture sound.
    StartAudio { pid: u32, recorder: bool },
    /// Start to capture the picture.
    StartScreen { hwnd: HwndHandle, pid: u32, recorder: bool },
    /// Start to read captions.
    StartCaptions { first: Option<HwndHandle> },
    /// Wait until the session is to end.
    AwaitShutdown,
    /// Wait for what was started, for so many seconds at most.
    DrainWorkers { secs: u64 },
    /// Wait until all events are in the journal, for so many seconds at most.
    DrainJournal { secs: u64 },
    /// Finish the video.
    CloseRecorder,
    /// Write the transcript and the summary. The summary does not stay where the
    /// session is cleared up: of the two documents only the transcript is kept.
    WriteTranscript,
    /// Remove what a complete session does not need.
    Cleanup,
    /// Put the log into the folder of the session.
    SnapshotLog,
    /// Let the user pick the folder that the session is moved to.
    OfferMove,
    /// The session is done.
    Finished,
    /// The session has failed.
    Failed,
}

/// Where a session stands.
#[derive(Debug, Clone, Copy, PartialEq, Eq)]
pub struct SessionRun {
    pub plan: SessionPlan,
    /// The step to be taken.
    pub step: SessionStep,
    /// There is a video.
    pub has_recorder: bool,
    /// The video is complete.
    pub video_complete: bool,
}

/// The step that starts the captions, if they are read, and otherwise the wait
/// for the end.
pub open spec fn captions_or_wait(plan: SessionPlan) -> SessionStep {
    match plan.captions {
        Some(first) => SessionStep::StartCaptions { first },
        None => SessionStep::AwaitShutdown,
    }
}

/// The session once its step was taken, which went well or did not. Only the
/// folder and the transcript are needed; without a video the session goes on.
/// What a complete session does not need is removed only if the video is
/// complete. Last of all the user is asked where the session is kept, if they
/// are to be asked.
pub open spec fn advanced(run: SessionRun, ok: bool) -> SessionRun {
    let has_recorder = if run.step is CreateRecorder {
        ok
    } else {
        run.has_recorder
    };
    let video_complete = if run.step is CloseRecorder {
        ok
    } else {
        run.video_complete
    };
    let step = match run.step {
        SessionStep::CreateDir => if ok {
            SessionStep::StartJournal
        } else {
            SessionStep::Failed
        },
        SessionStep::StartJournal => if run.plan.recorder {
            SessionStep::CreateRecorder { width: VIDEO_WIDTH, height: VIDEO_HEIGHT }
        } else {
            SessionStep::StartAudio { pid: run.plan.audio_pid, recorder: has_recorder }
        },
        SessionStep::CreateRecorder { .. } => {
            SessionStep::StartAudio { pid: run.plan.audio_pid, recorder: has_recorder }
        },
        SessionStep::StartAudio { .. } => match run.plan.screen {
            Some((hwnd, pid)) => SessionStep::StartScreen { hwnd, pid, recorder: has_recorder },
            None => captions_or_wait(run.plan),
        },
        SessionStep::StartScreen { .. } => captions_or_wait(run.plan),
        SessionStep::StartCaptions { .. } => SessionStep::AwaitShutdown,
        SessionStep::AwaitShutdown => SessionStep::DrainWorkers { secs: WORKER_DRAIN_SECS },
        SessionStep::DrainWorkers { .. } => SessionStep::DrainJournal { secs: JOURNAL_DRAIN_SECS },
        SessionStep::DrainJournal { .. } => if has_recorder {
            SessionStep::CloseRecorder
        } else {
            SessionStep::WriteTranscript
        },
        SessionStep::CloseRecorder => SessionStep::WriteTranscript,
        SessionStep::WriteTranscript => if !ok {
            SessionStep::Failed
        } else if video_complete {
            SessionStep::Cleanup
        } else {
            SessionStep::SnapshotLog
        },
        SessionStep::Cleanup => SessionStep::SnapshotLog,
        SessionStep::SnapshotLog => if run.plan.prompt_save {
            SessionStep::OfferMove
        } else {
            SessionStep::Finished
        },
        SessionStep::OfferMove => SessionStep::Finished,
        SessionStep::Finished => SessionStep::Finished,
        SessionStep::Failed => SessionStep::Failed,
    };
    SessionRun { plan: run.plan, step, has_recorder, video_complete }
}

fn captions_step(plan: &SessionPlan) -> (r: SessionStep)
    ensures
        r == captions_or_wait(*plan),
{
    match plan.captions {
        Some(first) => SessionStep::StartCaptions { first },
        None => SessionStep::AwaitShutdown,
    }
}

impl SessionRun {
    /// A session that is about to start.
    pub open spec fn begun(plan: SessionPlan) -> Self {
        SessionRun {
            plan,
            step: SessionStep::CreateDir,
            has_recorder: false,
            video_complete: false,
        }
    }

    /// A session that is about to start.
    pub fn begin(plan: SessionPlan) -> (r: Self)
        ensures
            r == SessionRun::begun(plan),
    {
        SessionRun {
            plan,
            step: SessionStep::CreateDir,
            has_recorder: false,
            video_complete: false,
        }
    }

    /// The step was taken, which went well or did not.
    pub fn advance(&mut self, ok: bool)
        ensures
            *final(self) == advanced(*old(self), ok),
    {
        match self.step {
            SessionStep::CreateDir => {
                self.step = if ok {
                    SessionStep::StartJournal
                } else {
                    SessionStep::Failed
                };
            },
            SessionStep::StartJournal => {
                self.step = if self.plan.recorder {
                    SessionStep::CreateRecorder { width: VIDEO_WIDTH, height: VIDEO_HEIGHT }
                } else {
                    SessionStep::StartAudio {
                        pid: self.plan.audio_pid,
                        recorder: self.has_recorder,
                    }
                };
            },
            SessionStep::CreateRecorder { .. } => {
                self.has_recorder = ok;
                self.step = SessionStep::StartAudio { pid: self.plan.audio_pid, recorder: ok };
            },
            SessionStep::StartAudio { .. } => {
                self.step = match self.plan.screen {
                    Some((hwnd, pid)) => SessionStep::StartScreen {
                        hwnd,
                        pid,
                        recorder: self.has_recorder,
                    },
                    None => captions_step(&self.plan),
                };
            },
            SessionStep::StartScreen { .. } => {
                self.step = captions_step(&self.plan);
            },
            SessionStep::StartCaptions { .. } => {
                self.step = SessionStep::AwaitShutdown;
            },
            SessionStep::AwaitShutdown => {
                self.step = SessionStep::DrainWorkers { secs: WORKER_DRAIN_SECS };
            },
            SessionStep::DrainWorkers { .. } => {
                self.step = SessionStep::DrainJournal { secs: JOURNAL_DRAIN_SECS };
            },
            SessionStep::DrainJournal { .. } => {
                self.step = if self.has_recorder {
                    SessionStep::CloseRecorder
                } else {
                    SessionStep::WriteTranscript
                };
            },
            SessionStep::CloseRecorder => {
                self.video_complete = ok;
                self.step = SessionStep::WriteTranscript;
            },
            SessionStep::WriteTranscript => {
                self.step = if !ok {
                    SessionStep::Failed
                } else if self.video_complete {
                    SessionStep::Cleanup
                } else {
                    SessionStep::SnapshotLog
                };
            },
            SessionStep::Cleanup => {
                self.step = SessionStep::SnapshotLog;
            },
            SessionStep::SnapshotLog => {
                self.step = if self.plan.prompt_save {
                    SessionStep::OfferMove
                } else {
                    SessionStep::Finished
                };
            },
            SessionStep::OfferMove => {
                self.step = SessionStep::Finished;
            },
            SessionStep::Finished => {},
            SessionStep::Failed => {},
        }
    }
}

/// A session after a number of steps, each of which went well or did not.
pub open spec fn session_after(plan: SessionPlan, results: Seq<bool>) -> SessionRun
    decreases results.len(),
{
    if results.len() == 0 {
        SessionRun::begun(plan)
    } else {
        advanced(session_after(plan, results.drop_last()), results.last())
    }
}

/// Among the first steps of a session was this one, and it went well.
pub open spec fn succeeded(plan: SessionPlan, results: Seq<bool>, step: SessionStep) -> bool {
    exists|i: int|
        0 <= i < results.len() && #[trigger] results[i] && session_after(
            plan,
            results.take(i),
        ).step == step
}

proof fn lemma_succeeded_still(plan: SessionPlan, results: Seq<bool>, step: SessionStep)
    requires
        results.len() > 0,
        succeeded(plan, results.drop_last(), step),
    ensures
        succeeded(plan, results, step),
{
    let rest = results.drop_last();
    let i = choose|i: int|
        0 <= i < rest.len() && #[trigger] rest[i] && session_after(plan, rest.take(i)).step == step;
    assert(rest.take(i) =~= results.take(i));
    assert(results[i]);
}

proof fn lemma_session(plan: SessionPlan, results: Seq<bool>)
    ensures
        ({
            let run = session_after(plan, results);
            &&& run.plan == plan
            &&& run.video_complete ==> succeeded(plan, results, SessionStep::CloseRecorder)
            &&& run.step is Cleanup ==> run.video_complete && succeeded(
                plan,
                results,
                SessionStep::WriteTranscript,
            )
            &&& run.step is Finished || run.step is SnapshotLog || run.step is OfferMove
                ==> succeeded(
                plan,
                results,
                SessionStep::WriteTranscript,
            )
        }),
    decreases results.len(),
{
    if results.len() > 0 {
        let rest = results.drop_last();
        lemma_session(plan, rest);
        let before = session_after(plan, rest);
        assert(results.take(results.len() - 1) =~= rest);
        if succeeded(plan, rest, SessionStep::CloseRecorder) {
            lemma_succeeded_still(plan, results, SessionStep::CloseRecorder);
        }
        if succeeded(plan, rest, SessionStep::WriteTranscript) {
            lemma_succeeded_still(plan, results, SessionStep::WriteTranscript);
        }
        if results.last() {
            assert(results[results.len() - 1]);
            if before.step == SessionStep::CloseRecorder {
                assert(succeeded(plan, results, SessionStep::CloseRecorder));
            }
            if before.step == SessionStep::WriteTranscript {
                assert(succeeded(plan, results, SessionStep::WriteTranscript));
            }
        }
    }
}

/// Nothing is removed too early: whatever goes wrong, the journal and the rest
/// of a session are removed only once the video is complete and the transcript
/// is written. And a session is done only with a transcript.
pub proof fn law_nothing_is_removed_too_early(plan: SessionPlan, results: Seq<bool>)
    ensures
        session_after(plan, results).step is Cleanup ==> succeeded(
            plan,
            results,
            SessionStep::CloseRecorder,
        ) && succeeded(plan, results, SessionStep::WriteTranscript),
        session_after(plan, results).step is Finished ==> succeeded(
            plan,
            results,
            SessionStep::WriteTranscript,
        ),
{
    lemma_session(plan, results);
}

/// How far a session has come.
pub open spec fn progress(step: SessionStep) -> int {
    match step {
        SessionStep::CreateDir => 0,
        SessionStep::StartJournal => 1,
        SessionStep::CreateRecorder { .. } => 2,
        SessionStep::StartAudio { .. } => 3,
        SessionStep::StartScreen { .. } => 4,
        SessionStep::StartCaptions { .. } => 5,
        SessionStep::AwaitShutdown => 6,
        SessionStep::DrainWorkers { .. } => 7,
        SessionStep::DrainJournal { .. } => 8,
        SessionStep::CloseRecorder => 9,
        SessionStep::WriteTranscript => 10,
        SessionStep::Cleanup => 11,
        SessionStep::SnapshotLog => 12,
        SessionStep::OfferMove => 13,
        SessionStep::Finished => 14,
        SessionStep::Failed => 14,
    }
}

/// Every session ends: whatever goes wrong, after fourteen steps it is done or
/// has failed.
pub proof fn law_session_ends(plan: SessionPlan, results: Seq<bool>)
    ensures
        progress(session_after(plan, results).step) >= results.len() || session_after(
            plan,
            results,
        ).step is Finished || session_after(plan, results).step is Failed,
        results.len() >= 14 ==> session_after(plan, results).step is Finished || session_after(
            plan,
            results,
        ).step is Failed,
    decreases results.len(),
{
    if results.len() > 0 {
        law_session_ends(plan, results.drop_last());
    }
}

/// How often the user was asked where a session is kept.
pub open spec fn times_asked(plan: SessionPlan, results: Seq<bool>) -> nat
    decreases results.len(),
{
    if results.len() == 0 {
        0
    } else {
        times_asked(plan, results.drop_last()) + if session_after(plan, results.drop_last()).step
            is OfferMove {
            1nat
        } else {
            0nat
        }
    }
}

/// At the end of a session the user is asked once where it is kept, if they are
/// to be asked, and otherwise not at all; and never before the transcript is
/// written.
pub proof fn law_user_is_asked_once(plan: SessionPlan, results: Seq<bool>)
    ensures
        session_after(plan, results).step is Finished ==> times_asked(plan, results) == if plan.prompt_save {
            1nat
        } else {
            0nat
        },
        !(session_after(plan, results).step is Finished) ==> times_asked(plan, results) == 0,
        session_after(plan, results).step is OfferMove ==> plan.prompt_save && succeeded(
            plan,
            results,
            SessionStep::WriteTranscript,
        ),
    decreases results.len(),
{
    lemma_session(plan, results);
    if results.len() > 0 {
        law_user_is_asked_once(plan, results.drop_last());
        lemma_session(plan, results.drop_last());
    }
}

/// What a session sets to work, part by part: a picture, and with it a video, is
/// taken exactly where pictures are switched on and there is a meeting; captions
/// are read exactly where they are switched on, at first in the window of the
/// meeting; and sound is that of the process of the meeting.
pub proof fn law_plan_follows_the_settings(cfg: Config, ctx: Option<SessionContext>)
    ensures
        planned(cfg, ctx).recorder == (cfg.screen.enabled && ctx is Some),
        planned(cfg, ctx).screen is Some == (cfg.screen.enabled && ctx is Some),
        planned(cfg, ctx).screen is Some ==> planned(cfg, ctx).screen->0 == (
            ctx->0.teams_hwnd,
            ctx->0.teams_pid,
        ),
        planned(cfg, ctx).captions is Some == cfg.caption.enabled,
        cfg.caption.enabled && ctx is Some ==> planned(cfg, ctx).captions->0 == Some(
            ctx->0.teams_hwnd,
        ),
        cfg.caption.enabled && ctx is None ==> planned(cfg, ctx).captions->0 is None,
        ctx is Some ==> planned(cfg, ctx).audio_pid == ctx->0.teams_pid,
        ctx is None ==> planned(cfg, ctx).audio_pid == 0,
        planned(cfg, ctx).prompt_save == cfg.prompt_save_on_exit,
{
}

/// A session in which all goes well takes all steps that its plan asks for, in this
/// order, and no others.
pub open spec fn whole_course(plan: SessionPlan) -> Seq<SessionStep> {
    seq![SessionStep::CreateDir, SessionStep::StartJournal] + (if plan.recorder {
        seq![SessionStep::CreateRecorder { width: 1920, height: 1080 }]
    } else {
        Seq::empty()
    }) + seq![SessionStep::StartAudio { pid: plan.audio_pid, recorder: plan.recorder }] + (
    match plan.screen {
        Some((hwnd, pid)) => seq![
            SessionStep::StartScreen { hwnd, pid, recorder: plan.recorder },
        ],
        None => Seq::empty(),
    }) + (match plan.captions {
        Some(first) => seq![SessionStep::StartCaptions { first }],
        None => Seq::empty(),
    }) + seq![
        SessionStep::AwaitShutdown,
        SessionStep::DrainWorkers { secs: 5 },
        SessionStep::DrainJournal { secs: 3 },
    ] + (if plan.recorder {
        seq![SessionStep::CloseRecorder, SessionStep::WriteTranscript, SessionStep::Cleanup]
    } else {
        seq![SessionStep::WriteTranscript]
    }) + seq![SessionStep::SnapshotLog] + (if plan.prompt_save {
        seq![SessionStep::OfferMove]
    } else {
        Seq::empty()
    })
}

/// A session in which all goes well takes the steps of its whole course, one after
/// the other, and is then done.
pub proof fn law_session_takes_its_course(plan: SessionPlan, n: nat)
    ensures
        n < whole_course(plan).len() ==> session_after(plan, Seq::new(n, |i: int| true)).step
            == whole_course(plan)[n as int],
        n >= whole_course(plan).len() ==> session_after(plan, Seq::new(n, |i: int| true)).step
            == SessionStep::Finished,
{
    lemma_course(plan, n);
}

proof fn lemma_course(plan: SessionPlan, n: nat)
    ensures
        ({
            let run = session_after(plan, Seq::new(n, |i: int| true));
            let course = whole_course(plan);
            &&& run.plan == plan
            &&& n < course.len() ==> run.step == course[n as int]
            &&& n >= course.len() ==> run.step == SessionStep::Finished
            &&& run.has_recorder == (plan.recorder && n > 2)
            &&& run.video_complete ==> plan.recorder
            &&& run.step is WriteTranscript && plan.recorder ==> run.video_complete
        }),
    decreases n,
{
    let s = Seq::new(n, |i: int| true);
    if n > 0 {
        lemma_course(plan, (n - 1) as nat);
        assert(s.drop_last() =~= Seq::new((n - 1) as nat, |i: int| true));
        assert(s.last());
    }
}

/// What goes wrong does not end a session, except that its folder cannot be made or
/// its transcript cannot be written; where the video cannot be begun the session
/// goes on without one, and where it cannot be finished nothing is removed.
pub proof fn law_session_goes_on_without_a_video(run: SessionRun)
    ensures
        advanced(run, false).step is Failed <==> run.step is CreateDir || run.step
            is WriteTranscript || run.step is Failed,
        run.step is CreateRecorder ==> !advanced(run, false).has_recorder && advanced(
            run,
            false,
        ).step == (SessionStep::StartAudio { pid: run.plan.audio_pid, recorder: false }),
        run.step is DrainJournal && !run.has_recorder ==> advanced(run, true).step
            is WriteTranscript,
        run.step is CloseRecorder ==> !advanced(run, false).video_complete && advanced(
            run,
            false,
        ).step is WriteTranscript,
        run.step is WriteTranscript && !run.video_complete ==> advanced(run, true).step
            is SnapshotLog,
        run.step is WriteTranscript && run.video_complete ==> advanced(run, true).step is Cleanup,
        !(run.step is CreateDir || run.step is CreateRecorder || run.step is CloseRecorder
            || run.step is WriteTranscript) ==> advanced(run, false) == advanced(run, true),
        run.step is Finished || run.step is Failed ==> advanced(run, true) == run,
{
}

// ---------------------------------------------------------------------------
// Console mode
// ---------------------------------------------------------------------------

/// The seconds that a session has to end when the agent is stopped.
pub const SESSION_END_SECS: u64 = 600;

/// The seconds that the detector has to end.
pub const DETECTOR_END_SECS: u64 = 5;

/// What the console mode does next.
#[derive(Debug)]
pub enum ConsoleAction {
    /// Start a session for the meeting.
    Start(SessionContext),
    /// Wait until the session has ended.
    AwaitSession,
    /// Nothing.
    Ignore,
    /// Leave the loop.
    Leave,
}

/// What is done when the console mode ends.
#[derive(Debug, Clone, Copy, PartialEq, Eq, Structural)]
pub enum WindDown {
    /// Tell everyone to stop.
    SignalShutdown,
    /// Wait for the session, for so many seconds at most.
    AwaitSession(u64),
    /// Wait for the detector, for so many seconds at most.
    AwaitDetector(u64),
    /// Leave the loop.
    Leave,
}

/// The console mode: does a session run?
pub struct ConsoleRun {
    pub active: bool,
}

impl ConsoleRun {
    /// At the start a session runs only where one was asked for.
    pub fn new(force_start: bool) -> (r: Self)
        ensures
            r.active == force_start,
    {
        ConsoleRun { active: force_start }
    }

    /// A report of the detector, or none where the detector is gone. A meeting
    /// that starts while a session runs is ignored.
    pub fn on_event(&mut self, event: Option<MeetingEvent>) -> (r: ConsoleAction)
        ensures
            match event {
                Some(MeetingEvent::Started { teams_hwnd, teams_pid, title }) => if old(
                    self,
                ).active {
                    r is Ignore && final(self).active
                } else {
                    r == ConsoleAction::Start(SessionContext { teams_hwnd, teams_pid, title })
                        && final(self).active
                },
                Some(MeetingEvent::Stopped) => if old(self).active {
                    r is AwaitSession && !final(self).active
                } else {
                    r is Ignore && !final(self).active
                },
                None => r is Leave && final(self).active == old(self).active,
            },
    {
        match event {
            Some(MeetingEvent::Started { teams_hwnd, teams_pid, title }) => {
                if self.active {
                    return ConsoleAction::Ignore;
                }
                self.active = true;
                ConsoleAction::Start(SessionContext { teams_hwnd, teams_pid, title })
            },
            Some(MeetingEvent::Stopped) => {
                if !self.active {
                    return ConsoleAction::Ignore;
                }
                self.active = false;
                ConsoleAction::AwaitSession
            },
            None => ConsoleAction::Leave,
        }
    }

    /// The user has pressed Ctrl-C: everything is told to stop, and the loop is
    /// left.
    pub fn on_interrupt(&self) -> (r: Vec<WindDown>)
        ensures
            r@ == seq![WindDown::SignalShutdown, WindDown::Leave],
    {
        let mut todo: Vec<WindDown> = Vec::new();
        todo.push(WindDown::SignalShutdown);
        todo.push(WindDown::Leave);
        assert(todo@ =~= seq![WindDown::SignalShutdown, WindDown::Leave]);
        todo
    }

    /// Does the loop go on? Not if nobody is left to be told to stop.
    pub fn goes_on(&self, listeners: usize) -> (r: bool)
        ensures
            r == (listeners > 0),
    {
        listeners > 0
    }

    /// The loop was left: what is done before the agent ends.
    pub fn wind_down(&self) -> (r: Vec<WindDown>)
        ensures
            r@ == if self.active {
                seq![
                    WindDown::SignalShutdown,
                    WindDown::AwaitSession(600),
                    WindDown::AwaitDetector(5),
                ]
            } else {
                seq![WindDown::SignalShutdown, WindDown::AwaitDetector(5)]
            },
    {
        let mut todo: Vec<WindDown> = Vec::new();
        todo.push(WindDown::SignalShutdown);
        if self.active {
            todo.push(WindDown::AwaitSession(SESSION_END_SECS));
        }
        todo.push(WindDown::AwaitDetector(DETECTOR_END_SECS));
        assert(todo@ =~= if self.active {
            seq![
                WindDown::SignalShutdown,
                WindDown::AwaitSession(SESSION_END_SECS),
                WindDown::AwaitDetector(DETECTOR_END_SECS),
            ]
        } else {
            seq![WindDown::SignalShutdown, WindDown::AwaitDetector(DETECTOR_END_SECS)]
        });
        todo
    }
}

/// Which runs need a console, and which may stand beside a running agent: all but
/// the one in the tray need one, and all but the two that stay may stand beside.
pub proof fn law_short_runs_may_stand_beside(o: Options)
    ensures
        o.on_console() <==> o.console || o.force_start || o.diagnose || o.diagnose_captions
            || o.diagnose_share,
        o.may_run_beside() <==> o.force_start || o.diagnose || o.diagnose_captions
            || o.diagnose_share,
{
}

} // verus!
