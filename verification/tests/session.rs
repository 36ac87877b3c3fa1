use meeting_agent::config::{
    effective_output_root, existing_or, remembered_folder, CaptionConfig, Config, Stored,
};
use meeting_agent::persisted_state::AgentState;
use meeting_agent::session::{
    already_running, ends_process, plan_session, ConsoleAction, ConsoleRun, Launch, Options,
    SessionContext, SessionPlan, SessionRun, SessionStep, WindDown,
};
use meeting_agent::state::{HwndHandle, MeetingEvent};

fn plain() -> Options {
    Options {
        console: false,
        force_start: false,
        diagnose: false,
        diagnose_captions: false,
        diagnose_share: false,
    }
}

fn config() -> Config {
    Config::default_under("D:/sessions".to_string())
}

fn ctx() -> Option<SessionContext> {
    Some(SessionContext { teams_hwnd: HwndHandle(5), teams_pid: 9, title: None })
}

fn text(s: &str) -> Option<String> {
    Some(s.to_string())
}

#[test]
fn settings_have_defaults() {
    let c = config();
    assert_eq!(c.output_root, "D:/sessions");
    assert!(c.prompt_save_on_exit);
    assert_eq!(c.audio.teams_process_name, "ms-teams.exe");
    assert!(c.audio.capture_teams_loopback && c.audio.capture_microphone);
    assert!(c.audio.fallback_to_default_loopback);
    assert_eq!((c.screen.min_frame_interval_ms, c.screen.phash_threshold), (500, 8));
    assert!(c.screen.enabled && c.screen.only_during_share);
    assert_eq!(c.caption, CaptionConfig { enabled: true, poll_interval_ms: 400 });
    assert_eq!((c.detect.poll_interval_ms, c.detect.use_log_tail), (1500, false));
}

#[test]
fn settings_that_cannot_be_read_are_replaced() {
    for stored in [Stored::Missing, Stored::Unreadable, Stored::Malformed] {
        let c = Config::load_or_default(stored, "D:/a".to_string());
        assert_eq!(c.output_root, "D:/a");
    }
    let mut own = config();
    own.screen.enabled = false;
    let c = Config::load_or_default(Stored::Found(own), "D:/a".to_string());
    assert_eq!(c.output_root, "D:/sessions");
    assert!(!c.screen.enabled);
    assert_eq!(c.with_output_root("E:/".to_string()).output_root, "E:/");
}

#[test]
fn captions_are_not_read_too_often() {
    assert_eq!(CaptionConfig { enabled: true, poll_interval_ms: 400 }.poll_delay(), 400);
    assert_eq!(CaptionConfig { enabled: true, poll_interval_ms: 1 }.poll_delay(), 50);
}

#[test]
fn the_folder_for_sessions_is_chosen_in_order() {
    let configured = "C".to_string();
    let root = |named: Option<&str>, last: Option<&str>, there| {
        effective_output_root(&named.and_then(text), &last.and_then(text), there, &configured)
    };
    assert_eq!(root(Some("A"), Some("B"), true), "A");
    assert_eq!(root(None, Some("B"), true), "B");
    assert_eq!(root(None, Some("B"), false), "C");
    assert_eq!(root(None, None, true), "C");
    assert_eq!(existing_or(&text("B"), false, &configured), "C");
    assert_eq!(remembered_folder(&text("S"), &text("B")), text("S"));
    assert_eq!(remembered_folder(&None, &text("B")), text("B"));
    assert_eq!(remembered_folder(&None, &None), None);
}

#[test]
fn the_agent_remembers_one_thing_at_a_time() {
    let mut s = AgentState::load(Stored::Missing);
    assert!(s.event_notifications && !s.auto_record_on_detect && !s.welcomed);
    s.remember_save_dir("D:/a".to_string());
    s.remember_last_session("D:/a/s".to_string());
    s.set_auto_record(true);
    s.set_event_notifications(false);
    assert_eq!(s.last_save_dir, text("D:/a"));
    assert_eq!(s.last_session_dir, text("D:/a/s"));
    assert!(s.auto_record_on_detect && !s.event_notifications && !s.welcomed);
    let again = AgentState::load(Stored::Found(s));
    assert_eq!(again.last_save_dir, text("D:/a"));
    assert!(AgentState::load(Stored::Malformed).last_save_dir.is_none());
}

#[test]
fn options_decide_how_the_agent_runs() {
    assert_eq!(plain().launch(false), Launch::Gui);
    assert_eq!(plain().launch(true), Launch::RefuseInWindow);
    let console = Options { console: true, ..plain() };
    assert_eq!(console.launch(false), Launch::Console);
    assert_eq!(console.launch(true), Launch::RefuseOnConsole);
    assert!(console.needs_console() && console.must_be_alone());
    let forced = Options { force_start: true, ..plain() };
    assert_eq!(forced.launch(true), Launch::Console);
    assert!(!forced.must_be_alone());
    let all = Options { diagnose: true, diagnose_captions: true, diagnose_share: true, ..plain() };
    assert_eq!(all.launch(true), Launch::Diagnose);
    let two = Options { diagnose: false, ..all };
    assert_eq!(two.launch(true), Launch::DiagnoseCaptions);
    let one = Options { diagnose_captions: false, ..two };
    assert_eq!(one.launch(false), Launch::DiagnoseShare);
    assert!(already_running(true, true));
    assert!(!already_running(true, false));
    assert!(!already_running(false, true));
}

#[test]
fn some_console_events_end_the_process() {
    let ending: Vec<u32> = (0..10).filter(|c| ends_process(*c)).collect();
    assert_eq!(ending, vec![2, 5, 6]);
}

#[test]
fn a_session_is_planned_by_its_settings() {
    assert_eq!(
        plan_session(&config(), &ctx()),
        SessionPlan {
            recorder: true,
            audio_pid: 9,
            screen: Some((HwndHandle(5), 9)),
            captions: Some(Some(HwndHandle(5))),
            prompt_save: true,
        }
    );
    assert_eq!(
        plan_session(&config(), &None),
        SessionPlan {
            recorder: false,
            audio_pid: 0,
            screen: None,
            captions: Some(None),
            prompt_save: true,
        }
    );
    let mut quiet = config();
    quiet.screen.enabled = false;
    quiet.caption.enabled = false;
    quiet.prompt_save_on_exit = false;
    assert_eq!(
        plan_session(&quiet, &ctx()),
        SessionPlan {
            recorder: false,
            audio_pid: 9,
            screen: None,
            captions: None,
            prompt_save: false,
        }
    );
}

fn steps(plan: SessionPlan, fails: &[SessionStep]) -> Vec<SessionStep> {
    let mut run = SessionRun::begin(plan);
    let mut taken = Vec::new();
    while !matches!(run.step, SessionStep::Finished | SessionStep::Failed) {
        taken.push(run.step);
        run.advance(!fails.contains(&run.step));
    }
    taken.push(run.step);
    taken
}

#[test]
fn a_session_goes_through_its_steps() {
    let (hwnd, pid) = (HwndHandle(5), 9);
    assert_eq!(
        steps(plan_session(&config(), &ctx()), &[]),
        vec![
            SessionStep::CreateDir,
            SessionStep::StartJournal,
            SessionStep::CreateRecorder { width: 1920, height: 1080 },
            SessionStep::StartAudio { pid, recorder: true },
            SessionStep::StartScreen { hwnd, pid, recorder: true },
            SessionStep::StartCaptions { first: Some(hwnd) },
            SessionStep::AwaitShutdown,
            SessionStep::DrainWorkers { secs: 5 },
            SessionStep::DrainJournal { secs: 3 },
            SessionStep::CloseRecorder,
            SessionStep::WriteTranscript,
            SessionStep::Cleanup,
            SessionStep::SnapshotLog,
            SessionStep::OfferMove,
            SessionStep::Finished,
        ]
    );
    let bare = SessionPlan {
        recorder: false,
        audio_pid: 0,
        screen: None,
        captions: None,
        prompt_save: false,
    };
    assert_eq!(
        steps(bare, &[]),
        vec![
            SessionStep::CreateDir,
            SessionStep::StartJournal,
            SessionStep::StartAudio { pid: 0, recorder: false },
            SessionStep::AwaitShutdown,
            SessionStep::DrainWorkers { secs: 5 },
            SessionStep::DrainJournal { secs: 3 },
            SessionStep::WriteTranscript,
            SessionStep::SnapshotLog,
            SessionStep::Finished,
        ]
    );
}

#[test]
fn nothing_is_removed_without_a_complete_video() {
    let plan = plan_session(&config(), &ctx());
    let unfinished = steps(plan, &[SessionStep::CloseRecorder]);
    assert!(!unfinished.contains(&SessionStep::Cleanup));
    assert_eq!(unfinished.last(), Some(&SessionStep::Finished));
    let missing = steps(plan, &[SessionStep::CreateRecorder { width: 1920, height: 1080 }]);
    assert!(!missing.contains(&SessionStep::CloseRecorder));
    assert!(missing.contains(&SessionStep::StartAudio { pid: 9, recorder: false }));
    assert!(!missing.contains(&SessionStep::Cleanup));
    let untold = steps(plan, &[SessionStep::WriteTranscript]);
    assert!(!untold.contains(&SessionStep::Cleanup));
    assert_eq!(untold.last(), Some(&SessionStep::Failed));
}

#[test]
fn the_user_is_asked_once_where_a_session_is_kept() {
    let asked = |plan: SessionPlan, fails: &[SessionStep]| {
        steps(plan, fails).iter().filter(|s| **s == SessionStep::OfferMove).count()
    };
    let plan = plan_session(&config(), &ctx());
    assert_eq!(asked(plan, &[]), 1);
    assert_eq!(asked(plan, &[SessionStep::CloseRecorder, SessionStep::OfferMove]), 1);
    assert_eq!(asked(plan, &[SessionStep::WriteTranscript]), 0);
    let silent = plan_session(&config().with_prompt(true), &ctx());
    assert_eq!(asked(silent, &[]), 0);
    assert_eq!(asked(plan_session(&config().with_prompt(false), &None), &[]), 1);
}

#[test]
fn a_session_always_ends() {
    assert_eq!(
        steps(plan_session(&config(), &None), &[SessionStep::CreateDir]),
        vec![SessionStep::CreateDir, SessionStep::Failed]
    );
    let mut run = SessionRun::begin(plan_session(&config(), &ctx()));
    for _ in 0..14 {
        run.advance(true);
    }
    assert_eq!(run.step, SessionStep::Finished);
    run.advance(false);
    assert_eq!(run.step, SessionStep::Finished);
}

fn started() -> Option<MeetingEvent> {
    Some(MeetingEvent::Started { teams_hwnd: HwndHandle(5), teams_pid: 9, title: None })
}

#[test]
fn the_console_runs_one_session_at_a_time() {
    let mut c = ConsoleRun::new(false);
    assert!(matches!(c.on_event(Some(MeetingEvent::Stopped)), ConsoleAction::Ignore));
    assert!(matches!(c.on_event(started()), ConsoleAction::Start(ctx) if ctx.teams_pid == 9));
    assert!(matches!(c.on_event(started()), ConsoleAction::Ignore));
    assert!(matches!(c.on_event(Some(MeetingEvent::Stopped)), ConsoleAction::AwaitSession));
    assert!(matches!(c.on_event(started()), ConsoleAction::Start(_)));
    assert!(matches!(c.on_event(None), ConsoleAction::Leave));
    assert!(matches!(ConsoleRun::new(true).on_event(started()), ConsoleAction::Ignore));
}

#[test]
fn the_console_winds_down() {
    let idle = ConsoleRun::new(false);
    assert_eq!(idle.wind_down(), vec![WindDown::SignalShutdown, WindDown::AwaitDetector(5)]);
    let busy = ConsoleRun::new(true);
    assert_eq!(
        busy.wind_down(),
        vec![WindDown::SignalShutdown, WindDown::AwaitSession(600), WindDown::AwaitDetector(5)]
    );
    assert_eq!(busy.on_interrupt(), vec![WindDown::SignalShutdown, WindDown::Leave]);
    assert!(busy.goes_on(1));
    assert!(!busy.goes_on(0));
}
