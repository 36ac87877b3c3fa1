use meeting_agent::gui::popup::{MeetingEndedAction, ToastAction};
use meeting_agent::gui::tray::{
    build_menu, menu_action, status_label, tooltip, MenuAction, MenuEntry, MenuFlags,
    ID_CHANGE_SAVE_DIR, ID_OPEN_LAST_SESSION, ID_OPEN_LOG, ID_QUIT, ID_START_RECORDING, ID_STATUS,
    ID_STOP_RECORDING, ID_TOGGLE_AUTO_RECORD, ID_TOGGLE_AUTO_START, ID_TOGGLE_EVENT_NOTIFS,
};
use meeting_agent::gui::{
    ended_outcome, prompt_outcome, Command, Effect, Gui, GuiState, Notice, Orchestrator,
    SessionAction, UiEvent,
};
use meeting_agent::persisted_state::AgentState;
use meeting_agent::session::SessionContext;
use meeting_agent::state::{HwndHandle, MeetingEvent};

fn gui(auto_record: bool) -> Gui {
    let mut s = AgentState::default();
    s.auto_record_on_detect = auto_record;
    Gui::new(&s, false)
}

fn started(pid: u32) -> UiEvent {
    UiEvent::Detector(MeetingEvent::Started {
        teams_hwnd: HwndHandle(1),
        teams_pid: pid,
        title: Some("Sync".to_string()),
    })
}

fn stopped() -> UiEvent {
    UiEvent::Detector(MeetingEvent::Stopped)
}

fn click(id: &str) -> UiEvent {
    UiEvent::Menu(id.to_string())
}

fn ctx(pid: u32) -> SessionContext {
    SessionContext { teams_hwnd: HwndHandle(1), teams_pid: pid, title: None }
}

/// A short word for each thing to be done.
fn told(todo: &[Effect]) -> Vec<String> {
    todo.iter()
        .map(|e| match e {
            Effect::Send(Command::StartRecording { ctx }) => format!("start {}", ctx.teams_pid),
            Effect::Send(Command::StopRecording) => "stop".to_string(),
            Effect::Send(Command::Quit) => "quit".to_string(),
            Effect::RebuildTray => "tray".to_string(),
            Effect::AskToRecord { title } => format!("ask {}", title.clone().unwrap_or_default()),
            Effect::AskAboutEnd => "ask end".to_string(),
            Effect::Tell(Notice::Running) => "running".to_string(),
            Effect::Tell(Notice::RecordingEnded) => "ended".to_string(),
            Effect::Tell(Notice::SaveDirChanged(d)) => format!("changed {}", d),
            Effect::Tell(Notice::AutoStartFailed(m)) => format!("failed {}", m),
            Effect::RememberSession(d) => format!("remember {}", d),
            Effect::OpenFolder(d) => format!("open {}", d),
            Effect::TellSaved(d) => format!("saved {}", d),
            Effect::PickSaveDir => "pick".to_string(),
            Effect::SaveAutoRecord(on) => format!("auto record {}", on),
            Effect::SetAutoStart(on) => format!("auto start {}", on),
            Effect::SetEvents(on) => format!("events {}", on),
            Effect::SaveEvents(on) => format!("save events {}", on),
            Effect::SaveSaveDir(d) => format!("save dir {}", d),
            Effect::OpenLog => "log".to_string(),
            Effect::Exit => "exit".to_string(),
        })
        .collect()
}

#[test]
fn a_detected_meeting_is_asked_about() {
    let mut g = gui(false);
    assert_eq!(told(&g.handle(started(7))), vec!["tray", "ask Sync"]);
    assert!(matches!(g.state, GuiState::Detected { .. }));
    assert_eq!(told(&g.handle(UiEvent::ToastResult(ToastAction::Record))), vec!["start 7", "tray"]);
    assert!(matches!(g.state, GuiState::Recording));
    assert_eq!(told(&g.handle(started(7))), Vec::<String>::new());
}

#[test]
fn a_meeting_can_be_ignored_or_missed() {
    let mut g = gui(false);
    g.handle(started(7));
    assert_eq!(told(&g.handle(UiEvent::ToastResult(ToastAction::Ignore))), vec!["tray"]);
    assert!(matches!(g.state, GuiState::Ignored { .. }));
    assert_eq!(g.state.ctx().map(|c| c.teams_pid), Some(7));
    assert!(g.handle(UiEvent::ToastTimeout).is_empty());
    assert_eq!(told(&g.handle(stopped())), vec!["tray"]);
    assert!(matches!(g.state, GuiState::Idle));
    g.handle(started(8));
    assert_eq!(told(&g.handle(UiEvent::ToastTimeout)), vec!["tray"]);
    assert!(matches!(g.state, GuiState::Missed { .. }));
    assert_eq!(told(&g.handle(click(ID_START_RECORDING))), vec!["start 8", "tray"]);
    assert!(g.state.ctx().is_none());
}

#[test]
fn a_meeting_is_recorded_without_asking_if_so_set() {
    let mut g = gui(true);
    assert_eq!(told(&g.handle(started(7))), vec!["start 7", "tray"]);
    assert!(matches!(g.state, GuiState::Recording));
}

#[test]
fn no_recording_starts_without_consent() {
    let mut g = gui(false);
    for event in [
        started(7),
        UiEvent::ToastTimeout,
        started(7),
        UiEvent::MeetingEndedResult(MeetingEndedAction::OpenFolder),
        UiEvent::SessionFinalized { dir: None },
        stopped(),
        click("status"),
        UiEvent::Tray,
    ] {
        assert!(told(&g.handle(event)).iter().all(|e| !e.starts_with("start")));
    }
}

#[test]
fn the_end_of_a_meeting_is_confirmed() {
    let mut g = gui(true);
    g.handle(started(7));
    assert_eq!(told(&g.handle(stopped())), vec!["tray", "ask end"]);
    assert!(matches!(g.state, GuiState::AwaitingEndConfirm));
    assert!(g.handle(stopped()).is_empty());
    let opened = UiEvent::MeetingEndedResult(MeetingEndedAction::OpenFolder);
    assert_eq!(told(&g.handle(opened)), vec!["stop", "tray"]);
    assert!(matches!(g.state, GuiState::Finalizing { open_after: true }));
    assert!(g.handle(started(9)).is_empty());
    let done = UiEvent::SessionFinalized { dir: Some("D:/s".to_string()) };
    assert_eq!(told(&g.handle(done)), vec!["remember D:/s", "open D:/s", "tray"]);
    assert!(matches!(g.state, GuiState::Idle));
    assert_eq!(g.flags.last_session.as_deref(), Some("D:/s"));
    assert_eq!(told(&g.handle(click(ID_OPEN_LAST_SESSION))), vec!["open D:/s"]);
}

#[test]
fn only_the_answer_ends_a_recording_whose_end_is_asked_about() {
    let mut g = gui(true);
    g.handle(started(7));
    g.handle(stopped());
    assert!(g.handle(click(ID_STOP_RECORDING)).is_empty());
    assert!(matches!(g.state, GuiState::AwaitingEndConfirm));
    let silent = UiEvent::MeetingEndedResult(MeetingEndedAction::AutoFinalize);
    assert_eq!(told(&g.handle(silent)), vec!["stop", "tray"]);
    assert!(matches!(g.state, GuiState::Finalizing { open_after: false }));
}

#[test]
fn a_meeting_that_comes_back_goes_on() {
    let mut g = gui(true);
    g.handle(started(7));
    g.handle(stopped());
    assert_eq!(told(&g.handle(started(7))), vec!["tray"]);
    assert!(matches!(g.state, GuiState::Recording));
    let late = UiEvent::MeetingEndedResult(MeetingEndedAction::AutoFinalize);
    assert!(g.handle(late).is_empty());
    assert!(matches!(g.state, GuiState::Recording));
}

#[test]
fn a_recording_is_stopped_from_the_menu() {
    let mut g = gui(true);
    g.handle(started(7));
    assert_eq!(told(&g.handle(click(ID_STOP_RECORDING))), vec!["stop", "tray"]);
    assert!(matches!(g.state, GuiState::Finalizing { open_after: false }));
    let done = UiEvent::SessionFinalized { dir: Some("D:/s".to_string()) };
    assert_eq!(told(&g.handle(done)), vec!["remember D:/s", "saved D:/s", "tray"]);
    assert!(g.handle(click(ID_STOP_RECORDING)).is_empty());
    assert_eq!(told(&g.handle(click(ID_START_RECORDING))), vec!["start 7", "tray"]);
    let failed = UiEvent::SessionFinalized { dir: None };
    assert_eq!(told(&g.handle(failed)), vec!["ended", "tray"]);
}

#[test]
fn without_a_meeting_nothing_can_be_recorded() {
    let mut g = gui(false);
    assert!(g.handle(click(ID_START_RECORDING)).is_empty());
    assert!(g.handle(click(ID_OPEN_LAST_SESSION)).is_empty());
    assert!(g.handle(click("no such item")).is_empty());
}

#[test]
fn settings_are_switched_from_the_menu() {
    let mut g = gui(false);
    assert_eq!(told(&g.handle(click(ID_TOGGLE_AUTO_RECORD))), vec!["auto record true", "tray"]);
    assert!(g.flags.auto_record);
    assert_eq!(
        told(&g.handle(click(ID_TOGGLE_EVENT_NOTIFS))),
        vec!["events false", "save events false", "tray"]
    );
    assert!(!g.flags.event_notifications);
    assert_eq!(told(&g.handle(click(ID_TOGGLE_AUTO_START))), vec!["auto start true"]);
    assert!(!g.flags.auto_start);
    assert_eq!(told(&g.on_auto_start_set(true, None)), vec!["tray"]);
    assert!(g.flags.auto_start);
    let failed = g.on_auto_start_set(false, Some("denied".to_string()));
    assert_eq!(told(&failed), vec!["failed denied"]);
    assert!(g.flags.auto_start);
    assert_eq!(told(&g.handle(click(ID_CHANGE_SAVE_DIR))), vec!["pick"]);
    assert_eq!(
        told(&g.on_save_dir_picked(Some("D:/x".to_string()))),
        vec!["save dir D:/x", "changed D:/x"]
    );
    assert!(g.on_save_dir_picked(None).is_empty());
    assert_eq!(told(&g.handle(click(ID_OPEN_LOG))), vec!["log"]);
    assert_eq!(told(&g.handle(click(ID_QUIT))), vec!["quit", "exit"]);
}

#[test]
fn commands_follow_the_state() {
    let mut g = gui(false);
    let mut recording = false;
    let script: Vec<UiEvent> = vec![
        started(1),
        UiEvent::ToastResult(ToastAction::Record),
        stopped(),
        started(1),
        stopped(),
        UiEvent::MeetingEndedResult(MeetingEndedAction::AutoFinalize),
        stopped(),
        UiEvent::SessionFinalized { dir: None },
        started(2),
        UiEvent::ToastTimeout,
        click(ID_START_RECORDING),
        click(ID_STOP_RECORDING),
        UiEvent::SessionFinalized { dir: None },
    ];
    for event in script {
        for word in told(&g.handle(event)) {
            if word.starts_with("start ") {
                assert!(!recording);
                recording = true;
            }
            if word == "stop" {
                assert!(recording);
                recording = false;
            }
        }
    }
    assert!(!recording);
}

#[test]
fn answers_become_events() {
    assert!(matches!(
        prompt_outcome(Some(ToastAction::Ignore)),
        UiEvent::ToastResult(ToastAction::Ignore)
    ));
    assert!(matches!(prompt_outcome(None), UiEvent::ToastTimeout));
    assert!(matches!(
        ended_outcome(Some(MeetingEndedAction::OpenFolder)),
        UiEvent::MeetingEndedResult(MeetingEndedAction::OpenFolder)
    ));
    assert!(matches!(
        ended_outcome(None),
        UiEvent::MeetingEndedResult(MeetingEndedAction::AutoFinalize)
    ));
}

#[test]
fn notices_have_their_text() {
    assert_eq!(Notice::RecordingEnded.window().body, "녹화가 종료되었습니다.");
    assert_eq!(
        Notice::Running.window().body,
        "트레이에서 동작 중입니다. Teams 미팅이 감지되면 알려드리겠습니다."
    );
    assert_eq!(Notice::SaveDirChanged("D:/x".to_string()).window().body, "저장 위치 변경됨: D:/x");
    let failed = Notice::AutoStartFailed("no".to_string()).window();
    assert_eq!(failed.body, "자동 시작 토글 실패: no");
    assert_eq!((failed.head.as_str(), failed.title.as_str()), ("MEETING AGENT", "Meeting Agent"));
}

fn acted(todo: &[SessionAction]) -> Vec<String> {
    todo.iter()
        .map(|a| match a {
            SessionAction::Start(c) => format!("start {}", c.teams_pid),
            SessionAction::SignalStop => "signal".to_string(),
            SessionAction::AwaitSession(s) => format!("await {}", s),
            SessionAction::SignalShutdown => "shutdown".to_string(),
            SessionAction::AwaitDetector(s) => format!("detector {}", s),
            SessionAction::AwaitBridge => "bridge".to_string(),
            SessionAction::Leave => "leave".to_string(),
        })
        .collect()
}

#[test]
fn only_one_session_runs_at_a_time() {
    let mut o = Orchestrator::new();
    assert!(o.on_command(Some(Command::StopRecording)).is_empty());
    let first = o.on_command(Some(Command::StartRecording { ctx: ctx(1) }));
    assert_eq!(acted(&first), vec!["start 1"]);
    assert!(o.on_command(Some(Command::StartRecording { ctx: ctx(2) })).is_empty());
    let stop = o.on_command(Some(Command::StopRecording));
    assert_eq!(acted(&stop), vec!["signal", "await 60"]);
    let second = o.on_command(Some(Command::StartRecording { ctx: ctx(3) }));
    assert_eq!(acted(&second), vec!["start 3"]);
    let quit = o.on_command(Some(Command::Quit));
    assert_eq!(
        acted(&quit),
        vec!["signal", "shutdown", "await 60", "detector 5", "bridge", "leave"]
    );
    let again = o.on_command(Some(Command::Quit));
    assert_eq!(acted(&again), vec!["shutdown", "detector 5", "bridge", "leave"]);
    assert_eq!(acted(&o.on_command(None)), vec!["leave"]);
}

fn enabled(state: &GuiState, id: &str, last: Option<&str>) -> bool {
    let flags = MenuFlags {
        auto_record: false,
        auto_start: false,
        event_notifications: false,
        last_session: last.map(|d| d.to_string()),
    };
    build_menu(state, &flags)
        .entries
        .iter()
        .any(|e| matches!(e, MenuEntry::Item { id: i, enabled: true, .. } if *i == id))
}

#[test]
fn the_menu_offers_what_can_be_done() {
    let detected = GuiState::Detected { ctx: ctx(1) };
    assert!(enabled(&detected, ID_START_RECORDING, None));
    assert!(!enabled(&detected, ID_STOP_RECORDING, None));
    assert!(!enabled(&GuiState::Idle, ID_START_RECORDING, None));
    assert!(enabled(&GuiState::Recording, ID_STOP_RECORDING, None));
    assert!(enabled(&GuiState::AwaitingEndConfirm, ID_STOP_RECORDING, None));
    assert!(!enabled(&GuiState::Finalizing { open_after: false }, ID_STOP_RECORDING, None));
    assert!(!enabled(&GuiState::Idle, ID_OPEN_LAST_SESSION, None));
    assert!(enabled(&GuiState::Idle, ID_OPEN_LAST_SESSION, Some("D:/s")));
    assert!(enabled(&GuiState::Idle, ID_QUIT, None));
}

#[test]
fn the_menu_is_complete() {
    let flags = MenuFlags {
        auto_record: true,
        auto_start: false,
        event_notifications: true,
        last_session: None,
    };
    let menu = build_menu(&GuiState::Recording, &flags);
    assert_eq!(menu.status, "● 녹화 중");
    assert_eq!(menu.entries.len(), 12);
    assert!(matches!(menu.entries[0], MenuEntry::Status { id: ID_STATUS }));
    assert!(matches!(menu.entries[7], MenuEntry::Settings { label: "⚙  설정" }));
    assert!(matches!(menu.entries[9], MenuEntry::About { label: "정보" }));
    let checks: Vec<bool> = menu
        .settings
        .iter()
        .filter_map(|e| match e {
            MenuEntry::Check { checked, .. } => Some(*checked),
            _ => None,
        })
        .collect();
    assert_eq!(checks, vec![true, false, true]);
    assert_eq!(menu.settings.len(), 6);
}

#[test]
fn every_state_has_its_label_and_tooltip() {
    assert_eq!(status_label(&GuiState::Idle), "미팅 대기 중");
    assert_eq!(status_label(&GuiState::Missed { ctx: ctx(1) }), "미팅 진행 중 (응답 없음)");
    assert_eq!(status_label(&GuiState::Finalizing { open_after: true }), "마무리 중…");
    assert_eq!(tooltip(&GuiState::Ignored { ctx: ctx(1) }), "Meeting Agent — 미팅 진행 중 (자동 알림 비활성)");
    assert_eq!(tooltip(&GuiState::AwaitingEndConfirm), "Meeting Agent — 미팅 종료 대기");
}

#[test]
fn menu_items_are_told_apart_by_their_id() {
    assert_eq!(menu_action(ID_QUIT), MenuAction::Quit);
    assert_eq!(menu_action(ID_TOGGLE_AUTO_START), MenuAction::ToggleAutoStart);
    assert_eq!(menu_action(ID_STATUS), MenuAction::Nothing);
    assert_eq!(menu_action(""), MenuAction::Nothing);
}
