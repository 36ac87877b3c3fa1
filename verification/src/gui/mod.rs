//! What the user sees, and what follows from what they do.
//!
//! The windows, the tray icon and the recording itself lie outside: here it is
//! decided, from the state and what happens, what the next state is and what
//! is to be done.

use vstd::prelude::*;

use crate::gui::popup::{MeetingEndedAction, ToastAction};
use crate::gui::tray::{can_start, can_stop, clicked, menu_action, MenuAction, MenuFlags};
use crate::persisted_state::AgentState;
use crate::session::SessionContext;
use crate::state::MeetingEvent;
use crate::text::copy_option_text;

pub mod autostart;
pub mod base64;
pub mod icons;
pub mod popup;
pub mod tray;
pub mod welcome;

verus! {

// ---------------------------------------------------------------------------
// States, events and effects
// ---------------------------------------------------------------------------

/// The state that the user sees.
#[derive(Debug)]
pub enum GuiState {
    Idle,
    /// A meeting was detected and the user has been asked.
    Detected { ctx: SessionContext },
    /// The user did not want the meeting recorded.
    Ignored { ctx: SessionContext },
    /// The user did not answer in time.
    Missed { ctx: SessionContext },
    Recording,
    /// The meeting seems to be over and the user has been told; the recording
    /// goes on.
    AwaitingEndConfirm,
    /// The recording is being closed; its folder may be opened afterwards.
    Finalizing { open_after: bool },
}

/// A state without the meeting that it is about.
#[derive(Debug, Clone, Copy, PartialEq, Eq, Structural)]
pub enum Stage {
    Idle,
    Detected,
    Ignored,
    Missed,
    Recording,
    AwaitingEndConfirm,
    Finalizing(bool),
}

impl GuiState {
    /// The state without the meeting that it is about.
    pub open spec fn stage(&self) -> Stage {
        match self {
            GuiState::Idle => Stage::Idle,
            GuiState::Detected { .. } => Stage::Detected,
            GuiState::Ignored { .. } => Stage::Ignored,
            GuiState::Missed { .. } => Stage::Missed,
            GuiState::Recording => Stage::Recording,
            GuiState::AwaitingEndConfirm => Stage::AwaitingEndConfirm,
            GuiState::Finalizing { open_after } => Stage::Finalizing(*open_after),
        }
    }

    /// The meeting that the state is about.
    pub open spec fn meeting(&self) -> Option<SessionContext> {
        match self {
            GuiState::Detected { ctx } => Some(*ctx),
            GuiState::Ignored { ctx } => Some(*ctx),
            GuiState::Missed { ctx } => Some(*ctx),
            _ => None,
        }
    }

    /// The meeting that the state is about.
    pub fn ctx(&self) -> (r: Option<&SessionContext>)
        ensures
            match r {
                Some(c) => self.meeting() == Some(*c),
                None => self.meeting() is None,
            },
    {
        match self {
            GuiState::Detected { ctx } => Some(ctx),
            GuiState::Ignored { ctx } => Some(ctx),
            GuiState::Missed { ctx } => Some(ctx),
            _ => None,
        }
    }

    fn stage_now(&self) -> (r: Stage)
        ensures
            r == self.stage(),
    {
        match self {
            GuiState::Idle => Stage::Idle,
            GuiState::Detected { .. } => Stage::Detected,
            GuiState::Ignored { .. } => Stage::Ignored,
            GuiState::Missed { .. } => Stage::Missed,
            GuiState::Recording => Stage::Recording,
            GuiState::AwaitingEndConfirm => Stage::AwaitingEndConfirm,
            GuiState::Finalizing { open_after } => Stage::Finalizing(*open_after),
        }
    }
}

/// What is asked of the recording.
#[derive(Debug)]
pub enum Command {
    StartRecording { ctx: SessionContext },
    StopRecording,
    Quit,
}

/// What happens.
#[derive(Debug)]
pub enum UiEvent {
    /// The menu item with this id was clicked.
    Menu(String),
    /// The tray icon was clicked.
    Tray,
    Detector(MeetingEvent),
    ToastResult(ToastAction),
    ToastTimeout,
    MeetingEndedResult(MeetingEndedAction),
    /// A session has ended; its folder is known unless it failed.
    SessionFinalized { dir: Option<String> },
}

/// What the user is told in passing.
#[derive(Debug)]
pub enum Notice {
    /// The agent runs in the tray.
    Running,
    /// The recording has ended.
    RecordingEnded,
    /// Sessions are kept in another folder from now on.
    SaveDirChanged(String),
    /// Starting with Windows could not be switched.
    AutoStartFailed(String),
}

/// What is to be done.
#[derive(Debug)]
pub enum Effect {
    /// Hand a command to the recording.
    Send(Command),
    /// Make the tray icon and its menu anew.
    RebuildTray,
    /// Ask whether the meeting is to be recorded.
    AskToRecord { title: Option<String> },
    /// Tell that the meeting seems to be over.
    AskAboutEnd,
    /// Tell something.
    Tell(Notice),
    /// Remember the folder of the last session.
    RememberSession(String),
    /// Open a folder.
    OpenFolder(String),
    /// Tell that the session has been saved in this folder.
    TellSaved(String),
    /// Let the user pick a folder for sessions.
    PickSaveDir,
    /// Remember that meetings are recorded without asking, or are not.
    SaveAutoRecord(bool),
    /// Register the agent to start with Windows, or no longer.
    SetAutoStart(bool),
    /// Show events from now on, or show them no longer.
    SetEvents(bool),
    /// Remember that events are shown, or are not.
    SaveEvents(bool),
    /// Remember the folder for sessions.
    SaveSaveDir(String),
    OpenLog,
    /// Leave the program.
    Exit,
}

/// The seconds that the user has to answer whether a meeting is recorded.
pub const ANSWER_SECS: u64 = 30;

/// What the GUI knows.
pub struct Gui {
    pub state: GuiState,
    pub flags: MenuFlags,
    /// The meeting that was detected last.
    pub last_ctx: Option<SessionContext>,
}

// ---------------------------------------------------------------------------
// The rules
// ---------------------------------------------------------------------------

/// A recording runs or is being closed.
pub open spec fn capturing(stage: Stage) -> bool {
    stage is Recording || stage is AwaitingEndConfirm || stage is Finalizing
}

/// The state after an event, and what is to be done.
pub type Step = (Gui, Seq<Effect>);

/// A meeting was detected. One that comes back while the user is asked about
/// its end goes on being recorded; one that is being recorded is no news.
pub open spec fn meeting_started(g: Gui, ctx: SessionContext) -> Step {
    let g = Gui { last_ctx: Some(ctx), ..g };
    match g.state.stage() {
        Stage::Recording => (g, Seq::empty()),
        Stage::Finalizing(_) => (g, Seq::empty()),
        Stage::AwaitingEndConfirm => (
            Gui { state: GuiState::Recording, ..g },
            seq![Effect::RebuildTray],
        ),
        _ => if g.flags.auto_record {
            (
                Gui { state: GuiState::Recording, ..g },
                seq![Effect::Send(Command::StartRecording { ctx }), Effect::RebuildTray],
            )
        } else {
            (
                Gui { state: GuiState::Detected { ctx }, ..g },
                seq![Effect::RebuildTray, Effect::AskToRecord { title: ctx.title }],
            )
        },
    }
}

/// The meeting is gone. If it was recorded the user is told first.
pub open spec fn meeting_stopped(g: Gui) -> Step {
    match g.state.stage() {
        Stage::Recording => (
            Gui { state: GuiState::AwaitingEndConfirm, ..g },
            seq![Effect::RebuildTray, Effect::AskAboutEnd],
        ),
        Stage::Detected => (Gui { state: GuiState::Idle, ..g }, seq![Effect::RebuildTray]),
        Stage::Ignored => (Gui { state: GuiState::Idle, ..g }, seq![Effect::RebuildTray]),
        Stage::Missed => (Gui { state: GuiState::Idle, ..g }, seq![Effect::RebuildTray]),
        _ => (g, Seq::empty()),
    }
}

/// The user answered about the end of the meeting, or did not in time. An
/// answer that comes too late is ignored.
pub open spec fn end_confirmed(g: Gui, action: MeetingEndedAction) -> Step {
    if g.state.stage() == Stage::AwaitingEndConfirm {
        (
            Gui {
                state: GuiState::Finalizing { open_after: action == MeetingEndedAction::OpenFolder },
                ..g
            },
            seq![Effect::Send(Command::StopRecording), Effect::RebuildTray],
        )
    } else {
        (g, Seq::empty())
    }
}

/// The user answered whether the meeting is to be recorded.
pub open spec fn toast_answered(g: Gui, action: ToastAction) -> Step {
    match g.state {
        GuiState::Detected { ctx } => match action {
            ToastAction::Record => (
                Gui { state: GuiState::Recording, ..g },
                seq![Effect::Send(Command::StartRecording { ctx }), Effect::RebuildTray],
            ),
            ToastAction::Ignore => (
                Gui { state: GuiState::Ignored { ctx }, ..g },
                seq![Effect::RebuildTray],
            ),
        },
        _ => (g, Seq::empty()),
    }
}

/// The user did not answer in time.
pub open spec fn toast_timed_out(g: Gui) -> Step {
    match g.state {
        GuiState::Detected { ctx } => (
            Gui { state: GuiState::Missed { ctx }, ..g },
            seq![Effect::RebuildTray],
        ),
        _ => (g, Seq::empty()),
    }
}

/// A session has ended.
pub open spec fn session_finalized(g: Gui, dir: Option<String>) -> Step {
    let open_after = g.state.stage() == Stage::Finalizing(true);
    match dir {
        Some(d) => (
            Gui {
                state: GuiState::Idle,
                flags: MenuFlags { last_session: Some(d), ..g.flags },
                ..g
            },
            seq![
                Effect::RememberSession(d),
                if open_after {
                    Effect::OpenFolder(d)
                } else {
                    Effect::TellSaved(d)
                },
                Effect::RebuildTray,
            ],
        ),
        None => (
            Gui { state: GuiState::Idle, ..g },
            seq![Effect::Tell(Notice::RecordingEnded), Effect::RebuildTray],
        ),
    }
}

/// A menu item was clicked.
pub open spec fn menu_clicked(g: Gui, action: MenuAction) -> Step {
    match action {
        MenuAction::StartRecording => {
            let ctx = match g.state.meeting() {
                Some(c) => Some(c),
                None => g.last_ctx,
            };
            match ctx {
                Some(ctx) => (
                    Gui { state: GuiState::Recording, ..g },
                    seq![Effect::Send(Command::StartRecording { ctx }), Effect::RebuildTray],
                ),
                None => (g, Seq::empty()),
            }
        },
        MenuAction::StopRecording => if g.state.stage() == Stage::Recording {
            (
                Gui { state: GuiState::Finalizing { open_after: false }, ..g },
                seq![Effect::Send(Command::StopRecording), Effect::RebuildTray],
            )
        } else {
            (g, Seq::empty())
        },
        MenuAction::OpenLastSession => match g.flags.last_session {
            Some(dir) => (g, seq![Effect::OpenFolder(dir)]),
            None => (g, Seq::empty()),
        },
        MenuAction::ChangeSaveDir => (g, seq![Effect::PickSaveDir]),
        MenuAction::ToggleAutoRecord => {
            let on = !g.flags.auto_record;
            (
                Gui { flags: MenuFlags { auto_record: on, ..g.flags }, ..g },
                seq![Effect::SaveAutoRecord(on), Effect::RebuildTray],
            )
        },
        MenuAction::ToggleAutoStart => (g, seq![Effect::SetAutoStart(!g.flags.auto_start)]),
        MenuAction::ToggleEventNotifs => {
            let on = !g.flags.event_notifications;
            (
                Gui { flags: MenuFlags { event_notifications: on, ..g.flags }, ..g },
                seq![Effect::SetEvents(on), Effect::SaveEvents(on), Effect::RebuildTray],
            )
        },
        MenuAction::OpenLog => (g, seq![Effect::OpenLog]),
        MenuAction::Quit => (g, seq![Effect::Send(Command::Quit), Effect::Exit]),
        MenuAction::Nothing => (g, Seq::empty()),
    }
}

/// Whatever happens: the state afterwards, and what is to be done.
pub open spec fn handled(g: Gui, event: UiEvent) -> Step {
    match event {
        UiEvent::Menu(id) => menu_clicked(g, clicked(id@)),
        UiEvent::Tray => (g, Seq::empty()),
        UiEvent::Detector(MeetingEvent::Started { teams_hwnd, teams_pid, title }) => {
            meeting_started(g, SessionContext { teams_hwnd, teams_pid, title })
        },
        UiEvent::Detector(MeetingEvent::Stopped) => meeting_stopped(g),
        UiEvent::ToastResult(action) => toast_answered(g, action),
        UiEvent::ToastTimeout => toast_timed_out(g),
        UiEvent::MeetingEndedResult(action) => end_confirmed(g, action),
        UiEvent::SessionFinalized { dir } => session_finalized(g, dir),
    }
}

impl Gui {
    /// The GUI at the start, with what the agent remembers and whether it
    /// starts with Windows.
    pub fn new(persisted: &AgentState, auto_start: bool) -> (r: Self)
        ensures
            r == (Gui {
                state: GuiState::Idle,
                flags: MenuFlags {
                    auto_record: persisted.auto_record_on_detect,
                    auto_start,
                    event_notifications: persisted.event_notifications,
                    last_session: persisted.last_session_dir,
                },
                last_ctx: None,
            }),
    {
        Gui {
            state: GuiState::Idle,
            flags: MenuFlags {
                auto_record: persisted.auto_record_on_detect,
                auto_start,
                event_notifications: persisted.event_notifications,
                last_session: copy_option_text(&persisted.last_session_dir),
            },
            last_ctx: None,
        }
    }

    /// A meeting was detected.
    pub fn on_meeting_started(&mut self, ctx: SessionContext) -> (r: Vec<Effect>)
        ensures
            (*final(self), r@) == meeting_started(*old(self), ctx),
    {
        let mut todo: Vec<Effect> = Vec::new();
        self.last_ctx = Some(ctx.copy());
        match self.state.stage_now() {
            Stage::Recording => {},
            Stage::Finalizing(_) => {},
            Stage::AwaitingEndConfirm => {
                self.state = GuiState::Recording;
                todo.push(Effect::RebuildTray);
            },
            _ => {
                if self.flags.auto_record {
                    self.state = GuiState::Recording;
                    todo.push(Effect::Send(Command::StartRecording { ctx }));
                    todo.push(Effect::RebuildTray);
                } else {
                    let title = copy_option_text(&ctx.title);
                    self.state = GuiState::Detected { ctx };
                    todo.push(Effect::RebuildTray);
                    todo.push(Effect::AskToRecord { title });
                }
            },
        }
        assert(todo@ =~= meeting_started(*old(self), ctx).1);
        todo
    }

    /// The meeting is gone.
    pub fn on_meeting_stopped(&mut self) -> (r: Vec<Effect>)
        ensures
            (*final(self), r@) == meeting_stopped(*old(self)),
    {
        let mut todo: Vec<Effect> = Vec::new();
        match self.state.stage_now() {
            Stage::Recording => {
                self.state = GuiState::AwaitingEndConfirm;
                todo.push(Effect::RebuildTray);
                todo.push(Effect::AskAboutEnd);
            },
            Stage::Detected => {
                self.state = GuiState::Idle;
                todo.push(Effect::RebuildTray);
            },
            Stage::Ignored => {
                self.state = GuiState::Idle;
                todo.push(Effect::RebuildTray);
            },
            Stage::Missed => {
                self.state = GuiState::Idle;
                todo.push(Effect::RebuildTray);
            },
            _ => {},
        }
        assert(todo@ =~= meeting_stopped(*old(self)).1);
        todo
    }

    /// The user answered about the end of the meeting, or did not in time.
    pub fn on_meeting_ended_result(&mut self, action: MeetingEndedAction) -> (r: Vec<Effect>)
        ensures
            (*final(self), r@) == end_confirmed(*old(self), action),
    {
        let mut todo: Vec<Effect> = Vec::new();
        if self.state.stage_now() == Stage::AwaitingEndConfirm {
            self.state = GuiState::Finalizing {
                open_after: action == MeetingEndedAction::OpenFolder,
            };
            todo.push(Effect::Send(Command::StopRecording));
            todo.push(Effect::RebuildTray);
        }
        assert(todo@ =~= end_confirmed(*old(self), action).1);
        todo
    }

    /// The user answered whether the meeting is to be recorded.
    pub fn on_toast_result(&mut self, action: ToastAction) -> (r: Vec<Effect>)
        ensures
            (*final(self), r@) == toast_answered(*old(self), action),
    {
        let mut todo: Vec<Effect> = Vec::new();
        let asked = match &self.state {
            GuiState::Detected { ctx } => Some(ctx.copy()),
            _ => None,
        };
        if let Some(ctx) = asked {
            match action {
                ToastAction::Record => {
                    self.state = GuiState::Recording;
                    todo.push(Effect::Send(Command::StartRecording { ctx }));
                },
                ToastAction::Ignore => {
                    self.state = GuiState::Ignored { ctx };
                },
            }
            todo.push(Effect::RebuildTray);
        }
        assert(todo@ =~= toast_answered(*old(self), action).1);
        todo
    }

    /// The user did not answer in time.
    pub fn on_toast_timeout(&mut self) -> (r: Vec<Effect>)
        ensures
            (*final(self), r@) == toast_timed_out(*old(self)),
    {
        let mut todo: Vec<Effect> = Vec::new();
        let asked = match &self.state {
            GuiState::Detected { ctx } => Some(ctx.copy()),
            _ => None,
        };
        if let Some(ctx) = asked {
            self.state = GuiState::Missed { ctx };
            todo.push(Effect::RebuildTray);
        }
        assert(todo@ =~= toast_timed_out(*old(self)).1);
        todo
    }

    /// A session has ended.
    pub fn on_session_finalized(&mut self, dir: Option<String>) -> (r: Vec<Effect>)
        ensures
            (*final(self), r@) == session_finalized(*old(self), dir),
    {
        let mut todo: Vec<Effect> = Vec::new();
        let open_after = self.state.stage_now() == Stage::Finalizing(true);
        self.state = GuiState::Idle;
        match dir {
            Some(d) => {
                self.flags.last_session = Some(d.clone());
                todo.push(Effect::RememberSession(d.clone()));
                if open_after {
                    todo.push(Effect::OpenFolder(d));
                } else {
                    todo.push(Effect::TellSaved(d));
                }
            },
            None => {
                todo.push(Effect::Tell(Notice::RecordingEnded));
            },
        }
        todo.push(Effect::RebuildTray);
        assert(todo@ =~= session_finalized(*old(self), dir).1);
        todo
    }

    /// The menu item with this id was clicked.
    pub fn handle_menu_click(&mut self, id: &str) -> (r: Vec<Effect>)
        ensures
            (*final(self), r@) == menu_clicked(*old(self), clicked(id@)),
    {
        let mut todo: Vec<Effect> = Vec::new();
        match menu_action(id) {
            MenuAction::StartRecording => {
                let known = match self.state.ctx() {
                    Some(c) => Some(c.copy()),
                    None => match &self.last_ctx {
                        Some(c) => Some(c.copy()),
                        None => None,
                    },
                };
                if let Some(ctx) = known {
                    self.state = GuiState::Recording;
                    todo.push(Effect::Send(Command::StartRecording { ctx }));
                    todo.push(Effect::RebuildTray);
                }
            },
            MenuAction::StopRecording => {
                if self.state.stage_now() == Stage::Recording {
                    self.state = GuiState::Finalizing { open_after: false };
                    todo.push(Effect::Send(Command::StopRecording));
                    todo.push(Effect::RebuildTray);
                }
            },
            MenuAction::OpenLastSession => {
                if let Some(dir) = &self.flags.last_session {
                    todo.push(Effect::OpenFolder(dir.clone()));
                }
            },
            MenuAction::ChangeSaveDir => {
                todo.push(Effect::PickSaveDir);
            },
            MenuAction::ToggleAutoRecord => {
                let on = !self.flags.auto_record;
                self.flags.auto_record = on;
                todo.push(Effect::SaveAutoRecord(on));
                todo.push(Effect::RebuildTray);
            },
            MenuAction::ToggleAutoStart => {
                todo.push(Effect::SetAutoStart(!self.flags.auto_start));
            },
            MenuAction::ToggleEventNotifs => {
                let on = !self.flags.event_notifications;
                self.flags.event_notifications = on;
                todo.push(Effect::SetEvents(on));
                todo.push(Effect::SaveEvents(on));
                todo.push(Effect::RebuildTray);
            },
            MenuAction::OpenLog => {
                todo.push(Effect::OpenLog);
            },
            MenuAction::Quit => {
                todo.push(Effect::Send(Command::Quit));
                todo.push(Effect::Exit);
            },
            MenuAction::Nothing => {},
        }
        assert(todo@ =~= menu_clicked(*old(self), clicked(id@)).1);
        todo
    }

    /// Something happened.
    pub fn handle(&mut self, event: UiEvent) -> (r: Vec<Effect>)
        ensures
            (*final(self), r@) == handled(*old(self), event),
    {
        match event {
            UiEvent::Menu(id) => self.handle_menu_click(id.as_str()),
            UiEvent::Tray => {
                let todo: Vec<Effect> = Vec::new();
                assert(todo@ =~= Seq::empty());
                todo
            },
            UiEvent::Detector(MeetingEvent::Started { teams_hwnd, teams_pid, title }) => {
                self.on_meeting_started(SessionContext { teams_hwnd, teams_pid, title })
            },
            UiEvent::Detector(MeetingEvent::Stopped) => self.on_meeting_stopped(),
            UiEvent::ToastResult(action) => self.on_toast_result(action),
            UiEvent::ToastTimeout => self.on_toast_timeout(),
            UiEvent::MeetingEndedResult(action) => self.on_meeting_ended_result(action),
            UiEvent::SessionFinalized { dir } => self.on_session_finalized(dir),
        }
    }

    /// Starting with Windows was switched to `target`, or could not be. The
    /// menu shows what holds.
    pub fn on_auto_start_set(&mut self, target: bool, error: Option<String>) -> (r: Vec<Effect>)
        ensures
            match error {
                None => {
                    &&& *final(self) == (Gui {
                        flags: MenuFlags { auto_start: target, ..old(self).flags },
                        ..*old(self)
                    })
                    &&& r@ == seq![Effect::RebuildTray]
                },
                Some(e) => {
                    &&& *final(self) == *old(self)
                    &&& r@ == seq![Effect::Tell(Notice::AutoStartFailed(e))]
                },
            },
    {
        let mut todo: Vec<Effect> = Vec::new();
        match error {
            None => {
                self.flags.auto_start = target;
                todo.push(Effect::RebuildTray);
                assert(todo@ =~= seq![Effect::RebuildTray]);
            },
            Some(e) => {
                todo.push(Effect::Tell(Notice::AutoStartFailed(e)));
                assert(todo@ =~= seq![Effect::Tell(Notice::AutoStartFailed(e))]);
            },
        }
        todo
    }

    /// The user picked a folder for sessions, or did not.
    pub fn on_save_dir_picked(&self, picked: Option<String>) -> (r: Vec<Effect>)
        ensures
            match picked {
                Some(dir) => r@ == seq![
                    Effect::SaveSaveDir(dir),
                    Effect::Tell(Notice::SaveDirChanged(dir)),
                ],
                None => r@.len() == 0,
            },
    {
        let mut todo: Vec<Effect> = Vec::new();
        if let Some(dir) = picked {
            todo.push(Effect::SaveSaveDir(dir.clone()));
            todo.push(Effect::Tell(Notice::SaveDirChanged(dir)));
            assert(todo@ =~= seq![
                Effect::SaveSaveDir(dir),
                Effect::Tell(Notice::SaveDirChanged(dir)),
            ]);
        }
        todo
    }
}

/// The event that follows from the user's answer to the question whether a
/// meeting is to be recorded; without an answer in time the time ran out.
pub fn prompt_outcome(reply: Option<ToastAction>) -> (r: UiEvent)
    ensures
        r == match reply {
            Some(action) => UiEvent::ToastResult(action),
            None => UiEvent::ToastTimeout,
        },
{
    match reply {
        Some(action) => UiEvent::ToastResult(action),
        None => UiEvent::ToastTimeout,
    }
}

/// The event that follows from the user's answer about the end of a meeting;
/// without one the recording is closed.
pub fn ended_outcome(reply: Option<MeetingEndedAction>) -> (r: UiEvent)
    ensures
        r == UiEvent::MeetingEndedResult(
            match reply {
                Some(action) => action,
                None => MeetingEndedAction::AutoFinalize,
            },
        ),
{
    match reply {
        Some(action) => UiEvent::MeetingEndedResult(action),
        None => UiEvent::MeetingEndedResult(MeetingEndedAction::AutoFinalize),
    }
}

impl Notice {
    /// The title of the window that tells it.
    pub open spec fn title_text(&self) -> Seq<char> {
        "Meeting Agent"@
    }

    /// What the window says.
    pub open spec fn body_text(&self) -> Seq<char> {
        match self {
            Notice::Running => {
                "트레이에서 동작 중입니다. Teams 미팅이 감지되면 알려드리겠습니다."@
            },
            Notice::RecordingEnded => "녹화가 종료되었습니다."@,
            Notice::SaveDirChanged(dir) => "저장 위치 변경됨: "@ + dir@,
            Notice::AutoStartFailed(e) => "자동 시작 토글 실패: "@ + e@,
        }
    }

    /// The window that tells it.
    pub fn window(&self) -> (r: popup::PopupConfig)
        ensures
            r@ == popup::info_popup(
                "MEETING AGENT"@,
                self.title_text(),
                self.body_text(),
                5000,
            ),
    {
        let body = match self {
            Notice::Running => {
                "트레이에서 동작 중입니다. Teams 미팅이 감지되면 알려드리겠습니다.".to_owned()
            },
            Notice::RecordingEnded => "녹화가 종료되었습니다.".to_owned(),
            Notice::SaveDirChanged(dir) => {
                let mut t = "저장 위치 변경됨: ".to_owned();
                t.append(dir.as_str());
                t
            },
            Notice::AutoStartFailed(e) => {
                let mut t = "자동 시작 토글 실패: ".to_owned();
                t.append(e.as_str());
                t
            },
        };
        popup::show_info("Meeting Agent", body.as_str())
    }
}

// ---------------------------------------------------------------------------
// What holds whatever happens
// ---------------------------------------------------------------------------

/// A recording is started by this list.
pub open spec fn starts(todo: Seq<Effect>) -> bool {
    exists|i: int|
        0 <= i < todo.len() && (#[trigger] todo[i] matches Effect::Send(c) && c is StartRecording)
}

/// A recording is stopped by this list.
pub open spec fn stops(todo: Seq<Effect>) -> bool {
    exists|i: int|
        0 <= i < todo.len() && (#[trigger] todo[i] matches Effect::Send(c) && c is StopRecording)
}

/// A click that the menu offers in a state: items that are shown as disabled
/// cannot be clicked.
pub open spec fn offered(g: Gui, event: UiEvent) -> bool {
    match event {
        UiEvent::Menu(id) => match clicked(id@) {
            MenuAction::StartRecording => can_start(g.state.stage()),
            MenuAction::StopRecording => can_stop(g.state.stage()),
            MenuAction::OpenLastSession => g.flags.last_session is Some,
            _ => true,
        },
        _ => true,
    }
}

/// Commands and states agree. A recording is started exactly where the state
/// goes from one without a recording to one with a recording, and stopped
/// exactly where the state goes over to the closing of the recording. Only the
/// end of a session leads out of a recording.
pub proof fn law_commands_follow_the_state(g: Gui, event: UiEvent)
    requires
        offered(g, event),
    ensures
        starts(handled(g, event).1) <==> !capturing(g.state.stage()) && capturing(
            handled(g, event).0.state.stage(),
        ),
        stops(handled(g, event).1) <==> !(g.state.stage() is Finalizing) && handled(
            g,
            event,
        ).0.state.stage() is Finalizing,
        capturing(g.state.stage()) && !capturing(handled(g, event).0.state.stage())
            ==> event is SessionFinalized,
{
    let (next, todo) = handled(g, event);
    if todo.len() > 0 {
        assert(todo[0] == todo[0]);
        if !capturing(g.state.stage()) && capturing(next.state.stage()) {
            assert(todo[0] matches Effect::Send(c) && c is StartRecording);
        }
        if !(g.state.stage() is Finalizing) && next.state.stage() is Finalizing {
            assert(todo[0] matches Effect::Send(c) && c is StopRecording);
        }
    }
}

/// A meeting is not recorded against the user's will: where meetings are not
/// recorded by themselves, only the user's answer or their click in the menu
/// starts a recording.
pub proof fn law_no_recording_without_consent(g: Gui, event: UiEvent)
    requires
        !g.flags.auto_record,
        starts(handled(g, event).1),
    ensures
        ({
            ||| event == UiEvent::ToastResult(ToastAction::Record)
            ||| (event matches UiEvent::Menu(id) && clicked(id@) == MenuAction::StartRecording)
        }),
{
}

/// The tray shows the state: whenever the state or what the menu shows
/// changes, the tray icon and its menu are made anew.
pub proof fn law_tray_follows_the_state(g: Gui, event: UiEvent)
    ensures
        handled(g, event).0.state.stage() != g.state.stage() || handled(g, event).0.flags != g.flags
            ==> exists|i: int|
            0 <= i < handled(g, event).1.len() && #[trigger] handled(g, event).1[i]
                == Effect::RebuildTray,
{
    let (next, todo) = handled(g, event);
    if next.state.stage() != g.state.stage() || next.flags != g.flags {
        assert(todo.len() > 0);
        if todo.len() == 1 {
            assert(todo[0] == Effect::RebuildTray);
        } else if todo.len() == 2 {
            assert(todo[0] == Effect::RebuildTray || todo[1] == Effect::RebuildTray);
        } else {
            assert(todo[2] == Effect::RebuildTray);
        }
    }
}

/// A meeting that is detected while none is recorded is recorded at once where that
/// is switched on, and is asked about otherwise; while it is recorded, or while the
/// recording is being closed, nothing is done; and one that comes back while the
/// user is asked about its end goes on being recorded. It is remembered in any case.
pub proof fn law_detected_meeting_is_asked_about(
    g: Gui,
    teams_hwnd: crate::state::HwndHandle,
    teams_pid: u32,
    title: Option<String>,
)
    ensures
        ({
            let ctx = SessionContext { teams_hwnd, teams_pid, title };
            let (next, todo) = handled(
                g,
                UiEvent::Detector(MeetingEvent::Started { teams_hwnd, teams_pid, title }),
            );
            &&& next.last_ctx == Some(ctx)
            &&& next.flags == g.flags
            &&& g.state is Recording || g.state is Finalizing ==> next.state == g.state && todo.len()
                == 0
            &&& g.state is AwaitingEndConfirm ==> next.state is Recording && todo == seq![
                Effect::RebuildTray,
            ]
            &&& g.state is Idle || g.state is Detected || g.state is Ignored || g.state is Missed
                ==> if g.flags.auto_record {
                next.state is Recording && todo == seq![
                    Effect::Send(Command::StartRecording { ctx }),
                    Effect::RebuildTray,
                ]
            } else {
                next.state == (GuiState::Detected { ctx }) && todo == seq![
                    Effect::RebuildTray,
                    Effect::AskToRecord { title },
                ]
            }
        }),
{
}

/// The user's answer about a detected meeting is carried out for that very meeting:
/// it is recorded, or ignored, or missed where no answer came. Answers to nothing
/// that was asked do nothing.
pub proof fn law_answer_is_carried_out(g: Gui, ctx: SessionContext)
    ensures
        g.state == (GuiState::Detected { ctx }) ==> {
            let yes = handled(g, UiEvent::ToastResult(ToastAction::Record));
            let no = handled(g, UiEvent::ToastResult(ToastAction::Ignore));
            let late = handled(g, UiEvent::ToastTimeout);
            &&& yes.0 == (Gui { state: GuiState::Recording, ..g })
            &&& yes.1 == seq![
                Effect::Send(Command::StartRecording { ctx }),
                Effect::RebuildTray,
            ]
            &&& no.0 == (Gui { state: GuiState::Ignored { ctx }, ..g })
            &&& no.1 == seq![Effect::RebuildTray]
            &&& late.0 == (Gui { state: GuiState::Missed { ctx }, ..g })
            &&& late.1 == seq![Effect::RebuildTray]
        },
        !(g.state is Detected) ==> {
            &&& handled(g, UiEvent::ToastResult(ToastAction::Record)) == (g, Seq::<Effect>::empty())
            &&& handled(g, UiEvent::ToastResult(ToastAction::Ignore)) == (g, Seq::<Effect>::empty())
            &&& handled(g, UiEvent::ToastTimeout) == (g, Seq::<Effect>::empty())
        },
{
}

/// When a recorded meeting seems to be over, the user is told and the recording
/// goes on; their answer, or none, then closes it. A meeting that is not recorded is
/// forgotten. Nothing else is done.
pub proof fn law_end_of_a_meeting(g: Gui, action: MeetingEndedAction)
    ensures
        ({
            let gone = handled(g, UiEvent::Detector(MeetingEvent::Stopped));
            let told = handled(g, UiEvent::MeetingEndedResult(action));
            &&& g.state is Recording ==> gone.0 == (Gui {
                state: GuiState::AwaitingEndConfirm,
                ..g
            }) && gone.1 == seq![Effect::RebuildTray, Effect::AskAboutEnd]
            &&& g.state is Detected || g.state is Ignored || g.state is Missed ==> gone.0 == (Gui {
                state: GuiState::Idle,
                ..g
            }) && gone.1 == seq![Effect::RebuildTray]
            &&& g.state is Idle || g.state is AwaitingEndConfirm || g.state is Finalizing ==> gone
                == (g, Seq::<Effect>::empty())
            &&& g.state is AwaitingEndConfirm ==> told.0 == (Gui {
                state: GuiState::Finalizing { open_after: action == MeetingEndedAction::OpenFolder },
                ..g
            }) && told.1 == seq![Effect::Send(Command::StopRecording), Effect::RebuildTray]
            &&& !(g.state is AwaitingEndConfirm) ==> told == (g, Seq::<Effect>::empty())
        }),
{
}

/// When a session has ended, its folder is remembered and shown to the user: it is
/// opened where they asked for that, and named to them otherwise. Of a session that
/// has failed only the end is told. The agent then waits for the next meeting.
pub proof fn law_end_of_a_session(g: Gui, dir: Option<String>)
    ensures
        ({
            let (next, todo) = handled(g, UiEvent::SessionFinalized { dir });
            &&& next.state is Idle
            &&& next.last_ctx == g.last_ctx
            &&& dir is Some ==> next.flags == (MenuFlags { last_session: dir, ..g.flags }) && todo
                == seq![
                Effect::RememberSession(dir->0),
                if g.state == (GuiState::Finalizing { open_after: true }) {
                    Effect::OpenFolder(dir->0)
                } else {
                    Effect::TellSaved(dir->0)
                },
                Effect::RebuildTray,
            ]
            &&& dir is None ==> next.flags == g.flags && todo == seq![
                Effect::Tell(Notice::RecordingEnded),
                Effect::RebuildTray,
            ]
        }),
{
}

/// What a click in the menu does. A recording is started by hand for the meeting
/// that the state is about, or for the one that was detected last; it is stopped
/// only while it runs. A switch is turned over, and remembered as it then is.
pub proof fn law_clicks_are_carried_out(g: Gui)
    ensures
        ({
            let ctx = if g.state is Detected {
                Some(g.state->Detected_ctx)
            } else if g.state is Ignored {
                Some(g.state->Ignored_ctx)
            } else if g.state is Missed {
                Some(g.state->Missed_ctx)
            } else {
                g.last_ctx
            };
            let start = menu_clicked(g, MenuAction::StartRecording);
            let stop = menu_clicked(g, MenuAction::StopRecording);
            let open = menu_clicked(g, MenuAction::OpenLastSession);
            let record = menu_clicked(g, MenuAction::ToggleAutoRecord);
            let events = menu_clicked(g, MenuAction::ToggleEventNotifs);
            &&& ctx is Some ==> start.0 == (Gui { state: GuiState::Recording, ..g }) && start.1
                == seq![
                Effect::Send(Command::StartRecording { ctx: ctx->0 }),
                Effect::RebuildTray,
            ]
            &&& ctx is None ==> start == (g, Seq::<Effect>::empty())
            &&& g.state is Recording ==> stop.0 == (Gui {
                state: GuiState::Finalizing { open_after: false },
                ..g
            }) && stop.1 == seq![Effect::Send(Command::StopRecording), Effect::RebuildTray]
            &&& !(g.state is Recording) ==> stop == (g, Seq::<Effect>::empty())
            &&& g.flags.last_session is Some ==> open == (
                g,
                seq![Effect::OpenFolder(g.flags.last_session->0)],
            )
            &&& g.flags.last_session is None ==> open == (g, Seq::<Effect>::empty())
            &&& record.0 == (Gui {
                flags: MenuFlags { auto_record: !g.flags.auto_record, ..g.flags },
                ..g
            })
            &&& record.1 == seq![
                Effect::SaveAutoRecord(!g.flags.auto_record),
                Effect::RebuildTray,
            ]
            &&& events.0 == (Gui {
                flags: MenuFlags { event_notifications: !g.flags.event_notifications, ..g.flags },
                ..g
            })
            &&& events.1 == seq![
                Effect::SetEvents(!g.flags.event_notifications),
                Effect::SaveEvents(!g.flags.event_notifications),
                Effect::RebuildTray,
            ]
            &&& menu_clicked(g, MenuAction::ChangeSaveDir) == (g, seq![Effect::PickSaveDir])
            &&& menu_clicked(g, MenuAction::ToggleAutoStart) == (
                g,
                seq![Effect::SetAutoStart(!g.flags.auto_start)],
            )
            &&& menu_clicked(g, MenuAction::OpenLog) == (g, seq![Effect::OpenLog])
            &&& menu_clicked(g, MenuAction::Quit) == (
                g,
                seq![Effect::Send(Command::Quit), Effect::Exit],
            )
            &&& menu_clicked(g, MenuAction::Nothing) == (g, Seq::<Effect>::empty())
        }),
        forall|id: String|
            #[trigger] handled(g, UiEvent::Menu(id)) == menu_clicked(g, clicked(id@)),
        handled(g, UiEvent::Tray) == (g, Seq::<Effect>::empty()),
{
}

// ---------------------------------------------------------------------------
// The one who carries out commands
// ---------------------------------------------------------------------------

/// What is done with sessions.
#[derive(Debug)]
pub enum SessionAction {
    /// Start a session for the meeting.
    Start(SessionContext),
    /// Tell the session to stop.
    SignalStop,
    /// Wait for the session, for so many seconds at most.
    AwaitSession(u64),
    /// Tell the detector to stop.
    SignalShutdown,
    /// Wait for the detector, for so many seconds at most.
    AwaitDetector(u64),
    /// Wait until all reports of the detector have been handed on.
    AwaitBridge,
    /// Leave.
    Leave,
}

/// The seconds that a session has to end.
pub const SESSION_STOP_SECS: u64 = 60;

/// The seconds that the detector has to end.
pub const DETECTOR_STOP_SECS: u64 = 5;

/// The one who carries out commands: is a session held?
pub struct Orchestrator {
    pub active: bool,
}

/// A command, or none where no more will come: is a session held afterwards,
/// and what is done?
pub open spec fn commanded(active: bool, command: Option<Command>) -> (bool, Seq<SessionAction>) {
    let stop = if active {
        seq![SessionAction::SignalStop]
    } else {
        Seq::empty()
    };
    let wait = if active {
        seq![SessionAction::AwaitSession(SESSION_STOP_SECS)]
    } else {
        Seq::empty()
    };
    match command {
        Some(Command::StartRecording { ctx }) => if active {
            (true, Seq::empty())
        } else {
            (true, seq![SessionAction::Start(ctx)])
        },
        Some(Command::StopRecording) => (false, stop + wait),
        Some(Command::Quit) => (
            false,
            stop + seq![SessionAction::SignalShutdown] + wait + seq![
                SessionAction::AwaitDetector(DETECTOR_STOP_SECS),
                SessionAction::AwaitBridge,
                SessionAction::Leave,
            ],
        ),
        None => (active, seq![SessionAction::Leave]),
    }
}

impl Orchestrator {
    /// At first no session is held.
    pub fn new() -> (r: Self)
        ensures
            !r.active,
    {
        Orchestrator { active: false }
    }

    /// A command came, or none will come any more. A second session is not
    /// started while one is held.
    pub fn on_command(&mut self, command: Option<Command>) -> (r: Vec<SessionAction>)
        ensures
            (final(self).active, r@) == commanded(old(self).active, command),
    {
        let mut todo: Vec<SessionAction> = Vec::new();
        let active = self.active;
        match command {
            Some(Command::StartRecording { ctx }) => {
                if !active {
                    self.active = true;
                    todo.push(SessionAction::Start(ctx));
                }
            },
            Some(Command::StopRecording) => {
                self.active = false;
                if active {
                    todo.push(SessionAction::SignalStop);
                    todo.push(SessionAction::AwaitSession(SESSION_STOP_SECS));
                }
            },
            Some(Command::Quit) => {
                self.active = false;
                if active {
                    todo.push(SessionAction::SignalStop);
                }
                todo.push(SessionAction::SignalShutdown);
                if active {
                    todo.push(SessionAction::AwaitSession(SESSION_STOP_SECS));
                }
                todo.push(SessionAction::AwaitDetector(DETECTOR_STOP_SECS));
                todo.push(SessionAction::AwaitBridge);
                todo.push(SessionAction::Leave);
            },
            None => {
                todo.push(SessionAction::Leave);
            },
        }
        assert(todo@ =~= commanded(active, command).1);
        todo
    }
}

/// What is done on a number of commands, and whether a session is held then.
pub open spec fn carried_out(commands: Seq<Command>) -> (bool, Seq<SessionAction>)
    decreases commands.len(),
{
    if commands.len() == 0 {
        (false, Seq::empty())
    } else {
        let before = carried_out(commands.drop_last());
        let now = commanded(before.0, Some(commands.last()));
        (now.0, before.1 + now.1)
    }
}

/// Does a session run after these actions, if one runs before them? None if a
/// session is started while one runs, or waited for while none does.
pub open spec fn running_after(running: bool, s: Seq<SessionAction>) -> Option<bool>
    decreases s.len(),
{
    if s.len() == 0 {
        Some(running)
    } else {
        match running_after(running, s.drop_last()) {
            None => None,
            Some(held) => match s.last() {
                SessionAction::Start(_) => if held {
                    None
                } else {
                    Some(true)
                },
                SessionAction::AwaitSession(_) => if held {
                    Some(false)
                } else {
                    None
                },
                _ => Some(held),
            },
        }
    }
}

proof fn lemma_running_concat(running: bool, a: Seq<SessionAction>, b: Seq<SessionAction>)
    requires
        running_after(running, a) is Some,
    ensures
        running_after(running, a + b) == running_after(running_after(running, a)->0, b),
    decreases b.len(),
{
    if b.len() == 0 {
        assert(a + b =~= a);
    } else {
        lemma_running_concat(running, a, b.drop_last());
        assert((a + b).drop_last() =~= a + b.drop_last());
    }
}

proof fn lemma_running_one(running: bool, a: SessionAction)
    ensures
        running_after(running, seq![a]) == match a {
            SessionAction::Start(_) => if running {
                None::<bool>
            } else {
                Some(true)
            },
            SessionAction::AwaitSession(_) => if running {
                Some(false)
            } else {
                None::<bool>
            },
            _ => Some(running),
        },
{
    assert(seq![a].drop_last() =~= Seq::empty());
    reveal_with_fuel(running_after, 2);
}

/// Whatever commands come, no two sessions run at a time: a session is started
/// only where none runs, and is waited for before the next one is started.
pub proof fn law_one_session_at_a_time(commands: Seq<Command>)
    ensures
        running_after(false, carried_out(commands).1) == Some(carried_out(commands).0),
    decreases commands.len(),
{
    if commands.len() > 0 {
        law_one_session_at_a_time(commands.drop_last());
        let before = carried_out(commands.drop_last());
        let held = before.0;
        let now = commanded(held, Some(commands.last()));
        lemma_running_concat(false, before.1, now.1);
        match commands.last() {
            Command::StartRecording { ctx } => {
                if !held {
                    lemma_running_one(held, SessionAction::Start(ctx));
                }
            },
            Command::StopRecording => {
                if held {
                    let a = seq![SessionAction::SignalStop];
                    let b = seq![SessionAction::AwaitSession(SESSION_STOP_SECS)];
                    lemma_running_one(held, SessionAction::SignalStop);
                    lemma_running_concat(held, a, b);
                    lemma_running_one(held, SessionAction::AwaitSession(SESSION_STOP_SECS));
                } else {
                    assert(now.1 =~= Seq::empty());
                }
            },
            Command::Quit => {
                let stop = if held {
                    seq![SessionAction::SignalStop]
                } else {
                    Seq::empty()
                };
                let wait = if held {
                    seq![SessionAction::AwaitSession(SESSION_STOP_SECS)]
                } else {
                    Seq::empty()
                };
                let down = seq![SessionAction::SignalShutdown];
                let x = seq![SessionAction::AwaitDetector(DETECTOR_STOP_SECS)];
                let y = seq![SessionAction::AwaitBridge];
                let z = seq![SessionAction::Leave];
                lemma_running_one(held, SessionAction::SignalStop);
                lemma_running_one(held, SessionAction::SignalShutdown);
                lemma_running_one(held, SessionAction::AwaitSession(SESSION_STOP_SECS));
                lemma_running_one(false, SessionAction::AwaitDetector(DETECTOR_STOP_SECS));
                lemma_running_one(false, SessionAction::AwaitBridge);
                lemma_running_one(false, SessionAction::Leave);
                lemma_running_concat(held, stop, down);
                lemma_running_concat(held, stop + down, wait);
                lemma_running_concat(held, stop + down + wait, x);
                lemma_running_concat(held, stop + down + wait + x, y);
                lemma_running_concat(held, stop + down + wait + x + y, z);
                assert(now.1 =~= stop + down + wait + x + y + z);
            },
        }
    }
}

/// What each command does. A session is started for the meeting of the command
/// where none is held; a held one is told to stop and waited for, for a minute at
/// most; and to quit is to do so and to stop the detector too, before all is left.
pub proof fn law_commands_are_carried_out(ctx: SessionContext)
    ensures
        commanded(false, Some(Command::StartRecording { ctx })) == (
            true,
            seq![SessionAction::Start(ctx)],
        ),
        commanded(true, Some(Command::StartRecording { ctx })) == (
            true,
            Seq::<SessionAction>::empty(),
        ),
        commanded(true, Some(Command::StopRecording)) == (
            false,
            seq![SessionAction::SignalStop, SessionAction::AwaitSession(60)],
        ),
        commanded(false, Some(Command::StopRecording)) == (false, Seq::<SessionAction>::empty()),
        commanded(true, Some(Command::Quit)) == (
            false,
            seq![
                SessionAction::SignalStop,
                SessionAction::SignalShutdown,
                SessionAction::AwaitSession(60),
                SessionAction::AwaitDetector(5),
                SessionAction::AwaitBridge,
                SessionAction::Leave,
            ],
        ),
        commanded(false, Some(Command::Quit)) == (
            false,
            seq![
                SessionAction::SignalShutdown,
                SessionAction::AwaitDetector(5),
                SessionAction::AwaitBridge,
                SessionAction::Leave,
            ],
        ),
        commanded(true, None) == (true, seq![SessionAction::Leave]),
        commanded(false, None) == (false, seq![SessionAction::Leave]),
{
    assert(commanded(true, Some(Command::StopRecording)).1 =~= seq![
        SessionAction::SignalStop,
        SessionAction::AwaitSession(60),
    ]);
    assert(commanded(false, Some(Command::StopRecording)).1 =~= Seq::<SessionAction>::empty());
    assert(commanded(true, Some(Command::Quit)).1 =~= seq![
        SessionAction::SignalStop,
        SessionAction::SignalShutdown,
        SessionAction::AwaitSession(60),
        SessionAction::AwaitDetector(5),
        SessionAction::AwaitBridge,
        SessionAction::Leave,
    ]);
    assert(commanded(false, Some(Command::Quit)).1 =~= seq![
        SessionAction::SignalShutdown,
        SessionAction::AwaitDetector(5),
        SessionAction::AwaitBridge,
        SessionAction::Leave,
    ]);
}

} // verus!
