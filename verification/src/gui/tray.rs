//! The tray icon and its menu, as they follow from the state.
//!
//! The whole menu is made anew whenever the state changes.

use vstd::prelude::*;

use crate::gui::icons::{detected_icon, idle_icon, recording_icon, shows, with_badge, Icon, SIZE};
use crate::gui::{GuiState, Stage};
use crate::picture::decoded;
use crate::text::same_text;

verus! {

// ---------------------------------------------------------------------------
// Menu items
// ---------------------------------------------------------------------------

pub const ID_STATUS: &'static str = "status";

pub const ID_START_RECORDING: &'static str = "start_recording";

pub const ID_STOP_RECORDING: &'static str = "stop_recording";

pub const ID_OPEN_LAST_SESSION: &'static str = "open_last_session";

pub const ID_CHANGE_SAVE_DIR: &'static str = "change_save_dir";

pub const ID_TOGGLE_AUTO_RECORD: &'static str = "toggle_auto_record";

pub const ID_TOGGLE_AUTO_START: &'static str = "toggle_auto_start";

pub const ID_TOGGLE_EVENT_NOTIFS: &'static str = "toggle_event_notifs";

pub const ID_OPEN_LOG: &'static str = "open_log";

pub const ID_QUIT: &'static str = "quit";

/// What the user asks for with a click on a menu item.
#[derive(Debug, Clone, Copy, PartialEq, Eq, Structural)]
pub enum MenuAction {
    StartRecording,
    StopRecording,
    OpenLastSession,
    ChangeSaveDir,
    ToggleAutoRecord,
    ToggleAutoStart,
    ToggleEventNotifs,
    OpenLog,
    Quit,
    Nothing,
}

/// What a click on the menu item with this id asks for.
pub open spec fn clicked(id: Seq<char>) -> MenuAction {
    if id == ID_START_RECORDING@ {
        MenuAction::StartRecording
    } else if id == ID_STOP_RECORDING@ {
        MenuAction::StopRecording
    } else if id == ID_OPEN_LAST_SESSION@ {
        MenuAction::OpenLastSession
    } else if id == ID_CHANGE_SAVE_DIR@ {
        MenuAction::ChangeSaveDir
    } else if id == ID_TOGGLE_AUTO_RECORD@ {
        MenuAction::ToggleAutoRecord
    } else if id == ID_TOGGLE_AUTO_START@ {
        MenuAction::ToggleAutoStart
    } else if id == ID_TOGGLE_EVENT_NOTIFS@ {
        MenuAction::ToggleEventNotifs
    } else if id == ID_OPEN_LOG@ {
        MenuAction::OpenLog
    } else if id == ID_QUIT@ {
        MenuAction::Quit
    } else {
        MenuAction::Nothing
    }
}

/// What a click on the menu item with this id asks for.
pub fn menu_action(id: &str) -> (r: MenuAction)
    ensures
        r == clicked(id@),
{
    if same_text(id, ID_START_RECORDING) {
        MenuAction::StartRecording
    } else if same_text(id, ID_STOP_RECORDING) {
        MenuAction::StopRecording
    } else if same_text(id, ID_OPEN_LAST_SESSION) {
        MenuAction::OpenLastSession
    } else if same_text(id, ID_CHANGE_SAVE_DIR) {
        MenuAction::ChangeSaveDir
    } else if same_text(id, ID_TOGGLE_AUTO_RECORD) {
        MenuAction::ToggleAutoRecord
    } else if same_text(id, ID_TOGGLE_AUTO_START) {
        MenuAction::ToggleAutoStart
    } else if same_text(id, ID_TOGGLE_EVENT_NOTIFS) {
        MenuAction::ToggleEventNotifs
    } else if same_text(id, ID_OPEN_LOG) {
        MenuAction::OpenLog
    } else if same_text(id, ID_QUIT) {
        MenuAction::Quit
    } else {
        MenuAction::Nothing
    }
}

/// What the menu shows beside the state.
#[derive(Debug)]
pub struct MenuFlags {
    pub auto_record: bool,
    pub auto_start: bool,
    pub event_notifications: bool,
    pub last_session: Option<String>,
}

/// An entry of the menu.
#[derive(Debug)]
pub enum MenuEntry {
    /// The line that names the state; it cannot be clicked.
    Status { id: &'static str },
    Item { id: &'static str, label: &'static str, enabled: bool },
    Check { id: &'static str, label: &'static str, checked: bool },
    Separator,
    /// The menu of settings.
    Settings { label: &'static str },
    /// The dialog that names the program.
    About { label: &'static str },
}

/// The menu: the line that names the state, the entries, and those of the menu
/// of settings.
pub struct TrayMenu {
    pub status: String,
    pub entries: Vec<MenuEntry>,
    pub settings: Vec<MenuEntry>,
}

/// The name of the program in the dialog about it.
pub const ABOUT_NAME: &'static str = "Meeting Agent";

/// The author in the dialog about the program.
pub const ABOUT_AUTHOR: &'static str = "eunsang.lee@endorobo.com";

/// What the program is, in the dialog about it.
pub const ABOUT_COMMENTS: &'static str = "Teams 미팅 자동 캡처 도구";

/// A recording can be started by hand: a meeting is there and is not recorded.
pub open spec fn can_start(stage: Stage) -> bool {
    stage is Detected || stage is Ignored || stage is Missed
}

/// A recording can be stopped by hand.
pub open spec fn can_stop(stage: Stage) -> bool {
    stage is Recording || stage is AwaitingEndConfirm
}

/// The name of a state in the menu.
pub open spec fn status_of(stage: Stage) -> Seq<char> {
    match stage {
        Stage::Idle => "미팅 대기 중"@,
        Stage::Detected => "미팅 감지됨 (응답 대기)"@,
        Stage::Ignored => "미팅 진행 중 (무시됨)"@,
        Stage::Missed => "미팅 진행 중 (응답 없음)"@,
        Stage::Recording => "녹화 중"@,
        Stage::AwaitingEndConfirm => "미팅 종료 대기"@,
        Stage::Finalizing(_) => "마무리 중…"@,
    }
}

/// The name of a state in the menu.
pub fn status_label(state: &GuiState) -> (r: &'static str)
    ensures
        r@ == status_of(state.stage()),
{
    match state {
        GuiState::Idle => "미팅 대기 중",
        GuiState::Detected { .. } => "미팅 감지됨 (응답 대기)",
        GuiState::Ignored { .. } => "미팅 진행 중 (무시됨)",
        GuiState::Missed { .. } => "미팅 진행 중 (응답 없음)",
        GuiState::Recording => "녹화 중",
        GuiState::AwaitingEndConfirm => "미팅 종료 대기",
        GuiState::Finalizing { .. } => "마무리 중…",
    }
}

/// The text that is shown over the icon.
pub open spec fn tooltip_of(stage: Stage) -> Seq<char> {
    match stage {
        Stage::Idle => "Meeting Agent — 미팅 대기 중"@,
        Stage::Detected => "Meeting Agent — 미팅 감지됨 (응답 대기)"@,
        Stage::Ignored => "Meeting Agent — 미팅 진행 중 (자동 알림 비활성)"@,
        Stage::Missed => "Meeting Agent — 미팅 진행 중 (응답 시간 초과)"@,
        Stage::Recording => "Meeting Agent — 녹화 중"@,
        Stage::AwaitingEndConfirm => "Meeting Agent — 미팅 종료 대기"@,
        Stage::Finalizing(_) => "Meeting Agent — 마무리 중…"@,
    }
}

/// The text that is shown over the icon.
pub fn tooltip(state: &GuiState) -> (r: &'static str)
    ensures
        r@ == tooltip_of(state.stage()),
{
    match state {
        GuiState::Idle => "Meeting Agent — 미팅 대기 중",
        GuiState::Detected { .. } => "Meeting Agent — 미팅 감지됨 (응답 대기)",
        GuiState::Ignored { .. } => "Meeting Agent — 미팅 진행 중 (자동 알림 비활성)",
        GuiState::Missed { .. } => "Meeting Agent — 미팅 진행 중 (응답 시간 초과)",
        GuiState::Recording => "Meeting Agent — 녹화 중",
        GuiState::AwaitingEndConfirm => "Meeting Agent — 미팅 종료 대기",
        GuiState::Finalizing { .. } => "Meeting Agent — 마무리 중…",
    }
}

/// The entries of the menu.
pub open spec fn menu_entries(stage: Stage, has_session: bool) -> Seq<MenuEntry> {
    seq![
        MenuEntry::Status { id: ID_STATUS },
        MenuEntry::Separator,
        MenuEntry::Item {
            id: ID_START_RECORDING,
            label: "▶  녹화 시작",
            enabled: can_start(stage),
        },
        MenuEntry::Item {
            id: ID_STOP_RECORDING,
            label: "■  녹화 중지",
            enabled: can_stop(stage),
        },
        MenuEntry::Separator,
        MenuEntry::Item {
            id: ID_OPEN_LAST_SESSION,
            label: "📁  마지막 세션 폴더 열기",
            enabled: has_session,
        },
        MenuEntry::Separator,
        MenuEntry::Settings { label: "⚙  설정" },
        MenuEntry::Separator,
        MenuEntry::About { label: "정보" },
        MenuEntry::Separator,
        MenuEntry::Item { id: ID_QUIT, label: "✕  종료", enabled: true },
    ]
}

/// The entries of the menu of settings.
pub open spec fn settings_entries(flags: MenuFlags) -> Seq<MenuEntry> {
    seq![
        MenuEntry::Item {
            id: ID_CHANGE_SAVE_DIR,
            label: "저장 위치 변경…",
            enabled: true,
        },
        MenuEntry::Check {
            id: ID_TOGGLE_AUTO_RECORD,
            label: "감지 시 자동 녹화 (묻지 않음)",
            checked: flags.auto_record,
        },
        MenuEntry::Check {
            id: ID_TOGGLE_AUTO_START,
            label: "Windows 시작 시 자동 실행",
            checked: flags.auto_start,
        },
        MenuEntry::Check {
            id: ID_TOGGLE_EVENT_NOTIFS,
            label: "이벤트 알림 (자막/공유/리사이즈 등)",
            checked: flags.event_notifications,
        },
        MenuEntry::Separator,
        MenuEntry::Item {
            id: ID_OPEN_LOG,
            label: "로그 파일 보기 (agent.log)",
            enabled: true,
        },
    ]
}

/// The menu of a state.
pub fn build_menu(state: &GuiState, flags: &MenuFlags) -> (r: TrayMenu)
    ensures
        r.status@ == "● "@ + status_of(state.stage()),
        r.entries@ == menu_entries(state.stage(), flags.last_session is Some),
        r.settings@ == settings_entries(*flags),
{
    let mut status = "● ".to_owned();
    status.append(status_label(state));
    let start = match state {
        GuiState::Detected { .. } => true,
        GuiState::Ignored { .. } => true,
        GuiState::Missed { .. } => true,
        _ => false,
    };
    let stop = match state {
        GuiState::Recording => true,
        GuiState::AwaitingEndConfirm => true,
        _ => false,
    };
    let mut entries: Vec<MenuEntry> = Vec::new();
    entries.push(MenuEntry::Status { id: ID_STATUS });
    entries.push(MenuEntry::Separator);
    entries.push(
        MenuEntry::Item { id: ID_START_RECORDING, label: "▶  녹화 시작", enabled: start },
    );
    entries.push(MenuEntry::Item { id: ID_STOP_RECORDING, label: "■  녹화 중지", enabled: stop });
    entries.push(MenuEntry::Separator);
    entries.push(
        MenuEntry::Item {
            id: ID_OPEN_LAST_SESSION,
            label: "📁  마지막 세션 폴더 열기",
            enabled: flags.last_session.is_some(),
        },
    );
    entries.push(MenuEntry::Separator);
    entries.push(MenuEntry::Settings { label: "⚙  설정" });
    entries.push(MenuEntry::Separator);
    entries.push(MenuEntry::About { label: "정보" });
    entries.push(MenuEntry::Separator);
    entries.push(MenuEntry::Item { id: ID_QUIT, label: "✕  종료", enabled: true });
    let mut settings: Vec<MenuEntry> = Vec::new();
    settings.push(
        MenuEntry::Item {
            id: ID_CHANGE_SAVE_DIR,
            label: "저장 위치 변경…",
            enabled: true,
        },
    );
    settings.push(
        MenuEntry::Check {
            id: ID_TOGGLE_AUTO_RECORD,
            label: "감지 시 자동 녹화 (묻지 않음)",
            checked: flags.auto_record,
        },
    );
    settings.push(
        MenuEntry::Check {
            id: ID_TOGGLE_AUTO_START,
            label: "Windows 시작 시 자동 실행",
            checked: flags.auto_start,
        },
    );
    settings.push(
        MenuEntry::Check {
            id: ID_TOGGLE_EVENT_NOTIFS,
            label: "이벤트 알림 (자막/공유/리사이즈 등)",
            checked: flags.event_notifications,
        },
    );
    settings.push(MenuEntry::Separator);
    settings.push(
        MenuEntry::Item {
            id: ID_OPEN_LOG,
            label: "로그 파일 보기 (agent.log)",
            enabled: true,
        },
    );
    assert(entries@ =~= menu_entries(state.stage(), flags.last_session is Some));
    assert(settings@ =~= settings_entries(*flags));
    TrayMenu { status, entries, settings }
}

/// The colour of the badge that shows a state, if it has one.
pub open spec fn badge_of(stage: Stage) -> Option<(u8, u8, u8)> {
    match stage {
        Stage::Idle => None,
        Stage::Detected => Some((0xE0, 0xA8, 0x00)),
        Stage::Ignored => Some((0xE0, 0xA8, 0x00)),
        Stage::Missed => Some((0xE0, 0xA8, 0x00)),
        _ => Some((0xCC, 0x20, 0x20)),
    }
}

/// The icon of a state. None if the file of the mascot holds no picture.
pub fn icon_for(state: &GuiState, mascot_png: &[u8]) -> (r: Option<Icon>)
    ensures
        match r {
            Some(icon) => exists|base: Icon| #[trigger]
                shows(base, mascot_png@) && icon.width == SIZE && icon.height == SIZE && icon.rgba@
                    == match badge_of(state.stage()) {
                    Some(colour) => with_badge(base, colour),
                    None => base.rgba@,
                },
            None => decoded(mascot_png@) is None,
        },
{
    match state {
        GuiState::Idle => idle_icon(mascot_png),
        GuiState::Detected { .. } => detected_icon(mascot_png),
        GuiState::Ignored { .. } => detected_icon(mascot_png),
        GuiState::Missed { .. } => detected_icon(mascot_png),
        _ => recording_icon(mascot_png),
    }
}

/// Each id of the menu asks for one thing, and no other text asks for anything.
pub proof fn law_ids_ask_for_one_thing_each(id: Seq<char>)
    ensures
        clicked(id) == MenuAction::StartRecording <==> id == "start_recording"@,
        clicked(id) == MenuAction::StopRecording <==> id == "stop_recording"@,
        clicked(id) == MenuAction::OpenLastSession <==> id == "open_last_session"@,
        clicked(id) == MenuAction::ChangeSaveDir <==> id == "change_save_dir"@,
        clicked(id) == MenuAction::ToggleAutoRecord <==> id == "toggle_auto_record"@,
        clicked(id) == MenuAction::ToggleAutoStart <==> id == "toggle_auto_start"@,
        clicked(id) == MenuAction::ToggleEventNotifs <==> id == "toggle_event_notifs"@,
        clicked(id) == MenuAction::OpenLog <==> id == "open_log"@,
        clicked(id) == MenuAction::Quit <==> id == "quit"@,
{
    reveal_strlit("start_recording");
    reveal_strlit("stop_recording");
    reveal_strlit("open_last_session");
    reveal_strlit("change_save_dir");
    reveal_strlit("toggle_auto_record");
    reveal_strlit("toggle_auto_start");
    reveal_strlit("toggle_event_notifs");
    reveal_strlit("open_log");
    reveal_strlit("quit");
    assert("start_recording"@.len() == 15 && "stop_recording"@.len() == 14);
    assert("open_last_session"@.len() == 17 && "change_save_dir"@.len() == 15);
    assert("toggle_auto_record"@.len() == 18 && "toggle_auto_start"@.len() == 17);
    assert("toggle_event_notifs"@.len() == 19 && "open_log"@.len() == 8 && "quit"@.len() == 4);
    assert("start_recording"@[0] == 's' && "change_save_dir"@[0] == 'c');
    assert("open_last_session"@[0] == 'o' && "toggle_auto_start"@[0] == 't');
}

/// A recording can be started by hand exactly where a meeting is there and is not
/// recorded, and stopped exactly where it runs. The colour of the badge tells a
/// meeting that is not recorded from one that is.
pub proof fn law_menu_and_badge_follow_the_stage(stage: Stage)
    ensures
        can_start(stage) <==> stage == Stage::Detected || stage == Stage::Ignored || stage
            == Stage::Missed,
        can_stop(stage) <==> stage == Stage::Recording || stage == Stage::AwaitingEndConfirm,
        badge_of(stage) is None <==> stage == Stage::Idle,
        can_start(stage) <==> badge_of(stage) == Some((0xE0u8, 0xA8u8, 0x00u8)),
        can_stop(stage) || stage is Finalizing <==> badge_of(stage) == Some(
            (0xCCu8, 0x20u8, 0x20u8),
        ),
{
}

/// The menu offers to start and to stop a recording exactly where that can be done,
/// and to open the last session exactly where there is one; quitting is always
/// offered, and the switches of the menu of settings stand as they are set.
pub proof fn law_menu_offers_what_can_be_done(stage: Stage, has_session: bool, flags: MenuFlags)
    ensures
        ({
            let m = menu_entries(stage, has_session);
            let s = settings_entries(flags);
            &&& m.len() == 12
            &&& m[0] == (MenuEntry::Status { id: ID_STATUS })
            &&& m[2] is Item && m[2]->Item_id@ == "start_recording"@ && m[2]->enabled == (stage
                == Stage::Detected || stage == Stage::Ignored || stage == Stage::Missed)
            &&& m[3] is Item && m[3]->Item_id@ == "stop_recording"@ && m[3]->enabled == (stage
                == Stage::Recording || stage == Stage::AwaitingEndConfirm)
            &&& m[5] is Item && m[5]->Item_id@ == "open_last_session"@ && m[5]->enabled
                == has_session
            &&& m[7] is Settings
            &&& m[9] is About
            &&& m[11] is Item && m[11]->Item_id@ == "quit"@ && m[11]->enabled
            &&& s.len() == 6
            &&& s[0] is Item && s[0]->Item_id@ == "change_save_dir"@ && s[0]->enabled
            &&& s[1] is Check && s[1]->Check_id@ == "toggle_auto_record"@ && s[1]->checked
                == flags.auto_record
            &&& s[2] is Check && s[2]->Check_id@ == "toggle_auto_start"@ && s[2]->checked
                == flags.auto_start
            &&& s[3] is Check && s[3]->Check_id@ == "toggle_event_notifs"@ && s[3]->checked
                == flags.event_notifications
            &&& s[5] is Item && s[5]->Item_id@ == "open_log"@ && s[5]->enabled
        }),
{
}

} // verus!
