use meeting_agent::dialog::{accepts_name, pick_folder, Shown, CANCELLED};
use meeting_agent::gui::autostart::{is_enabled, set_enabled, Registration, APP_NAME};
use meeting_agent::gui::base64::{b64_encode, icon_data_uri};
use meeting_agent::gui::popup::{
    ended_reply, events_enabled, html_escape, opens_session_folder, popup_result, prompt_reply,
    render_html, set_events_enabled, show_event, show_info, show_info_blocking, show_meeting_ended,
    show_meeting_prompt, show_post_finalize, EventSwitch, MeetingEndedAction, PopupEvent,
    PopupResult, ToastAction, POPUP_HEIGHT_INFO, POPUP_HEIGHT_PROMPT,
};
use meeting_agent::gui::welcome::{
    after_picking, after_welcome, needs_welcome, welcome_action, welcome_page, Picked, Startup,
    Welcome, WelcomeAction, WelcomeStep,
};
use meeting_agent::persisted_state::AgentState;

fn sent(s: &str) -> PopupResult {
    popup_result(PopupEvent::Ipc(s.to_string()))
}

#[test]
fn events_can_be_switched_off() {
    let mut switch = EventSwitch::new();
    assert!(events_enabled(&switch));
    let shown = show_event(&switch, "자막 감지됨", "body").unwrap();
    assert_eq!((shown.head.as_str(), shown.timeout_ms), ("이벤트", 4500));
    set_events_enabled(&mut switch, false);
    assert!(!events_enabled(&switch));
    assert!(show_event(&switch, "t", "b").is_none());
    set_events_enabled(&mut switch, true);
    assert!(events_enabled(&switch));
}

#[test]
fn information_closes_by_itself() {
    let p = show_info("title", "body");
    assert_eq!((p.head.as_str(), p.title.as_str(), p.body.as_str()), ("MEETING AGENT", "title", "body"));
    assert_eq!((p.timeout_ms, p.height), (5000, POPUP_HEIGHT_INFO));
    assert_eq!(p.closes_after(), Some(5000));
    assert!(p.body_click_dismisses && p.primary.is_none() && p.secondary.is_none());
    let b = show_info_blocking("t", "b");
    assert_eq!(b.timeout_ms, 5000);
}

#[test]
fn a_meeting_is_asked_about_by_its_title() {
    let p = show_meeting_prompt(&Some("Sync".to_string()));
    assert_eq!(p.body, "Teams 미팅이 감지되었습니다: Sync");
    assert_eq!((p.timeout_ms, p.height), (31_000, POPUP_HEIGHT_PROMPT));
    assert_eq!(p.primary.as_ref().map(|b| b.action.as_str()), Some("record"));
    assert_eq!(p.secondary.as_ref().map(|b| b.label.as_str()), Some("무시"));
    assert_eq!(show_meeting_prompt(&None).body, "Teams 미팅이 감지되었습니다.");
    assert_eq!(show_meeting_prompt(&Some(String::new())).body, "Teams 미팅이 감지되었습니다.");
}

#[test]
fn the_answer_about_a_meeting_is_understood() {
    assert_eq!(prompt_reply(&sent("record")), Some(ToastAction::Record));
    assert_eq!(prompt_reply(&sent("ignore")), Some(ToastAction::Ignore));
    assert_eq!(prompt_reply(&sent("_close")), None);
    assert_eq!(prompt_reply(&sent("_body")), None);
    assert_eq!(prompt_reply(&popup_result(PopupEvent::Timeout)), None);
    assert_eq!(prompt_reply(&popup_result(PopupEvent::CloseRequested)), None);
}

#[test]
fn the_answer_about_the_end_is_understood() {
    let p = show_meeting_ended();
    assert_eq!(p.timeout_ms, 10_000);
    assert_eq!(p.body, "10초 안에 응답하지 않으면 자동으로 마무리합니다.");
    assert_eq!(ended_reply(&sent("stop_open")), MeetingEndedAction::OpenFolder);
    assert_eq!(ended_reply(&sent("_body")), MeetingEndedAction::OpenFolder);
    assert_eq!(ended_reply(&sent("_close")), MeetingEndedAction::AutoFinalize);
    assert_eq!(ended_reply(&PopupResult::Timeout), MeetingEndedAction::AutoFinalize);
    assert_eq!(ended_reply(&PopupResult::Closed), MeetingEndedAction::AutoFinalize);
}

#[test]
fn a_saved_session_can_be_opened() {
    let p = show_post_finalize("D:/s");
    assert_eq!(p.body, "클릭해서 폴더 열기:\nD:/s");
    assert_eq!(p.timeout_ms, 8000);
    assert!(opens_session_folder(&sent("open")));
    assert!(opens_session_folder(&sent("_body")));
    assert!(!opens_session_folder(&PopupResult::Timeout));
    assert!(!opens_session_folder(&PopupResult::Closed));
}

#[test]
fn markup_in_a_text_is_escaped() {
    assert_eq!(html_escape("<a href=\"x\">'&'</a>"), "&lt;a href=&quot;x&quot;&gt;&#39;&amp;&#39;&lt;/a&gt;");
    assert_eq!(html_escape("&lt;"), "&amp;lt;");
    assert_eq!(html_escape("한글"), "한글");
    assert!(!html_escape("<\"'>").contains(|c| "<>\"'".contains(c)));
}

#[test]
fn a_page_is_filled_in() {
    let template = "{{ICON_DATA_URI}}|{{HEAD}}|{{TITLE}}|{{BODY}}|{{ACTIONS}}|{{BODY_ACTION}}";
    let mut p = show_meeting_prompt(&None);
    p.body = "a\n<b>".to_string();
    assert_eq!(
        render_html(template, b"hi", &p),
        "data:image/png;base64,aGk=|미팅 감지됨|녹화하시겠습니까?|a<br>&lt;b&gt;|\
         <button class=\"secondary\" onclick=\"action('ignore', event)\">무시</button>\
         <button class=\"primary\" onclick=\"action('record', event)\">녹화</button>|record"
    );
    let info = show_info("t", "b");
    assert_eq!(render_html("{{ACTIONS}}{{BODY_ACTION}}{{BODY_ACTION}}", b"", &info), "_body_body");
}

#[test]
fn bytes_are_written_in_base64() {
    assert_eq!(b64_encode(b""), "");
    assert_eq!(b64_encode(b"M"), "TQ==");
    assert_eq!(b64_encode(b"Ma"), "TWE=");
    assert_eq!(b64_encode(b"Man"), "TWFu");
    assert_eq!(b64_encode(&[0xfb, 0xff, 0x00, 0x3e]), "+/8APg==");
    assert_eq!(icon_data_uri(b"Man"), "data:image/png;base64,TWFu");
}

#[test]
fn base64_can_be_read_back() {
    let value = |c: u8| match c {
        b'A'..=b'Z' => c - b'A',
        b'a'..=b'z' => c - b'a' + 26,
        b'0'..=b'9' => c - b'0' + 52,
        b'+' => 62,
        _ => 63,
    };
    let bytes: Vec<u8> = (0..=255).collect();
    let text = b64_encode(&bytes);
    let mut back: Vec<u8> = Vec::new();
    for four in text.as_bytes().chunks(4) {
        let v: Vec<u8> = four.iter().map(|c| value(*c)).collect();
        back.push(v[0] * 4 + v[1] / 16);
        if four[2] != b'=' {
            back.push(v[1] % 16 * 16 + v[2] / 4);
        }
        if four[3] != b'=' {
            back.push(v[2] % 4 * 64 + v[3]);
        }
    }
    assert_eq!(back, bytes);
}

#[test]
fn the_welcome_is_shown_once() {
    let mut s = AgentState::default();
    assert!(needs_welcome(&s));
    assert_eq!(
        after_welcome(&mut s, Welcome::Dismissed),
        Startup { go_on: false, save: false, plain_message: false }
    );
    assert_eq!(
        after_welcome(&mut s, Welcome::Failed),
        Startup { go_on: true, save: false, plain_message: true }
    );
    assert!(needs_welcome(&s));
    assert_eq!(
        after_welcome(&mut s, Welcome::Picked("D:/x".to_string())),
        Startup { go_on: true, save: true, plain_message: false }
    );
    assert!(!needs_welcome(&s));
    assert_eq!(s.last_save_dir.as_deref(), Some("D:/x"));
}

#[test]
fn the_welcome_stays_until_a_folder_is_picked() {
    assert_eq!(welcome_action("ok"), WelcomeAction::PickFolder);
    assert_eq!(welcome_action("close"), WelcomeAction::Dismissed);
    assert!(matches!(after_picking(Picked::Cancelled), WelcomeStep::Stay));
    assert!(matches!(after_picking(Picked::Failed), WelcomeStep::Stay));
    assert!(matches!(after_picking(Picked::Folder("D:/x".to_string())), WelcomeStep::Done(d) if d == "D:/x"));
    assert_eq!(welcome_page("<img src='{{ICON_DATA_URI}}'>", b"M"), "<img src='data:image/png;base64,TQ=='>");
}

#[test]
fn a_dialog_can_be_cancelled() {
    assert_eq!(pick_folder(Shown::Accepted("D:/x".to_string())), Ok(Some("D:/x".to_string())));
    assert_eq!(pick_folder(Shown::Failed(CANCELLED)), Ok(None));
    assert_eq!(pick_folder(Shown::Failed(5)), Err(5));
    assert!(accepts_name(" C:/x "));
    assert!(!accepts_name(" \t"));
    assert!(!accepts_name(""));
}

#[test]
fn starting_with_windows_is_off_unless_known() {
    assert!(is_enabled(Some(true)));
    assert!(!is_enabled(Some(false)));
    assert!(!is_enabled(None));
    assert_eq!(set_enabled(true), Registration::Enable);
    assert_eq!(set_enabled(false), Registration::Disable);
    assert_eq!(APP_NAME, "MeetingAgent");
}
