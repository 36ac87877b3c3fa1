use meeting_agent::state::presenter::{
    detect_active_share, detect_active_share_global, detect_share_for_hwnd, presenter_in,
    share_told, ShareError,
};
use meeting_agent::state::{
    counts_as_teams_window, diagnose, find_meeting, has_popup_words, has_teams_words,
    is_leave_kind, is_popup_title, is_teams_program, marker_candidates, poll_interval,
    window_has_meeting_marker, HwndHandle, MeetingDetector, MeetingEvent, TeamsWindow,
    WindowTree, MISSES_BEFORE_STOP,
};
use meeting_agent::uia::{UiElement, BUTTON, SPLIT_BUTTON, TEXT};

fn node(name: &str, control_type: i32, automation_id: &str, children: Vec<UiElement>) -> UiElement {
    UiElement {
        key: 0,
        name: name.to_string(),
        class_name: String::new(),
        automation_id: automation_id.to_string(),
        help_text: String::new(),
        localized_type: "button".to_string(),
        control_type,
        offscreen: false,
        children,
    }
}

fn window(hwnd: isize, title: Option<&str>, tree: Result<UiElement, String>) -> WindowTree {
    WindowTree {
        window: TeamsWindow { hwnd, pid: 40, title: title.map(|t| t.to_string()) },
        tree,
    }
}

fn in_call() -> UiElement {
    node("root", 0, "", vec![node("Leave (Ctrl+Shift+H)", BUTTON, "", vec![])])
}

fn named(name: &str) -> UiElement {
    node("root", 0, "", vec![node(name, TEXT, "", vec![])])
}

fn presenter(tree: &UiElement) -> Option<Option<String>> {
    detect_active_share(tree).unwrap().map(|s| s.presenter)
}

#[test]
fn teams_is_known_by_its_program() {
    assert!(is_teams_program("ms-teams.exe"));
    assert!(is_teams_program("MS-Teams_autostarter.exe"));
    assert!(is_teams_program("Teams.exe"));
    assert!(!is_teams_program("teams"));
    assert!(!is_teams_program("chrome.exe"));
    let exe = Some("ms-teams.exe".to_string());
    assert!(counts_as_teams_window(true, 7, &exe));
    assert!(!counts_as_teams_window(false, 7, &exe));
    assert!(!counts_as_teams_window(true, 0, &exe));
    assert!(!counts_as_teams_window(true, 7, &None));
}

#[test]
fn small_windows_beside_the_meeting_are_known_by_their_title() {
    let popup = |t: &str| is_popup_title(&Some(t.to_string()));
    assert!(popup("회의 간단히 보기 | Microsoft Teams"));
    assert!(popup("공유 컨트롤 막대"));
    assert!(popup("Meeting Compact View"));
    assert!(popup("MINI VIEW"));
    assert!(popup("Sharing control bar"));
    assert!(popup("sharing toolbar"));
    assert!(!popup("Weekly sync | Microsoft Teams"));
    assert!(!is_popup_title(&None));
}

#[test]
fn a_meeting_is_known_by_the_button_that_leaves_it() {
    assert!(window_has_meeting_marker(&in_call()));
    assert!(window_has_meeting_marker(&node("통화 종료", SPLIT_BUTTON, "", vec![])));
    assert!(window_has_meeting_marker(&node("나가기", TEXT, "Hangup-Button", vec![])));
    assert!(!window_has_meeting_marker(&node("나가기", TEXT, "", vec![])));
    assert!(!window_has_meeting_marker(&node("Mute", BUTTON, "hangup-button", vec![])));
    let mut deep = node("hang up", BUTTON, "", vec![]);
    for _ in 0..20 {
        deep = node("", 0, "", vec![deep]);
    }
    assert!(window_has_meeting_marker(&deep));
    assert!(!window_has_meeting_marker(&node("", 0, "", vec![deep])));
}

#[test]
fn the_main_window_is_preferred() {
    let windows = vec![
        window(1, Some("broken"), Err("gone".to_string())),
        window(2, Some("chat"), Ok(named("x"))),
        window(3, Some("compact view"), Ok(in_call())),
        window(4, Some("Weekly sync"), Ok(in_call())),
    ];
    assert_eq!(find_meeting(&windows).map(|w| w.hwnd), Some(4));
    let only_popup = vec![
        window(3, Some("compact view"), Ok(in_call())),
        window(5, Some("mini view"), Ok(in_call())),
    ];
    assert_eq!(find_meeting(&only_popup).map(|w| w.hwnd), Some(3));
    assert!(find_meeting(&vec![]).is_none());
}

#[test]
fn a_meeting_starts_at_once_and_stops_after_a_while() {
    let mut d = MeetingDetector::new();
    let seen = || Some(TeamsWindow { hwnd: 9, pid: 4, title: Some("Sync".to_string()) });
    assert!(d.poll(None).is_none());
    match d.poll(seen()) {
        Some(MeetingEvent::Started { teams_hwnd, teams_pid, title }) => {
            assert_eq!((teams_hwnd, teams_pid), (HwndHandle(9), 4));
            assert_eq!(title.as_deref(), Some("Sync"));
        }
        other => panic!("{:?}", other),
    }
    assert!(d.poll(seen()).is_none());
    for _ in 1..MISSES_BEFORE_STOP {
        assert!(d.poll(None).is_none());
    }
    assert!(d.poll(seen()).is_none());
    for _ in 1..MISSES_BEFORE_STOP {
        assert!(d.poll(None).is_none());
    }
    assert!(matches!(d.poll(None), Some(MeetingEvent::Stopped)));
    assert!(d.poll(None).is_none());
}

#[test]
fn two_polls_without_a_meeting_end_it() {
    assert_eq!(MISSES_BEFORE_STOP, 2);
    let mut d = MeetingDetector::new();
    let seen = || Some(TeamsWindow { hwnd: 9, pid: 4, title: None });
    assert!(matches!(d.poll(seen()), Some(MeetingEvent::Started { .. })));
    assert!(d.poll(None).is_none());
    assert!(d.poll(seen()).is_none());
    assert!(d.poll(None).is_none());
    assert!(matches!(d.poll(None), Some(MeetingEvent::Stopped)));
}

#[test]
fn reports_of_meetings_alternate() {
    let mut d = MeetingDetector::new();
    let mut running = false;
    for i in 0..200u32 {
        let seen = i % 37 < 20 || i % 5 == 0;
        let found =
            if seen { Some(TeamsWindow { hwnd: 1, pid: 1, title: None }) } else { None };
        match d.poll(found) {
            Some(MeetingEvent::Started { .. }) => {
                assert!(!running);
                running = true;
            }
            Some(MeetingEvent::Stopped) => {
                assert!(running);
                running = false;
            }
            None => {}
        }
    }
}

#[test]
fn the_detector_does_not_poll_too_often() {
    assert_eq!(poll_interval(1500), 1500);
    assert_eq!(poll_interval(100), 500);
}

#[test]
fn the_presenter_is_read_from_the_banner() {
    assert_eq!(presenter(&named("Kim, Ann is presenting")), Some(Some("Kim, Ann".to_string())));
    assert_eq!(presenter(&named(" Bob , is sharing screen")), Some(Some("Bob".to_string())));
    assert_eq!(presenter(&named("김철수님이 발표 중입니다")), Some(Some("김철수".to_string())));
    assert_eq!(presenter(&named("이름님이 화면을 공유")), Some(Some("이름".to_string())));
    assert_eq!(presenter(&named(" is presenting")), Some(None));
    assert_eq!(presenter(&named("nothing")), None);
}

#[test]
fn the_users_own_share_is_known() {
    let me = Some(Some("(me)".to_string()));
    assert_eq!(presenter(&named("You are presenting")), me);
    assert_eq!(presenter(&named("내가 화면을 공유하는 중")), me);
    assert_eq!(presenter(&node("공유 중지", BUTTON, "Share-Button", vec![])), me);
    assert_eq!(presenter(&node("Stop sharing", BUTTON, "share-button", vec![])), me);
    assert_eq!(presenter(&node("Share", BUTTON, "share-button", vec![])), None);
    assert_eq!(presenter(&node("Stop sharing", BUTTON, "other", vec![])), None);
}

#[test]
fn text_in_lower_case_is_judged_as_it_stands() {
    assert!(has_teams_words("x ms-teams y") && has_teams_words("teams.exe"));
    assert!(!has_teams_words("MS-TEAMS") && !has_teams_words("teams"));
    assert!(has_popup_words("간단히 보기", "") && has_popup_words("", "mini view"));
    assert!(!has_popup_words("mini view", "간단히 보기"));
    assert!(is_leave_kind(BUTTON, "") && is_leave_kind(TEXT, "hangup-button"));
    assert!(!is_leave_kind(TEXT, "Hangup-Button") && !is_leave_kind(TEXT, "a hangup-button"));
    let told = |raw: &str, lower: &str, id: &str| {
        share_told(raw, lower, id).map(|s| s.map(|s| s.presenter))
    };
    assert!(matches!(told("x", "you are presenting", ""), Ok(Some(Some(p))) if p == "(me)"));
    assert!(matches!(told("Ann is presenting", "ann is presenting", ""), Ok(Some(Some(p))) if p == "Ann"));
    assert!(matches!(told("", "stop sharing", "share-button"), Ok(Some(Some(p))) if p == "(me)"));
    assert!(matches!(told("", "stop sharing", ""), Ok(None)));
    assert!(matches!(told("한", "x is presenting", ""), Err(ShareError::UnreadableName)));
}

#[test]
fn a_name_that_cannot_be_cut_is_an_error() {
    let odd = named("İ님이 발표 중입니다");
    assert_eq!(detect_active_share(&odd).err(), Some(ShareError::UnreadableName));
    assert_eq!(presenter(&named("İ is presenting")), Some(Some("İ".to_string())));
    assert!(matches!(
        presenter_in("한", "x is presenting"),
        Some(Err(ShareError::UnreadableName))
    ));
    assert_eq!(presenter_in("Ann is presenting", "ann is presenting"), Some(Ok(Some("Ann".to_string()))));
    assert_eq!(presenter_in("x", "x"), None);
}

#[test]
fn all_windows_are_asked_about_a_share() {
    let windows = vec![
        window(1, None, Err("gone".to_string())),
        window(2, None, Ok(named("quiet"))),
        window(3, None, Ok(named("Ann is presenting"))),
    ];
    let found = detect_active_share_global(&windows).unwrap();
    assert_eq!(found.map(|s| s.presenter), Some(Some("Ann".to_string())));
    assert!(detect_active_share_global(&vec![]).unwrap().is_none());
    assert_eq!(detect_share_for_hwnd(9, &windows).err(), Some(ShareError::NoSuchWindow));
    assert_eq!(detect_share_for_hwnd(1, &windows).err(), Some(ShareError::NoSuchWindow));
    assert!(detect_share_for_hwnd(2, &windows).unwrap().is_none());
    assert!(detect_share_for_hwnd(3, &windows).unwrap().is_some());
}

#[test]
fn the_diagnosis_of_a_meeting_lists_windows_and_hits() {
    assert_eq!(
        diagnose(&vec![], 6),
        vec![
            "\n=== Teams windows enumerated (0) ===",
            "(none — process_image_basename couldn't match 'ms-teams' / 'teams.exe')",
            "Verify with: powershell \"Get-Process ms-teams\"",
        ]
    );
    let windows = vec![
        window(26, Some("Sync"), Ok(in_call())),
        window(-1, None, Err("no element".to_string())),
        window(1, None, Ok(named("x"))),
    ];
    let lines = diagnose(&windows, 6);
    assert_eq!(
        lines,
        vec![
            "\n=== Teams windows enumerated (3) ===".to_string(),
            "  #0  pid=40 hwnd=0x1a title=Some(\"Sync\")".to_string(),
            format!("  #1  pid=40 hwnd={:#x} title=None", -1isize),
            "  #2  pid=40 hwnd=0x1 title=None".to_string(),
            "\n=== Window #0 (hwnd=0x1a) — meeting-marker candidates ===".to_string(),
            "  HIT depth=1 ct=50000 loc=\"button\" name=\"Leave (Ctrl+Shift+H)\" aid=\"\"".to_string(),
            "  (1 hit(s) total. Detector requires control type 50000=Button or 50019=SplitButton.)"
                .to_string(),
            format!("\n=== Window #1 (hwnd={:#x}) — meeting-marker candidates ===", -1isize),
            "  ElementFromHandle failed: no element".to_string(),
            "\n=== Window #2 (hwnd=0x1) — meeting-marker candidates ===".to_string(),
            format!(
                "  (no element with name matching {:?})",
                ["leave", "hang up", "hang-up", "end call", "나가기", "끊기", "통화 종료"]
            ),
            "  → Either no meeting in this window, or our needle list misses the actual button label."
                .to_string(),
            "  Consider raising --diagnose-depth (current 6) or check inspect.exe.".to_string(),
            "\n=== UIA tree dump (first window, depth 6) ===".to_string(),
            "[0] name=\"root\" class=\"\" aid=\"\" loc=\"button\"".to_string(),
            "  [50000] name=\"Leave (Ctrl+Shift+H)\" class=\"\" aid=\"\" loc=\"button\"".to_string(),
        ]
    );
    assert_eq!(marker_candidates(&in_call(), 0).len(), 0);
}
