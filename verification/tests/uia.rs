use meeting_agent::uia::captions::{
    caption_event, diagnose, is_panel_kind, is_row_class, locate_caption_container, scan_captions, split_speaker_text, stable_id,
    CaptionItem,
    CaptionTracker, Located, RECENT_CAPTION_RING, STALE_AFTER_EMPTY_SCANS,
};
use meeting_agent::timeline::event::TimelineEvent;
use meeting_agent::uia::{
    collect_text, find_all, find_descendant_by_name_contains, text_holds_any, walk_descendants,
    EveryElement, NameTest, UiElement, EDIT, GROUP, LIST, TEXT,
};

fn node(name: &str, children: Vec<UiElement>) -> UiElement {
    UiElement {
        key: 0,
        name: name.to_string(),
        class_name: String::new(),
        automation_id: String::new(),
        help_text: String::new(),
        localized_type: String::new(),
        control_type: 0,
        offscreen: false,
        children,
    }
}

fn text(name: &str) -> UiElement {
    UiElement { control_type: TEXT, ..node(name, vec![]) }
}

fn row(texts: &[&str]) -> UiElement {
    UiElement {
        class_name: "fui-ChatMessageCompact__body ___10lx575".to_string(),
        ..node("", texts.iter().map(|t| text(t)).collect())
    }
}

fn item(text: &str) -> CaptionItem {
    CaptionItem { speaker: None, text: text.to_string(), id: format!("id-{}", text) }
}

fn names(visits: &[(&UiElement, u32)]) -> Vec<String> {
    visits.iter().map(|(e, d)| format!("{}{}", e.name, d)).collect()
}

#[test]
fn a_walk_takes_one_level_after_the_other() {
    let tree = node(
        "r",
        vec![node("a", vec![node("c", vec![])]), node("b", vec![node("d", vec![])])],
    );
    let w = walk_descendants(&tree, 9, false, &EveryElement);
    assert_eq!(names(&w.visits), vec!["r0", "a1", "b1", "c2", "d2"]);
    assert!(!w.stopped);
    assert_eq!(names(&walk_descendants(&tree, 2, false, &EveryElement).visits).len(), 5);
    let shallow = walk_descendants(&tree, 1, false, &EveryElement);
    assert_eq!(names(&shallow.visits), vec!["r0", "a1", "b1"]);
    let root = walk_descendants(&tree, 0, false, &EveryElement);
    assert_eq!(names(&root.visits), vec!["r0"]);
}

#[test]
fn a_walk_can_skip_and_stop() {
    let first = UiElement { key: 1, ..node("hit", vec![]) };
    let second = UiElement { key: 2, ..node("hit", vec![]) };
    let tree = node("r", vec![first, second]);
    let hit = find_descendant_by_name_contains(&tree, &["hit"], 5);
    assert_eq!(hit.map(|e| e.key), Some(1));
    let inner = row(&["Cat", "inner"]);
    let outer = UiElement {
        class_name: "ChatMessageCompact__body".to_string(),
        ..node("", vec![text("Ann"), text("outer"), inner])
    };
    let items = scan_captions(&node("panel", vec![outer]));
    assert_eq!(items.len(), 1);
    assert_eq!(items[0].text, "outer Cat inner");
}

#[test]
fn what_is_off_screen_can_be_passed_over() {
    let hidden = UiElement { offscreen: true, ..node("h", vec![node("below", vec![])]) };
    let tree = node("r", vec![hidden, node("v", vec![])]);
    let w = walk_descendants(&tree, 9, true, &EveryElement);
    assert_eq!(names(&w.visits), vec!["r0", "v1"]);
    let hidden_root = UiElement { offscreen: true, ..node("r", vec![]) };
    assert_eq!(names(&walk_descendants(&hidden_root, 9, true, &EveryElement).visits), vec!["r0"]);
}

#[test]
fn a_name_is_found_whatever_its_case() {
    let tree = node("root", vec![node("Live CAPTIONS panel", vec![]), node("other", vec![])]);
    let hit = find_descendant_by_name_contains(&tree, &["live captions", "자막"], 5);
    assert_eq!(hit.map(|e| e.name.as_str()), Some("Live CAPTIONS panel"));
    assert!(find_descendant_by_name_contains(&tree, &["자막"], 5).is_none());
    assert!(find_descendant_by_name_contains(&tree, &["live"], 0).is_none());
    assert!(find_descendant_by_name_contains(&tree, &[], 5).is_none());
}

#[test]
fn all_elements_with_a_name_are_found() {
    let tree = node("Ab", vec![node("xaby", vec![]), node("c", vec![node("AB", vec![])])]);
    let hits = find_all(&tree, 5, &NameTest { needles: &["aB"] });
    assert_eq!(names(&hits), vec!["Ab0", "xaby1", "AB2"]);
}

#[test]
fn text_is_collected_in_document_order() {
    let edit = UiElement { control_type: EDIT, ..node("two", vec![]) };
    let deep = node("not text", vec![text("three")]);
    let tree = node("root", vec![text("one"), edit, text(""), deep]);
    assert_eq!(collect_text(&tree, 9), "one two three");
    assert_eq!(collect_text(&tree, 1), "one two");
    assert_eq!(collect_text(&node("x", vec![]), 9), "");
}

#[test]
fn a_caption_has_the_same_id_again() {
    let ann = Some("Ann".to_string());
    assert_eq!(stable_id(&ann, "hello"), stable_id(&ann, "hello"));
    assert_ne!(stable_id(&ann, "hello"), stable_id(&None, "hello"));
    assert_ne!(stable_id(&ann, "hello"), stable_id(&ann, "hello!"));
    assert_eq!(stable_id(&ann, "hello").len(), 16);
}

#[test]
fn captions_are_read_from_rows() {
    let panel = node(
        "panel",
        vec![
            row(&["Ann", " hello ", "there"]),
            node("wrapper", vec![row(&["only"]), row(&[" "]), row(&[])]),
            row(&["Bob", "bye"]),
        ],
    );
    let items: Vec<(Option<String>, String)> =
        scan_captions(&panel).into_iter().map(|c| (c.speaker, c.text)).collect();
    assert_eq!(
        items,
        vec![
            (Some("Ann".to_string()), "hello there".to_string()),
            (None, "only".to_string()),
            (Some("Bob".to_string()), "bye".to_string()),
        ]
    );
    let again = scan_captions(&panel);
    assert_eq!(again[2].id, stable_id(&Some("Bob".to_string()), "bye"));
    assert!(scan_captions(&node("empty", vec![text("no row")])).is_empty());
}

#[test]
fn a_single_text_is_split_at_its_first_colon() {
    let split = |s: &str| split_speaker_text(s);
    assert_eq!(split("Kim: see 3:30"), (Some("Kim".to_string()), "see 3:30".to_string()));
    assert_eq!(split("no colon"), (None, "no colon".to_string()));
    assert_eq!(split(": nobody"), (None, ": nobody".to_string()));
    assert_eq!(split("Kim:"), (None, "Kim:".to_string()));
    assert_eq!(split(""), (None, String::new()));
    let items = scan_captions(&node("panel", vec![row(&[" Kim : see 3:30 "])]));
    assert_eq!(items.len(), 1);
    assert_eq!(items[0].speaker.as_deref(), Some("Kim"));
    assert_eq!(items[0].text, "see 3:30");
    let two = scan_captions(&node("panel", vec![row(&["Ann", "at 3:30"])]));
    assert_eq!(two[0].speaker.as_deref(), Some("Ann"));
    assert_eq!(two[0].text, "at 3:30");
}

#[test]
fn the_panel_is_found_by_name_or_by_hint() {
    let named = node("window", vec![node("라이브 자막", vec![])]);
    let hinted = node(
        "window",
        vec![UiElement {
            key: 7,
            automation_id: "Live-Captions-1".to_string(),
            control_type: LIST,
            ..node("", vec![])
        }],
    );
    let wrong_kind = node(
        "window",
        vec![UiElement {
            class_name: "captions".to_string(),
            control_type: TEXT,
            ..node("", vec![])
        }],
    );
    let camel = node(
        "window",
        vec![UiElement {
            automation_id: "captionRegion".to_string(),
            control_type: GROUP,
            ..node("found", vec![])
        }],
    );
    let name = |roots: &Vec<UiElement>| locate_caption_container(roots).map(|e| e.name.clone());
    assert_eq!(name(&vec![named]), Some("라이브 자막".to_string()));
    let roots = vec![node("plain", vec![]), hinted];
    assert_eq!(locate_caption_container(&roots).map(|e| e.key), Some(7));
    assert_eq!(name(&vec![wrong_kind]), None);
    assert_eq!(name(&vec![camel]), None);
    assert!(is_panel_kind(LIST, "x-captionslist", ""));
    assert!(is_panel_kind(GROUP, "", "live-captions"));
    assert!(!is_panel_kind(GROUP, "captionregion", ""));
    assert!(!is_panel_kind(TEXT, "captions", "captions"));
    assert!(is_row_class("a chatmessagecompact__body b"));
    assert!(!is_row_class("ChatMessageCompact__body"));
    let needles = vec!["b".to_string(), "자막".to_string()];
    assert!(text_holds_any("라이브 자막", &needles) && text_holds_any("abc", &needles));
    assert!(!text_holds_any("ABC", &needles) && !text_holds_any("b", &vec![]));
    assert_eq!(name(&vec![]), None);
}

#[test]
fn the_last_row_is_held_back() {
    let mut t = CaptionTracker::new();
    assert!(t.needs_locate());
    assert_eq!(t.on_located(true), Located { note: true, announce: true });
    assert!(!t.needs_locate());
    assert!(t.on_scan(&vec![item("a")]).is_empty());
    let written: Vec<String> =
        t.on_scan(&vec![item("a"), item("b"), item("c")]).into_iter().map(|c| c.text).collect();
    assert_eq!(written, vec!["a", "b"]);
    assert!(t.on_scan(&vec![item("a"), item("b"), item("c")]).is_empty());
    assert_eq!(t.on_shutdown().map(|c| c.text), Some("c".to_string()));
    t.on_scan(&vec![item("c"), item("a")]);
    assert!(t.on_shutdown().is_none());
}

#[test]
fn no_caption_is_written_twice_within_the_ring() {
    let mut t = CaptionTracker::new();
    t.on_located(true);
    let many: Vec<CaptionItem> = (0..400).map(|i| item(&format!("{}", i))).collect();
    assert_eq!(t.on_scan(&many).len(), 399);
    assert_eq!(t.seen.len(), RECENT_CAPTION_RING);
    let recent = vec![item("398"), item("143"), item("end")];
    assert!(t.on_scan(&recent).is_empty());
    let forgotten = vec![item("142"), item("end")];
    assert_eq!(t.on_scan(&forgotten).len(), 1);
}

#[test]
fn a_panel_that_stays_empty_is_looked_for_anew() {
    let mut t = CaptionTracker::new();
    t.on_located(true);
    for _ in 1..STALE_AFTER_EMPTY_SCANS {
        t.on_scan(&vec![]);
        assert!(!t.needs_locate());
    }
    t.on_scan(&vec![]);
    assert!(t.needs_locate());
    assert_eq!(t.on_located(false), Located { note: false, announce: false });
    assert!(t.needs_locate());
    assert_eq!(t.on_located(true), Located { note: true, announce: false });
    t.on_scan_failed();
    assert!(t.needs_locate());
    assert_eq!(t.empty_scans, 0);
}

#[test]
fn a_caption_becomes_an_event() {
    let c = CaptionItem {
        speaker: Some("Ann".to_string()),
        text: "hi".to_string(),
        id: "7".to_string(),
    };
    match caption_event(12, "now".to_string(), c) {
        TimelineEvent::Caption { t_ms, wall, speaker, text, item_id } => {
            assert_eq!((t_ms, wall.as_str()), (12, "now"));
            assert_eq!(speaker.as_deref(), Some("Ann"));
            assert_eq!((text.as_str(), item_id.as_str()), ("hi", "7"));
        }
        other => panic!("{:?}", other),
    }
}

#[test]
fn the_diagnosis_of_captions_shows_what_is_read() {
    assert_eq!(
        diagnose(None, 3),
        Some(vec![
            "\n(NOT FOUND) caption container could not be located.".to_string(),
            "Open Teams, join a meeting, and ensure Live Captions is ON.".to_string(),
        ])
    );
    let panel = node("p", vec![row(&["Ann", "say \"hi\""])]);
    let lines = diagnose(Some(&panel), 0).unwrap();
    assert_eq!(
        lines,
        vec![
            "\n=== Caption container located ===",
            "  ct=0  loc=\"\"  name=\"p\"  aid=\"\"  class=\"\"",
            "\n=== Container subtree (depth 0) ===",
            "[0] name=\"p\" class=\"\" aid=\"\" loc=\"\"",
            "\n=== What current scan_captions() would extract ===",
            "(1 items)",
            "  [00] speaker=Some(\"Ann\") text=\"say \\\"hi\\\"\"",
        ]
    );
}

#[test]
fn a_long_caption_is_cut_in_the_diagnosis() {
    let long = "x".repeat(120);
    let lines = diagnose(Some(&node("p", vec![row(&[&long])])), 0).unwrap();
    let expected = format!("  [00] speaker=None text=\"{}…(len=120)\"", "x".repeat(100));
    assert_eq!(lines.last(), Some(&expected));
    let uneven = "한".repeat(40);
    assert_eq!(diagnose(Some(&node("p", vec![row(&[&uneven])])), 0), None);
}
