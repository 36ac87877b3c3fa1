use meeting_agent::timeline::event::{info_note, AudioKind, TimelineEvent};
use meeting_agent::timeline::render::{
    cleanup_action, collapse_caption_partials, event_lines, fmt_ts_full, journal_entry,
    normalize_for_compare, sort_by_time, Cleanup, EVENTS_FILE, NO_CAPTIONS,
    TRANSCRIPT_FILE,
};

use meeting_agent::timeline::summary::{finalise, NO_ENTRIES, SUMMARY_FILE, SUMMARY_TITLE};

fn transcript(events: Vec<TimelineEvent>) -> String {
    finalise(events).transcript
}

fn slide(t_ms: u64, presenter: Option<&str>, path: &str) -> TimelineEvent {
    TimelineEvent::Slide {
        t_ms,
        wall: "w".to_string(),
        path: path.to_string(),
        presenter: presenter.map(|s| s.to_string()),
        phash_distance: 9,
    }
}

fn caption(t_ms: u64, speaker: Option<&str>, text: &str) -> TimelineEvent {
    TimelineEvent::Caption {
        t_ms,
        wall: "w".to_string(),
        speaker: speaker.map(|s| s.to_string()),
        text: text.to_string(),
        item_id: "id".to_string(),
    }
}

fn stop(t_ms: u64, wall: &str) -> TimelineEvent {
    TimelineEvent::SessionStop { t_ms, wall: wall.to_string() }
}

fn normal(s: &str) -> String {
    normalize_for_compare(s).into_iter().collect()
}

#[test]
fn every_event_has_its_time() {
    let w = || "w".to_string();
    assert_eq!(TimelineEvent::SessionStart { t_ms: 1, wall: w(), note: None }.t_ms(), 1);
    assert_eq!(stop(2, "w").t_ms(), 2);
    assert_eq!(caption(3, None, "x").t_ms(), 3);
    assert_eq!(
        TimelineEvent::AudioSegment {
            t_ms: 4,
            wall: w(),
            path: w(),
            kind: AudioKind::Microphone,
            duration_ms: 9
        }
        .t_ms(),
        4
    );
    assert_eq!(
        TimelineEvent::Slide {
            t_ms: 5,
            wall: w(),
            path: w(),
            presenter: None,
            phash_distance: 9
        }
        .t_ms(),
        5
    );
    assert_eq!(TimelineEvent::ShareStart { t_ms: 6, wall: w(), presenter: None }.t_ms(), 6);
    assert_eq!(TimelineEvent::ShareStop { t_ms: 7, wall: w(), presenter: None }.t_ms(), 7);
    assert_eq!(info_note(8, w(), "m").t_ms(), 8);
}

#[test]
fn a_note_is_information() {
    match info_note(8, "now".to_string(), "microphone stopped") {
        TimelineEvent::Note { t_ms, wall, level, msg } => {
            assert_eq!((t_ms, wall.as_str()), (8, "now"));
            assert_eq!((level.as_str(), msg.as_str()), ("info", "microphone stopped"));
        }
        other => panic!("{:?}", other),
    }
}

#[test]
fn blank_lines_of_the_journal_are_skipped() {
    assert_eq!(event_lines("{\"a\":1}\n\n  \n{\"b\":2}\r\n"), vec!["{\"a\":1}", "{\"b\":2}"]);
    assert!(event_lines("").is_empty());
    assert_eq!(EVENTS_FILE, "events.jsonl");
    assert_eq!(TRANSCRIPT_FILE, "transcript.txt");
}

#[test]
fn what_was_written_to_the_journal_is_read_back() {
    let events = ["{\"type\":\"note\"}", "한 줄", "x"];
    let mut journal = String::new();
    for e in events {
        journal.push_str(&journal_entry(e));
    }
    assert_eq!(event_lines(&journal), events);
}

#[test]
fn events_of_one_time_keep_their_order() {
    let events = vec![stop(5, "a"), stop(3, "b"), stop(5, "c"), stop(0, "d"), stop(3, "e")];
    let walls: Vec<(u64, String)> = sort_by_time(events)
        .into_iter()
        .map(|e| match e {
            TimelineEvent::SessionStop { t_ms, wall } => (t_ms, wall),
            other => panic!("{:?}", other),
        })
        .collect();
    let expected: Vec<(u64, String)> = [(0, "d"), (3, "b"), (3, "e"), (5, "a"), (5, "c")]
        .iter()
        .map(|(t, w)| (*t, w.to_string()))
        .collect();
    assert_eq!(walls, expected);
}

#[test]
fn texts_are_compared_without_case_and_punctuation() {
    assert_eq!(normal("Yes, so so the BUL 1.0"), "yes so so the bul 10");
    assert_eq!(normal("  A \t B  "), "a b");
    assert_eq!(normal("!?"), "");
    assert_eq!(normal("안녕, 하세요."), "안녕 하세요");
    assert_eq!(normal("a - b"), "a b");
    assert_eq!(normal("İ"), "i\u{307}");
}

#[test]
fn growing_captions_become_one_line() {
    let events = vec![
        caption(100, Some("Ann"), "Yes so"),
        caption(200, Some("Ann"), "Yes so the"),
        caption(300, Some("Ann"), "Yes, so the BUL"),
        caption(400, Some("Ann"), "yes so"),
        caption(500, Some("Bob"), "Hm"),
        caption(600, Some("Ann"), "Yes"),
        caption(700, None, "Yes"),
    ];
    let lines: Vec<(u64, Option<String>, String)> = collapse_caption_partials(&events)
        .into_iter()
        .map(|c| (c.t_ms, c.speaker, c.text))
        .collect();
    assert_eq!(
        lines,
        vec![
            (100, Some("Ann".to_string()), "Yes, so the BUL".to_string()),
            (500, Some("Bob".to_string()), "Hm".to_string()),
            (600, Some("Ann".to_string()), "Yes".to_string()),
            (700, None, "Yes".to_string()),
        ]
    );
}

#[test]
fn no_line_is_a_partial_of_its_neighbour() {
    let words = ["go", "go on", "Go on!", "stop", "go", "sto", "stop it"];
    let events: Vec<TimelineEvent> =
        words.iter().enumerate().map(|(i, w)| caption(i as u64, Some("A"), w)).collect();
    let lines = collapse_caption_partials(&events);
    for pair in lines.windows(2) {
        let (a, b) = (normal(&pair[0].text), normal(&pair[1].text));
        assert!(!a.starts_with(&b) && !b.starts_with(&a));
    }
    for w in words {
        assert!(lines.iter().any(|l| normal(&l.text).starts_with(&normal(w))));
    }
    let times: Vec<u64> = lines.iter().map(|l| l.t_ms).collect();
    assert_eq!(times, vec![0, 3, 4, 5]);
}

#[test]
fn a_time_has_hours_minutes_seconds_and_thousandths() {
    assert_eq!(fmt_ts_full(0), "00:00:00.000");
    assert_eq!(fmt_ts_full(3_723_045), "01:02:03.045");
    assert_eq!(fmt_ts_full(360_000_000), "100:00:00.000");
}

#[test]
fn a_transcript_names_time_and_speaker() {
    let events = vec![
        caption(2_000, None, "later"),
        stop(9, "w"),
        caption(1_000, Some("Kim"), "먼저"),
    ];
    assert_eq!(transcript(events), "[00:00:01.000] Kim: 먼저\n[00:00:02.000] ?: later\n");
}

#[test]
fn a_summary_interleaves_captions_and_slides() {
    let events = vec![
        slide(2_500, Some("Kim"), "slides/2.png"),
        caption(3_000, Some("Ann"), "Yes so the"),
        slide(1_000, None, "slides/1.png"),
        caption(2_500, Some("Ann"), "Yes"),
        stop(1, "w"),
        caption(4_000, None, "bye"),
    ];
    assert_eq!(
        finalise(events).summary,
        "# Meeting summary\n\n\
         - [00:00:01.000] slide by unknown: ![slide](slides/1.png)\n\
         - [00:00:02.500] **Ann**: Yes so the\n\
         - [00:00:02.500] slide by Kim: ![slide](slides/2.png)\n\
         - [00:00:04.000] **?**: bye\n"
    );
    assert_eq!(
        finalise(vec![stop(1, "w")]).summary,
        format!("{}{}", SUMMARY_TITLE, NO_ENTRIES)
    );
    assert_eq!(SUMMARY_FILE, "summary.md");
}

#[test]
fn a_normalized_text_stays_as_it_is() {
    for s in ["", " a  B!c ", "Yes, so the BUL 1.0", "\t..x\r\n", "...", "a "] {
        let once = normal(s);
        assert_eq!(normal(&once), once);
        assert_eq!(normal(&s.to_ascii_uppercase()), once);
    }
    assert_eq!(normal(" a  B!c "), "a bc");
}

#[test]
fn a_transcript_without_captions_says_so() {
    assert_eq!(transcript(vec![stop(1, "w")]), NO_CAPTIONS);
    assert!(transcript(Vec::new()).starts_with("(no captions in this session"));
    assert!(NO_CAPTIONS.ends_with("see agent.log)\n"));
}

#[test]
fn a_complete_session_keeps_two_files() {
    assert_eq!(cleanup_action("meeting.mp4", Some(false)), Cleanup::Keep);
    assert_eq!(cleanup_action("transcript.txt", None), Cleanup::Keep);
    assert_eq!(cleanup_action("agent.log", Some(false)), Cleanup::RemoveFile);
    assert_eq!(cleanup_action("summary.md", Some(false)), Cleanup::RemoveFile);
    assert_eq!(cleanup_action("events.jsonl", Some(false)), Cleanup::RemoveFile);
    assert_eq!(cleanup_action("slides", Some(true)), Cleanup::RemoveDirectory);
    assert_eq!(cleanup_action("unknown", None), Cleanup::RemoveFile);
    assert_eq!(cleanup_action("Meeting.mp4", Some(false)), Cleanup::RemoveFile);
}
