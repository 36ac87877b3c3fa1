use meeting_agent::gui::popup::EventSwitch;
use meeting_agent::screen::phash::{ahash64, hamming};
use meeting_agent::screen::share_target::{
    controls_share, detect_share_mode, diagnose, has_share_title_words, mode_in,
    monitor_fallback, most_recent_non_teams_window,
    pick, share_hits, telling_elements, Foreground, KnownProcesses, MonitorInfo, Screens,
    ShareMode, ShareTarget, VisibleWindow,
};
use meeting_agent::screen::wgc::{
    ends_capture, first_extent, frame_step, pack_rows, resize_window, CapturedFrame, Extent,
    FrameStep, UNSUPPORTED,
};
use meeting_agent::screen::{
    describe_source, fit_frame, fitted_size, open_handle, sanitize_filename, scale_bgra_nearest, Handle,
    ScreenWorker, ShareChange, Source, Want, SHARE_POLL_EVERY_TICKS,
};
use meeting_agent::state::presenter::ShareState;
use meeting_agent::state::{TeamsWindow, WindowTree};
use meeting_agent::timeline::event::TimelineEvent;
use meeting_agent::uia::UiElement;

fn node(name: &str, help: &str, children: Vec<UiElement>) -> UiElement {
    UiElement {
        key: 0,
        name: name.to_string(),
        class_name: "Group".to_string(),
        automation_id: String::new(),
        help_text: help.to_string(),
        localized_type: String::new(),
        control_type: 50026,
        offscreen: false,
        children,
    }
}

fn window(hwnd: isize, title: Option<&str>, tree: Result<UiElement, String>) -> WindowTree {
    WindowTree {
        window: TeamsWindow { hwnd, pid: 4, title: title.map(|t| t.to_string()) },
        tree,
    }
}

fn share(presenter: &str) -> Option<ShareState> {
    Some(ShareState { presenter: Some(presenter.to_string()) })
}

/// The hash of a picture, computed in floating point.
fn float_hash(bgra: &[u8], width: u32, height: u32) -> u64 {
    let mut samples = [0u32; 64];
    let bx = width as f32 / 8.0;
    let by = height as f32 / 8.0;
    for gy in 0..8usize {
        for gx in 0..8usize {
            let cx = ((gx as f32 + 0.5) * bx) as u32;
            let cy = ((gy as f32 + 0.5) * by) as u32;
            let i = ((cy.min(height - 1) * width + cx.min(width - 1)) * 4) as usize;
            let (b, g, r) = (bgra[i] as u32, bgra[i + 1] as u32, bgra[i + 2] as u32);
            samples[gy * 8 + gx] = (2126 * r + 7152 * g + 722 * b) / 10000;
        }
    }
    let mean = samples.iter().sum::<u32>() / 64;
    samples.iter().enumerate().fold(0, |h, (i, s)| if *s > mean { h | 1u64 << i } else { h })
}

#[test]
fn hamming_counts_differing_bits() {
    assert_eq!(hamming(0, u64::MAX), 64);
    assert_eq!(hamming(0b1011, 0b0010), 2);
    assert_eq!(hamming(1 << 63, 0), 1);
    for (a, b) in [(7u64, 9u64), (u64::MAX, 1), (0x1234_5678_9abc_def0, 42)] {
        assert_eq!(hamming(a, b), (a ^ b).count_ones());
    }
}

#[test]
fn hamming_is_a_distance() {
    let values = [0u64, 1, 6, 0xff00, u64::MAX, 1 << 40];
    for a in values {
        assert_eq!(hamming(a, a), 0);
        for b in values {
            assert_eq!(hamming(a, b), hamming(b, a));
            for c in values {
                assert!(hamming(a, c) <= hamming(a, b) + hamming(b, c));
            }
        }
    }
}

#[test]
fn a_hash_marks_the_bright_points() {
    let (w, h) = (16u32, 8u32);
    let mut bgra = vec![0u8; (w * h * 4) as usize];
    for y in 0..4 {
        for x in 0..w {
            let i = ((y * w + x) * 4) as usize;
            bgra[i] = 255;
            bgra[i + 1] = 255;
            bgra[i + 2] = 255;
        }
    }
    assert_eq!(ahash64(&bgra, w, h), 0xffff_ffff);
    assert_eq!(ahash64(&vec![9u8; 16 * 8 * 4], w, h), 0);
}

#[test]
fn a_hash_is_the_same_as_in_floating_point() {
    for (w, h) in [(1u32, 1u32), (7, 3), (8, 8), (13, 29), (100, 37), (1920, 1)] {
        let bgra: Vec<u8> = (0..w * h * 4).map(|i| (i * i % 253) as u8).collect();
        assert_eq!(ahash64(&bgra, w, h), float_hash(&bgra, w, h));
    }
}

#[test]
fn an_incomplete_picture_has_the_hash_zero() {
    assert_eq!(ahash64(&[], 0, 0), 0);
    assert_eq!(ahash64(&[255; 400], 0, 10), 0);
    assert_eq!(ahash64(&[255; 399], 10, 10), 0);
}

#[test]
fn a_picture_is_scaled_by_its_nearest_pixels() {
    let px = |v: u8| vec![v, v + 1, v + 2, v + 3];
    let src: Vec<u8> = [px(0), px(10), px(20), px(30)].concat();
    assert_eq!(scale_bgra_nearest(&src, 2, 2, 1, 1), px(0));
    assert_eq!(scale_bgra_nearest(&src, 4, 1, 2, 1), [px(0), px(20)].concat());
    assert_eq!(
        scale_bgra_nearest(&src, 2, 2, 4, 2),
        [px(0), px(0), px(10), px(10), px(20), px(20), px(30), px(30)].concat()
    );
    assert_eq!(scale_bgra_nearest(&src, 0, 2, 2, 1), vec![0; 8]);
    assert!(scale_bgra_nearest(&src, 2, 2, 0, 5).is_empty());
}

#[test]
fn a_picture_of_the_same_size_is_unchanged() {
    let src: Vec<u8> = (0..5 * 3 * 4).collect();
    assert_eq!(scale_bgra_nearest(&src, 5, 3, 5, 3), src);
    let frame = || CapturedFrame { bgra: (0..60).collect(), width: 5, height: 3 };
    assert_eq!(fit_frame(frame(), 5, 3), src);
    assert_eq!(fit_frame(frame(), 1, 1), vec![0, 1, 2, 3]);
}

#[test]
fn a_picture_of_another_shape_gets_bars() {
    assert_eq!(fitted_size(1080, 1080, 1920, 1080), (1080, 1080));
    assert_eq!(fitted_size(640, 360, 1920, 1080), (1920, 1080));
    assert_eq!(fitted_size(1920, 1200, 1920, 1080), (1728, 1080));
    assert_eq!(fitted_size(2000, 500, 1920, 1080), (1920, 480));
    assert_eq!(fitted_size(5000, 1, 100, 100), (100, 1));
    assert_eq!(fitted_size(0, 7, 100, 50), (100, 50));
    let px = |v: u8| vec![v, v + 1, v + 2, v + 3];
    let bar = || vec![0u8; 4];
    let square = CapturedFrame {
        bgra: [px(10), px(20), px(30), px(40)].concat(),
        width: 2,
        height: 2,
    };
    assert_eq!(
        fit_frame(square, 4, 2),
        [bar(), px(10), px(20), bar(), bar(), px(30), px(40), bar()].concat()
    );
    let wide = CapturedFrame { bgra: [px(10), px(20)].concat(), width: 2, height: 1 };
    assert_eq!(
        fit_frame(wide, 2, 3),
        [bar(), bar(), px(10), px(20), bar(), bar()].concat()
    );
    let same_shape = CapturedFrame { bgra: [px(10), px(20)].concat(), width: 2, height: 1 };
    assert_eq!(
        fit_frame(same_shape, 4, 2),
        [px(10), px(10), px(20), px(20), px(10), px(10), px(20), px(20)].concat()
    );
    let nothing = CapturedFrame { bgra: vec![], width: 0, height: 3 };
    assert_eq!(fit_frame(nothing, 2, 1), vec![0; 8]);
    let point = CapturedFrame { bgra: vec![], width: 0, height: 0 };
    assert!(fit_frame(point, 0, 5).is_empty());
}

#[test]
fn a_larger_picture_fills_the_video() {
    let px = |v: u8| vec![v, v + 1, v + 2, v + 3];
    let square = || CapturedFrame {
        bgra: [px(10), px(20), px(30), px(40)].concat(),
        width: 2,
        height: 2,
    };
    assert_eq!(fit_frame(square(), 2, 1), [px(10), px(20)].concat());
    assert_eq!(fit_frame(square(), 1, 2), [px(10), px(30)].concat());
    assert_eq!(
        fit_frame(square(), 1, 3),
        [px(10), px(10), px(30)].concat()
    );
    assert!(fit_frame(square(), 0, 3).is_empty());
}

#[test]
fn rows_are_packed() {
    let data: Vec<u8> = (0..30).collect();
    let frame = pack_rows(&data, 12, 2, 2);
    assert_eq!(frame.bgra, vec![0, 1, 2, 3, 4, 5, 6, 7, 12, 13, 14, 15, 16, 17, 18, 19]);
    assert_eq!((frame.width, frame.height), (2, 2));
    assert!(pack_rows(&[], 12, 2, 0).bgra.is_empty());
}

#[test]
fn a_frame_of_another_size_is_skipped() {
    let pool = Extent { width: 640, height: 480 };
    let larger = Extent { width: 1920, height: 1080 };
    assert_eq!(frame_step(pool, Some(pool)), FrameStep::Take);
    assert_eq!(frame_step(pool, None), FrameStep::Take);
    assert_eq!(frame_step(pool, Some(larger)), FrameStep::Resize(larger));
    assert_eq!(first_extent(None), Extent { width: 1280, height: 720 });
    assert_eq!(first_extent(Some(pool)), pool);
    assert!(ends_capture(UNSUPPORTED));
    assert!(!ends_capture(0));
    let told = resize_window(&EventSwitch { on: true }, pool, larger).unwrap();
    assert_eq!(told.body, "640×480 → 1920×1080 로 캡처 해상도가 자동 조정됩니다.");
    assert!(resize_window(&EventSwitch { on: false }, pool, larger).is_none());
}

#[test]
fn a_source_is_named() {
    assert_eq!(describe_source(Source::Teams), format!("video source: {:?}", Source::Teams));
    for target in [ShareTarget::Window(-5), ShareTarget::Monitor(65537)] {
        let s = Source::Shared(target);
        assert_eq!(describe_source(s), format!("video source: {:?}", s));
    }
    assert_eq!(open_handle(Source::Teams, 3), Handle::Window(3));
    assert_eq!(open_handle(Source::Shared(ShareTarget::Window(4)), 3), Handle::Window(4));
    assert_eq!(open_handle(Source::Shared(ShareTarget::Monitor(5)), 3), Handle::Monitor(5));
}

#[test]
fn a_share_is_reported_once() {
    let mut w = ScreenWorker::new(share("Ann"));
    match w.share_change() {
        Some(ShareChange::Started { presenter }) => assert_eq!(presenter.as_deref(), Some("Ann")),
        other => panic!("{:?}", other),
    }
    assert!(w.share_change().is_none());
    w.on_share_polled(share("Bob"));
    assert!(w.share_change().is_none());
    w.on_share_polled(None);
    match w.share_change() {
        Some(ShareChange::Stopped { presenter }) => assert_eq!(presenter.as_deref(), Some("Bob")),
        other => panic!("{:?}", other),
    }
    assert!(w.share_change().is_none());
}

#[test]
fn a_change_of_share_becomes_an_event() {
    let start = ShareChange::Started { presenter: Some("Ann".to_string()) };
    assert!(matches!(
        start.event(5, "w".to_string()),
        TimelineEvent::ShareStart { t_ms: 5, presenter: Some(p), .. } if p == "Ann"
    ));
    let stop = ShareChange::Stopped { presenter: None };
    assert!(matches!(
        stop.event(6, "w".to_string()),
        TimelineEvent::ShareStop { t_ms: 6, presenter: None, .. }
    ));
}

#[test]
fn reports_of_shares_alternate() {
    let mut w = ScreenWorker::new(None);
    let mut running = false;
    for i in 0..60 {
        w.on_share_polled(if i % 7 < 3 || i % 4 == 0 { share("x") } else { None });
        match w.share_change() {
            Some(ShareChange::Started { .. }) => {
                assert!(!running);
                running = true;
            }
            Some(ShareChange::Stopped { .. }) => {
                assert!(running);
                running = false;
            }
            None => {}
        }
        assert_eq!(running, w.now_share.is_some());
    }
}

#[test]
fn shares_are_polled_every_fifteenth_tick() {
    let mut w = ScreenWorker::new(None);
    let polled: Vec<u32> = (1..=45).filter(|_| w.next_tick()).collect();
    assert_eq!(polled, vec![15, 30, 45]);
    w.tick = u32::MAX;
    assert!(w.next_tick());
    assert_eq!(w.tick, 0);
    assert_eq!(SHARE_POLL_EVERY_TICKS, 15);
}

#[test]
fn what_the_user_shares_is_kept() {
    let mut w = ScreenWorker::new(share("Ann"));
    assert_eq!(w.want(), Want::Stay);
    w.on_share_polled(share("(me)"));
    assert_eq!(w.want(), Want::PickTarget);
    let target = Source::Shared(ShareTarget::Window(9));
    assert!(w.on_switched(target, false));
    assert_eq!(w.source, Source::Teams);
    assert!(!w.on_switched(target, true));
    assert_eq!(w.source, target);
    for _ in 0..5 {
        w.on_share_polled(share("(me)"));
        assert_eq!(w.want(), Want::Stay);
    }
    w.on_share_polled(None);
    assert_eq!(w.want(), Want::Teams);
    w.on_switched(Source::Teams, true);
    assert_eq!(w.want(), Want::Stay);
}

#[test]
fn the_mode_of_a_share_is_read() {
    let told = |name: &str| {
        detect_share_mode(&vec![
            window(1, None, Err("gone".to_string())),
            window(2, None, Ok(node("quiet", "", vec![node(name, "", vec![])]))),
        ])
    };
    assert_eq!(told("창을 공유하고 있습니다"), Some(ShareMode::Window));
    assert_eq!(told("화면을 공유하고 있습니다"), Some(ShareMode::Screen));
    assert_eq!(told("You're Sharing a window"), Some(ShareMode::Window));
    assert_eq!(told("sharing this window"), Some(ShareMode::Window));
    assert_eq!(told("You are sharing your screen"), Some(ShareMode::Screen));
    assert_eq!(told("sharing screen"), Some(ShareMode::Screen));
    assert_eq!(told("idle"), None);
}

fn known() -> KnownProcesses {
    KnownProcesses { meeting: 4, teams: vec![5, 6], own: 7 }
}

fn visible() -> Vec<VisibleWindow> {
    [(1, 6, "Teams"), (2, 9, "  "), (3, 7, "Agent"), (4, 9, "Slides"), (5, 8, "Mail")]
        .iter()
        .map(|(h, p, t)| VisibleWindow { hwnd: *h, pid: *p, title: t.to_string() })
        .collect()
}

#[test]
fn the_users_last_window_is_the_topmost_one() {
    assert_eq!(most_recent_non_teams_window(&visible(), &known()), Some(4));
    assert_eq!(most_recent_non_teams_window(&vec![], &known()), None);
}

#[test]
fn a_screen_is_found_in_three_ways() {
    let all = Screens { of_foreground: Some(1), of_cursor: Some(2), primary: 3 };
    assert_eq!(monitor_fallback(&all), ShareTarget::Monitor(1));
    let cursor = Screens { of_foreground: None, ..all };
    assert_eq!(monitor_fallback(&cursor), ShareTarget::Monitor(2));
    let primary = Screens { of_foreground: None, of_cursor: None, primary: 3 };
    assert_eq!(monitor_fallback(&primary), ShareTarget::Monitor(3));
}

#[test]
fn only_the_users_windows_are_recorded() {
    let screens = Screens { of_foreground: Some(100), of_cursor: None, primary: 300 };
    let work = Some(Foreground { hwnd: 50, pid: 9 });
    let teams = Some(Foreground { hwnd: 51, pid: 5 });
    let pick = |mode, fg| pick(mode, fg, &known(), &visible(), &screens);
    let window = Some(ShareMode::Window);
    let screen = Some(ShareMode::Screen);
    assert_eq!(pick(window, work), ShareTarget::Window(50));
    assert_eq!(pick(window, teams), ShareTarget::Window(4));
    assert_eq!(pick(window, None), ShareTarget::Window(4));
    assert_eq!(pick(screen, work), ShareTarget::Monitor(100));
    assert_eq!(pick(None, work), ShareTarget::Window(50));
    assert_eq!(pick(None, teams), ShareTarget::Monitor(100));
    assert_eq!(pick(None, None), ShareTarget::Monitor(100));
    for own in [4u32, 6, 7] {
        let fg = Some(Foreground { hwnd: 51, pid: own });
        assert_eq!(pick(None, fg), ShareTarget::Monitor(100));
    }
}

#[test]
fn without_a_window_the_screen_is_recorded() {
    let screens = Screens { of_foreground: None, of_cursor: Some(2), primary: 3 };
    let target = pick(Some(ShareMode::Window), None, &known(), &vec![], &screens);
    assert_eq!(target, ShareTarget::Monitor(2));
}

#[test]
fn a_share_can_be_diagnosed() {
    let bar = node("", "", vec![node("Stop", "you're SHARING", vec![])]);
    assert_eq!(share_hits(&bar, 5).len(), 1);
    assert_eq!(telling_elements(&bar, 5).len(), 1);
    assert!(controls_share(&Some("공유 컨트롤 막대".to_string())));
    assert!(controls_share(&Some("Screen SHARE".to_string())));
    assert!(!controls_share(&None));
    assert!(has_share_title_words("a share") && has_share_title_words("공유"));
    assert!(!has_share_title_words("SHARE"));
    assert_eq!(mode_in("창을 공유, 화면을 공유"), Some(ShareMode::Window));
    assert_eq!(mode_in("화면을 공유, sharing a window"), Some(ShareMode::Screen));
    assert_eq!(mode_in("sharing your screen"), Some(ShareMode::Screen));
    assert_eq!(mode_in("Sharing your screen"), None);
    let windows = vec![
        window(16, Some("Share bar"), Ok(bar)),
        window(17, None, Err("gone".to_string())),
        window(18, None, Ok(node("x", "", vec![]))),
    ];
    let seen = vec![VisibleWindow { hwnd: 255, pid: 3, title: "Mail".to_string() }];
    let monitors = vec![MonitorInfo { hmon: 1, left: -10, top: 0, right: 1910, bottom: 1080 }];
    assert_eq!(
        diagnose(&windows, &seen, &monitors, 5),
        vec![
            "\n=== Teams windows (3) ===",
            "  #0 pid=4 hwnd=0x10 title=Some(\"Share bar\")",
            "  #1 pid=4 hwnd=0x11 title=None",
            "  #2 pid=4 hwnd=0x12 title=None",
            "\n=== Window #0 (hwnd=0x10) — share-marker hits (Name + HelpText) ===",
            "  HIT depth=1 ct=50026 loc=\"\" name=\"Stop\" aid=\"\" class=\"Group\" help=\"you're SHARING\"",
            "\n=== FULL DESCENDANT DUMP of share-control window #0 (hwnd=0x10) ===",
            "  d1 ct=50026 loc=\"\" name=\"Stop\" aid=\"\" class=\"Group\" help=\"you're SHARING\"",
            "\n=== Window #1 (hwnd=0x11) — ElementFromHandle failed: gone ===",
            "\n=== Window #2 (hwnd=0x12) — share-marker hits (Name + HelpText) ===",
            "  (no element with share-related name/helptext in this window)",
            "\n=== Top-level visible windows (for window-title matching reference) ===",
            "  hwnd=0xff pid=3 title=\"Mail\"",
            "\n=== Monitors (for screen-index matching reference) ===",
            "  display#1 hmon=0x1 rect=(-10, 0, 1910, 1080)",
        ]
    );
}

#[test]
fn a_name_can_be_part_of_a_file_name() {
    assert_eq!(sanitize_filename("Kim, Ann/한글"), "Kim__Ann_한글");
    assert_eq!(sanitize_filename(&"ab".repeat(30)).chars().count(), 40);
    assert_eq!(sanitize_filename(""), "");
}
