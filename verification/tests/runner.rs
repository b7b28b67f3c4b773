//! Running a script.
use evp::nanos::{frame_interval, scale, MILLI, SECOND};
use evp::recording::{MouseState, RawFrame};
use evp::render_gif::{measure_cell_px, FontLengths};
use evp::runner::capture::{cursor_visible_at, BlinkState, CellReading, ScreenReading};
use evp::runner::keys::KITTY_WARNING;
use evp::runner::mouse::{find_mouse, place_along, MousePlace};
use evp::runner::options::pty_size;
use evp::runner::require::{enforce_require, is_literal_path};
use evp::runner::screen::{is_wait_pattern, matches_wait, read_screen_text};
use evp::runner::screenshot::{
    png_options, screenshot_kind, screenshot_recording, screenshot_text, svg_options,
    ScreenshotKind,
};
use evp::runner::session::{key_bytes, sleep_ms, tenths_due};
use evp::runner::timeline::gesture_duration;
use evp::runner::tracker::ScreenBuffer;
use evp::runner::way::count_cells;
use evp::runner::{
    apply_theme, build_timeline, capture, derive_options, format_kitty_flags,
    key_requires_kitty_extended, resolve_mouse_position, warn_if_kitty_extended_required, Action,
    CellMetrics, Consumer, Delivery, KittyFlags, MousePath, MouseSegment, Notice, Osc22Parser,
    RendererBackend, RunFacts, RunStats, Session, Step, TerminalReading, TerminalStateTracker,
};
use evp::script::{
    Event, KeyAction, KeySpec, ModSet, MouseAction, MouseButton, NamedKey, Script,
    ScrollDirection, Settings, WaitScope,
};
use evp::single::ONE;
use evp::style::{Theme, WindowBarStyle};
use evp::style_flags;
use evp::viewport::canvas_around;

fn no_paths(n: usize) -> Vec<MousePath> {
    (0..n).map(|_| MousePath { points: Vec::new() }).collect()
}

fn metrics() -> CellMetrics {
    CellMetrics { cell_width_px: 14, cell_height_px: 30, char_height_px: 29, ascent_px: 22 }
}

#[test]
fn default_settings_match_vhs_values() {
    let settings = Settings::default();

    assert_eq!(settings.font_size, 22 * ONE);
    assert_eq!(settings.width, None);
    assert_eq!(settings.height, None);
    assert_eq!(settings.padding, 60);
    assert_eq!(settings.framerate, 50);
}

#[test]
fn vhs_defaults_produce_expected_layout() {
    let settings = Settings::default();
    // JetBrains Mono at 22px, letterSpacing=1.0, lineHeight=1.0:
    //   char_advance = 13.2 → cell_w = round(13.2 + 1.0) = 14
    //   bbox_h (ascent - descent) = 29.04 → cell_h = ceil(29.04 * 1.0) = 30
    let metrics = measure_cell_px(
        132 * ONE / 10,
        FontLengths { ascent: 2244 * ONE / 100, descent: -66 * ONE / 10 },
        settings.line_height,
        settings.letter_spacing,
    );
    let opts = derive_options(&settings, &metrics);

    //   cols = floor(1080 / 14) = 77
    //   rows = floor(480  / 30) = 16
    assert_eq!(opts.cell_width_px, 14);
    assert_eq!(opts.cell_height_px, 30);
    assert_eq!(opts.cols, 77);
    assert_eq!(opts.rows, 16);
    assert_eq!(opts.frame_style.canvas_width_px, Some(1200));
    assert_eq!(opts.frame_style.canvas_height_px, Some(600));
}

#[test]
fn detects_kitty_dependent_key_events() {
    let plain_press = KeySpec { key: NamedKey::Enter, mods: ModSet::none() };
    assert!(!key_requires_kitty_extended(&plain_press, KeyAction::Press));

    let release = KeySpec { key: NamedKey::Char('k'), mods: ModSet::none() };
    assert!(key_requires_kitty_extended(&release, KeyAction::Release));

    let super_mod = KeySpec {
        key: NamedKey::Right,
        mods: ModSet { super_key: true, ..ModSet::none() },
    };
    assert!(key_requires_kitty_extended(&super_mod, KeyAction::Press));
}

#[test]
fn emits_warning_for_kitty_dependent_keys_when_kitty_disabled() {
    let spec = KeySpec {
        key: NamedKey::Right,
        mods: ModSet { super_key: true, ..ModSet::none() },
    };
    let warning =
        warn_if_kitty_extended_required(&spec, KeyAction::Press, KittyFlags { bits: 0 }).unwrap();
    assert!(
        warning.contains("key event likely requires kitty extended keyboard protocol"),
        "expected kitty warning to be emitted"
    );
    assert_eq!(warning, KITTY_WARNING);
    assert_eq!(
        warn_if_kitty_extended_required(&spec, KeyAction::Press, KittyFlags { bits: 1 }),
        None
    );
}

#[test]
fn type_preserves_gap_before_following_event() {
    let events = vec![
        Event::Type { text: "ab".to_string(), delay: 40 * MILLI },
        Event::Key {
            key: KeySpec { key: NamedKey::Enter, mods: ModSet::none() },
            action: KeyAction::Press,
            count: 1,
            delay: 0,
        },
    ];

    let (timeline, _, end) = build_timeline(&events, &no_paths(2), &Settings::default());
    assert_eq!(timeline.len(), 3);
    assert_eq!(timeline[0].at, 0);
    assert_eq!(timeline[1].at, 40 * MILLI);
    assert_eq!(timeline[2].at, 80 * MILLI);
    assert_eq!(end, 80 * MILLI);
}

#[test]
fn durations_scale_as_double_precision_does() {
    for ns in [0u64, 1, 7, 999_999_999, 40_000_000, 123_456_789, 60_000_000_001, 3_599_999_999_999] {
        for speed in [0.001f32, 0.01, 0.1, 0.333, 0.5, 1.0, 1.5, 2.0, 3.7, 10.0, 100.0] {
            let d = std::time::Duration::from_nanos(ns);
            let expected =
                std::time::Duration::from_secs_f64(d.as_secs_f64() / speed.max(0.01) as f64);
            let units = (speed as f64 * (1u128 << 64) as f64) as i128;
            assert_eq!(scale(ns as u128, units), expected.as_nanos(), "{ns} at {speed}");
        }
    }
}

#[test]
fn frames_last_as_long_as_double_precision_says() {
    for rate in [1u32, 2, 3, 7, 24, 25, 30, 33, 50, 60, 144, 1000] {
        let expected = std::time::Duration::from_secs_f64(1.0 / rate as f64);
        assert_eq!(frame_interval(rate), expected.as_nanos());
    }
    assert_eq!(frame_interval(50), 20 * MILLI);
}

#[test]
fn a_click_holds_the_button() {
    let mods = ModSet { ctrl: true, ..ModSet::none() };
    let events = vec![
        Event::Sleep(SECOND),
        Event::Click { col: 12, row: 5, mods, delay: 120 * MILLI },
        Event::RightClick { col: 1, row: 2, mods, delay: 10 * MILLI },
    ];
    let (timeline, segments, end) = build_timeline(&events, &no_paths(3), &Settings::default());
    assert_eq!(timeline.len(), 4);
    assert_eq!(timeline[0].at, SECOND);
    assert_eq!(timeline[1].at, SECOND + 120 * MILLI);
    assert!(matches!(
        timeline[0].event,
        Event::MouseInput {
            action: MouseAction::Press,
            button: Some(MouseButton::Left),
            col: 12,
            row: 5,
            pixel_coords: None,
            mods: ModSet { shift: false, alt: false, ctrl: true, super_key: false },
        }
    ));
    assert!(matches!(
        timeline[3].event,
        Event::MouseInput { action: MouseAction::Release, button: Some(MouseButton::Right), .. }
    ));
    assert_eq!(segments.len(), 2);
    assert_eq!(segments[0].start_time, SECOND);
    assert_eq!(segments[0].end_time, SECOND + 120 * MILLI);
    assert_eq!(segments[0].end_col, 12 * ONE);
    assert_eq!(segments[0].state, MouseState::Clicking);
    assert_eq!(end, SECOND + 130 * MILLI);
}

#[test]
fn a_double_click_presses_twice() {
    let events =
        vec![Event::DoubleClick { col: 3, row: 4, mods: ModSet::none(), delay: 10 * MILLI }];
    let (timeline, segments, end) = build_timeline(&events, &no_paths(1), &Settings::default());
    let times: Vec<u128> = timeline.iter().map(|s| s.at).collect();
    assert_eq!(times, vec![0, 10 * MILLI, 20 * MILLI, 30 * MILLI]);
    assert_eq!(segments.len(), 2);
    assert_eq!(segments[1].start_time, 10 * MILLI);
    assert_eq!(segments[1].end_time, 20 * MILLI);
    assert_eq!(end, 40 * MILLI);
}

#[test]
fn nothing_is_left_open_by_default() {
    let s = Settings::default();
    assert!(!s.mimic_vhs && s.cursor_blink);
    assert_eq!((s.margin, s.margin_fill), (0, [0, 0, 0]));
    assert_eq!((s.window_bar, s.window_bar_size, s.border_radius), (WindowBarStyle::Off, 30, 0));
    assert_eq!((s.window_bar_title, s.window_bar_font_family), (None, None));
    assert_eq!(s.window_bar_font_size, None);
    let t = s.theme;
    assert_eq!((t.foreground, t.background), ([0xdd; 3], [0x17; 3]));
    assert_eq!((t.cursor, t.cursor_accent, t.selection), ([0xdd; 3], None, None));
    assert_eq!(t.palette[0], [0x28, 0x2a, 0x2e]);
    assert_eq!(t.palette[15], [0xe6, 0xe6, 0xe6]);
}

#[test]
fn each_tenth_of_the_time_is_told_once() {
    let mut next = 10;
    let mut told = Vec::new();
    for now in [0, 9, 10, 19, 34, 34, 99, 100, 500] {
        let ahead = tenths_due(now * MILLI, 100 * MILLI, next);
        told.push((now, (next..ahead).step_by(10).collect::<Vec<u32>>()));
        next = ahead;
    }
    assert_eq!(
        told,
        vec![
            (0, vec![]),
            (9, vec![]),
            (10, vec![10]),
            (19, vec![]),
            (34, vec![20, 30]),
            (34, vec![]),
            (99, vec![40, 50, 60, 70, 80, 90]),
            (100, vec![100]),
            (500, vec![]),
        ]
    );
    assert_eq!(next, 110);
    assert_eq!(tenths_due(SECOND, 0, 10), 10);
}

#[test]
fn scripts_can_be_planned_one_after_the_other() {
    let first = vec![
        Event::Type { text: "ab".to_string(), delay: 40 * MILLI },
        Event::Sleep(SECOND),
        Event::Click { col: 2, row: 1, mods: ModSet::none(), delay: 10 * MILLI },
    ];
    let second = vec![
        Event::DoubleClick { col: 3, row: 4, mods: ModSet::none(), delay: 10 * MILLI },
        Event::Type { text: "c".to_string(), delay: 5 * MILLI },
    ];
    let s = Settings::default();
    let both: Vec<Event> = first.iter().chain(&second).cloned().collect();
    let (a, a_way, a_end) = build_timeline(&first, &no_paths(3), &s);
    let (b, b_way, b_end) = build_timeline(&second, &no_paths(2), &s);
    let (all, way, end) = build_timeline(&both, &no_paths(5), &s);
    assert_eq!((a_end, b_end, end), (1090 * MILLI, 45 * MILLI, 1135 * MILLI));
    assert_eq!(all.len(), a.len() + b.len());
    for (x, y) in all.iter().zip(&a) {
        assert_eq!((x.at, format!("{:?}", x.event)), (y.at, format!("{:?}", y.event)));
    }
    for (x, y) in all[a.len()..].iter().zip(&b) {
        assert_eq!((x.at, format!("{:?}", x.event)), (y.at + a_end, format!("{:?}", y.event)));
    }
    assert_eq!(way.len(), a_way.len() + b_way.len());
    for (x, y) in way[a_way.len()..].iter().zip(&b_way) {
        assert_eq!(x.start_time, y.start_time + a_end);
        assert_eq!(x.end_time, y.end_time + a_end);
        assert_eq!((x.start_col, x.end_row), (y.start_col, y.end_row));
    }
    let (none, no_way, at_once) = build_timeline(&Vec::new(), &no_paths(0), &s);
    assert!(none.is_empty() && no_way.is_empty());
    assert_eq!(at_once, 0);
}

#[test]
fn scrolling_turns_the_wheel() {
    let events = vec![
        Event::MouseScroll {
            col: 1,
            row: 1,
            direction: ScrollDirection::Up,
            mods: ModSet::none(),
            delay: 5 * MILLI,
        },
        Event::MouseScroll {
            col: 1,
            row: 1,
            direction: ScrollDirection::Down,
            mods: ModSet::none(),
            delay: 5 * MILLI,
        },
    ];
    let (timeline, segments, end) = build_timeline(&events, &no_paths(2), &Settings::default());
    assert!(matches!(
        timeline[0].event,
        Event::MouseInput { button: Some(MouseButton::WheelUp), action: MouseAction::Press, .. }
    ));
    assert!(matches!(
        timeline[3].event,
        Event::MouseInput { button: Some(MouseButton::WheelDown), action: MouseAction::Release, .. }
    ));
    assert!(segments.is_empty());
    assert_eq!(end, 10 * MILLI);
}

#[test]
fn keys_repeat_with_their_delay() {
    let key = KeySpec { key: NamedKey::Down, mods: ModSet::none() };
    let events = vec![
        Event::Key { key, action: KeyAction::Press, count: 3, delay: 10 * MILLI },
        Event::Key { key, action: KeyAction::Press, count: 0, delay: 10 * MILLI },
        Event::Hide,
    ];
    let (timeline, _, end) = build_timeline(&events, &no_paths(3), &Settings::default());
    let times: Vec<u128> = timeline.iter().map(|s| s.at).collect();
    assert_eq!(times, vec![0, 10 * MILLI, 20 * MILLI, 20 * MILLI, 20 * MILLI]);
    assert_eq!(end, 20 * MILLI);
}

#[test]
fn a_drag_follows_its_way() {
    let points: Vec<(i128, i128)> = vec![(0, 0), (ONE / 4, 0), (ONE, 0), (2 * ONE, ONE)];
    let paths = vec![MousePath { points: points.clone() }];
    let events = vec![Event::MouseDrag {
        coords: vec![(0, 0), (2, 1)],
        mods: ModSet::none(),
        delay: 300 * MILLI,
        easing: None,
    }];
    let (timeline, segments, end) = build_timeline(&events, &paths, &Settings::default());
    // Pressed at the start, one motion for each new cell, released after the delay.
    let times: Vec<u128> = timeline.iter().map(|s| s.at).collect();
    assert_eq!(times, vec![0, 200 * MILLI, 300 * MILLI, 600 * MILLI]);
    assert!(matches!(
        timeline[2].event,
        Event::MouseInput { action: MouseAction::Motion, col: 2, row: 1, .. }
    ));
    assert_eq!(segments.len(), 4);
    assert_eq!(segments[1].start_time, 100 * MILLI);
    assert_eq!(segments[1].end_time, 200 * MILLI);
    assert_eq!(segments[3].state, MouseState::Clicking);
    assert_eq!(end, 600 * MILLI);
}

#[test]
fn ways_are_measured_as_single_precision_does() {
    let ways: Vec<Vec<(u16, u16)>> = vec![
        vec![],
        vec![(3, 4)],
        vec![(0, 0), (3, 4)],
        vec![(5, 5), (5, 5)],
        vec![(0, 0), (1, 1)],
        vec![(24, 8), (12, 5), (90, 61), (7, 44)],
        vec![(0, 0), (65535, 65535), (1, 0), (65535, 3)],
        (0..300u16).map(|i| (i * 7 % 80, i * 13 % 24)).collect(),
    ];
    for coords in ways {
        let total: f32 = coords
            .windows(2)
            .map(|w| {
                ((w[1].0 as f32 - w[0].0 as f32).powi(2) + (w[1].1 as f32 - w[0].1 as f32).powi(2))
                    .sqrt()
            })
            .sum();
        assert_eq!(count_cells(&coords), total.ceil().max(1.0) as u32, "{coords:?}");
    }
    assert_eq!(count_cells(&vec![(0, 0), (3, 4)]), 5);
}

#[test]
fn a_move_at_typing_speed_takes_its_time_for_each_cell() {
    let settings = Settings::default();
    let paths = vec![MousePath { points: vec![(0, 0), (3 * ONE, 0)] }];
    let events = vec![Event::MouseMove {
        coords: vec![(0, 0), (3, 0)],
        mods: ModSet::none(),
        delay: settings.typing_speed,
        easing: None,
    }];
    let (timeline, segments, end) = build_timeline(&events, &paths, &settings);
    assert_eq!(end, 150 * MILLI);
    assert_eq!(gesture_duration(settings.typing_speed, &settings, 3), 150 * MILLI);
    assert_eq!(gesture_duration(7 * MILLI, &settings, 3), 7 * MILLI);
    assert_eq!(timeline.len(), 2);
    assert!(matches!(
        timeline[0].event,
        Event::MouseInput { action: MouseAction::Motion, button: None, col: 0, row: 0, .. }
    ));
    assert_eq!(segments.len(), 1);
    assert_eq!(segments[0].state, MouseState::Moving);
}

fn segment(start: u128, end: u128, a: i128, b: i128) -> MouseSegment {
    MouseSegment {
        start_time: start,
        end_time: end,
        start_col: a,
        start_row: 0,
        end_col: b,
        end_row: ONE,
        state: MouseState::Dragging,
        easing: None,
    }
}

#[test]
fn the_mouse_is_where_its_segments_say() {
    let v = vec![segment(10 * SECOND, 11 * SECOND, 0, 4 * ONE)];
    assert_eq!(resolve_mouse_position(6 * SECOND, &v), None);
    assert_eq!(resolve_mouse_position(7 * SECOND, &v), Some((0, 0, MouseState::Moving)));
    assert_eq!(
        resolve_mouse_position(10 * SECOND + 500 * MILLI, &v),
        Some((2 * ONE, ONE / 2, MouseState::Dragging))
    );
    assert_eq!(
        resolve_mouse_position(14 * SECOND, &v),
        Some((4 * ONE, ONE, MouseState::Moving))
    );
    assert_eq!(resolve_mouse_position(14 * SECOND + 1, &v), None);
    assert_eq!(resolve_mouse_position(0, &Vec::new()), None);
}

#[test]
fn the_mouse_moves_as_single_precision_does() {
    for (start, end, a, b) in [(0u64, 333u64, 3.0f32, 19.0f32), (100, 1700, 17.25, 2.5)] {
        let v = vec![segment(
            start as u128 * MILLI,
            end as u128 * MILLI,
            (a as f64 * 2f64.powi(64)) as i128,
            (b as f64 * 2f64.powi(64)) as i128,
        )];
        for t in start..=end {
            let d = std::time::Duration::from_millis(end - start);
            let e = std::time::Duration::from_millis(t - start);
            let f = (e.as_secs_f32() / d.as_secs_f32()).clamp(0.0, 1.0);
            let col = a + f * (b - a);
            let expected = (col as f64 * 2f64.powi(64)) as i128;
            let (got, _, _) = resolve_mouse_position(t as u128 * MILLI, &v).unwrap();
            assert_eq!(got, expected, "at {t}");
        }
    }
}

#[test]
fn an_eased_segment_is_placed_by_its_easing() {
    let v = vec![segment(0, SECOND, 0, 8 * ONE)];
    match find_mouse(SECOND / 4, &v) {
        MousePlace::Along { segment, fraction } => {
            assert_eq!(segment, 0);
            assert_eq!(fraction, ONE / 4);
            let (col, _, _) = place_along(&v[segment], ONE / 2);
            assert_eq!(col, 4 * ONE);
        }
        _ => panic!("the mouse is underway"),
    }
    assert!(matches!(find_mouse(9 * SECOND, &v), MousePlace::Hidden));
}

#[test]
fn shapes_are_found_in_the_output() {
    let mut parser = Osc22Parser::new();
    let mut shapes = Vec::new();
    for b in b"abc\x1b]22;pointer\x07def\x1b]22;text\x1b\\\x1b]23;no\x07\x9d22;a\x1bb\x07" {
        if let Some(s) = parser.feed(*b) {
            shapes.push(s);
        }
    }
    assert_eq!(shapes, vec!["pointer", "text", "a\u{1b}b"]);
}

#[test]
fn a_single_byte_opens_an_announcement_too() {
    for (open, close) in [("\u{1b}]", "\u{7}"), ("\u{1b}]", "\u{1b}\\"), ("", "\u{7}"), ("", "\u{1b}\\")] {
        let mut parser = Osc22Parser::new();
        if open.is_empty() {
            assert_eq!(parser.feed(0x9d), None);
        }
        let rest = format!("{open}22;wait{close}");
        let found: Vec<String> = rest.bytes().filter_map(|b| parser.feed(b)).collect();
        assert_eq!(found, vec!["wait"]);
    }
}

#[test]
fn shapes_that_are_not_text_are_dropped() {
    let mut parser = Osc22Parser::new();
    for b in b"\x1b]22;\xff\xfe" {
        assert_eq!(parser.feed(*b), None);
    }
    assert_eq!(parser.feed(0x07), None);
    for b in "\u{1b}]22;é".as_bytes() {
        assert_eq!(parser.feed(*b), None);
    }
    assert_eq!(parser.feed(0x07), Some("é".to_string()));
}

#[test]
fn kitty_flags_have_names() {
    assert_eq!(format_kitty_flags(KittyFlags { bits: 0 }), "disabled");
    assert_eq!(format_kitty_flags(KittyFlags { bits: 1 }), "DISAMBIGUATE");
    assert_eq!(format_kitty_flags(KittyFlags { bits: 5 }), "DISAMBIGUATE+REPORT_ALTERNATES");
    assert_eq!(
        format_kitty_flags(KittyFlags { bits: 31 }),
        "DISAMBIGUATE+REPORT_EVENTS+REPORT_ALTERNATES+REPORT_ALL+REPORT_ASSOCIATED"
    );
    assert_eq!(format_kitty_flags(KittyFlags { bits: 32 }), "UNKNOWN");
}

fn reading() -> TerminalReading {
    TerminalReading {
        x10_mouse: false,
        normal_mouse: false,
        button_mouse: false,
        any_mouse: false,
        sgr_pixels_mouse: false,
        sgr_mouse: false,
        urxvt_mouse: false,
        utf8_mouse: false,
        kitty_flags: Some(KittyFlags { bits: 0 }),
        title: Some("sh".to_string()),
        screen: Some(ScreenBuffer::Primary),
        bracketed_paste: false,
        cursor_visible: Some(true),
    }
}

#[test]
fn changes_are_told_once() {
    let mut tracker = TerminalStateTracker::new();
    assert!(tracker.update_and_log(&reading()).is_empty());
    let mut r = reading();
    r.any_mouse = true;
    r.sgr_mouse = true;
    r.kitty_flags = Some(KittyFlags { bits: 3 });
    r.title = Some("vim".to_string());
    r.screen = Some(ScreenBuffer::Alternate);
    r.bracketed_paste = true;
    r.cursor_visible = Some(false);
    let notices = tracker.update_and_log(&r);
    assert_eq!(notices.len(), 6);
    assert!(matches!(&notices[0], Notice::MouseCapture(s)
        if s == "Click+Drag+Move+Scroll (SGR Coords) events"));
    assert!(matches!(&notices[1], Notice::KittyEnabled(s) if s == "DISAMBIGUATE+REPORT_EVENTS"));
    assert!(matches!(&notices[2], Notice::Title(s) if s == "vim"));
    assert!(matches!(notices[3], Notice::Screen(ScreenBuffer::Alternate)));
    assert!(matches!(notices[4], Notice::BracketedPaste(true)));
    assert!(matches!(notices[5], Notice::CursorVisible(false)));
    assert!(tracker.update_and_log(&r).is_empty());
    let back = tracker.update_and_log(&reading());
    assert!(matches!(&back[0], Notice::MouseCapture(s) if s == "disabled"));
    assert!(matches!(back[1], Notice::KittyDisabled));
}

#[test]
fn a_first_mouse_mode_is_told() {
    let mut tracker = TerminalStateTracker::new();
    let mut r = reading();
    r.x10_mouse = true;
    let notices = tracker.update_and_log(&r);
    assert_eq!(notices.len(), 1);
    assert!(matches!(&notices[0], Notice::MouseCapture(s) if s == "Click (X10) events"));
}

fn cell_reading(text: &str) -> CellReading {
    CellReading {
        text: text.to_string(),
        fg: None,
        bg: Some([1, 2, 3]),
        bold: true,
        italic: false,
        inverse: false,
        strikethrough: false,
        faint: true,
        underline: true,
    }
}

fn screen_reading() -> ScreenReading {
    ScreenReading {
        rows: vec![vec![cell_reading("a"), cell_reading("b"), cell_reading("c")]],
        foreground: [9, 9, 9],
        background: [0, 0, 0],
        cursor_color: None,
        cursor_visible: true,
        cursor_viewport: Some((1, 0)),
        title: Some("t".to_string()),
    }
}

#[test]
fn frames_hold_what_the_terminal_shows() {
    let mut blink = BlinkState { last_cursor_moved_at: None, prev_cursor_pos: None };
    let (f, pos) = capture(&screen_reading(), 1_234_567_890, 2, 2, true, &mut blink, Some([7; 3]));
    assert_eq!(pos, Some((1, 0)));
    assert_eq!(f.t_ms, 1234);
    assert_eq!(f.cells.len(), 4);
    assert_eq!(f.cells[1].text, "b");
    assert_eq!(f.cells[1].fg, [9, 9, 9]);
    assert_eq!(f.cells[1].bg, [1, 2, 3]);
    assert_eq!(
        f.cells[1].flags,
        style_flags::BOLD | style_flags::DIM | style_flags::UNDERLINE
    );
    assert_eq!(f.cells[2].text, "");
    assert_eq!(f.cells[3].bg, [0, 0, 0]);
    assert_eq!(f.cursor, Some((1, 0)));
    assert_eq!(f.cursor_accent, Some([7; 3]));
    assert_eq!(f.title.as_deref(), Some("t"));
    assert_eq!(blink.last_cursor_moved_at, Some(1_234_567_890));
}

#[test]
fn the_cursor_blinks_once_it_rests() {
    let s = screen_reading();
    let mut blink = BlinkState { last_cursor_moved_at: None, prev_cursor_pos: None };
    let mut shown = |ms: u128, blinks: bool| {
        capture(&s, ms * MILLI, 2, 1, blinks, &mut blink, None).0.cursor.is_some()
    };
    assert!(shown(0, true));
    assert!(shown(299, true));
    assert!(shown(300, true));
    assert!(shown(599, true));
    assert!(!shown(600, true));
    assert!(!shown(899, true));
    assert!(shown(900, true));
    assert!(shown(700, false));
    assert!(cursor_visible_at(0));
    assert!(!cursor_visible_at(300 * MILLI));
    assert!(cursor_visible_at(600 * MILLI));
}

fn grid(lines: &[&str]) -> Vec<Vec<Vec<char>>> {
    lines
        .iter()
        .map(|l| l.chars().map(|c| if c == '_' { Vec::new() } else { vec![c] }).collect())
        .collect()
}

#[test]
fn the_screen_is_read_line_by_line() {
    let g = grid(&["ab__", "c_d_", "____"]);
    assert_eq!(read_screen_text(&g, WaitScope::Screen), "ab\nc d\n\n");
    assert_eq!(read_screen_text(&g, WaitScope::Line), "c d");
    assert_eq!(read_screen_text(&Vec::new(), WaitScope::Line), "");
}

#[test]
fn waits_look_for_their_pattern() {
    let g = grid(&["make", "ready>", "____"]);
    assert!(matches_wait(&g, WaitScope::Screen, "ma.e"));
    assert!(!matches_wait(&g, WaitScope::Line, "ma.e"));
    assert!(matches_wait(&g, WaitScope::Line, "^ready>$"));
    assert!(!matches_wait(&g, WaitScope::Line, "foo(bar"));
    assert!(is_wait_pattern("ready"));
    assert!(!is_wait_pattern("foo(bar"));
}

#[test]
fn themes_are_told_in_escape_sequences() {
    let mut theme = Theme::default();
    theme.palette[3] = [0x0a, 0xff, 0x00];
    theme.background = [1, 2, 3];
    let v = apply_theme(&theme);
    assert_eq!(v.len(), 19);
    assert_eq!(v[3], "\x1b]4;3;rgb:0a/ff/00\x1b\\");
    assert!(v[16].starts_with("\x1b]10;rgb:"));
    assert_eq!(v[17], "\x1b]11;rgb:01/02/03\x1b\\");
    theme.selection = Some([0xaa, 0xbb, 0xcc]);
    assert_eq!(apply_theme(&theme)[19], "\x1b]17;rgb:aa/bb/cc\x1b\\");
}

#[test]
fn missing_programs_are_all_named() {
    let names = vec!["vim".to_string(), "fd".to_string(), "rg".to_string()];
    assert_eq!(enforce_require(&names, &vec![true, true, true]), Ok(()));
    assert_eq!(
        enforce_require(&names, &vec![true, false, false]),
        Err("the following `Require`d program(s) were not found on $PATH: fd, rg. Install them \
             or remove the `Require` directive(s) from the tape."
            .to_string())
    );
    assert_eq!(enforce_require(&Vec::new(), &Vec::new()), Ok(()));
    assert!(is_literal_path(&"./a".chars().collect(), &vec!['/']));
    assert!(!is_literal_path(&"a".chars().collect(), &vec!['/']));
}

fn frame(texts: &[&str], cols: u16, rows: u16) -> RawFrame {
    let (f, _) = capture(
        &ScreenReading {
            rows: texts
                .chunks(cols as usize)
                .map(|r| r.iter().map(|t| cell_reading(t)).collect())
                .collect(),
            foreground: [9, 9, 9],
            background: [0, 0, 0],
            cursor_color: None,
            cursor_visible: false,
            cursor_viewport: None,
            title: None,
        },
        5 * SECOND,
        cols,
        rows,
        false,
        &mut BlinkState { last_cursor_moved_at: None, prev_cursor_pos: None },
        None,
    );
    f
}

#[test]
fn screenshots_as_text_keep_the_columns() {
    let f = frame(&["a", "", "b", "", "漢", "", "c", "", "", "", "", ""], 4, 3);
    assert_eq!(screenshot_text(&f), "a b\n漢c\n\n");
}

#[test]
fn screenshots_are_told_by_their_extension() {
    assert_eq!(screenshot_kind("png"), Ok(ScreenshotKind::Png));
    assert_eq!(screenshot_kind("PNG"), Ok(ScreenshotKind::Png));
    assert_eq!(screenshot_kind("svg"), Ok(ScreenshotKind::Svg));
    assert_eq!(screenshot_kind("svgz"), Ok(ScreenshotKind::Svgz));
    assert_eq!(screenshot_kind("json"), Ok(ScreenshotKind::Json));
    assert_eq!(screenshot_kind("txt"), Ok(ScreenshotKind::Text));
    assert_eq!(screenshot_kind("ascii"), Ok(ScreenshotKind::Text));
    assert_eq!(screenshot_kind("bmp"), Err("Unsupported screenshot extension: bmp".to_string()));
}

#[test]
fn screenshots_follow_the_settings() {
    let mut s = Settings::default();
    s.window_bar_title = Some("demo".to_string());
    s.padding = 7;
    let png = png_options(&s);
    assert_eq!(png.frame_style.padding_px, 7);
    assert_eq!(png.window_bar_title.as_deref(), Some("demo"));
    assert!(!png.no_system_fonts);
    let svg = svg_options(&s);
    assert!(svg.is_screenshot);
    assert_eq!(svg.font_size, 22 * ONE);
    let rec = screenshot_recording(frame(&["a"], 1, 1), &derive_options(&s, &metrics()), 50);
    assert_eq!(rec.cols, 1);
    assert_eq!(rec.frames.len(), 1);
    assert_eq!(rec.frames[0].as_ref().unwrap().t_ms, 0);
}

#[test]
fn events_and_frames_come_in_order() {
    let mut s = Session::new(100 * MILLI, 20 * MILLI);
    assert_eq!(s.next_step(Some(0), 0), Step::Dispatch);
    s.note_event(false, 0);
    assert_eq!(s.next_step(Some(10 * MILLI), 30 * MILLI), Step::Frame);
    assert_eq!(s.recorded_at(), Some(0));
    let none: Vec<Delivery> = Vec::new();
    assert!(s.finish_frame(&none).is_empty());
    assert_eq!(s.next_step(Some(10 * MILLI), 30 * MILLI), Step::Dispatch);
    assert_eq!(s.next_step(Some(40 * MILLI), 30 * MILLI), Step::Frame);
    s.finish_frame(&none);
    assert_eq!(s.next_step(Some(40 * MILLI), 30 * MILLI), Step::Rest);
    assert_eq!(s.next_deadline(Some(35 * MILLI), 30 * MILLI), 35 * MILLI);
    assert_eq!(s.next_deadline(Some(45 * MILLI), 30 * MILLI), 40 * MILLI);
    assert!(!s.is_over(1));
    while !s.is_over(1) {
        s.finish_frame(&none);
    }
    // Frames at 0, 20, .. 180 ms.
    assert_eq!(s.stats(0).expected_frames, 10);
    assert_eq!(sleep_ms(5 * SECOND, 0), 1000);
    assert_eq!(sleep_ms(1_500_000, 0), 1);
    assert_eq!(sleep_ms(0, 5), 0);
}

#[test]
fn a_wait_holds_events_back_and_lengthens_the_run() {
    let grid = derive_options(&Settings::default(), &metrics());
    let mut s = Session::new(0, 20 * MILLI);
    let wait = Event::Wait {
        scope: WaitScope::Screen,
        timeout: SECOND,
        pattern: "ready".to_string(),
    };
    assert!(matches!(s.execute_event(&wait, 50 * MILLI, &grid), Ok(Action::Rest)));
    assert!(s.next_step(Some(0), 60 * MILLI) == Step::Frame);
    s.resolve_wait(60 * MILLI, false);
    assert!(s.wait.is_some());
    assert_eq!(s.next_deadline(None, 3 * SECOND), 3 * SECOND);
    s.resolve_wait(70 * MILLI, true);
    assert!(s.wait.is_none());
    assert_eq!(s.total_duration, 100 * MILLI);
    let again = s.execute_event(&wait, 100 * MILLI, &grid);
    assert!(again.is_ok());
    s.resolve_wait(1100 * MILLI, false);
    assert_eq!(s.total_duration, 1100 * MILLI);
    let bad = Event::Wait {
        scope: WaitScope::Screen,
        timeout: SECOND,
        pattern: "foo(bar".to_string(),
    };
    assert_eq!(
        s.execute_event(&bad, 0, &grid).unwrap_err(),
        "invalid Wait regex `foo(bar`"
    );
}

#[test]
fn hidden_time_is_left_out() {
    let grid = derive_options(&Settings::default(), &metrics());
    let mut s = Session::new(SECOND, 20 * MILLI);
    s.execute_event(&Event::Hide, 0, &grid).unwrap();
    s.note_event(false, 10 * MILLI);
    assert_eq!(s.recorded_at(), None);
    let none: Vec<Delivery> = Vec::new();
    for _ in 0..10 {
        s.finish_frame(&none);
    }
    assert_eq!(s.stats(0).captured_frames, 0);
    s.execute_event(&Event::Screenshot("a.png".to_string()), 0, &grid).unwrap();
    assert_eq!(s.recorded_at(), Some(200 * MILLI));
    assert_eq!(s.finish_frame(&none), vec!["a.png"]);
    assert_eq!(s.stats(0).captured_frames, 0);
    s.execute_event(&Event::Show, 0, &grid).unwrap();
    s.note_event(true, 110 * MILLI);
    assert_eq!(s.recorded_at(), Some(120 * MILLI));
    let full = vec![
        Delivery { queue_len: 3, full: false },
        Delivery { queue_len: 8, full: true },
    ];
    s.finish_frame(&full);
    let stats = s.stats(2);
    assert_eq!(stats.captured_frames, 1);
    assert_eq!(stats.max_raw_frame_consumer_queue_len, 8);
    assert_eq!(stats.raw_frame_consumer_dropped_frames, 1);
    assert_eq!(stats.missed_capture_fraction(), (0, 1));
    assert_eq!(stats.dropped_consumer_fraction(), (1, 2));
    assert_eq!(RunStats::default().dropped_consumer_fraction(), (0, 1));
}

#[test]
fn events_send_what_they_say() {
    let grid = derive_options(&Settings::default(), &metrics());
    let mut s = Session::new(0, 20 * MILLI);
    let typed = s.execute_event(&Event::Type { text: "x".to_string(), delay: 0 }, 0, &grid);
    assert!(matches!(typed, Ok(Action::Write(t)) if t == "x"));
    s.execute_event(&Event::Copy("clip".to_string()), 0, &grid).unwrap();
    let pasted = s.execute_event(&Event::Paste, 0, &grid);
    assert!(matches!(pasted, Ok(Action::Write(t)) if t == "clip"));
    let mouse = Event::MouseInput {
        action: MouseAction::Motion,
        button: None,
        col: 2,
        row: 1,
        pixel_coords: None,
        mods: ModSet::none(),
    };
    match s.execute_event(&mouse, 0, &grid) {
        Ok(Action::Mouse(m)) => {
            assert_eq!(m.x, 35 * ONE);
            assert_eq!(m.y, 45 * ONE);
            assert!(!m.any_pressed);
            assert_eq!(m.screen_width, 77 * 14);
        }
        _ => panic!("a report of the mouse"),
    }
    assert_eq!(key_bytes(vec![1, 2], NamedKey::Space), vec![1, 2]);
    assert_eq!(key_bytes(Vec::new(), NamedKey::Space), vec![0x20]);
    assert!(key_bytes(Vec::new(), NamedKey::Enter).is_empty());
}

fn script(require: &[&str]) -> Script {
    Script {
        settings: Settings::default(),
        require: require.iter().map(|s| s.to_string()).collect(),
        env: Vec::new(),
        events: vec![Event::Sleep(SECOND), Event::Show],
    }
}

fn facts(found: &[bool]) -> RunFacts {
    RunFacts { found: found.to_vec(), metrics: metrics(), paths: no_paths(2) }
}

#[test]
fn runs_are_planned_for_their_consumers() {
    let p = evp::run(&script(&["sh"]), &facts(&[true])).unwrap();
    assert!(p.consumers.is_empty());
    assert_eq!(p.viewport.cols, 77);
    assert_eq!(p.pty.px_w, 77 * 14);
    assert_eq!(p.theme.len(), 19);
    assert_eq!(p.timeline.len(), 1);
    assert_eq!(p.timeline[0].at, SECOND);
    assert_eq!(p.session.total_duration, SECOND + 80 * MILLI);
    assert_eq!(p.expected, SECOND);
    let kept = evp::run_and_return_recording(&script(&[]), &facts(&[])).unwrap();
    assert_eq!(kept.consumers, vec![Consumer::FullRecording { keyframe_interval: 250 }]);
    let gif = evp::run_and_render_gif(&script(&[]), &facts(&[])).unwrap();
    assert_eq!(gif.consumers, vec![Consumer::Renderer(RendererBackend::Gif)]);
    let svg = evp::run_and_render_svg(&script(&[]), &facts(&[])).unwrap();
    assert_eq!(svg.consumers, vec![Consumer::Renderer(RendererBackend::Svg)]);
    let json = evp::run_and_render_json(&script(&[]), &facts(&[])).unwrap();
    assert_eq!(json.consumers, vec![Consumer::Renderer(RendererBackend::Json)]);
    let both = vec![RendererBackend::Gif, RendererBackend::Svg];
    let two = evp::run_and_render(&script(&[]), &facts(&[]), &both).unwrap();
    assert_eq!(two.consumers.len(), 2);
    let e = evp::run(&script(&["sh", "zz"]), &facts(&[true, false])).unwrap_err();
    assert!(e.contains("not found on $PATH: zz."));
}

#[test]
fn columns_that_are_set_are_kept() {
    let mut s = Settings::default();
    s.cols = Some(80);
    s.rows = Some(24);
    let opts = derive_options(&s, &metrics());
    assert_eq!((opts.cols, opts.rows), (80, 24));
    assert_eq!(opts.frame_style.canvas_width_px, None);
    assert_eq!(pty_size(&opts).px_h, 24 * 30);
    s.cols = None;
    s.width = Some(10);
    assert_eq!(derive_options(&s, &metrics()).cols, 2);
}

#[test]
fn a_canvas_holds_its_grid() {
    let mut cfg = derive_options(&Settings::default(), &metrics());
    let l = canvas_around(&cfg, cfg.cols, cfg.rows).unwrap();
    assert_eq!((l.canvas_w, l.canvas_h), (1200, 600));
    assert_eq!((l.content_x, l.content_y), (60, 60));
    cfg.frame_style.canvas_width_px = None;
    cfg.frame_style.canvas_height_px = None;
    cfg.frame_style.margin_px = 7;
    cfg.frame_style.window_bar = WindowBarStyle::Left;
    cfg.frame_style.window_bar_size_px = 40;
    let l = canvas_around(&cfg, 10, 4).unwrap();
    assert_eq!((l.frame_x, l.frame_y), (7, 7));
    assert_eq!((l.frame_w, l.frame_h), (140 + 120, 120 + 120 + 40));
    assert_eq!((l.canvas_w, l.canvas_h), (l.frame_w + 14, l.frame_h + 14));
    assert_eq!((l.content_x, l.content_y, l.bar_h), (67, 107, 40));
    cfg.cell_width_px = u32::MAX;
    assert!(canvas_around(&cfg, 10, 4).is_none());
    cfg.frame_style.canvas_width_px = Some(10);
    assert_eq!(canvas_around(&cfg, 10, 4).unwrap().frame_w, 0);
}
