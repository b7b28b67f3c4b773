//! Whole documents.
use std::io::Read;

use flate2::read::GzDecoder;

use evp::error::RenderError;
use evp::recording::{CellSnap, MouseState, RawFrame, Recording};
use evp::render_svg::{
    file_bytes, is_svgz, metrics_exist, render_svg_frame_to_string, render_svg_to_string,
    shown_chars, AnimatedProperty, BuildInfo, ColorClasses, EmbedPlan, FontBook, FontData, FontUse,
    RenderInput, StyleAnimation, SvgOptions,
};
use evp::single::ONE;
use evp::style::{FrameStyle, WindowBarStyle};
use evp::text::{escape_attr, escape_text};
use evp::style_flags::{BOLD, ITALIC, STRIKETHROUGH, UNDERLINE};
use evp::viewport::canvas_around;

fn cell(text: &str) -> CellSnap {
    CellSnap { text: text.to_string(), fg: [255, 255, 255], bg: [0, 0, 0], flags: 0 }
}

fn synth_recording() -> Recording {
    let blank = CellSnap::blank([255, 255, 255], [0, 0, 0]);
    let mut cells = vec![blank; 8];
    cells[0] = cell("h");
    cells[1] = cell("i");
    Recording {
        cols: 4,
        rows: 2,
        framerate: 10,
        cell_width_px: 8,
        cell_height_px: 16,
        font_size_px: 16 * ONE,
        char_height_px: 19,
        ascent_px: 15,
        letter_spacing: ONE,
        frame_style: FrameStyle {
            canvas_width_px: None,
            canvas_height_px: None,
            padding_px: 4,
            margin_px: 0,
            margin_fill: [0, 0, 0],
            window_bar: WindowBarStyle::Off,
            window_bar_size_px: 30,
            border_radius_px: 0,
        },
        frames: vec![Some(RawFrame {
            t_ms: 0,
            cols: 4,
            rows: 2,
            cursor: Some((2, 0)),
            default_fg: [255, 255, 255],
            default_bg: [0, 0, 0],
            cursor_color: None,
            cursor_accent: None,
            mouse_cursor: None,
            title: None,
            cells,
        })],
    }
}

fn set_cell(rec: &mut Recording, i: usize, text: &str) {
    rec.frames[0].as_mut().unwrap().cells[i] = cell(text);
}

fn font(family: &str, data: &[u8]) -> FontData {
    FontData {
        family_name: family.to_string(),
        weight: "normal".to_string(),
        style: "normal".to_string(),
        woff2: None,
        ttf: data.to_vec(),
        plan: EmbedPlan::Subset(data.to_vec()),
    }
}

/// The fonts that the characters of a recording are found in.
fn book(rec: &Recording) -> FontBook {
    let frames: Vec<RawFrame> = rec.frames.iter().flatten().cloned().collect();
    let uses = shown_chars(&frames)
        .into_iter()
        .map(|(_, c)| {
            let font = match c {
                'あ' => 1,
                '🚀' => 2,
                _ => 0,
            };
            FontUse { c, font, has_glyph: c != '\u{10FFFF}' }
        })
        .collect();
    FontBook {
        uses,
        fonts: vec![
            font("JetBrainsMono Nerd Font Mono", &[1, 2, 3]),
            font("Noto Sans Mono CJK JP", &[4, 5, 6, 7]),
            font("Noto Emoji", &[8, 9]),
        ],
        primary: None,
    }
}

fn input(rec: &Recording, opts: SvgOptions) -> RenderInput {
    RenderInput {
        cfg: rec.viewport(),
        layout: canvas_around(&rec.viewport(), rec.cols, rec.rows).unwrap(),
        opts,
        book: book(rec),
        build: BuildInfo { version: "0.19.0".to_string(), revision: "unknown".to_string() },
        render_time_ms: 7,
    }
}

fn render(rec: Recording, opts: SvgOptions) -> Result<String, RenderError> {
    let i = input(&rec, opts);
    render_svg_to_string(rec, &i)
}

#[test]
fn renders_well_formed_svg() {
    let rec = synth_recording();
    let svg = render(rec, SvgOptions::default()).unwrap();
    assert!(svg.starts_with("<?xml"));
    assert!(svg.contains("<svg"));
    assert!(svg.ends_with("</svg>\n"));
    // Text content present (now includes trailing newline).
    assert!(svg.contains(">h\n<") || svg.contains(">hi\n<"));
    // Master timer.
    assert!(svg.contains(r#"id="t""#));
}

#[test]
fn explicit_canvas_size_controls_svg_dimensions() {
    let mut rec = synth_recording();
    rec.frame_style.canvas_width_px = Some(1200);
    rec.frame_style.canvas_height_px = Some(600);
    let i = input(&rec, SvgOptions::default());
    let svg = render_svg_to_string(rec, &i).unwrap();
    assert!(svg.contains(
        r#"<svg xmlns="http://www.w3.org/2000/svg" viewBox="0 0 1200 600" width="1200" height="600""#
    ));
    assert!(svg.contains(r#"<rect width="1200" height="600""#));
}

#[test]
fn escapes_xml_special_chars() {
    assert_eq!(escape_text("<&>"), "&lt;&amp;&gt;");
    assert_eq!(escape_attr("\"<&>'"), "&quot;&lt;&amp;&gt;&apos;");
}

#[test]
fn test_font_subset_on_checked_in_cjk_subset() {
    let mut rec = synth_recording();
    // Insert a CJK character to trigger the Noto Sans Mono CJK JP fallback font.
    set_cell(&mut rec, 2, "あ");

    let result = render(rec, SvgOptions::default());
    assert!(
        result.is_ok(),
        "Rendering SVG with CJK characters should succeed via the checked-in subset"
    );
    let svg = result.unwrap();
    assert!(svg.contains("font-family: 'Noto Sans Mono CJK JP'"));
    assert!(svg.contains("url(data:font/woff2;base64,"));
    assert!(!svg.contains(
        "Font subsetting failed for 'Noto Sans Mono CJK JP'; embedding the full font data in this SVG."
    ));
}

#[test]
fn test_noto_emoji_is_embedded_when_used() {
    let mut rec = synth_recording();
    set_cell(&mut rec, 2, "🚀");

    let svg = render(rec, SvgOptions::default()).unwrap();
    assert!(svg.contains("font-family: 'Noto Emoji'"));
}

#[test]
fn test_no_system_fonts_validation() {
    let mut rec = synth_recording();
    let mut opts = SvgOptions::default();
    opts.no_system_fonts = true;
    let result = render(rec.clone(), opts.clone());
    assert!(result.is_ok());
    let svg = result.unwrap();
    assert!(!svg.contains("ui-monospace"));
    assert!(!svg.contains("Menlo"));

    set_cell(&mut rec, 2, "\u{10FFFF}");
    let result_failed = render(rec, opts);
    assert!(result_failed.is_err());
    let err_msg = result_failed.unwrap_err().message();
    assert!(err_msg.contains("Glyph not found in embedded fonts for character"));
}

#[test]
fn unused_fonts_are_not_embedded() {
    let svg = render(synth_recording(), SvgOptions::default()).unwrap();
    assert!(svg.contains("@font-face { font-family: 'JetBrainsMono Nerd Font Mono'; src: url(data:font/woff2;base64,AQID) format('woff2')"));
    assert!(!svg.contains("@font-face { font-family: 'Noto Emoji'"));
}

#[test]
fn missing_frames_are_named() {
    let mut rec = synth_recording();
    rec.frames.push(None);
    let i = input(&synth_recording(), SvgOptions::default());
    let e = render_svg_to_string(rec, &i).unwrap_err();
    assert_eq!(e, RenderError::FrameMissing(1));
    assert_eq!(e.message(), "failed to reconstruct frame 1");
}

#[test]
fn an_empty_recording_is_an_empty_document() {
    let mut rec = synth_recording();
    rec.frames.clear();
    let svg = render(rec, SvgOptions::default()).unwrap();
    assert!(svg.starts_with("<?xml"));
    assert!(svg.contains("<svg"));
    assert!(!svg.contains("<text"));
}

#[test]
fn a_screenshot_has_no_animation() {
    let rec = synth_recording();
    let mut opts = SvgOptions::default();
    opts.is_screenshot = true;
    let i = input(&rec, opts);
    let mut frame = rec.frames[0].clone().unwrap();
    frame.t_ms = 500;
    let svg = render_svg_frame_to_string(frame, &i).unwrap();
    assert!(svg.contains(">hi\n<"));
    assert!(!svg.contains("<set"));
}

/// Two frames that differ in everything that can move.
fn moving_recording() -> Recording {
    let mut rec = synth_recording();
    let first = rec.frames[0].as_mut().unwrap();
    first.cells[4] = cell("│");
    first.cells[5].bg = [200, 0, 0];
    first.mouse_cursor = Some((ONE, ONE, MouseState::Moving));
    let mut second = first.clone();
    second.t_ms = 700;
    second.cells.rotate_right(4);
    second.cells[6].flags = UNDERLINE;
    second.cells[6].text = "u".to_string();
    second.cells[4].fg = [9, 8, 7];
    second.cursor = Some((3, 1));
    second.mouse_cursor = Some((2 * ONE, ONE, MouseState::Clicking));
    rec.frames.push(Some(second));
    rec
}

#[test]
fn a_screenshot_of_changing_frames_has_no_animation() {
    let moving = render(moving_recording(), SvgOptions::default()).unwrap();
    for tag in ["<animate ", "<animateTransform ", "<set "] {
        assert!(moving.contains(tag), "{tag}");
    }
    let mut opts = SvgOptions::default();
    opts.is_screenshot = true;
    let still = render(moving_recording(), opts).unwrap();
    for word in ["<animate", "<set", "t.begin", "visibility"] {
        assert!(!still.contains(word), "{word}");
    }
    for shown in [
        ">hi\n<",
        ">u\n<",
        "fill=\"#c80000\"",
        "<path ",
        "<rect x=\"20\" y=\"4\"",
        "<rect x=\"28\" y=\"20\"",
        "<g transform=\"translate(16,28)\">",
        "<g transform=\"translate(24,28)\">",
        "<g transform=\"scale(0.82)\"><polygon",
    ] {
        assert!(still.contains(shown), "{shown}");
    }
}

#[test]
fn the_master_timer_repeats_for_ever() {
    let svg = render(moving_recording(), SvgOptions::default()).unwrap();
    assert!(svg.contains(
        r#"<animate id="t" attributeName="x" from="0" to="0" dur="0.8" repeatCount="indefinite" repeatDur="0.8" begin="0s;t.end"/>"#
    ));
    assert_eq!(svg.matches("id=\"t\"").count(), 1);
    assert_eq!(svg.matches("repeatCount").count(), 1);
}

#[test]
fn the_arrow_is_compressed_while_a_button_is_pressed() {
    let svg = render(moving_recording(), SvgOptions::default()).unwrap();
    assert!(svg.contains(r#"<g transform="scale(1)">"#));
    assert!(svg.contains(r#"<animateTransform attributeName="transform" type="scale" calcMode="discrete" values="1;0.82" keyTimes="0;0.875" dur="0.8" begin="t.begin""#));
    let with = |state| {
        let mut rec = synth_recording();
        rec.frames[0].as_mut().unwrap().mouse_cursor = Some((ONE, ONE, state));
        render(rec, SvgOptions::default()).unwrap()
    };
    assert!(with(MouseState::Clicking).contains(r#"<g transform="scale(0.82)"><polygon"#));
    for state in [MouseState::Moving, MouseState::Dragging] {
        assert!(with(state).contains("<polygon"));
        assert!(!with(state).contains("scale("));
    }
}

#[test]
fn underlined_text_has_a_line_at_its_baseline() {
    let mut rec = synth_recording();
    let plain = render(rec.clone(), SvgOptions::default()).unwrap();
    assert!(!plain.contains("height=\"1\""));
    let cells = &mut rec.frames[0].as_mut().unwrap().cells;
    cells[1].flags = UNDERLINE;
    cells[1].fg = [10, 20, 30];
    let svg = render(rec.clone(), SvgOptions::default()).unwrap();
    assert!(svg.contains(r##"<rect x="12" y="19" width="8" height="1" fill="#0a141e"/>"##));
    assert_eq!(svg.matches("height=\"1\"").count(), 1);
    let cells = &mut rec.frames[0].as_mut().unwrap().cells;
    cells[0].flags = UNDERLINE;
    cells[0].fg = [10, 20, 30];
    let svg = render(rec, SvgOptions::default()).unwrap();
    assert!(svg.contains(r##"<rect x="4" y="19" width="16" height="1" fill="#0a141e"/>"##));
    assert!(!svg.contains("underline"));
    let later = render(moving_recording(), SvgOptions::default()).unwrap();
    assert!(!later.contains("underline"));
    let line = r##"<rect x="20" y="35" width="8" height="1" fill="#ffffff" class="h">"##;
    let from = later.find(line).unwrap() + line.len();
    assert!(later[from..].starts_with("<set attributeName=\"visibility\" to=\"visible\" begin=\"t.begin+0.7\" end=\"t.end\"/>"));
}

#[test]
fn struck_text_has_a_class_whether_or_not_it_is_underlined() {
    for flags in [STRIKETHROUGH, STRIKETHROUGH | UNDERLINE] {
        let mut rec = synth_recording();
        rec.frames[0].as_mut().unwrap().cells[0].flags = flags;
        let svg = render(rec, SvgOptions::default()).unwrap();
        assert!(svg.contains(" class=\"s\">h"));
        assert!(svg.contains(".s { text-decoration: line-through; }"));
        assert_eq!(svg.contains("height=\"1\""), flags & UNDERLINE != 0);
    }
}

#[test]
fn a_line_under_text_is_no_decoration() {
    let a = StyleAnimation {
        begin_ms: 0,
        dur_ms: 1000,
        property: AnimatedProperty::TextDecoration(vec![
            (0, (true, false)),
            (250, (true, true)),
            (500, (false, true)),
            (750, (false, false)),
        ]),
    };
    let svg = a.to_svg_string(&ColorClasses::new(), false);
    assert!(svg.contains("attributeName=\"text-decoration\""));
    assert!(svg.contains("values=\"none;line-through;line-through;none\""));
}

#[test]
fn bold_and_italic_text_says_so() {
    let mut rec = synth_recording();
    assert!(!render(rec.clone(), SvgOptions::default()).unwrap().contains("=\"bold\""));
    let cells = &mut rec.frames[0].as_mut().unwrap().cells;
    cells[0].flags = BOLD;
    cells[1].flags = BOLD | ITALIC;
    let svg = render(rec, SvgOptions::default()).unwrap();
    assert!(svg.contains(r#" font-weight="bold" class="b">h"#));
    assert!(svg.contains(r#" font-weight="bold" font-style="italic" class="b i">i"#));
}

#[test]
fn characters_are_listed_with_their_styles() {
    let rec = moving_recording();
    let frames: Vec<RawFrame> = rec.frames.into_iter().flatten().collect();
    let shown: Vec<(u8, char)> = shown_chars(&frames);
    let first = [(0, 'h'), (0, 'i'), (0, '│')];
    assert_eq!(&shown[..3], &first);
    assert_eq!(&shown[3..], &[(0, '│'), (0, 'h'), (0, 'i'), (UNDERLINE, 'u')]);
}

#[test]
fn lengths_exist_for_fonts_within_bounds() {
    let mut cfg = synth_recording().viewport();
    assert!(metrics_exist(16 * ONE, &cfg));
    assert!(metrics_exist(16 * 100 * ONE, &cfg));
    assert!(!metrics_exist(-ONE, &cfg));
    assert!(!metrics_exist(0, &cfg));
    cfg.letter_spacing = 5000 * ONE;
    assert!(metrics_exist(16 * ONE, &cfg));
    cfg.char_height_px = 0;
    assert!(!metrics_exist(16 * ONE, &cfg));
}

#[test]
fn a_character_that_appears_later_is_shown_later() {
    let mut rec = synth_recording();
    let mut second = rec.frames[0].clone().unwrap();
    second.t_ms = 100;
    second.cells[4] = cell("z");
    rec.frames.push(Some(second));
    let svg = render(rec, SvgOptions::default()).unwrap();
    assert!(svg.contains(">z\n<"));
    assert!(svg.contains("t.begin+0.1"));
}

#[test]
fn svgz_is_told_by_its_extension() {
    assert!(is_svgz("svgz"));
    assert!(is_svgz("SVGZ"));
    assert!(!is_svgz("svg"));
    assert!(!is_svgz(""));
}

#[test]
fn test_render_svg_and_svgz() {
    let svg = render(synth_recording(), SvgOptions::default()).unwrap();
    let svg_bytes = file_bytes(&svg, "svg").unwrap();
    let svgz_bytes = file_bytes(&svg, "svgz").unwrap();

    // Gzipped data has 0x1f 0x8b magic number at start.
    assert!(svgz_bytes.len() < svg_bytes.len());
    assert_eq!(svgz_bytes[0], 0x1f);
    assert_eq!(svgz_bytes[1], 0x8b);

    assert_eq!(svg_bytes, svg.as_bytes());
    let mut back = String::new();
    GzDecoder::new(&svgz_bytes[..]).read_to_string(&mut back).unwrap();
    assert_eq!(back, svg);
}

#[test]
fn files_hold_documents_as_their_extension_says() {
    assert_eq!(file_bytes("<svg/>", "svg").unwrap(), b"<svg/>");
    assert_eq!(file_bytes("é\u{1f680}", "").unwrap(), "é\u{1f680}".as_bytes());
    let packed = file_bytes("", "SvgZ").unwrap();
    assert_eq!(packed[..4], [0x1f, 0x8b, 8, 0]);
    let mut back = Vec::new();
    GzDecoder::new(&packed[..]).read_to_end(&mut back).unwrap();
    assert!(back.is_empty());
}

#[test]
fn escapes_tell_what_was_escaped() {
    let texts = ["<", "&lt;", "&amp;lt;", "&", "&amp;", ">", "\"", "&quot;", "'", "lt;", ""];
    for a in texts {
        for b in texts {
            assert_eq!(escape_text(a) == escape_text(b), a == b);
            assert_eq!(escape_attr(a) == escape_attr(b), a == b);
        }
    }
}
