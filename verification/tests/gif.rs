//! Drawing in palette indices, and the pictures of a GIF.
use evp::error::RenderError;
use evp::recording::{CellSnap, MouseState, RawFrame, Recording};
use evp::render_gif::canvas::limit_radius;
use evp::render_gif::stream::{delay_of, find_lacking};
use evp::render_gif::{
    append_comment, assemble_palette, blend_pixel_idx, draw_circle_idx, fill_circle_idx,
    fill_rect_idx, find_closest_color, flatten_palette, inside_rounded_rect, is_cell_changed,
    mask_outside_rounded_rect_idx, png_file, png_outcome, rasterize_raw_frame_idx, render_gif,
    render_png_frame, write_gif_frame, GifStream, GlyphBlit, GlyphLookup, GlyphSheet, PngError,
    RasterSetup, TRANSPARENT_COLOR_INDEX,
};
use evp::render_gif::stamp::CLICK_OPACITY;
use evp::single::ONE;
use evp::style::{FrameStyle, WindowBarStyle};
use evp::style_flags;
use evp::viewport::{CanvasLayout, ViewportConfig};

/// Black, white, red, and greys.
fn palette() -> Vec<[u8; 3]> {
    let base: Vec<[u8; 3]> = (0..16u8)
        .map(|i| match i {
            0 => [0, 0, 0],
            1 => [255, 255, 255],
            2 => [255, 0, 0],
            _ => [i; 3],
        })
        .collect();
    let cube: Vec<[u8; 3]> = (0..216u32).map(|i| [i as u8; 3]).collect();
    let ramp: Vec<[u8; 3]> = (0..24u32).map(|i| [216 + i as u8; 3]).collect();
    assemble_palette(&base, &cube, &ramp)
}

#[test]
fn the_palette_ends_in_the_transparent_index() {
    let p = palette();
    assert_eq!(p.len(), 256);
    assert_eq!(p[16], [0; 3]);
    assert_eq!(p[231], [215; 3]);
    assert_eq!(p[232], [216; 3]);
    assert_eq!(p[254], [238; 3]);
    assert_eq!(p[255], [0; 3]);
    let flat = flatten_palette(&p);
    assert_eq!(flat.len(), 768);
    assert_eq!(&flat[3..9], &[255, 255, 255, 255, 0, 0]);
}

#[test]
fn the_nearest_colour_is_found_first() {
    let p = palette();
    assert_eq!(find_closest_color([0, 0, 0], &p), 0);
    assert_eq!(find_closest_color([250, 3, 3], &p), 2);
    assert_eq!(find_closest_color([3, 3, 3], &p), 3);
    assert_eq!(find_closest_color([255, 255, 255], &p), 1);
}

#[test]
fn rectangles_outside_of_the_canvas_are_left_out() {
    let mut buf = vec![9u8; 12];
    fill_rect_idx(&mut buf, 4, 1, 1, 2, 3, 7);
    assert_eq!(buf, vec![9, 9, 9, 9, 9, 7, 7, 9, 9, 7, 7, 9]);
}

#[test]
fn discs_are_round() {
    let mut buf = vec![0u8; 25];
    fill_circle_idx(&mut buf, 5, 2, 2, 2, 1);
    assert_eq!(
        buf,
        vec![0, 0, 1, 0, 0, 0, 1, 1, 1, 0, 1, 1, 1, 1, 1, 0, 1, 1, 1, 0, 0, 0, 1, 0, 0]
    );
}

fn layout(w: u32, h: u32) -> CanvasLayout {
    CanvasLayout {
        canvas_w: w,
        canvas_h: h,
        frame_x: 0,
        frame_y: 0,
        frame_w: w,
        frame_h: h,
        content_x: 2,
        content_y: 2,
        bar_h: 0,
        dot_radius: 1,
        dot_gap: 1,
    }
}

#[test]
fn corners_are_masked() {
    let l = layout(6, 6);
    assert_eq!(limit_radius(&l, 50), 3);
    assert!(!inside_rounded_rect(0, 0, &l, 3));
    assert!(!inside_rounded_rect(2, 0, &l, 3));
    assert!(inside_rounded_rect(2, 1, &l, 3));
    assert!(inside_rounded_rect(0, 0, &l, 0));
    let mut buf = vec![1u8; 36];
    mask_outside_rounded_rect_idx(&mut buf, &l, 3, 0);
    assert_eq!(buf[0], 0);
    assert_eq!(buf[5], 0);
    assert_eq!(buf[30], 0);
    assert_eq!(buf[35], 0);
    assert_eq!(buf[14], 1);
}

#[test]
fn blending_rounds_as_single_precision_does() {
    let p = palette();
    for step in 0..=16i128 {
        let alpha = step as f32 / 16.0;
        for (c, b) in [(255u8, 0u8), (17, 200), (220, 13)] {
            let v = c as f32 * alpha + b as f32 * (1.0 - alpha);
            let want = find_closest_color([v.round().clamp(0.0, 255.0) as u8; 3], &p);
            let under = find_closest_color([b; 3], &p);
            let mut buf = vec![under];
            let seen = p[under as usize][0];
            let exact = c as f32 * alpha + seen as f32 * (1.0 - alpha);
            let expected = find_closest_color([exact.round().clamp(0.0, 255.0) as u8; 3], &p);
            blend_pixel_idx(&mut buf, None, &p, 0, [c; 3], step * (ONE / 16), [0; 3]);
            assert_eq!(buf[0], expected);
            if seen == b {
                assert_eq!(buf[0], want);
            }
        }
    }
}

#[test]
fn blending_looks_through_transparent_pixels() {
    let p = palette();
    let mut buf = vec![TRANSPARENT_COLOR_INDEX; 2];
    let earlier = vec![1u8, TRANSPARENT_COLOR_INDEX];
    blend_pixel_idx(&mut buf, Some(&earlier), &p, 0, [0; 3], 0, [255, 0, 0]);
    blend_pixel_idx(&mut buf, Some(&earlier), &p, 1, [0; 3], 0, [255, 0, 0]);
    blend_pixel_idx(&mut buf, Some(&earlier), &p, 2, [0; 3], 0, [255, 0, 0]);
    assert_eq!(buf, vec![1, 2]);
}

#[test]
fn ripples_fade_at_their_edge() {
    let p = palette();
    let (w, h) = (30u32, 30u32);
    let mut buf = vec![0u8; 900];
    draw_circle_idx(&mut buf, None, &p, w, h, [0; 3], 15, 15, CLICK_OPACITY);
    for y in 0..30i32 {
        for x in 0..30i32 {
            let d = (x - 15) * (x - 15) + (y - 15) * (y - 15);
            let got = buf[(y * 30 + x) as usize];
            if d > 144 {
                assert_eq!(got, 0);
                continue;
            }
            let border = 12.0 - (d as f32).sqrt();
            let mut alpha = if border < 1.0 { border } else { 1.0f32 };
            alpha *= 0.32;
            let v = 220.0 * alpha + 0.0 * (1.0 - alpha);
            let want = find_closest_color([v.round().clamp(0.0, 255.0) as u8; 3], &p);
            assert_eq!(got, want, "at {x} {y}");
        }
    }
}

fn setup() -> RasterSetup {
    RasterSetup {
        cfg: ViewportConfig {
            cols: 3,
            rows: 2,
            framerate: 50,
            cell_width_px: 4,
            cell_height_px: 5,
            frame_style: FrameStyle {
                canvas_width_px: None,
                canvas_height_px: None,
                padding_px: 2,
                margin_px: 0,
                margin_fill: [255, 255, 255],
                window_bar: WindowBarStyle::Off,
                window_bar_size_px: 0,
                border_radius_px: 0,
            },
            font_size_px: 4 * ONE,
            char_height_px: 4,
            ascent_px: 3,
            letter_spacing: 0,
        },
        layout: layout(16, 14),
        colors: palette(),
        title: None,
    }
}

fn frame(t_ms: u32, text: &str) -> RawFrame {
    let mut cells = vec![CellSnap::blank([255, 255, 255], [0, 0, 0]); 6];
    cells[0].text = text.to_string();
    RawFrame {
        t_ms,
        cols: 3,
        rows: 2,
        cursor: None,
        default_fg: [255, 255, 255],
        default_bg: [0, 0, 0],
        cursor_color: None,
        cursor_accent: None,
        mouse_cursor: None,
        title: None,
        cells,
    }
}

/// A glyph of one full pixel in the first cell.
fn sheet() -> GlyphSheet {
    let mut cells: Vec<Vec<GlyphBlit>> = (0..6).map(|_| Vec::new()).collect();
    cells[0].push(GlyphBlit { left: 3, top: 4, width: 1, height: 1, coverage: vec![ONE] });
    GlyphSheet { cells, title: Vec::new() }
}

#[test]
fn a_first_frame_has_a_colour_everywhere() {
    let s = setup();
    let mut buf = vec![TRANSPARENT_COLOR_INDEX; 16 * 14];
    rasterize_raw_frame_idx(&s, &frame(0, "x"), None, &sheet(), None, &mut buf);
    assert!(buf.iter().all(|i| *i != TRANSPARENT_COLOR_INDEX));
    assert_eq!(buf[4 * 16 + 3], 1);
    assert_eq!(buf[4 * 16 + 4], 0);
}

#[test]
fn a_still_frame_draws_nothing() {
    let s = setup();
    let f = frame(0, "x");
    let mut buf = vec![TRANSPARENT_COLOR_INDEX; 16 * 14];
    rasterize_raw_frame_idx(&s, &frame(20, "x"), Some(&f), &sheet(), None, &mut buf);
    assert!(buf.iter().all(|i| *i == TRANSPARENT_COLOR_INDEX));
    assert!(!is_cell_changed(&s, 0, 0, &frame(20, "x"), Some(&f)));
}

#[test]
fn only_changed_cells_are_drawn() {
    let s = setup();
    let f = frame(0, "x");
    let mut g = frame(20, "x");
    g.cells[4].bg = [255, 0, 0];
    g.cells[4].flags = style_flags::UNDERLINE;
    assert!(is_cell_changed(&s, 1, 1, &g, Some(&f)));
    let mut buf = vec![TRANSPARENT_COLOR_INDEX; 16 * 14];
    rasterize_raw_frame_idx(&s, &g, Some(&f), &sheet(), None, &mut buf);
    let drawn = buf.iter().filter(|i| **i != TRANSPARENT_COLOR_INDEX).count();
    assert_eq!(drawn, 20);
    assert_eq!(buf[7 * 16 + 6], 2);
    // The underline is two pixels above the bottom.
    assert_eq!(buf[10 * 16 + 6], 1);
}

#[test]
fn the_cursor_has_its_own_colours() {
    let s = setup();
    let mut f = frame(0, "");
    f.cursor = Some((2, 1));
    f.cursor_color = Some([255, 0, 0]);
    let mut buf = vec![TRANSPARENT_COLOR_INDEX; 16 * 14];
    rasterize_raw_frame_idx(&s, &f, None, &sheet(), None, &mut buf);
    assert_eq!(buf[7 * 16 + 10], 2);
}

#[test]
fn the_mouse_is_drawn_over_the_cells() {
    let s = setup();
    let mut f = frame(0, "");
    f.mouse_cursor = Some((0, 0, MouseState::Moving));
    let mut buf = vec![TRANSPARENT_COLOR_INDEX; 16 * 14];
    rasterize_raw_frame_idx(&s, &f, None, &sheet(), None, &mut buf);
    // The tip is in the middle of the first cell; three pixels right of it and ten
    // down is the dark body.
    let (tip_x, tip_y) = (4, 4);
    assert_eq!(buf[(tip_y + 8) * 16 + tip_x + 3], find_closest_color([17; 3], &s.colors));
    // What the mouse touched is drawn again once it is gone.
    let later = frame(20, "");
    assert!(is_cell_changed(&s, 2, 1, &later, Some(&f)));
}

#[test]
fn delays_are_hundredths_of_a_second() {
    assert_eq!(delay_of(20), 2);
    assert_eq!(delay_of(33), 3);
    assert_eq!(delay_of(35), 4);
    assert_eq!(delay_of(0), 1);
    assert_eq!(delay_of(4), 1);
    assert_eq!(delay_of(655_360), 0);
    let g = write_gif_frame(&setup(), vec![1, 2], 50);
    assert_eq!((g.width, g.height, g.delay, g.transparent), (16, 14, 5, 255));
}

#[test]
fn pictures_last_until_the_next_change() {
    let mut stream = GifStream::new(setup());
    assert!(stream.push(frame(0, "a"), &sheet()).is_none());
    assert!(!stream.needs(&frame(20, "a")));
    assert!(stream.push(frame(20, "a"), &sheet()).is_none());
    let first = stream.push(frame(100, "b"), &sheet()).unwrap();
    assert_eq!(first.delay, 10);
    assert!(stream.push(frame(110, "b"), &sheet()).is_none());
    let (last, written) = stream.finish();
    assert_eq!(last.unwrap().delay, 3);
    assert_eq!(written, 2);
    assert!(GifStream::new(setup()).finish().0.is_none());
}

fn recording(frames: Vec<Option<RawFrame>>) -> Recording {
    let s = setup();
    Recording {
        cols: 3,
        rows: 2,
        framerate: 50,
        cell_width_px: 4,
        cell_height_px: 5,
        frame_style: s.cfg.frame_style,
        font_size_px: s.cfg.font_size_px,
        char_height_px: 4,
        ascent_px: 3,
        letter_spacing: 0,
        frames,
    }
}

fn sheets(n: usize) -> Vec<GlyphSheet> {
    (0..n).map(|_| sheet()).collect()
}

#[test]
fn recordings_become_pictures() {
    let rec = recording(vec![
        Some(frame(0, "a")),
        Some(frame(20, "a")),
        Some(frame(40, "b")),
        Some(frame(500, "c")),
        Some(frame(900, "c")),
    ]);
    let v = render_gif(rec, setup(), &sheets(5), None).unwrap();
    let delays: Vec<u16> = v.iter().map(|g| g.delay).collect();
    assert_eq!(delays, vec![4, 46, 40]);
    let again = recording(vec![Some(frame(0, "a"))]);
    assert_eq!(evp::render_gif(again, setup(), &sheets(1), None).unwrap()[0].delay, 3);
}

#[test]
fn pictures_laid_over_each_other_show_the_last_frame() {
    let mut frames = vec![frame(0, "a"), frame(20, "b"), frame(40, "b"), frame(60, "")];
    frames[1].cells[4].bg = [255, 0, 0];
    frames[2].cursor = Some((2, 1));
    frames[2].mouse_cursor = Some((ONE, ONE, MouseState::Clicking));
    for n in 1..=frames.len() {
        let shown: Vec<RawFrame> = frames[..n].to_vec();
        let rec = recording(shown.iter().cloned().map(Some).collect());
        let pictures = render_gif(rec, setup(), &sheets(n), None).unwrap();
        let mut seen = vec![TRANSPARENT_COLOR_INDEX; 16 * 14];
        for picture in &pictures {
            for (below, above) in seen.iter_mut().zip(&picture.indices) {
                if *above != TRANSPARENT_COLOR_INDEX {
                    *below = *above;
                }
            }
        }
        let mut fresh = vec![TRANSPARENT_COLOR_INDEX; 16 * 14];
        rasterize_raw_frame_idx(&setup(), &shown[n - 1], None, &sheet(), None, &mut fresh);
        // The cells are at columns 2 to 13 of rows 2 to 11.
        for y in 2..12 {
            for x in 2..14 {
                assert_eq!(seen[y * 16 + x], fresh[y * 16 + x], "{n} frames, {x} {y}");
            }
        }
    }
}

#[test]
fn each_frame_is_seen_once_its_picture_is_laid_over_those_before() {
    let mut frames =
        vec![frame(0, "a"), frame(20, "a"), frame(40, "b"), frame(60, "b"), frame(80, "")];
    frames[2].cells[4].bg = [255, 0, 0];
    frames[3].cells[4].bg = [255, 0, 0];
    let rec = recording(frames.iter().cloned().map(Some).collect());
    let pictures = render_gif(rec, setup(), &sheets(5), None).unwrap();
    assert_eq!(pictures.len(), 3);
    // The second and the fourth frame repeat the one before them.
    for (k, drawn) in [(0, 1), (1, 1), (2, 2), (3, 2), (4, 3)] {
        let mut seen = vec![TRANSPARENT_COLOR_INDEX; 16 * 14];
        for picture in &pictures[..drawn] {
            for (below, above) in seen.iter_mut().zip(&picture.indices) {
                if *above != TRANSPARENT_COLOR_INDEX {
                    *below = *above;
                }
            }
        }
        let mut fresh = vec![TRANSPARENT_COLOR_INDEX; 16 * 14];
        rasterize_raw_frame_idx(&setup(), &frames[k], None, &sheet(), None, &mut fresh);
        for y in 2..12 {
            for x in 2..14 {
                assert_eq!(seen[y * 16 + x], fresh[y * 16 + x], "frame {k}, {x} {y}");
            }
        }
    }
}

#[test]
fn pictures_fail_where_a_frame_or_a_glyph_is_missing() {
    let rec = recording(vec![Some(frame(0, "a")), None]);
    let e = render_gif(rec, setup(), &sheets(2), None).unwrap_err();
    assert_eq!(e, RenderError::FrameMissing(1));
    let lookups = vec![
        GlyphLookup { flags: 0, ch: 'a', found: true },
        GlyphLookup { flags: 0, ch: '\u{10FFFF}', found: false },
    ];
    let rec = recording(vec![Some(frame(0, "a")), Some(frame(20, "\u{10FFFF}"))]);
    let e = render_gif(rec, setup(), &sheets(2), Some(&lookups)).unwrap_err();
    assert_eq!(e, RenderError::GlyphMissing('\u{10FFFF}'));
    assert!(e.message().contains("(U+10FFFF)"));
    assert_eq!(find_lacking(&lookups, &frame(0, "a").cells), None);
    let png = render_png_frame(&frame(0, "\u{10FFFF}"), &setup(), &sheet(), Some(&lookups));
    assert_eq!(png, Err(RenderError::GlyphMissing('\u{10FFFF}')));
}

#[test]
fn a_picture_has_three_bytes_for_each_pixel() {
    let png = render_png_frame(&frame(0, "x"), &setup(), &sheet(), None).unwrap();
    assert_eq!(png.len(), 3 * 16 * 14);
    let i = 3 * (4 * 16 + 3);
    assert_eq!(&png[i..i + 6], &[255, 255, 255, 0, 0, 0]);
}

#[test]
fn a_png_file_holds_the_picture() {
    let rgb = render_png_frame(&frame(0, "x"), &setup(), &sheet(), None).unwrap();
    let file = png_file(&frame(0, "x"), &setup(), &sheet(), None).unwrap();
    assert_eq!(file[..8], [137, 80, 78, 71, 13, 10, 26, 10]);
    let back = lodepng::decode24(&file).unwrap();
    assert_eq!((back.width, back.height), (16, 14));
    let pixels: Vec<u8> = back.buffer.iter().flat_map(|p| [p.r, p.g, p.b]).collect();
    assert_eq!(pixels, rgb);
    let lookups = vec![GlyphLookup { flags: 0, ch: 'x', found: false }];
    let refused = png_file(&frame(0, "x"), &setup(), &sheet(), Some(&lookups));
    assert_eq!(refused, Err(PngError::GlyphMissing('x')));
}

#[test]
fn encoding_fails_for_want_of_memory_or_for_another_reason() {
    assert_eq!(png_outcome(Ok(vec![1, 2])), Ok(vec![1, 2]));
    assert_eq!(png_outcome(Err(83)), Err(PngError::OutOfMemory));
    assert_eq!(lodepng::ErrorCode(83).as_str(), "memory allocation failed");
    assert_eq!(png_outcome(Err(93)), Err(PngError::Encoding(93)));
}

#[test]
fn comments_stand_before_the_trailer() {
    let mut data = vec![0x47, 0x3B];
    append_comment(&mut data, 12, 3);
    let text = "Created by evp | elapsed_ms=12 frames=3";
    assert_eq!(data[0], 0x47);
    assert_eq!(&data[1..4], &[0x21, 0xFE, text.len() as u8]);
    assert_eq!(&data[4..4 + text.len()], text.as_bytes());
    assert_eq!(&data[4 + text.len()..], &[0x00, 0x3B]);
    let mut other = vec![0x47];
    append_comment(&mut other, 12, 3);
    assert_eq!(other, vec![0x47]);
}
