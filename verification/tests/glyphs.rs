//! How glyphs fill cells, against single-precision arithmetic.
use evp::render_gif::{
    css_cell_metrics, glyph_line, glyph_scale, is_within_reach, measure_cell_px, place_glyphs, place_title,
    title_size, CharGlyph, FontLengths, GlyphMask, Shift,
};
use evp::single::{Measure, ONE};
use evp::viewport::CanvasLayout;

fn measure(v: f32) -> Measure {
    (v as f64 * ONE as f64) as Measure
}

fn lengths(ascent: f32, descent: f32) -> FontLengths {
    FontLengths { ascent: measure(ascent), descent: measure(descent) }
}

const FONTS: [(f32, f32, f32); 4] =
    [(13.2, -3.7, 8.41), (22.017, -5.1, 13.3333), (9.5, -2.5, 6.0), (40.123, -11.9, 24.06)];

#[test]
fn cells_have_the_size_that_single_precision_gives() {
    for (ascent, descent, advance) in FONTS {
        for line_height in [1.0f32, 1.1, 1.2345, 0.5, 2.0, 100.0, 0.0, -1.0] {
            for spacing in [0.0f32, 1.0, -0.7, 2.49, -30.0] {
                let r = css_cell_metrics(
                    measure(advance),
                    lengths(ascent, descent),
                    measure(line_height),
                    measure(spacing),
                );
                let w = (advance + spacing).round().max(1.0) as u32;
                let bbox_h = ascent - descent;
                let h = (bbox_h * line_height).ceil().max(1.0) as u32;
                let extra = (h as f32 - bbox_h).max(0.0);
                assert_eq!(r.cell.cell_width_px, w);
                assert_eq!(r.cell.cell_height_px, h);
                assert_eq!(r.cell.char_height_px, bbox_h.round() as u32);
                assert_eq!(r.cell.ascent_px, ascent.round() as u32);
                assert_eq!(r.baseline, (ascent + extra / 2.0).round() as u32);
            }
        }
    }
}

#[test]
fn a_cell_has_a_pixel_at_least() {
    let m = measure_cell_px(0, lengths(0.0, 0.0), ONE, 0);
    assert_eq!((m.cell_width_px, m.cell_height_px), (1, 1));
    assert_eq!((m.char_height_px, m.ascent_px), (0, 0));
    let m = measure_cell_px(measure(8.4), lengths(16.0, -4.0), ONE, 0);
    assert_eq!((m.cell_width_px, m.cell_height_px), (8, 20));
    assert_eq!((m.char_height_px, m.ascent_px), (20, 16));
}

#[test]
fn glyphs_are_scaled_as_single_precision_does() {
    let primary = (13.2f32, -3.7f32);
    let (cell_w, cell_h) = (9u32, 21u32);
    let scale = 17.6f32;
    for (ascent, descent, advance) in FONTS {
        let of = |first: bool, boxed: bool| {
            glyph_scale(
                measure(scale),
                first,
                boxed,
                measure(advance),
                lengths(ascent, descent),
                lengths(primary.0, primary.1),
                cell_w,
                cell_h,
            )
        };
        assert_eq!(of(true, false), (measure(scale), measure(scale)));
        let factor =
            (primary.0 - primary.1) / (ascent - descent) * (cell_w as f32 / cell_h as f32);
        assert_eq!(of(false, false), (measure(scale * factor), measure(scale * factor)));
        let wide = scale * (cell_w as f32 / advance.max(1.0));
        let high = scale * (cell_h as f32 / (ascent - descent).max(1.0));
        assert_eq!(of(true, true), (measure(wide), measure(high)));
        assert_eq!(of(false, true), (measure(wide), measure(high)));
    }
}

#[test]
fn glyphs_stand_on_the_line_that_single_precision_gives() {
    for (ascent, descent, _) in FONTS {
        for y in [0u32, 7, 120, 4001] {
            let f = lengths(ascent, descent);
            assert_eq!(glyph_line(y, 15, 21, true, false, f), y as i32 + 15);
            let middle = y as f32 + 21f32 / 2.0 + (ascent + descent) / 2.0;
            assert_eq!(glyph_line(y, 15, 21, false, false, f), middle as i32);
            let top = (y as f32 + ascent).round() as i32;
            assert_eq!(glyph_line(y, 15, 21, true, true, f), top);
            assert_eq!(glyph_line(y, 15, 21, false, true, f), top);
        }
    }
    assert_eq!(glyph_line(0, 0, 0, false, false, lengths(-3.0, -2.9)), -2);
    assert_eq!(glyph_line(0, 0, 0, true, true, lengths(-2.5, -2.9)), -3);
}

fn mask(offset_x: i32, offset_y: i32, width: u32, height: u32) -> Option<GlyphMask> {
    let coverage = (0..(width * height) as Measure).collect();
    Some(GlyphMask { offset_x, offset_y, width, height, coverage })
}

#[test]
fn glyphs_follow_each_other() {
    let glyphs: Vec<CharGlyph> = [
        (false, 8.41f32, mask(1, -9, 5, 3)),
        (true, 8.41, mask(0, -12, 9, 2)),
        (false, 8.41, None),
        (false, 16.9, mask(-2, 1, 4, 4)),
    ]
    .into_iter()
    .map(|(is_box, advance, mask)| CharGlyph { is_box, advance: measure(advance), line: 30, mask })
    .collect();
    for spacing in [0.0f32, 3.0, -3.0, 1.5] {
        let got = place_glyphs(&glyphs, 100, Shift::Spacing(measure(spacing)));
        let half = (spacing / 2.0).floor();
        assert_eq!(got.len(), 3);
        assert_eq!(got[0].left, (100.0 + half) as i32 + 1);
        assert_eq!(got[1].left, (100.0f32 + 8.41) as i32);
        assert_eq!(got[2].left, (100.0f32 + 8.41 + 8.41 + 8.41 + half) as i32 - 2);
        assert_eq!([got[0].top, got[1].top, got[2].top], [21, 18, 31]);
        assert_eq!((got[2].width, got[2].height), (4, 4));
        assert_eq!(got[0].coverage, (0..15).collect::<Vec<Measure>>());
    }
    let got = place_glyphs(&glyphs, 100, Shift::Centered);
    assert_eq!(got[0].left, (100.0f32 + (8.41 - 5.0) / 2.0) as i32 + 1);
    assert_eq!(got[1].left, 108);
    assert_eq!(got[2].left, (125.23f32 + (16.9 - 4.0) / 2.0) as i32 - 2);
    assert!(place_glyphs(&Vec::new(), 5, Shift::Centered).is_empty());
}

#[test]
fn texts_may_be_long_but_not_endless() {
    let glyph = CharGlyph { is_box: false, advance: 8 * ONE, line: 0, mask: mask(0, 0, 1, 1) };
    let long: Vec<CharGlyph> = (0..10_000).map(|_| glyph.clone()).collect();
    assert!(is_within_reach(&long, 7));
    let got = place_glyphs(&long, 7, Shift::Spacing(0));
    assert_eq!(got[9_999].left, 7 + 8 * 9_999);
    let wide = CharGlyph { advance: 0x1_0000 * ONE, ..glyph };
    let endless: Vec<CharGlyph> = (0..0x2001).map(|_| wide.clone()).collect();
    assert!(!is_within_reach(&endless, 0));
    assert!(!is_within_reach(&Vec::new(), u32::MAX));
}

fn layout(frame_w: u32, bar_h: u32) -> CanvasLayout {
    CanvasLayout {
        canvas_w: frame_w + 20,
        canvas_h: 400,
        frame_x: 10,
        frame_y: 12,
        frame_w,
        frame_h: 300,
        content_x: 20,
        content_y: 50,
        bar_h,
        dot_radius: 5,
        dot_gap: 8,
    }
}

#[test]
fn titles_are_in_the_middle() {
    let advances: Vec<f32> = vec![9.31, 12.07, 4.5, 10.9, 9.31];
    for frame_w in [30u32, 301, 640] {
        for bar_h in [18u32, 33, 60] {
            let l = layout(frame_w, bar_h);
            let width = advances.iter().fold(0.0f32, |a, b| a + b);
            let cx = l.frame_x as f32 + frame_w as f32 / 2.0;
            let cy = l.frame_y as f32 + bar_h as f32 / 2.0;
            let at = advances.iter().map(|a| measure(*a)).collect();
            let (x, line) = place_title(&l, &at, lengths(14.3, -4.1));
            assert_eq!(x, (cx - width / 2.0).max(l.frame_x as f32) as u32);
            assert_eq!(line, (cy + (14.3f32 - 4.1) / 2.0) as i32);
        }
    }
    assert_eq!(place_title(&layout(640, 33), &Vec::new(), lengths(-90.0, -90.0)), (330, 0));
}

#[test]
fn titles_grow_with_the_bar() {
    for bar_h in [0u32, 10, 22, 23, 40, 123, 1000] {
        assert_eq!(title_size(bar_h), measure((bar_h as f32 * 0.765).max(17.0)));
    }
}
