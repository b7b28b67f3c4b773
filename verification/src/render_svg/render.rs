//! From frames to a document.
use vstd::prelude::*;
use vstd::string::*;

use crate::merge;
use crate::recording::{CellSnap, MouseState, RawFrame};
use crate::render_svg::arrange;
use crate::render_svg::arrange::{arrange_rects, arrange_text};
use crate::render_svg::bounds;
use crate::render_svg::cells;
use crate::render_svg::cells::{build_cell_spans, CellSpan, CellSpanView, CellVisualView, Scene};
use crate::render_svg::document;
use crate::render_svg::document::{timer_millis, SvgDoc};
use crate::render_svg::elements;
use crate::render_svg::elements::{
    BgRect, BgRectView, CursorRect, Glyph, MouseSpan, TextElement, TextElementView, TitleSegment,
};
use crate::render_svg::fonts;
use crate::render_svg::fonts::{
    generate_style_block, select_font_family, FontData, FontUse, StyleError,
};
use crate::render_svg::layout;
use crate::render_svg::layout::{
    build_bar_circles, build_lines, build_rects, build_rows, Placement,
};
use crate::render_svg::markup;
use crate::render_svg::metrics;
use crate::render_svg::metrics::{SvgMetrics, BASELINE_LIMIT};
use crate::render_svg::options::SvgOptions;
use crate::render_svg::overlay;
use crate::render_svg::split;
use crate::render_svg::split::split_cell_spans;
use crate::render_svg::tracks;
use crate::render_svg::tracks::{
    build_cursor_holds, build_mouse_holds, build_title_segments, place_cursors, place_mouse, Hold,
    PIXEL_LIMIT,
};
use crate::single;
use crate::single::{from_quotient, Measure, ONE};
use crate::sort;
use crate::style::Rgb;
use crate::text;
use crate::text::{decimal_text, to_chars};
use crate::viewport::{CanvasLayout, ViewportConfig};

verus! {

/// The fonts a document can name and carry along.
pub struct FontBook {
    /// The font of every character of every cell, in the order of the frames: see
    /// [`shown_chars`].
    pub uses: Vec<FontUse>,
    pub fonts: Vec<FontData>,
    /// Family of the font of one's own, if there is one.
    pub primary: Option<String>,
}

/// The program that makes a document.
pub struct BuildInfo {
    pub version: String,
    pub revision: String,
}

/// What a document is made from besides its frames.
pub struct RenderInput {
    pub cfg: ViewportConfig,
    pub layout: CanvasLayout,
    pub opts: SvgOptions,
    pub book: FontBook,
    pub build: BuildInfo,
    /// How long the rendering has taken.
    pub render_time_ms: u128,
}

/// The characters of a text, each with the style of its cell.
pub open spec fn cell_chars(flags: u8, t: Seq<char>) -> Seq<(u8, char)> {
    Seq::new(t.len(), |i: int| (flags, t[i]))
}

/// The characters of the first `n` cells.
pub open spec fn cells_chars(v: Seq<CellSnap>, n: int) -> Seq<(u8, char)>
    decreases n,
{
    if n <= 0 {
        Seq::empty()
    } else {
        cells_chars(v, n - 1) + cell_chars(v[n - 1].flags, v[n - 1].text@)
    }
}

/// The characters of all cells of all frames, in order.
pub open spec fn frames_chars(frames: Seq<RawFrame>) -> Seq<(u8, char)>
    decreases frames.len(),
{
    if frames.len() == 0 {
        Seq::empty()
    } else {
        frames_chars(frames.drop_last()) + cells_chars(
            frames.last().cells@,
            frames.last().cells@.len() as int,
        )
    }
}

/// The characters for which a document needs fonts, each with the style of its cell.
pub fn shown_chars(frames: &Vec<RawFrame>) -> (out: Vec<(u8, char)>)
    ensures
        out@ == frames_chars(frames@),
{
    let mut out: Vec<(u8, char)> = Vec::new();
    let mut i: usize = 0;
    while i < frames.len()
        invariant
            i <= frames@.len(),
            out@ == frames_chars(frames@.take(i as int)),
        decreases frames@.len() - i,
    {
        assert(frames@.take(i + 1).drop_last() =~= frames@.take(i as int));
        let cells: &Vec<CellSnap> = &frames[i].cells;
        let ghost before = out@;
        let mut k: usize = 0;
        assert(before + cells_chars(cells@, 0) =~= before);
        while k < cells.len()
            invariant
                k <= cells@.len(),
                out@ == before + cells_chars(cells@, k as int),
            decreases cells@.len() - k,
        {
            let flags: u8 = cells[k].flags;
            let chars: Vec<char> = to_chars(cells[k].text.as_str());
            let ghost own = cell_chars(flags, chars@);
            let ghost all = out@;
            let mut j: usize = 0;
            while j < chars.len()
                invariant
                    j <= chars@.len(),
                    own == cell_chars(flags, chars@),
                    out@ == all + own.take(j as int),
                decreases chars@.len() - j,
            {
                out.push((flags, chars[j]));
                j = j + 1;
                assert(out@ =~= all + own.take(j as int));
            }
            assert(own.take(j as int) =~= own);
            k = k + 1;
            assert(out@ =~= before + cells_chars(cells@, k as int));
        }
        i = i + 1;
    }
    assert(frames@.take(frames@.len() as int) =~= frames@);
    out
}

/// The frames as they are shown: a screenshot's single frame is at the begin.
pub open spec fn shown_scenes(frames: Seq<RawFrame>, is_screenshot: bool) -> Seq<RawFrame> {
    if is_screenshot && frames.len() == 1 {
        seq![RawFrame { t_ms: 0, ..frames[0] }]
    } else {
        frames
    }
}

/// How long a recording lasts: to the end of its last frame.
pub open spec fn total_millis(last_t_ms: u32, cfg: ViewportConfig) -> int {
    let t = last_t_ms + cfg.frame_ms();
    if t < 1 {
        1
    } else {
        t
    }
}

impl RenderInput {
    pub open spec fn metrics(self) -> SvgMetrics {
        metrics::metrics_of(self.opts.font_size, self.cfg)
    }

    /// Where the cells lie.
    pub open spec fn placement(self) -> Placement {
        Placement {
            cell_w: self.cfg.cell_w(),
            cell_h: self.cfg.cell_h(),
            content_x: self.layout.content_x,
            content_y: self.layout.content_y,
            clipped: self.cfg.frame_style.border_radius_px > 0,
            metrics: self.metrics(),
        }
    }

    /// The rounded corners that clip the frame.
    pub open spec fn clip_path(self) -> Option<(u32, u32, u32, u32, u32)> {
        let r = self.cfg.frame_style.border_radius_px;
        if r > 0 {
            let a = if r < self.layout.frame_w / 2 {
                r
            } else {
                self.layout.frame_w / 2
            };
            let b = if a < self.layout.frame_h / 2 {
                a
            } else {
                self.layout.frame_h / 2
            };
            Some(
                (
                    self.layout.frame_x,
                    self.layout.frame_y,
                    self.layout.frame_w,
                    self.layout.frame_h,
                    b,
                ),
            )
        } else {
            None
        }
    }

    /// Whether a document can be made of these frames: there is a font, the
    /// lengths are within bounds, the frames belong together, and it is known which font
    /// shows each of their characters.
    pub open spec fn fits(self, frames: Seq<RawFrame>) -> bool {
        &&& cells::frames_fit(frames)
        &&& total_millis(frames[frames.len() - 1].t_ms, self.cfg) <= u32::MAX
        &&& metrics::metrics_fit(self.opts.font_size, self.cfg)
        &&& layout::canvas_fits(self.layout)
        &&& self.cfg.cell_w() <= PIXEL_LIMIT
        &&& frames[0].cols * self.cfg.cell_w() <= PIXEL_LIMIT
        &&& frames[0].rows * self.cfg.cell_h() <= PIXEL_LIMIT
        &&& self.opts.window_bar_font_size matches Some(s) ==> markup::in_range(s as int)
        &&& forall|i: int, j: int|
            0 <= i <= j < frames.len() ==> (#[trigger] frames[i]).t_ms <= (
            #[trigger] frames[j]).t_ms
        &&& forall|i: int| 0 <= i < frames.len() ==> self.frame_fits(#[trigger] frames[i])
        &&& self.fonts_known(frames)
    }

    /// Whether the font of every character is known.
    pub open spec fn fonts_known(self, frames: Seq<RawFrame>) -> bool {
        let shown = frames_chars(frames);
        &&& self.book.uses@.len() == shown.len()
        &&& forall|i: int| 0 <= i < shown.len() ==> (#[trigger] self.book.uses@[i]).c == shown[i].1
    }

    /// Whether what lies over the grid of a frame, and the text in it, is within
    /// bounds.
    pub open spec fn frame_fits(self, f: RawFrame) -> bool {
        &&& f.mouse_cursor matches Some((x, y, _)) ==> tracks::middle_fits(
            self.layout.content_x,
            x,
            self.cfg.cell_w(),
        ) && tracks::middle_fits(self.layout.content_y, y, self.cfg.cell_h())
        &&& f.cursor matches Some((x, y)) ==> self.layout.content_x + x * self.cfg.cell_w()
            <= u32::MAX && self.layout.content_y + y * self.cfg.cell_h() <= u32::MAX
        &&& forall|i: int|
            0 <= i < f.cells@.len() ==> (#[trigger] f.cells@[i]).text@.len() <= PIXEL_LIMIT
    }
}

/// The spans of the cells, cut.
pub open spec fn document_spans(frames: Seq<RawFrame>, total_ms: u32) -> Seq<CellSpanView> {
    split::cut_rows(
        cells::cell_spans(
            cells::scenes_of(frames),
            cells::cell_count(frames),
            frames[0].cols,
            total_ms,
        ),
        frames[0].rows as int,
    )
}

/// Whether `doc` is the document of the frames.
pub open spec fn is_document_of(
    doc: SvgDoc,
    frames: Seq<RawFrame>,
    input: RenderInput,
    total_ms: u32,
) -> bool {
    let p = input.placement();
    let spans = document_spans(frames, total_ms);
    let total_s = single::quotient(total_ms, 1000);
    let l = input.layout;
    &&& doc.version@ == input.build.version@
    &&& doc.revision@ == input.build.revision@
    &&& doc.canvas_w == l.canvas_w
    &&& doc.canvas_h == l.canvas_h
    &&& doc.font_family@ == fonts::family_text(
        input.opts.font_family@,
        input.opts.no_system_fonts,
        elements::clip_text(input.book.primary),
    )
    &&& doc.font_size == input.opts.font_size
    &&& doc.letter_spacing == p.metrics.letter_spacing
    &&& doc.style_block@ == fonts::style_block_text(
        input.book.uses@,
        input.book.fonts@,
        input.opts.embed_fonts,
    )
    &&& doc.canvas_bg == input.cfg.frame_style.margin_fill
    &&& doc.frame_bg_x == l.frame_x
    &&& doc.frame_bg_y == l.frame_y
    &&& doc.frame_bg_w == l.frame_w
    &&& doc.frame_bg_h == l.frame_h
    &&& doc.frame_bg_fill == frames[0].default_bg
    &&& doc.frame_clip_path == input.clip_path()
    &&& doc.window_bar_circles@ == layout::bar_circles(l, input.cfg.frame_style.window_bar)
    &&& doc.master_timer_dur == total_s
    &&& doc.rects() == arrange::arranged_rects(layout::span_rects(spans, p))
    &&& doc.strokes() == arrange::arranged_rects(layout::span_lines(spans, p))
    &&& doc.lines() == arrange::arranged_text(layout::span_rows(spans, p))
    &&& doc.cursor_rects@ == tracks::cursor_rects(
        tracks::holds(tracks::cursors_of(frames), total_ms),
        l.content_x,
        l.content_y,
        p.cell_w,
        p.cell_h,
    )
    &&& doc.mouse_spans@ == tracks::mouse_spans(
        tracks::holds(tracks::mice_of(frames), total_ms),
        l.content_x,
        l.content_y,
        p.cell_w,
        p.cell_h,
    )
    &&& doc.is_static == input.opts.is_screenshot
    &&& doc.bar_h == l.bar_h
    &&& sort::views(doc.title_segments@) == tracks::title_segments(
        frames,
        elements::clip_text(input.opts.window_bar_title),
        document::timer_ms(total_s as i128),
    )
    &&& elements::clip_text(doc.window_bar_font_family) == elements::clip_text(
        input.opts.window_bar_font_family,
    )
    &&& doc.window_bar_font_size == input.opts.window_bar_font_size
    &&& doc.cols == frames[0].cols
    &&& doc.rows == frames[0].rows
    &&& doc.framerate == input.cfg.framerate
    &&& doc.total_frames == frames.len()
    &&& doc.render_time_ms == input.render_time_ms
}

/// The document of a recording without frames.
pub open spec fn empty_document(build: BuildInfo, l: CanvasLayout) -> Seq<char> {
    "<?xml version=\"1.0\" encoding=\"UTF-8\"?>\n<!-- Created with EVP v"@ + build.version@
        + " (sha: "@ + build.revision@
        + ", empty recording) -->\n<svg xmlns=\"http://www.w3.org/2000/svg\" viewBox=\"0 0 "@
        + text::decimal(l.canvas_w as nat) + " "@ + text::decimal(l.canvas_h as nat)
        + "\" width=\""@ + text::decimal(l.canvas_w as nat) + "\" height=\""@ + text::decimal(
        l.canvas_h as nat,
    ) + "\">\n</svg>\n"@
}

fn format_empty(build: &BuildInfo, l: &CanvasLayout) -> (out: String)
    ensures
        out@ == empty_document(*build, *l),
{
    let w: String = decimal_text(l.canvas_w as u128);
    let h: String = decimal_text(l.canvas_h as u128);
    let mut out: String =
        "<?xml version=\"1.0\" encoding=\"UTF-8\"?>\n<!-- Created with EVP v".to_string();
    out.append(build.version.as_str());
    out.append(" (sha: ");
    out.append(build.revision.as_str());
    out.append(
        ", empty recording) -->\n<svg xmlns=\"http://www.w3.org/2000/svg\" viewBox=\"0 0 ",
    );
    out.append(w.as_str());
    out.append(" ");
    out.append(h.as_str());
    out.append("\" width=\"");
    out.append(w.as_str());
    out.append("\" height=\"");
    out.append(h.as_str());
    out.append("\">\n</svg>\n");
    out
}

proof fn lemma_timer(total_ms: u32)
    requires
        total_ms >= 1,
    ensures
        markup::in_range(single::quotient(total_ms, 1000)),
        document::timer_ms(single::quotient(total_ms, 1000) as i128) >= 1,
{
    single::lemma_single_exact(1000);
    single::lemma_single_bounds(total_ms as int);
    let m = single::single(total_ms as int);
    assert(m >= 1) by {
        single::lemma_single_positive(total_ms as nat);
    }
    let num = (m * ONE) as nat;
    let n = num / 1000;
    single::lemma_single_ratio_bounds(num, 1000);
    single::lemma_single_close(num, 1000);
    let d = single::quotient(total_ms, 1000);
    assert(single::single(1000) == 1000);
    assert(d == single::single_ratio(num, 1000));
    let v = (d * 1000) as nat;
    single::lemma_single_close(v, 1);
    assert(v / 1 == v);
    assert(single::single(d * 1000) == single::single_ratio(v, 1));
}

proof fn lemma_two_moments(s: Seq<u32>, a: u32, b: u32)
    requires
        s.contains(a),
        s.contains(b),
        a != b,
    ensures
        sort::distinct_ascending(s).len() >= 2,
{
    sort::lemma_distinct_ascending(s);
    let d = sort::distinct_ascending(s);
    assert(d.contains(a) && d.contains(b));
    let i = choose|i: int| 0 <= i < d.len() && d[i] == a;
    let j = choose|j: int| 0 <= j < d.len() && d[j] == b;
    assert(i != j);
}

proof fn lemma_mouse_moments(v: Seq<MouseSpan>, total_ms: u32)
    ensures
        overlay::mouse_moments(v, total_ms).len() >= 2,
        overlay::mouse_moments(v, total_ms)[0] == 0,
        overlay::mouse_moments(v, total_ms)[1] == total_ms,
    decreases v.len(),
{
    if v.len() > 0 {
        lemma_mouse_moments(v.drop_last(), total_ms);
    }
}

/// Holds take their values from the frames.
proof fn lemma_holds_values<K>(s: Seq<(u32, Option<K>)>, n: int, q: spec_fn(K) -> bool)
    requires
        0 <= n <= s.len(),
        forall|i: int| 0 <= i < s.len() ==> ((#[trigger] s[i]).1 matches Some(v) ==> q(v)),
    ensures
        forall|i: int|
            0 <= i < tracks::held_after(s, n).0.len() ==> q(
                (#[trigger] tracks::held_after(s, n).0[i]).value,
            ),
        tracks::held_after(s, n).1 matches Some((v, _)) ==> q(v),
    decreases n,
{
    if n > 0 {
        lemma_holds_values(s, n - 1, q);
        assert(s[n - 1].1 matches Some(v) ==> q(v));
    }
}

/// A style block can take up the rules of a document.
pub proof fn lemma_style_block_fits(uses: Seq<FontUse>, f: Seq<FontData>, embed: bool)
    ensures
        document::block_fits(fonts::style_block_text(uses, f, embed)),
{
    reveal_strlit("");
    reveal_strlit("<style>\n");
    reveal_strlit("</style>\n");
    let block = fonts::style_block_text(uses, f, embed);
    if embed && uses.len() > 0 {
        let places = fonts::used_places(uses);
        let faces = fonts::faces_css(f, places, places.len() as int);
        lemma_faces_end(f, places, places.len() as int);
        let head = "<style>\n"@;
        let body = head + faces;
        assert(block =~= body + "</style>\n"@);
        assert(block[block.len() - 10] == body[body.len() - 1]);
        if faces.len() == 0 {
            assert(body[body.len() - 1] == head[head.len() - 1]);
        } else {
            assert(body[body.len() - 1] == faces[faces.len() - 1]);
        }
    }
}

proof fn lemma_faces_end(f: Seq<FontData>, places: Seq<u32>, n: int)
    ensures
        fonts::faces_css(f, places, n).len() > 0 ==> fonts::faces_css(f, places, n).last() == '\n',
    decreases n,
{
    reveal_strlit("");
    reveal_strlit("; }\n");
    reveal_strlit(" */\n");
    if n > 0 {
        lemma_faces_end(f, places, n - 1);
        if places[n - 1] < f.len() {
            let d = f[places[n - 1] as int];
            lemma_css_end(d);
            let r = fonts::faces_css(f, places, n);
            let before = fonts::faces_css(f, places, n - 1);
            assert(r == before + d.css());
            assert(r.last() == d.css().last());
        } else {
            assert(fonts::faces_css(f, places, n) =~= fonts::faces_css(f, places, n - 1));
        }
    }
}

proof fn lemma_css_end(d: FontData)
    ensures
        d.css().len() > 0,
        d.css().last() == '\n',
{
    reveal_strlit("; }\n");
    reveal_strlit(" */\n");
}

fn show_frames(frames: Vec<RawFrame>, is_screenshot: bool) -> (out: Vec<RawFrame>)
    ensures
        out@ == shown_scenes(frames@, is_screenshot),
{
    if is_screenshot && frames.len() == 1 {
        let ghost all = frames@;
        let mut frames: Vec<RawFrame> = frames;
        let f: RawFrame = frames.remove(0);
        let mut out: Vec<RawFrame> = Vec::new();
        out.push(
            RawFrame {
                t_ms: 0,
                cols: f.cols,
                rows: f.rows,
                cursor: f.cursor,
                default_fg: f.default_fg,
                default_bg: f.default_bg,
                cursor_color: f.cursor_color,
                cursor_accent: f.cursor_accent,
                mouse_cursor: f.mouse_cursor,
                title: f.title,
                cells: f.cells,
            },
        );
        assert(out@ =~= shown_scenes(all, is_screenshot));
        out
    } else {
        frames
    }
}

impl RenderInput {
    fn clip(&self) -> (r: Option<(u32, u32, u32, u32, u32)>)
        ensures
            r == self.clip_path(),
    {
        let r: u32 = self.cfg.frame_style.border_radius_px;
        if r > 0 {
            let l: &CanvasLayout = &self.layout;
            let a: u32 = if r < l.frame_w / 2 {
                r
            } else {
                l.frame_w / 2
            };
            let b: u32 = if a < l.frame_h / 2 {
                a
            } else {
                l.frame_h / 2
            };
            Some((l.frame_x, l.frame_y, l.frame_w, l.frame_h, b))
        } else {
            None
        }
    }

    fn place(&self) -> (p: Placement)
        requires
            metrics::metrics_fit(self.opts.font_size, self.cfg),
        ensures
            p == self.placement(),
            p.metrics.baseline <= BASELINE_LIMIT,
            -PIXEL_LIMIT * ONE <= p.metrics.letter_spacing <= PIXEL_LIMIT * ONE,
            -PIXEL_LIMIT * ONE <= 2 * (p.metrics.offset_x + ONE),
            2 * p.metrics.offset_x <= PIXEL_LIMIT * ONE,
            markup::in_range(p.metrics.scale_y as int),
            -0xff_ffff * ONE <= p.metrics.cell_center_y_offset <= 0xff_ffff * ONE,
            -0xff_ffff * ONE <= p.metrics.char_center_y_offset <= 0xff_ffff * ONE,
    {
        let m: SvgMetrics = SvgMetrics::new(self.opts.font_size, &self.cfg);
        Placement {
            cell_w: self.cfg.cell_width(),
            cell_h: self.cfg.cell_height(),
            content_x: self.layout.content_x,
            content_y: self.layout.content_y,
            clipped: self.cfg.frame_style.border_radius_px > 0,
            metrics: m,
        }
    }
}

proof fn lemma_in_order(frames: Seq<RawFrame>, input: RenderInput, total_ms: u32)
    requires
        input.fits(frames),
        total_ms == total_millis(frames[frames.len() - 1].t_ms, input.cfg),
    ensures
        split::in_order(cells::scenes_of(frames), total_ms),
{
    let scenes = cells::scenes_of(frames);
    assert forall|i: int, j: int| 0 <= i <= j < scenes.len() implies (#[trigger] scenes[i]).t_ms
        <= (#[trigger] scenes[j]).t_ms by {
        assert(frames[i].t_ms <= frames[j].t_ms);
    }
}

/// What holds of every cell of every scene holds of the state of a cell.
proof fn lemma_state_like(
    scenes: Seq<Scene>,
    n: int,
    i: int,
    q: spec_fn(CellVisualView, Rgb) -> bool,
)
    requires
        1 <= n <= scenes.len(),
        forall|k: int|
            0 <= k < scenes.len() ==> q((#[trigger] scenes[k]).visuals[i], scenes[k].default_bg),
    ensures
        q(cells::state_after(scenes, n, i).visual, cells::state_after(scenes, n, i).default_bg),
    decreases n,
{
    if n > 1 {
        lemma_state_like(scenes, n - 1, i, q);
        assert(q(scenes[n - 1].visuals[i], scenes[n - 1].default_bg));
    } else {
        assert(q(scenes[0].visuals[i], scenes[0].default_bg));
    }
}

/// Whether something holds of the look and the background of every span.
spec fn each_span(v: Seq<CellSpanView>, q: spec_fn(CellVisualView, Rgb) -> bool) -> bool {
    forall|i: int| 0 <= i < v.len() ==> q((#[trigger] v[i]).visual, v[i].default_bg)
}

/// Whether it holds of the first `m` cells of every scene.
spec fn each_cell(
    scenes: Seq<Scene>,
    m: int,
    q: spec_fn(CellVisualView, Rgb) -> bool,
) -> bool {
    forall|k: int, i: int|
        0 <= k < scenes.len() && 0 <= i < m ==> q(
            #[trigger] scenes[k].visuals[i],
            scenes[k].default_bg,
        )
}

proof fn lemma_each_concat(
    a: Seq<CellSpanView>,
    b: Seq<CellSpanView>,
    q: spec_fn(CellVisualView, Rgb) -> bool,
)
    requires
        each_span(a, q),
        each_span(b, q),
    ensures
        each_span(a + b, q),
{
    assert forall|i: int| 0 <= i < (a + b).len() implies q(
        (#[trigger] (a + b)[i]).visual,
        (a + b)[i].default_bg,
    ) by {
        if i < a.len() {
            assert(q(a[i].visual, a[i].default_bg));
        } else {
            assert(q(b[i - a.len()].visual, b[i - a.len()].default_bg));
        }
    }
}

proof fn lemma_each_state(
    scenes: Seq<Scene>,
    n: int,
    m: int,
    i: int,
    q: spec_fn(CellVisualView, Rgb) -> bool,
)
    requires
        1 <= n <= scenes.len(),
        0 <= i < m,
        each_cell(scenes, m, q),
    ensures
        q(cells::state_after(scenes, n, i).visual, cells::state_after(scenes, n, i).default_bg),
{
    assert forall|k: int| 0 <= k < scenes.len() implies q(
        (#[trigger] scenes[k]).visuals[i],
        scenes[k].default_bg,
    ) by {
        assert(q(scenes[k].visuals[i], scenes[k].default_bg));
    }
    lemma_state_like(scenes, n, i, q);
}

proof fn lemma_each_by(
    scenes: Seq<Scene>,
    n: int,
    m: int,
    cols: u16,
    q: spec_fn(CellVisualView, Rgb) -> bool,
)
    requires
        1 <= n < scenes.len(),
        each_cell(scenes, m, q),
    ensures
        each_span(cells::ended_by(scenes, n, m, cols), q),
    decreases m,
{
    if m > 0 {
        lemma_each_by(scenes, n, m - 1, cols, q);
        lemma_each_state(scenes, n, m, m - 1, q);
        let s = cells::state_after(scenes, n, m - 1);
        let piece = if cells::ends_state(s, scenes[n], m - 1) {
            cells::span_of(s, m - 1, cols, scenes[n].t_ms)
        } else {
            Seq::empty()
        };
        assert(each_span(piece, q));
        lemma_each_concat(cells::ended_by(scenes, n, m - 1, cols), piece, q);
    }
}

proof fn lemma_each_before(
    scenes: Seq<Scene>,
    n: int,
    m: int,
    cols: u16,
    q: spec_fn(CellVisualView, Rgb) -> bool,
)
    requires
        1 <= n <= scenes.len(),
        each_cell(scenes, m, q),
    ensures
        each_span(cells::ended_before(scenes, n, m, cols), q),
    decreases n,
{
    if n > 1 {
        lemma_each_before(scenes, n - 1, m, cols, q);
        lemma_each_by(scenes, n - 1, m, cols, q);
        lemma_each_concat(
            cells::ended_before(scenes, n - 1, m, cols),
            cells::ended_by(scenes, n - 1, m, cols),
            q,
        );
    }
}

proof fn lemma_each_open(
    scenes: Seq<Scene>,
    m: int,
    cols: u16,
    total_ms: u32,
    q: spec_fn(CellVisualView, Rgb) -> bool,
)
    requires
        1 <= scenes.len(),
        each_cell(scenes, m, q),
    ensures
        each_span(cells::open_spans(scenes, m, cols, total_ms), q),
    decreases m,
{
    if m > 0 {
        lemma_each_open(scenes, m - 1, cols, total_ms, q);
        lemma_each_state(scenes, scenes.len() as int, m, m - 1, q);
        let s = cells::state_after(scenes, scenes.len() as int, m - 1);
        lemma_each_concat(
            cells::open_spans(scenes, m - 1, cols, total_ms),
            cells::span_of(s, m - 1, cols, total_ms),
            q,
        );
    }
}

proof fn lemma_each_lasting(v: Seq<CellSpanView>, q: spec_fn(CellVisualView, Rgb) -> bool)
    requires
        each_span(v, q),
    ensures
        each_span(cells::lasting(v), q),
    decreases v.len(),
{
    if v.len() > 0 {
        let d = v.drop_last();
        assert forall|i: int| 0 <= i < d.len() implies q(
            (#[trigger] d[i]).visual,
            d[i].default_bg,
        ) by {
            assert(q(v[i].visual, v[i].default_bg));
        }
        lemma_each_lasting(d, q);
        assert(q(v[v.len() - 1].visual, v[v.len() - 1].default_bg));
        let kept = cells::lasting(d);
        let r = cells::lasting(v);
        assert forall|i: int| 0 <= i < r.len() implies q(
            (#[trigger] r[i]).visual,
            r[i].default_bg,
        ) by {
            if i < kept.len() {
                assert(q(kept[i].visual, kept[i].default_bg));
            }
        }
    }
}

proof fn lemma_each_cut(
    list: Seq<CellSpanView>,
    n: int,
    q: spec_fn(CellVisualView, Rgb) -> bool,
)
    requires
        0 <= n <= list.len(),
        each_span(list, q),
    ensures
        each_span(split::cut_upto(list, n), q),
    decreases n,
{
    if n > 0 {
        lemma_each_cut(list, n - 1, q);
        assert(q(list[n - 1].visual, list[n - 1].default_bg));
        lemma_each_concat(
            split::cut_upto(list, n - 1),
            split::cut(list[n - 1], split::latest_start(list, list[n - 1].end_ms)),
            q,
        );
    }
}

proof fn lemma_each_row(
    v: Seq<CellSpanView>,
    rows: int,
    q: spec_fn(CellVisualView, Rgb) -> bool,
)
    requires
        each_span(v, q),
    ensures
        each_span(split::cut_rows(v, rows), q),
    decreases rows,
{
    if rows > 0 {
        lemma_each_row(v, rows - 1, q);
        let r = (rows - 1) as u16;
        let of_row = split::on_row(v, r);
        let list = sort::sorted::<CellSpan, split::SpanByEnd>(of_row);
        sort::lemma_sorted_same_items::<CellSpan, split::SpanByEnd>(of_row);
        assert forall|i: int| 0 <= i < list.len() implies q(
            (#[trigger] list[i]).visual,
            list[i].default_bg,
        ) by {
            let j = choose|j: int| 0 <= j < of_row.len() && of_row[j] == list[i];
            split::lemma_on_row_subset(v, r, j);
            let k = choose|k: int| 0 <= k < v.len() && #[trigger] v[k] == of_row[j];
            assert(q(v[k].visual, v[k].default_bg));
        }
        lemma_each_cut(list, list.len() as int, q);
        lemma_each_concat(split::cut_rows(v, rows - 1), split::cut_row(v, r), q);
    }
}

/// What holds of every cell of every scene holds of every span of the document.
proof fn lemma_each_document_span(
    frames: Seq<RawFrame>,
    total_ms: u32,
    q: spec_fn(CellVisualView, Rgb) -> bool,
)
    requires
        frames.len() > 0,
        each_cell(cells::scenes_of(frames), cells::cell_count(frames), q),
    ensures
        each_span(document_spans(frames, total_ms), q),
{
    let scenes = cells::scenes_of(frames);
    let cols = frames[0].cols;
    let n = cells::cell_count(frames);
    let ended = cells::ended_before(scenes, scenes.len() as int, n, cols);
    let open = cells::open_spans(scenes, n, cols, total_ms);
    lemma_each_before(scenes, scenes.len() as int, n, cols, q);
    lemma_each_open(scenes, n, cols, total_ms, q);
    lemma_each_concat(ended, open, q);
    lemma_each_lasting(ended + open, q);
    lemma_each_row(
        cells::cell_spans(scenes, n, cols, total_ms),
        frames[0].rows as int,
        q,
    );
}

proof fn lemma_document_spans(frames: Seq<RawFrame>, input: RenderInput, total_ms: u32)
    requires
        input.fits(frames),
        frames[0].cols > 0,
        total_ms == total_millis(frames[frames.len() - 1].t_ms, input.cfg),
    ensures
        layout::spans_fit(document_spans(frames, total_ms), frames[0].cols, frames[0].rows),
{
    reveal_strlit(" ");
    let scenes = cells::scenes_of(frames);
    let cols = frames[0].cols;
    let rows = frames[0].rows;
    let n = cells::cell_count(frames);
    assert(frames[0].wf());
    assert(n <= cols * 0xffff) by (nonlinear_arith)
        requires
            n == cols * rows,
            rows <= 0xffff,
            cols >= 0,
    ;
    lemma_in_order(frames, input, total_ms);
    split::lemma_cell_spans_on_grid(scenes, cols, n, total_ms);
    let raw = cells::cell_spans(scenes, n, cols, total_ms);
    split::lemma_cut_rows_on_grid(raw, rows as int, cols, n, total_ms);
    let q = |v: CellVisualView, bg: Rgb| v.text.len() <= PIXEL_LIMIT;
    assert forall|k: int, i: int| 0 <= k < scenes.len() && 0 <= i < n implies q(
        #[trigger] scenes[k].visuals[i],
        scenes[k].default_bg,
    ) by {
        assert(input.frame_fits(frames[k]));
        assert(frames[k].wf() && frames[k].cells@.len() >= frames[0].cells@.len());
        assert(frames[k].cells@[i].text@.len() <= PIXEL_LIMIT);
    }
    lemma_each_document_span(frames, total_ms, q);
    let v = document_spans(frames, total_ms);
    assert forall|i: int| 0 <= i < v.len() implies (#[trigger] v[i]).col < cols && v[i].row < rows
        && v[i].start_ms <= v[i].end_ms && v[i].visual.text.len() <= PIXEL_LIMIT by {
        assert(split::on_grid(v[i], cols, n, total_ms));
        assert(q(v[i].visual, v[i].default_bg));
        let r = v[i].row;
        assert(r < rows) by (nonlinear_arith)
            requires
                r * cols + v[i].col < n,
                n == cols * rows,
                cols > 0,
                v[i].col >= 0,
        ;
    }
}

proof fn lemma_no_cells(frames: Seq<RawFrame>, input: RenderInput, total_ms: u32)
    requires
        input.fits(frames),
        frames[0].cols == 0,
    ensures
        layout::spans_fit(document_spans(frames, total_ms), frames[0].cols, frames[0].rows),
{
    assert(frames[0].wf());
    assert(cells::cell_count(frames) == 0) by (nonlinear_arith)
        requires
            cells::cell_count(frames) == frames[0].cols * frames[0].rows,
            frames[0].cols == 0,
    ;
    let scenes = cells::scenes_of(frames);
    lemma_nothing_ended(scenes, scenes.len() as int, 0);
    let none = cells::ended_before(scenes, scenes.len() as int, 0, 0) + cells::open_spans(
        scenes,
        0,
        0,
        total_ms,
    );
    assert(none.len() == 0);
    assert(cells::lasting(none).len() == 0);
    lemma_nothing_cut(cells::lasting(none), frames[0].rows as int);
}

proof fn lemma_nothing_ended(scenes: Seq<Scene>, n: int, cols: u16)
    ensures
        cells::ended_before(scenes, n, 0, cols).len() == 0,
    decreases n,
{
    if n > 1 {
        lemma_nothing_ended(scenes, n - 1, cols);
    }
}

proof fn lemma_nothing_cut(v: Seq<CellSpanView>, rows: int)
    requires
        v.len() == 0,
    ensures
        split::cut_rows(v, rows).len() == 0,
    decreases rows,
{
    if rows > 0 {
        lemma_nothing_cut(v, rows - 1);
        let of_row = split::on_row(v, (rows - 1) as u16);
        assert(of_row.len() == 0);
        assert(sort::sorted::<CellSpan, split::SpanByEnd>(of_row).len() == 0);
    }
}

proof fn lemma_frames_tracks(frames: Seq<RawFrame>, input: RenderInput, total_ms: u32)
    requires
        input.fits(frames),
    ensures
        tracks::mice_fit(
            tracks::holds(tracks::mice_of(frames), total_ms),
            input.layout.content_x,
            input.layout.content_y,
            input.cfg.cell_w(),
            input.cfg.cell_h(),
        ),
        tracks::cursors_fit(
            tracks::holds(tracks::cursors_of(frames), total_ms),
            input.layout.content_x,
            input.layout.content_y,
            input.cfg.cell_w(),
            input.cfg.cell_h(),
        ),
{
    let l = input.layout;
    let w = input.cfg.cell_w();
    let h = input.cfg.cell_h();
    let q = |v: (Measure, Measure, MouseState)|
        tracks::middle_fits(l.content_x, v.0, w) && tracks::middle_fits(l.content_y, v.1, h);
    let m = tracks::mice_of(frames);
    assert forall|i: int| 0 <= i < m.len() implies ((#[trigger] m[i]).1 matches Some(v) ==> q(
        v,
    )) by {
        assert(input.frame_fits(frames[i]));
    }
    lemma_holds_values(m, m.len() as int, q);
    let mh = tracks::holds(m, total_ms);
    assert forall|i: int| 0 <= i < mh.len() implies tracks::middle_fits(
        l.content_x,
        (#[trigger] mh[i]).value.0,
        w,
    ) && tracks::middle_fits(l.content_y, mh[i].value.1, h) by {
        if i < tracks::held_after(m, m.len() as int).0.len() {
            assert(q(tracks::held_after(m, m.len() as int).0[i].value));
        }
        assert(q(mh[i].value));
    }
    let qc = |v: (u16, u16, Rgb)|
        l.content_x + v.0 * w <= u32::MAX && l.content_y + v.1 * h <= u32::MAX;
    let c = tracks::cursors_of(frames);
    assert forall|i: int| 0 <= i < c.len() implies ((#[trigger] c[i]).1 matches Some(v) ==> qc(
        v,
    )) by {
        assert(input.frame_fits(frames[i]));
    }
    lemma_holds_values(c, c.len() as int, qc);
    let ch = tracks::holds(c, total_ms);
    assert forall|i: int| 0 <= i < ch.len() implies l.content_x + (#[trigger] ch[i]).value.0 * w
        <= u32::MAX && l.content_y + ch[i].value.1 * h <= u32::MAX by {
        if i < tracks::held_after(c, c.len() as int).0.len() {
            assert(qc(tracks::held_after(c, c.len() as int).0[i].value));
        }
        assert(qc(ch[i].value));
    }
}

/// The document of the frames, with the given style block.
fn build_document(frames: &Vec<RawFrame>, input: &RenderInput, style_block: String) -> (doc: SvgDoc)
    requires
        input.fits(frames@),
        style_block@ == fonts::style_block_text(
            input.book.uses@,
            input.book.fonts@,
            input.opts.embed_fonts,
        ),
    ensures
        is_document_of(
            doc,
            frames@,
            *input,
            total_millis(frames@[frames@.len() - 1].t_ms, input.cfg) as u32,
        ),
        doc.printable(),
{
    let n: usize = frames.len();
    let t: u32 = frames[n - 1].t_ms + input.cfg.frame_millis();
    let total_ms: u32 = if t < 1 {
        1
    } else {
        t
    };
    let p: Placement = input.place();
    let cols: u16 = frames[0].cols;
    let rows: u16 = frames[0].rows;
    let raw: Vec<CellSpan> = build_cell_spans(frames, total_ms);
    let spans: Vec<CellSpan> = split_cell_spans(&raw, rows);
    proof {
        if cols > 0 {
            lemma_document_spans(frames@, *input, total_ms);
        } else {
            lemma_no_cells(frames@, *input, total_ms);
        }
        lemma_frames_tracks(frames@, *input, total_ms);
        lemma_timer(total_ms);
        lemma_style_block_fits(input.book.uses@, input.book.fonts@, input.opts.embed_fonts);
    }
    let rects: Vec<BgRect> = build_rects(&spans, &p, Ghost(cols), Ghost(rows));
    let strokes: Vec<BgRect> = build_lines(&spans, &p, Ghost(cols), Ghost(rows));
    let lines: Vec<TextElement> = build_rows(&spans, &p, Ghost(cols), Ghost(rows));
    let ghost fresh_lines = sort::views(lines@);
    let ghost fresh_rects = sort::views(rects@);
    let ghost fresh_strokes = sort::views(strokes@);
    proof {
        let fresh = |e: TextElementView| layout::fresh_row(e);
        let rest = |e: TextElementView| arrange::resting(e);
        let sound = |e: TextElementView| bounds::sound_row(e);
        assert forall|i: int| 0 <= i < fresh_lines.len() implies rest(#[trigger] fresh_lines[i])
            && sound(fresh_lines[i]) by {
            assert(fresh(fresh_lines[i]));
        }
        let fresh_r = |r: BgRectView| layout::fresh_rect(r);
        let rest_r = |r: BgRectView| arrange::resting_rect(r);
        let sound_r = |r: BgRectView| bounds::sound_rect(r);
        assert forall|i: int| 0 <= i < fresh_rects.len() implies rest_r(#[trigger] fresh_rects[i])
            && sound_r(fresh_rects[i]) by {
            assert(fresh_r(fresh_rects[i]));
        }
        assert forall|i: int|
            0 <= i < fresh_strokes.len() implies rest_r(#[trigger] fresh_strokes[i]) && sound_r(
            fresh_strokes[i],
        ) by {
            assert(fresh_r(fresh_strokes[i]));
        }
        assert(merge::every(fresh_lines, rest));
        assert(merge::every(fresh_lines, sound));
        assert(merge::every(fresh_rects, rest_r));
        assert(merge::every(fresh_rects, sound_r));
        bounds::lemma_arranged_text_printable(fresh_lines);
        assert(merge::every(fresh_strokes, rest_r));
        assert(merge::every(fresh_strokes, sound_r));
        bounds::lemma_arranged_rects_printable(fresh_rects);
        bounds::lemma_arranged_rects_printable(fresh_strokes);
    }
    let text_elements: Vec<TextElement> = arrange_text(lines);
    let bg_rects: Vec<BgRect> = arrange_rects(rects);
    let underlines: Vec<BgRect> = arrange_rects(strokes);
    let cursor_holds: Vec<Hold<(u16, u16, Rgb)>> = build_cursor_holds(frames, total_ms);
    let cursor_rects: Vec<CursorRect> = place_cursors(
        &cursor_holds,
        input.layout.content_x,
        input.layout.content_y,
        p.cell_w,
        p.cell_h,
    );
    let mouse_holds: Vec<Hold<(Measure, Measure, MouseState)>> = build_mouse_holds(
        frames,
        total_ms,
    );
    let mouse_spans: Vec<MouseSpan> = place_mouse(
        &mouse_holds,
        input.layout.content_x,
        input.layout.content_y,
        p.cell_w,
        p.cell_h,
    );
    let total_s: Measure = from_quotient(total_ms, 1000);
    let timer: u32 = timer_millis(total_s);
    proof {
        lemma_mouse_moments(mouse_spans@, timer);
        let m = overlay::mouse_moments(mouse_spans@, timer);
        assert(m.contains(m[0]) && m.contains(m[1]));
        lemma_two_moments(m, 0, timer);
    }
    let title_segments: Vec<TitleSegment> = build_title_segments(
        frames,
        &input.opts.window_bar_title,
        timer,
    );
    let l: &CanvasLayout = &input.layout;
    SvgDoc {
        version: input.build.version.clone(),
        revision: input.build.revision.clone(),
        canvas_w: l.canvas_w,
        canvas_h: l.canvas_h,
        font_family: select_font_family(
            input.opts.font_family.as_str(),
            input.opts.no_system_fonts,
            &input.book.primary,
        ),
        font_size: input.opts.font_size,
        letter_spacing: p.metrics.letter_spacing,
        style_block,
        canvas_bg: input.cfg.frame_style.margin_fill,
        frame_bg_x: l.frame_x,
        frame_bg_y: l.frame_y,
        frame_bg_w: l.frame_w,
        frame_bg_h: l.frame_h,
        frame_bg_fill: frames[0].default_bg,
        frame_clip_path: input.clip(),
        window_bar_circles: build_bar_circles(l, input.cfg.frame_style.window_bar),
        master_timer_dur: total_s,
        bg_rects,
        underlines,
        text_elements,
        cursor_rects,
        mouse_spans,
        is_static: input.opts.is_screenshot,
        bar_h: l.bar_h,
        title_segments,
        window_bar_font_family: copy_optional(&input.opts.window_bar_font_family),
        window_bar_font_size: input.opts.window_bar_font_size,
        cols: cols as u32,
        rows: rows as u32,
        framerate: input.cfg.framerate,
        total_frames: n,
        render_time_ms: input.render_time_ms,
    }
}

fn copy_optional(s: &Option<String>) -> (r: Option<String>)
    ensures
        elements::clip_text(r) == elements::clip_text(*s),
{
    match s {
        Some(t) => Some(t.clone()),
        None => None,
    }
}

proof fn lemma_titles_same(
    a: SvgDoc,
    b: SvgDoc,
    v: Seq<elements::TitleSegmentView>,
)
    requires
        a.frame_bg_x == b.frame_bg_x,
        a.frame_bg_y == b.frame_bg_y,
        a.frame_bg_w == b.frame_bg_w,
        a.bar_h == b.bar_h,
        a.is_static == b.is_static,
        a.window_bar_font_size == b.window_bar_font_size,
        elements::clip_text(a.window_bar_font_family) == elements::clip_text(
            b.window_bar_font_family,
        ),
        a.master_timer_dur == b.master_timer_dur,
    ensures
        a.titles_svg(v) == b.titles_svg(v),
    decreases v.len(),
{
    if v.len() > 0 {
        lemma_titles_same(a, b, v.drop_last());
        assert(a.title_svg(v.last()) == b.title_svg(v.last()));
    }
}

/// Frames and input determine the document's text.
pub proof fn lemma_document_text_unique(
    a: SvgDoc,
    b: SvgDoc,
    frames: Seq<RawFrame>,
    input: RenderInput,
    total_ms: u32,
)
    requires
        is_document_of(a, frames, input, total_ms),
        is_document_of(b, frames, input, total_ms),
    ensures
        a.svg() == b.svg(),
{
    assert(a.classes() == b.classes());
    assert(a.default_fg() == b.default_fg());
    assert(a.head() == b.head());
    assert(a.frame() == b.frame());
    lemma_titles_same(a, b, sort::views(a.title_segments@));
    assert(a.bar() == b.bar());
    assert(a.timer() == b.timer());
    assert(a.body() == b.body());
}

/// Renders frames as an SVG document. Without frames the document is empty; with
/// embedded fonts alone, every character must have a glyph.
pub fn render_from_frames(frames: Vec<RawFrame>, input: &RenderInput) -> (r: Result<
    String,
    StyleError,
>)
    requires
        frames@.len() > 0 ==> input.fits(shown_scenes(frames@, input.opts.is_screenshot)),
    ensures
        match r {
            Ok(out) => if frames@.len() == 0 {
                out@ == empty_document(input.build, input.layout)
            } else {
                let shown = shown_scenes(frames@, input.opts.is_screenshot);
                &&& input.opts.no_system_fonts ==> fonts::missing_from(
                    input.book.uses@,
                    0,
                ) is None
                &&& exists|doc: SvgDoc|
                    #[trigger] is_document_of(
                        doc,
                        shown,
                        *input,
                        total_millis(shown[shown.len() - 1].t_ms, input.cfg) as u32,
                    ) && out@ == doc.svg()
            },
            Err(StyleError::GlyphMissing(c)) => frames@.len() > 0 && input.opts.no_system_fonts
                && fonts::missing_from(input.book.uses@, 0) == Some(c),
        },
{
    if frames.len() == 0 {
        return Ok(format_empty(&input.build, &input.layout));
    }
    let shown: Vec<RawFrame> = show_frames(frames, input.opts.is_screenshot);
    match generate_style_block(
        &input.book.uses,
        &input.book.fonts,
        input.opts.embed_fonts,
        input.opts.no_system_fonts,
    ) {
        Err(e) => Err(e),
        Ok(style_block) => {
            let doc: SvgDoc = build_document(&shown, input, style_block);
            let out: String = doc.to_svg();
            Ok(out)
        },
    }
}

/// Whether a frame shows the glyph `g` on the line `y`: some cell with text does.
pub open spec fn frame_shows(
    f: RawFrame,
    cells_n: int,
    cols: u16,
    p: Placement,
    y: u32,
    g: Glyph,
) -> bool {
    exists|i: int|
        0 <= i < cells_n && p.line((i / cols as int) as u16) == y && layout::cell_shows(
            p,
            (i % cols as int) as u16,
            #[trigger] cells::frame_visuals(f)[i],
            g,
        )
}

/// A document shows what was recorded: at every moment its text is exactly that
/// of the frame that was on screen at that moment.
pub proof fn lemma_document_shows_frames(
    doc: SvgDoc,
    frames: Seq<RawFrame>,
    input: RenderInput,
    total_ms: u32,
    n: int,
    t: u32,
    y: u32,
    g: Glyph,
)
    requires
        input.fits(frames),
        total_ms == total_millis(frames[frames.len() - 1].t_ms, input.cfg),
        is_document_of(doc, frames, input, total_ms),
        frames[0].cols > 0,
        0 <= n < frames.len(),
        frames[n].t_ms <= t < total_ms,
        n + 1 < frames.len() ==> t < frames[n + 1].t_ms,
    ensures
        elements::text_shows(doc.lines(), t, y, g) == frame_shows(
            frames[n],
            cells::cell_count(frames),
            frames[0].cols,
            input.placement(),
            y,
            g,
        ),
{
    let p = input.placement();
    let cols = frames[0].cols;
    let rows = frames[0].rows;
    let count = cells::cell_count(frames);
    let scenes = cells::scenes_of(frames);
    let raw = cells::cell_spans(scenes, count, cols, total_ms);
    let v = document_spans(frames, total_ms);
    let r = layout::span_rows(v, p);
    assert(frames[0].wf());
    assert(count <= cols * 0xffff) by (nonlinear_arith)
        requires
            count == cols * rows,
            rows <= 0xffff,
            cols >= 0,
    ;
    lemma_in_order(frames, input, total_ms);
    lemma_document_spans(frames, input, total_ms);
    split::lemma_cell_spans_on_grid(scenes, cols, count, total_ms);
    lemma_rows_resting(v, p, cols, rows);
    arrange::lemma_arranged_text_shows(r, t, y, g);
    layout::lemma_span_rows_show(v, p, t, y, g);
    assert(split::is_on(scenes, n, t, total_ms));
    let vis = cells::frame_visuals(frames[n]);
    if frame_shows(frames[n], count, cols, p, y, g) {
        let i = choose|i: int|
            0 <= i < count && p.line((i / cols as int) as u16) == y && layout::cell_shows(
                p,
                (i % cols as int) as u16,
                #[trigger] vis[i],
                g,
            );
        let row = (i / cols as int) as u16;
        let col = (i % cols as int) as u16;
        split::lemma_cell_spans_show(scenes, n, i, cols, count, total_ms, t, vis[i]);
        split::lemma_cut_rows_shows(raw, rows as int, t, row, col, vis[i]);
        assert(i / (cols as int) < rows) by (nonlinear_arith)
            requires
                0 <= i < count,
                count == cols * rows,
                cols > 0,
        ;
        assert(0 <= i / (cols as int)) by (nonlinear_arith)
            requires
                0 <= i,
                cols > 0,
        ;
        assert(split::shows_cell(v, t, row, col, vis[i]));
        let k = choose|k: int|
            0 <= k < v.len() && split::span_shows_cell(#[trigger] v[k], t, row, col, vis[i]);
        assert(v[k].start_ms <= t < v[k].end_ms && p.line(v[k].row) == y);
    }
    if elements::text_shows(r, t, y, g) {
        let k = choose|k: int|
            0 <= k < v.len() && (#[trigger] v[k]).start_ms <= t < v[k].end_ms && p.line(v[k].row)
                == y && layout::cell_shows(p, v[k].col, v[k].visual, g);
        let row = v[k].row;
        let col = v[k].col;
        assert(split::span_shows_cell(v[k], t, row, col, v[k].visual));
        assert(split::shows_cell(v, t, row, col, v[k].visual));
        split::lemma_cut_rows_shows(raw, rows as int, t, row, col, v[k].visual);
        let i = row * cols + col;
        assert(col < cols && row < rows);
        assert(0 <= i < count) by (nonlinear_arith)
            requires
                i == row * cols + col,
                col < cols,
                row < rows,
                count == cols * rows,
                row >= 0,
                col >= 0,
        ;
        vstd::arithmetic::div_mod::lemma_fundamental_div_mod_converse(
            i,
            cols as int,
            row as int,
            col as int,
        );
        assert((i / cols as int) as u16 == row);
        assert((i % cols as int) as u16 == col);
        split::lemma_cell_spans_show(scenes, n, i, cols, count, total_ms, t, v[k].visual);
        assert(scenes[n].visuals[i] == v[k].visual);
        assert(layout::cell_shows(p, col, vis[i], g));
    }
}

proof fn lemma_rects_resting(v: Seq<CellSpanView>, p: Placement, cols: u16, rows: u16)
    requires
        layout::spans_fit(v, cols, rows),
        p.content_x <= PIXEL_LIMIT,
        p.cell_w <= PIXEL_LIMIT,
        cols * p.cell_w <= PIXEL_LIMIT,
    ensures
        merge::every(layout::span_rects(v, p), |r: BgRectView| arrange::resting_rect(r)),
    decreases v.len(),
{
    let rest = |r: BgRectView| arrange::resting_rect(r);
    if v.len() > 0 {
        let d = v.drop_last();
        assert forall|i: int| 0 <= i < d.len() implies (#[trigger] d[i]).col < cols && d[i].row
            < rows && d[i].start_ms <= d[i].end_ms && d[i].visual.text.len() <= PIXEL_LIMIT by {
            assert(v[i].col < cols);
        }
        lemma_rects_resting(d, p, cols, rows);
        let s = v[v.len() - 1];
        assert(s.start_ms <= s.end_ms && s.col < cols);
        let (col, w) = (s.col as int, p.cell_w as int);
        assert(0 <= col * w <= cols * w) by (nonlinear_arith)
            requires
                0 <= col < cols,
                0 <= w,
        ;
        let before = layout::span_rects(d, p);
        let after = layout::span_rects(v, p);
        assert forall|i: int| 0 <= i < after.len() implies rest(#[trigger] after[i]) by {
            if i < before.len() {
                assert(rest(before[i]));
            } else {
                assert(after[i] == layout::span_rect(s, p));
            }
        }
    }
}

/// Of places that lie side by side, only one holds a point.
proof fn lemma_one_place(origin: int, side: int, a: int, b: int, at: int)
    requires
        side > 0,
        origin + a * side <= at < origin + a * side + side,
        origin + b * side <= at < origin + b * side + side,
    ensures
        a == b,
{
    assert(a == b) by (nonlinear_arith)
        requires
            side > 0,
            origin + a * side <= at < origin + a * side + side,
            origin + b * side <= at < origin + b * side + side,
    ;
}

/// A document shows the colours that were recorded: at every moment a pixel of a
/// cell is covered with the background of that cell in the frame that was on screen
/// at that moment, and where that is the default one, with nothing. The default
/// background is that of the whole document, so it must not change.
pub proof fn lemma_document_colors_frames(
    doc: SvgDoc,
    frames: Seq<RawFrame>,
    input: RenderInput,
    total_ms: u32,
    n: int,
    t: u32,
    i: int,
    px: int,
    py: int,
    fill: Rgb,
)
    requires
        input.fits(frames),
        total_ms == total_millis(frames[frames.len() - 1].t_ms, input.cfg),
        is_document_of(doc, frames, input, total_ms),
        frames[0].cols > 0,
        forall|k: int|
            0 <= k < frames.len() ==> (#[trigger] frames[k]).default_bg == frames[0].default_bg,
        0 <= n < frames.len(),
        frames[n].t_ms <= t < total_ms,
        n + 1 < frames.len() ==> t < frames[n + 1].t_ms,
        0 <= i < cells::cell_count(frames),
        ({
            let p = input.placement();
            let col = i % frames[0].cols as int;
            let row = i / frames[0].cols as int;
            &&& p.content_x + col * p.cell_w <= px < p.content_x + col * p.cell_w + p.cell_w
            &&& p.content_y + row * p.cell_h <= py < p.content_y + row * p.cell_h + p.cell_h
        }),
    ensures
        elements::rects_cover(doc.rects(), t, px, py, fill) == (fill == cells::frame_visuals(
            frames[n],
        )[i].bg && fill != doc.frame_bg_fill),
{
    let p = input.placement();
    let cols = frames[0].cols;
    let rows = frames[0].rows;
    let count = cells::cell_count(frames);
    let scenes = cells::scenes_of(frames);
    let ground = frames[0].default_bg;
    let raw = cells::cell_spans(scenes, count, cols, total_ms);
    let v = document_spans(frames, total_ms);
    let vis = cells::frame_visuals(frames[n]);
    assert(frames[0].wf());
    assert(count <= cols * 0xffff) by (nonlinear_arith)
        requires
            count == cols * rows,
            rows <= 0xffff,
            cols >= 0,
    ;
    assert(split::one_ground(scenes)) by {
        assert forall|k: int| 0 <= k < scenes.len() implies (#[trigger] scenes[k]).default_bg
            == scenes[0].default_bg by {
            assert(frames[k].default_bg == frames[0].default_bg);
        }
    }
    lemma_in_order(frames, input, total_ms);
    lemma_document_spans(frames, input, total_ms);
    split::lemma_cell_spans_on_grid(scenes, cols, count, total_ms);
    lemma_rects_resting(v, p, cols, rows);
    arrange::lemma_arranged_rects_cover(layout::span_rects(v, p), t, px, py, fill);
    layout::lemma_span_rects_cover(v, p, t, px, py, fill);
    let q = |w: CellVisualView, bg: Rgb| bg == ground;
    assert(each_cell(scenes, count, q)) by {
        assert forall|k: int, j: int| 0 <= k < scenes.len() && 0 <= j < count implies q(
            #[trigger] scenes[k].visuals[j],
            scenes[k].default_bg,
        ) by {
            assert(frames[k].default_bg == frames[0].default_bg);
        }
    }
    lemma_each_document_span(frames, total_ms, q);
    let row = (i / cols as int) as u16;
    let col = (i % cols as int) as u16;
    let r = i / (cols as int);
    assert(0 <= r < rows) by (nonlinear_arith)
        requires
            0 <= i < count,
            count == cols * rows,
            cols > 0,
            r == i / (cols as int),
    ;
    assert(row == r && col == i % (cols as int));
    lemma_edges(p, cols, rows, col, row);
    assert(split::is_on(scenes, n, t, total_ms));
    if fill == vis[i].bg && fill != ground {
        split::lemma_cell_spans_show(scenes, n, i, cols, count, total_ms, t, vis[i]);
        split::lemma_cut_rows_shows(raw, rows as int, t, row, col, vis[i]);
        assert(split::seen(scenes, vis[i]));
        assert(split::shows_cell(v, t, row, col, vis[i]));
        let k = choose|k: int|
            0 <= k < v.len() && split::span_shows_cell(#[trigger] v[k], t, row, col, vis[i]);
        assert(q(v[k].visual, v[k].default_bg));
        assert(layout::span_colors(v[k], p, t, px, py, fill));
    }
    if exists|k: int| 0 <= k < v.len() && layout::span_colors(#[trigger] v[k], p, t, px, py, fill) {
        let k = choose|k: int|
            0 <= k < v.len() && layout::span_colors(#[trigger] v[k], p, t, px, py, fill);
        let s = v[k];
        assert(q(s.visual, s.default_bg));
        assert(s.col < cols && s.row < rows);
        lemma_edges(p, cols, rows, s.col, s.row);
        lemma_one_place(p.content_x as int, p.cell_w as int, s.col as int, col as int, px);
        lemma_one_place(p.content_y as int, p.cell_h as int, s.row as int, row as int, py);
        assert(split::span_shows_cell(s, t, row, col, s.visual));
        assert(split::shows_cell(v, t, row, col, s.visual));
        split::lemma_cut_rows_shows(raw, rows as int, t, row, col, s.visual);
        split::lemma_cell_spans_show(scenes, n, i, cols, count, total_ms, t, s.visual);
        assert(scenes[n].visuals[i] == s.visual);
    }
}

proof fn lemma_strokes_resting(v: Seq<CellSpanView>, p: Placement, cols: u16, rows: u16)
    requires
        layout::spans_fit(v, cols, rows),
        p.content_x <= PIXEL_LIMIT,
        p.cell_w <= PIXEL_LIMIT,
        cols * p.cell_w <= PIXEL_LIMIT,
    ensures
        merge::every(layout::span_lines(v, p), |r: BgRectView| arrange::resting_rect(r)),
    decreases v.len(),
{
    let rest = |r: BgRectView| arrange::resting_rect(r);
    if v.len() > 0 {
        let d = v.drop_last();
        assert forall|i: int| 0 <= i < d.len() implies (#[trigger] d[i]).col < cols && d[i].row
            < rows && d[i].start_ms <= d[i].end_ms && d[i].visual.text.len() <= PIXEL_LIMIT by {
            assert(v[i].col < cols);
        }
        lemma_strokes_resting(d, p, cols, rows);
        let s = v[v.len() - 1];
        assert(s.start_ms <= s.end_ms && s.col < cols);
        let (col, w) = (s.col as int, p.cell_w as int);
        assert(0 <= col * w <= cols * w) by (nonlinear_arith)
            requires
                0 <= col < cols,
                0 <= w,
        ;
        let before = layout::span_lines(d, p);
        let after = layout::span_lines(v, p);
        assert forall|i: int| 0 <= i < after.len() implies rest(#[trigger] after[i]) by {
            if i < before.len() {
                assert(rest(before[i]));
            } else {
                assert(after[i] == layout::span_line(s, p));
            }
        }
    }
}

/// A document underlines what was underlined: at every moment a pixel on the line of a
/// cell is covered with the foreground of that cell exactly if the cell was underlined in
/// the frame that was on screen at that moment. A cell without text has no line.
pub proof fn lemma_document_underlines_frames(
    doc: SvgDoc,
    frames: Seq<RawFrame>,
    input: RenderInput,
    total_ms: u32,
    n: int,
    t: u32,
    i: int,
    px: int,
    fill: Rgb,
)
    requires
        input.fits(frames),
        total_ms == total_millis(frames[frames.len() - 1].t_ms, input.cfg),
        is_document_of(doc, frames, input, total_ms),
        frames[0].cols > 0,
        0 <= n < frames.len(),
        frames[n].t_ms <= t < total_ms,
        n + 1 < frames.len() ==> t < frames[n + 1].t_ms,
        0 <= i < cells::cell_count(frames),
        layout::underlined(cells::frame_visuals(frames[n])[i]) ==> cells::frame_visuals(
            frames[n],
        )[i].text.len() > 0,
        ({
            let p = input.placement();
            let col = i % frames[0].cols as int;
            p.content_x + col * p.cell_w <= px < p.content_x + col * p.cell_w + p.cell_w
        }),
    ensures
        ({
            let p = input.placement();
            let row = i / frames[0].cols as int;
            let seen = cells::frame_visuals(frames[n])[i];
            elements::rects_cover(
                doc.strokes(),
                t,
                px,
                p.content_y + row * p.cell_h + p.metrics.baseline,
                fill,
            ) == (layout::underlined(seen) && fill == seen.fg)
        }),
{
    let p = input.placement();
    let cols = frames[0].cols;
    let rows = frames[0].rows;
    let count = cells::cell_count(frames);
    let scenes = cells::scenes_of(frames);
    let raw = cells::cell_spans(scenes, count, cols, total_ms);
    let v = document_spans(frames, total_ms);
    let vis = cells::frame_visuals(frames[n]);
    assert(frames[0].wf());
    assert(count <= cols * 0xffff) by (nonlinear_arith)
        requires
            count == cols * rows,
            rows <= 0xffff,
            cols >= 0,
    ;
    lemma_in_order(frames, input, total_ms);
    lemma_document_spans(frames, input, total_ms);
    split::lemma_cell_spans_on_grid(scenes, cols, count, total_ms);
    lemma_strokes_resting(v, p, cols, rows);
    let row = (i / cols as int) as u16;
    let col = (i % cols as int) as u16;
    let r = i / (cols as int);
    assert(0 <= r < rows) by (nonlinear_arith)
        requires
            0 <= i < count,
            count == cols * rows,
            cols > 0,
            r == i / (cols as int),
    ;
    assert(row == r && col == i % (cols as int));
    let py = p.content_y + r * p.cell_h + p.metrics.baseline;
    arrange::lemma_arranged_rects_cover(layout::span_lines(v, p), t, px, py, fill);
    layout::lemma_span_lines_cover(v, p, t, px, py, fill);
    metrics::lemma_baseline_bounds(input.opts.font_size, input.cfg);
    lemma_edges(p, cols, rows, col, row);
    assert(p.line(row) == py);
    assert(split::is_on(scenes, n, t, total_ms));
    if layout::underlined(vis[i]) && fill == vis[i].fg {
        split::lemma_cell_spans_show(scenes, n, i, cols, count, total_ms, t, vis[i]);
        split::lemma_cut_rows_shows(raw, rows as int, t, row, col, vis[i]);
        assert(split::seen(scenes, vis[i]));
        assert(split::shows_cell(v, t, row, col, vis[i]));
        let k = choose|k: int|
            0 <= k < v.len() && split::span_shows_cell(#[trigger] v[k], t, row, col, vis[i]);
        assert(layout::span_underlines(v[k], p, t, px, py, fill));
    }
    if exists|k: int|
        0 <= k < v.len() && layout::span_underlines(#[trigger] v[k], p, t, px, py, fill) {
        let k = choose|k: int|
            0 <= k < v.len() && layout::span_underlines(#[trigger] v[k], p, t, px, py, fill);
        let s = v[k];
        assert(s.col < cols && s.row < rows);
        lemma_edges(p, cols, rows, s.col, s.row);
        lemma_one_place(p.content_x as int, p.cell_w as int, s.col as int, col as int, px);
        assert(p.line(s.row) == p.content_y + s.row * p.cell_h + p.metrics.baseline);
        lemma_one_place(
            p.content_y as int,
            p.cell_h as int,
            s.row as int,
            row as int,
            p.content_y + r * p.cell_h,
        );
        assert(split::span_shows_cell(s, t, row, col, s.visual));
        assert(split::shows_cell(v, t, row, col, s.visual));
        split::lemma_cut_rows_shows(raw, rows as int, t, row, col, s.visual);
        split::lemma_cell_spans_show(scenes, n, i, cols, count, total_ms, t, s.visual);
        assert(scenes[n].visuals[i] == s.visual);
    }
}

/// The edges of a cell of the grid are not cut off.
proof fn lemma_edges(p: Placement, cols: u16, rows: u16, col: u16, row: u16)
    requires
        p.content_x <= PIXEL_LIMIT,
        p.content_y <= PIXEL_LIMIT,
        cols * p.cell_w <= PIXEL_LIMIT,
        rows * p.cell_h <= PIXEL_LIMIT,
        col < cols,
        row < rows,
    ensures
        p.left(col) == p.content_x + col * p.cell_w,
        p.top(row) == p.content_y + row * p.cell_h,
        p.content_y + row * p.cell_h <= 2 * PIXEL_LIMIT,
{
    assert(0 <= col * p.cell_w <= cols * p.cell_w) by (nonlinear_arith)
        requires
            col <= cols,
    ;
    assert(0 <= row * p.cell_h <= rows * p.cell_h) by (nonlinear_arith)
        requires
            row <= rows,
    ;
}

proof fn lemma_rows_resting(v: Seq<CellSpanView>, p: Placement, cols: u16, rows: u16)
    requires
        layout::spans_fit(v, cols, rows),
    ensures
        merge::every(layout::span_rows(v, p), |e: TextElementView| arrange::resting(e)),
    decreases v.len(),
{
    let rest = |e: TextElementView| arrange::resting(e);
    if v.len() > 0 {
        let d = v.drop_last();
        assert forall|i: int| 0 <= i < d.len() implies (#[trigger] d[i]).col < cols && d[i].row
            < rows && d[i].start_ms <= d[i].end_ms && d[i].visual.text.len() <= PIXEL_LIMIT by {
            assert(v[i].col < cols);
        }
        lemma_rows_resting(d, p, cols, rows);
        let s = v[v.len() - 1];
        assert(s.start_ms <= s.end_ms);
        let before = layout::span_rows(d, p);
        let after = layout::span_rows(v, p);
        assert forall|i: int| 0 <= i < after.len() implies rest(#[trigger] after[i]) by {
            if i < before.len() {
                assert(rest(before[i]));
            } else {
                let e = layout::span_row(s, p);
                assert(e.tspans[0] == layout::span_run(s, p));
                assert(arrange::plain(e.tspans[0]));
            }
        }
    }
}

} // verus!
