//! The pictures of an animated GIF, one after another as frames come in, and
//! single pictures.
use vstd::prelude::*;
use vstd::string::*;

use crate::recording;
use crate::recording::{CellSnap, RawFrame};
use crate::render_gif::palette::TRANSPARENT_COLOR_INDEX;
use crate::render_gif::raster;
use crate::render_gif::raster::{rasterize_raw_frame_idx, GlyphSheet, RasterSetup};
use crate::text::to_chars;

verus! {

/// The least duration of the last picture in milliseconds.
pub const LAST_MS: u32 = 33;

/// One picture of the animation.
#[derive(Debug, Clone)]
pub struct GifFrame {
    pub width: u16,
    pub height: u16,
    /// Hundredths of a second.
    pub delay: u16,
    pub transparent: u8,
    pub indices: Vec<u8>,
}

pub struct GifFrameView {
    pub width: u16,
    pub height: u16,
    pub delay: u16,
    pub transparent: u8,
    pub indices: Seq<u8>,
}

impl View for GifFrame {
    type V = GifFrameView;

    open spec fn view(&self) -> GifFrameView {
        GifFrameView {
            width: self.width,
            height: self.height,
            delay: self.delay,
            transparent: self.transparent,
            indices: self.indices@,
        }
    }
}

/// Milliseconds in hundredths of a second, rounded half up, at least one; what
/// does not fit into sixteen bits is cut off.
pub open spec fn gif_delay(ms: int) -> u16 {
    let d = (ms + 5) / 10;
    ((if d >= 1 {
        d
    } else {
        1
    }) % 0x1_0000) as u16
}

/// Milliseconds in hundredths of a second.
pub fn delay_of(ms: u32) -> (r: u16)
    requires
        ms <= u32::MAX - 5,
    ensures
        r == gif_delay(ms as int),
{
    let d: u32 = (ms + 5) / 10;
    let e: u32 = if d >= 1 {
        d
    } else {
        1
    };
    (e % 0x1_0000) as u16
}

/// A duration of at least five milliseconds is off by at most five milliseconds.
pub proof fn lemma_delay_close(ms: int)
    requires
        5 <= ms <= 655_354,
    ensures
        -5 <= 10 * gif_delay(ms) - ms <= 5,
{
}

/// The picture with these pixels.
pub open spec fn picture(setup: RasterSetup, indices: Seq<u8>, ms: int) -> GifFrameView {
    GifFrameView {
        width: (setup.layout.canvas_w % 0x1_0000) as u16,
        height: (setup.layout.canvas_h % 0x1_0000) as u16,
        delay: gif_delay(ms),
        transparent: TRANSPARENT_COLOR_INDEX,
        indices,
    }
}

/// The picture with these pixels.
pub fn write_gif_frame(setup: &RasterSetup, indices: Vec<u8>, delay_ms: u32) -> (r: GifFrame)
    requires
        delay_ms <= u32::MAX - 5,
    ensures
        r@ == picture(*setup, indices@, delay_ms as int),
{
    GifFrame {
        width: (setup.layout.canvas_w % 0x1_0000) as u16,
        height: (setup.layout.canvas_h % 0x1_0000) as u16,
        delay: delay_of(delay_ms),
        transparent: TRANSPARENT_COLOR_INDEX,
        indices,
    }
}

/// Whether the fonts have a glyph for a character in the style of a cell.
#[derive(Debug, Clone, Copy)]
pub struct GlyphLookup {
    pub flags: u8,
    pub ch: char,
    pub found: bool,
}

/// Whether the lookups say that there is no glyph.
pub open spec fn lacks(lookups: Seq<GlyphLookup>, flags: u8, c: char) -> bool {
    exists|i: int|
        0 <= i < lookups.len() && (#[trigger] lookups[i]).flags == flags && lookups[i].ch == c
            && !lookups[i].found
}

/// Whether a character was looked up in the style of a cell.
pub open spec fn known(lookups: Seq<GlyphLookup>, flags: u8, c: char) -> bool {
    exists|i: int|
        0 <= i < lookups.len() && (#[trigger] lookups[i]).flags == flags && lookups[i].ch == c
}

/// Whether every character of the cells was looked up.
pub open spec fn looked_up(lookups: Seq<GlyphLookup>, cells: Seq<CellSnap>) -> bool {
    forall|k: int, j: int|
        0 <= k < cells.len() && 0 <= j < cells[k]@.text.len() ==> known(
            lookups,
            cells[k]@.flags,
            #[trigger] cells[k]@.text[j],
        )
}

/// The first character of a text, from `k` on, without a glyph.
pub open spec fn lacking_char(
    lookups: Seq<GlyphLookup>,
    flags: u8,
    t: Seq<char>,
    k: int,
) -> Option<char>
    decreases t.len() - k,
{
    if k < 0 || k >= t.len() {
        None
    } else if lacks(lookups, flags, t[k]) {
        Some(t[k])
    } else {
        lacking_char(lookups, flags, t, k + 1)
    }
}

/// The first character of the cells, from `k` on, without a glyph.
pub open spec fn lacking(lookups: Seq<GlyphLookup>, cells: Seq<CellSnap>, k: int) -> Option<char>
    decreases cells.len() - k,
{
    if k < 0 || k >= cells.len() {
        None
    } else {
        let c = cells[k]@;
        match lacking_char(lookups, c.flags, c.text, 0) {
            Some(x) => Some(x),
            None => lacking(lookups, cells, k + 1),
        }
    }
}

fn is_lacking(lookups: &Vec<GlyphLookup>, flags: u8, c: char) -> (r: bool)
    ensures
        r == lacks(lookups@, flags, c),
{
    let mut i: usize = 0;
    while i < lookups.len()
        invariant
            i <= lookups@.len(),
            forall|k: int|
                0 <= k < i ==> !((#[trigger] lookups@[k]).flags == flags && lookups@[k].ch == c
                    && !lookups@[k].found),
        decreases lookups@.len() - i,
    {
        let l: GlyphLookup = lookups[i];
        if l.flags == flags && l.ch == c && !l.found {
            assert(lookups@[i as int] == l);
            return true;
        }
        i = i + 1;
    }
    false
}

/// The first character of the cells without a glyph.
pub fn find_lacking(lookups: &Vec<GlyphLookup>, cells: &Vec<CellSnap>) -> (r: Option<char>)
    requires
        looked_up(lookups@, cells@),
    ensures
        r == lacking(lookups@, cells@, 0),
{
    let mut i: usize = 0;
    while i < cells.len()
        invariant
            i <= cells@.len(),
            lacking(lookups@, cells@, 0) == lacking(lookups@, cells@, i as int),
        decreases cells@.len() - i,
    {
        let flags: u8 = cells[i].flags;
        let chars: Vec<char> = to_chars(cells[i].text.as_str());
        let ghost t = cells@[i as int]@.text;
        let mut k: usize = 0;
        while k < chars.len()
            invariant
                i < cells@.len(),
                chars@ == t,
                t == cells@[i as int]@.text,
                flags == cells@[i as int]@.flags,
                k <= chars@.len(),
                lacking_char(lookups@, flags, t, 0) == lacking_char(lookups@, flags, t, k as int),
                lacking(lookups@, cells@, 0) == lacking(lookups@, cells@, i as int),
            decreases chars@.len() - k,
        {
            if is_lacking(lookups, flags, chars[k]) {
                return Some(chars[k]);
            }
            k = k + 1;
        }
        i = i + 1;
    }
    None
}

/// What the stream remembers between frames.
pub struct StreamState {
    /// What was drawn for the picture before the one that waits.
    pub earlier: Option<Seq<u8>>,
    /// The frame drawn last.
    pub prev: Option<RawFrame>,
    /// The picture that waits for its duration, and its time.
    pub pending: Option<(Seq<u8>, u32)>,
    pub last_seen_t_ms: u32,
    pub written: int,
}

/// A canvas without any colour.
pub open spec fn blank(setup: RasterSetup) -> Seq<u8> {
    Seq::new(
        (setup.layout.canvas_w * setup.layout.canvas_h) as nat,
        |i: int| TRANSPARENT_COLOR_INDEX,
    )
}

/// `a - b`, or nothing.
pub open spec fn since(a: u32, b: u32) -> int {
    if a > b {
        a - b
    } else {
        0
    }
}

pub open spec fn opt_ref(prev: &Option<RawFrame>) -> Option<&RawFrame> {
    match prev {
        Some(p) => Some(p),
        None => None,
    }
}

/// Whether a frame looks like the one drawn last.
pub open spec fn repeats(s: StreamState, frame: RawFrame) -> bool {
    s.prev matches Some(p) && recording::alike(frame, p)
}

/// What a frame makes of the stream.
pub open spec fn stream_after(
    setup: RasterSetup,
    s: StreamState,
    frame: RawFrame,
    sheet: GlyphSheet,
) -> StreamState {
    if repeats(s, frame) {
        StreamState { last_seen_t_ms: frame.t_ms, ..s }
    } else {
        StreamState {
            earlier: match s.pending {
                Some((buf, _)) => Some(buf),
                None => s.earlier,
            },
            prev: Some(frame),
            pending: Some(
                (
                    raster::rasterized(
                        setup,
                        frame,
                        opt_ref(&s.prev),
                        sheet,
                        s.earlier,
                        blank(setup),
                    ),
                    frame.t_ms,
                ),
            ),
            last_seen_t_ms: frame.t_ms,
            written: match s.pending {
                Some(_) => s.written + 1,
                None => s.written,
            },
        }
    }
}

/// The picture whose duration a frame ends, if it ends one.
pub open spec fn picture_before(
    setup: RasterSetup,
    s: StreamState,
    frame: RawFrame,
) -> Option<GifFrameView> {
    if repeats(s, frame) {
        None
    } else {
        match s.pending {
            Some((buf, t)) => Some(picture(setup, buf, since(frame.t_ms, t))),
            None => None,
        }
    }
}

/// The last picture.
pub open spec fn last_picture(setup: RasterSetup, s: StreamState) -> Option<GifFrameView> {
    match s.pending {
        Some((buf, t)) => {
            let ms = since(s.last_seen_t_ms, t);
            Some(
                picture(
                    setup,
                    buf,
                    if ms >= LAST_MS {
                        ms
                    } else {
                        LAST_MS as int
                    },
                ),
            )
        },
        None => None,
    }
}

/// Whether a frame can be drawn.
pub open spec fn frame_fits(setup: RasterSetup, frame: RawFrame, sheet: GlyphSheet) -> bool {
    &&& setup.grid_fits(&frame)
    &&& setup.mouse_fits(frame.mouse_cursor)
    &&& raster::sheet_fits(sheet, frame)
    &&& frame.t_ms <= u32::MAX - 5
}

/// Turns frames into pictures: what looks the same is drawn once, and each picture
/// lasts until the next.
pub struct GifStream {
    setup: RasterSetup,
    earlier: Option<Vec<u8>>,
    prev: Option<RawFrame>,
    pending: Option<(Vec<u8>, u32)>,
    last_seen_t_ms: u32,
    written: u128,
}

impl View for GifStream {
    type V = StreamState;

    closed spec fn view(&self) -> StreamState {
        StreamState {
            earlier: match self.earlier {
                Some(v) => Some(v@),
                None => None,
            },
            prev: self.prev,
            pending: match self.pending {
                Some((v, t)) => Some((v@, t)),
                None => None,
            },
            last_seen_t_ms: self.last_seen_t_ms,
            written: self.written as int,
        }
    }
}

pub fn blank_canvas(setup: &RasterSetup) -> (out: Vec<u8>)
    requires
        setup.fits(),
    ensures
        out@ == blank(*setup),
{
    let n: u32 = setup.layout.canvas_w * setup.layout.canvas_h;
    let mut out: Vec<u8> = Vec::new();
    let mut i: u32 = 0;
    while i < n
        invariant
            i <= n,
            n == setup.layout.canvas_w * setup.layout.canvas_h,
            out@.len() == i,
            forall|k: int| 0 <= k < i ==> out@[k] == TRANSPARENT_COLOR_INDEX,
        decreases n - i,
    {
        out.push(TRANSPARENT_COLOR_INDEX);
        i = i + 1;
    }
    assert(out@ =~= blank(*setup));
    out
}

fn copy_bytes(v: &Vec<u8>) -> (out: Vec<u8>)
    ensures
        out@ == v@,
{
    let mut out: Vec<u8> = Vec::new();
    let mut i: usize = 0;
    while i < v.len()
        invariant
            i <= v@.len(),
            out@ == v@.take(i as int),
        decreases v@.len() - i,
    {
        out.push(v[i]);
        assert(out@ =~= v@.take(i + 1));
        i = i + 1;
    }
    assert(v@.take(v@.len() as int) =~= v@);
    out
}

impl GifStream {
    pub closed spec fn spec_setup(&self) -> RasterSetup {
        self.setup
    }

    /// What holds between frames.
    pub closed spec fn wf(&self) -> bool {
        &&& self.setup.fits()
        &&& self.prev matches Some(p) ==> self.setup.mouse_fits(p.mouse_cursor)
        &&& self.pending matches Some((_, t)) ==> t <= u32::MAX - 5
        &&& self.last_seen_t_ms <= u32::MAX - 5
    }

    /// A stream without frames.
    pub fn new(setup: RasterSetup) -> (r: GifStream)
        requires
            setup.fits(),
        ensures
            r.wf(),
            r.spec_setup() == setup,
            r@ == (StreamState {
                earlier: None,
                prev: None,
                pending: None,
                last_seen_t_ms: 0,
                written: 0,
            }),
    {
        GifStream {
            setup,
            earlier: None,
            prev: None,
            pending: None,
            last_seen_t_ms: 0,
            written: 0,
        }
    }

    /// Whether the frame has to be drawn.
    pub fn needs(&self, frame: &RawFrame) -> (r: bool)
        ensures
            r == !repeats(self@, *frame),
    {
        match &self.prev {
            Some(p) => !frame.is_visually_identical(p),
            None => true,
        }
    }

    /// Take a frame in, and hand out the picture whose duration it ends.
    pub fn push(&mut self, frame: RawFrame, sheet: &GlyphSheet) -> (r: Option<GifFrame>)
        requires
            old(self).wf(),
            frame_fits(old(self).spec_setup(), frame, *sheet),
            old(self)@.written < u128::MAX,
        ensures
            final(self).wf(),
            final(self).spec_setup() == old(self).spec_setup(),
            final(self)@ == stream_after(old(self).spec_setup(), old(self)@, frame, *sheet),
            match r {
                Some(g) => picture_before(old(self).spec_setup(), old(self)@, frame) == Some(g@),
                None => picture_before(old(self).spec_setup(), old(self)@, frame) is None,
            },
    {
        if !self.needs(&frame) {
            self.last_seen_t_ms = frame.t_ms;
            return None;
        }
        let mut buf: Vec<u8> = blank_canvas(&self.setup);
        let prev: Option<&RawFrame> = match &self.prev {
            Some(p) => Some(p),
            None => None,
        };
        let earlier: Option<&Vec<u8>> = match &self.earlier {
            Some(e) => Some(e),
            None => None,
        };
        rasterize_raw_frame_idx(&self.setup, &frame, prev, sheet, earlier, &mut buf);
        let t: u32 = frame.t_ms;
        self.last_seen_t_ms = t;
        let mut waiting: Option<(Vec<u8>, u32)> = Some((buf, t));
        std::mem::swap(&mut waiting, &mut self.pending);
        self.prev = Some(frame);
        match waiting {
            Some((done, start)) => {
                let ms: u32 = if t > start {
                    t - start
                } else {
                    0
                };
                let indices: Vec<u8> = copy_bytes(&done);
                self.written = self.written + 1;
                self.earlier = Some(done);
                Some(write_gif_frame(&self.setup, indices, ms))
            },
            None => None,
        }
    }

    /// The last picture and the number of all pictures.
    pub fn finish(self) -> (r: (Option<GifFrame>, u128))
        requires
            self.wf(),
            self@.written < u128::MAX,
        ensures
            match r.0 {
                Some(g) => last_picture(self.spec_setup(), self@) == Some(g@),
                None => last_picture(self.spec_setup(), self@) is None,
            },
            r.1 == self@.written + (if self@.pending is Some {
                1int
            } else {
                0
            }),
    {
        let last: u32 = self.last_seen_t_ms;
        match self.pending {
            Some((done, start)) => {
                let gone: u32 = if last > start {
                    last - start
                } else {
                    0
                };
                let ms: u32 = if gone >= LAST_MS {
                    gone
                } else {
                    LAST_MS
                };
                (Some(write_gif_frame(&self.setup, done, ms)), self.written + 1)
            },
            None => (None, self.written),
        }
    }
}

} // verus!
