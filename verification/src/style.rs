//! Colours and the look of the frame around the terminal.
use vstd::prelude::*;
use vstd::string::*;

use crate::text;
use crate::text::push_hex_byte;

verus! {

/// Red, green and blue.
pub type Rgb = [u8; 3];

/// Whether two colours are the same.
pub fn same_rgb(a: Rgb, b: Rgb) -> (r: bool)
    ensures
        r == (a == b),
{
    let r: bool = a[0] == b[0] && a[1] == b[1] && a[2] == b[2];
    assert(r ==> a =~= b);
    r
}

/// Ascending order of colours: red first, then green, then blue.
pub open spec fn rgb_before(a: Rgb, b: Rgb) -> bool {
    a[0] < b[0] || (a[0] == b[0] && (a[1] < b[1] || (a[1] == b[1] && a[2] < b[2])))
}

pub fn is_rgb_before(a: Rgb, b: Rgb) -> (r: bool)
    ensures
        r == rgb_before(a, b),
{
    a[0] < b[0] || (a[0] == b[0] && (a[1] < b[1] || (a[1] == b[1] && a[2] < b[2])))
}

/// `#rrggbb`.
pub open spec fn hex(c: Rgb) -> Seq<char> {
    "#"@ + text::hex_byte(c[0]) + text::hex_byte(c[1]) + text::hex_byte(c[2])
}

/// The colour as `#rrggbb`.
pub fn rgb_hex(c: Rgb) -> (out: String)
    ensures
        out@ == hex(c),
{
    let mut out: String = "#".to_string();
    push_hex_byte(&mut out, c[0]);
    push_hex_byte(&mut out, c[1]);
    push_hex_byte(&mut out, c[2]);
    out
}

/// Half way between two channel values.
pub open spec fn halfway(a: u8, b: u8) -> u8 {
    ((a + b) / 2) as u8
}

/// `fg` blended half way toward `bg`.
pub open spec fn dimmed(fg: Rgb, bg: Rgb) -> Rgb {
    [halfway(fg[0], bg[0]), halfway(fg[1], bg[1]), halfway(fg[2], bg[2])]
}

/// SGR 2 dim: blend the foreground 50% toward the background.
pub fn dim_color(fg: Rgb, bg: Rgb) -> (r: Rgb)
    ensures
        r == dimmed(fg, bg),
{
    let r: Rgb = [
        ((fg[0] as u16 + bg[0] as u16) / 2) as u8,
        ((fg[1] as u16 + bg[1] as u16) / 2) as u8,
        ((fg[2] as u16 + bg[2] as u16) / 2) as u8,
    ];
    assert(r =~= dimmed(fg, bg));
    r
}

/// The colour half way between the two is never outside of what they span.
pub proof fn lemma_dimmed_between(fg: Rgb, bg: Rgb, k: int)
    requires
        0 <= k < 3,
    ensures
        fg[k] <= bg[k] ==> fg[k] <= dimmed(fg, bg)[k] <= bg[k],
        bg[k] <= fg[k] ==> bg[k] <= dimmed(fg, bg)[k] <= fg[k],
        dimmed(fg, fg) == fg,
{
    assert(dimmed(fg, fg) =~= fg);
}

/// How the window bar is drawn, if at all.
#[derive(Debug, Clone, Copy, PartialEq, Eq, Structural)]
pub enum WindowBarStyle {
    Off,
    Left,
    Right,
}

impl WindowBarStyle {
    pub open spec fn spec_enabled(self) -> bool {
        self != WindowBarStyle::Off
    }

    pub fn enabled(self) -> (r: bool)
        ensures
            r == self.spec_enabled(),
    {
        self != WindowBarStyle::Off
    }

    pub fn align_right(self) -> (r: bool)
        ensures
            r == (self == WindowBarStyle::Right),
    {
        self == WindowBarStyle::Right
    }
}

/// Padding, margin, corners and window bar of the frame.
#[derive(Debug, Clone, Copy, PartialEq, Eq)]
pub struct FrameStyle {
    pub canvas_width_px: Option<u32>,
    pub canvas_height_px: Option<u32>,
    pub padding_px: u32,
    pub margin_px: u32,
    pub margin_fill: Rgb,
    pub window_bar: WindowBarStyle,
    pub window_bar_size_px: u32,
    pub border_radius_px: u32,
}

/// The colours of the terminal.
#[derive(Debug, Clone)]
pub struct Theme {
    /// The sixteen indexed colours.
    pub palette: [Rgb; 16],
    pub foreground: Rgb,
    pub background: Rgb,
    pub cursor: Rgb,
    pub cursor_accent: Option<Rgb>,
    pub selection: Option<Rgb>,
}

/// The colours where nothing else is asked for.
pub open spec fn default_theme() -> Theme {
    Theme {
        palette: [
            [0x28u8, 0x2au8, 0x2eu8],
            [0xd7u8, 0x4eu8, 0x6fu8],
            [0x31u8, 0xbbu8, 0x71u8],
            [0xd3u8, 0xe5u8, 0x61u8],
            [0x80u8, 0x56u8, 0xffu8],
            [0xedu8, 0x61u8, 0xd7u8],
            [0x04u8, 0xd7u8, 0xd7u8],
            [0xbfu8, 0xbfu8, 0xbfu8],
            [0x4du8, 0x4du8, 0x4du8],
            [0xfeu8, 0x5fu8, 0x86u8],
            [0x00u8, 0xd7u8, 0x87u8],
            [0xebu8, 0xffu8, 0x71u8],
            [0x9bu8, 0x79u8, 0xffu8],
            [0xffu8, 0x7au8, 0xeau8],
            [0x00u8, 0xfeu8, 0xfeu8],
            [0xe6u8, 0xe6u8, 0xe6u8],
        ],
        foreground: [0xddu8, 0xddu8, 0xddu8],
        background: [0x17u8, 0x17u8, 0x17u8],
        cursor: [0xddu8, 0xddu8, 0xddu8],
        cursor_accent: None,
        selection: None,
    }
}

impl Default for Theme {
    fn default() -> (r: Theme)
        ensures
            r == default_theme(),
    {
        let r: Theme = Theme {
            palette: [
                [0x28u8, 0x2au8, 0x2eu8],
                [0xd7u8, 0x4eu8, 0x6fu8],
                [0x31u8, 0xbbu8, 0x71u8],
                [0xd3u8, 0xe5u8, 0x61u8],
                [0x80u8, 0x56u8, 0xffu8],
                [0xedu8, 0x61u8, 0xd7u8],
                [0x04u8, 0xd7u8, 0xd7u8],
                [0xbfu8, 0xbfu8, 0xbfu8],
                [0x4du8, 0x4du8, 0x4du8],
                [0xfeu8, 0x5fu8, 0x86u8],
                [0x00u8, 0xd7u8, 0x87u8],
                [0xebu8, 0xffu8, 0x71u8],
                [0x9bu8, 0x79u8, 0xffu8],
                [0xffu8, 0x7au8, 0xeau8],
                [0x00u8, 0xfeu8, 0xfeu8],
                [0xe6u8, 0xe6u8, 0xe6u8],
            ],
            foreground: [0xddu8, 0xddu8, 0xddu8],
            background: [0x17u8, 0x17u8, 0x17u8],
            cursor: [0xddu8, 0xddu8, 0xddu8],
            cursor_accent: None,
            selection: None,
        };
        assert(r.palette =~= default_theme().palette);
        r
    }
}

} // verus!
