//! What a script asks for: keys, mouse gestures, waits, and the settings of the
//! terminal.
use vstd::prelude::*;
use vstd::string::*;

use crate::nanos::{Nanos, MILLI};
use crate::single::{Measure, ONE};
use crate::style;
use crate::style::{Rgb, Theme, WindowBarStyle};

verus! {

/// The modifier keys held down.
#[derive(Debug, Clone, Copy, PartialEq, Eq, Structural)]
pub struct ModSet {
    pub shift: bool,
    pub alt: bool,
    pub ctrl: bool,
    pub super_key: bool,
}

impl ModSet {
    /// No modifier.
    pub fn none() -> (r: ModSet)
        ensures
            r == (ModSet { shift: false, alt: false, ctrl: false, super_key: false }),
    {
        ModSet { shift: false, alt: false, ctrl: false, super_key: false }
    }
}

/// A key by name.
#[derive(Debug, Clone, Copy, PartialEq, Eq, Structural)]
pub enum NamedKey {
    Enter,
    Space,
    Tab,
    Backspace,
    Delete,
    Insert,
    Escape,
    Up,
    Down,
    Left,
    Right,
    Home,
    End,
    PageUp,
    PageDown,
    Function(u8),
    Char(char),
}

/// A key and the modifiers held with it.
#[derive(Debug, Clone, Copy, PartialEq, Eq, Structural)]
pub struct KeySpec {
    pub key: NamedKey,
    pub mods: ModSet,
}

#[derive(Debug, Clone, Copy, PartialEq, Eq, Structural)]
pub enum KeyAction {
    Press,
    Release,
    Repeat,
}

#[derive(Debug, Clone, Copy, PartialEq, Eq, Structural)]
pub enum MouseAction {
    Press,
    Release,
    Motion,
}

#[derive(Debug, Clone, Copy, PartialEq, Eq, Structural)]
pub enum MouseButton {
    Left,
    Right,
    Middle,
    WheelUp,
    WheelDown,
}

#[derive(Debug, Clone, Copy, PartialEq, Eq, Structural)]
pub enum ScrollDirection {
    Up,
    Down,
}

/// What a wait looks at: the last line that is not empty, or the whole screen.
#[derive(Debug, Clone, Copy, PartialEq, Eq, Structural)]
pub enum WaitScope {
    Line,
    Screen,
}

/// How the mouse speeds up and slows down along its way.
#[derive(Debug, Clone, Copy, PartialEq, Eq, Structural)]
pub enum MouseEasing {
    Linear,
    InSine,
    OutSine,
    InOutSine,
    InQuadradic,
    OutQuadradic,
    InOutQuadradic,
    InCubic,
    OutCubic,
    InOutCubic,
    InQuartic,
    OutQuartic,
    InOutQuartic,
    InQuintic,
    OutQuintic,
    InOutQuintic,
    InExponential,
    OutExponential,
    InOutExponential,
    InCircular,
    OutCircular,
    InOutCircular,
    InBack,
    OutBack,
    InOutBack,
    InElastic,
    OutElastic,
    InOutElastic,
    InBounce,
    OutBounce,
    InOutBounce,
}

/// One line of a script, or one step it was expanded to.
#[derive(Debug, Clone)]
#[allow(inconsistent_fields)]
pub enum Event {
    Type { text: String, delay: Nanos },
    Sleep(Nanos),
    Key { key: KeySpec, action: KeyAction, count: u32, delay: Nanos },
    Click { col: u16, row: u16, mods: ModSet, delay: Nanos },
    RightClick { col: u16, row: u16, mods: ModSet, delay: Nanos },
    DoubleClick { col: u16, row: u16, mods: ModSet, delay: Nanos },
    MouseScroll { col: u16, row: u16, direction: ScrollDirection, mods: ModSet, delay: Nanos },
    MouseDrag {
        coords: Vec<(u16, u16)>,
        mods: ModSet,
        delay: Nanos,
        easing: Option<MouseEasing>,
    },
    MouseMove {
        coords: Vec<(u16, u16)>,
        mods: ModSet,
        delay: Nanos,
        easing: Option<MouseEasing>,
    },
    MouseInput {
        action: MouseAction,
        button: Option<MouseButton>,
        col: u16,
        row: u16,
        pixel_coords: Option<(u32, u32)>,
        mods: ModSet,
    },
    Wait { scope: WaitScope, timeout: Nanos, pattern: String },
    Screenshot(String),
    Copy(String),
    Paste,
    Hide,
    Show,
}

/// An event, its texts as sequences.
#[allow(inconsistent_fields)]
pub enum EventView {
    Type { text: Seq<char>, delay: Nanos },
    Sleep(Nanos),
    Key { key: KeySpec, action: KeyAction, count: u32, delay: Nanos },
    Click { col: u16, row: u16, mods: ModSet, delay: Nanos },
    RightClick { col: u16, row: u16, mods: ModSet, delay: Nanos },
    DoubleClick { col: u16, row: u16, mods: ModSet, delay: Nanos },
    MouseScroll { col: u16, row: u16, direction: ScrollDirection, mods: ModSet, delay: Nanos },
    MouseDrag {
        coords: Seq<(u16, u16)>,
        mods: ModSet,
        delay: Nanos,
        easing: Option<MouseEasing>,
    },
    MouseMove {
        coords: Seq<(u16, u16)>,
        mods: ModSet,
        delay: Nanos,
        easing: Option<MouseEasing>,
    },
    MouseInput {
        action: MouseAction,
        button: Option<MouseButton>,
        col: u16,
        row: u16,
        pixel_coords: Option<(u32, u32)>,
        mods: ModSet,
    },
    Wait { scope: WaitScope, timeout: Nanos, pattern: Seq<char> },
    Screenshot(Seq<char>),
    Copy(Seq<char>),
    Paste,
    Hide,
    Show,
}

impl View for Event {
    type V = EventView;

    open spec fn view(&self) -> EventView {
        match *self {
            Event::Type { text, delay } => EventView::Type { text: text@, delay },
            Event::Sleep(d) => EventView::Sleep(d),
            Event::Key { key, action, count, delay } => EventView::Key {
                key,
                action,
                count,
                delay,
            },
            Event::Click { col, row, mods, delay } => EventView::Click { col, row, mods, delay },
            Event::RightClick { col, row, mods, delay } => EventView::RightClick {
                col,
                row,
                mods,
                delay,
            },
            Event::DoubleClick { col, row, mods, delay } => EventView::DoubleClick {
                col,
                row,
                mods,
                delay,
            },
            Event::MouseScroll { col, row, direction, mods, delay } => EventView::MouseScroll {
                col,
                row,
                direction,
                mods,
                delay,
            },
            Event::MouseDrag { coords, mods, delay, easing } => EventView::MouseDrag {
                coords: coords@,
                mods,
                delay,
                easing,
            },
            Event::MouseMove { coords, mods, delay, easing } => EventView::MouseMove {
                coords: coords@,
                mods,
                delay,
                easing,
            },
            Event::MouseInput { action, button, col, row, pixel_coords, mods } =>
                EventView::MouseInput { action, button, col, row, pixel_coords, mods },
            Event::Wait { scope, timeout, pattern } => EventView::Wait {
                scope,
                timeout,
                pattern: pattern@,
            },
            Event::Screenshot(p) => EventView::Screenshot(p@),
            Event::Copy(t) => EventView::Copy(t@),
            Event::Paste => EventView::Paste,
            Event::Hide => EventView::Hide,
            Event::Show => EventView::Show,
        }
    }
}

/// How the terminal looks and how fast the script runs.
#[derive(Debug, Clone)]
pub struct Settings {
    pub shell: Option<String>,
    pub mimic_vhs: bool,
    pub font_family: Option<String>,
    pub font_size: Measure,
    pub line_height: Measure,
    pub letter_spacing: Measure,
    pub width: Option<u32>,
    pub height: Option<u32>,
    pub cols: Option<u16>,
    pub rows: Option<u16>,
    pub padding: u32,
    pub margin: u32,
    pub margin_fill: Rgb,
    pub window_bar: WindowBarStyle,
    pub window_bar_size: u32,
    pub window_bar_title: Option<String>,
    pub window_bar_font_family: Option<String>,
    pub window_bar_font_size: Option<Measure>,
    pub border_radius: u32,
    pub framerate: u32,
    pub playback_speed: Measure,
    pub typing_speed: Nanos,
    pub cursor_blink: bool,
    pub theme: Theme,
}

/// Width of the canvas where nothing sets it.
pub const CANVAS_WIDTH: u32 = 1200;

/// Height of the canvas where nothing sets it.
pub const CANVAS_HEIGHT: u32 = 600;

impl Settings {
    /// The width of the canvas: what is set; else the usual width, unless the
    /// number of columns decides.
    pub open spec fn canvas_width(&self) -> Option<u32> {
        match self.width {
            Some(w) => Some(w),
            None => if self.cols is Some {
                None
            } else {
                Some(CANVAS_WIDTH)
            },
        }
    }

    /// The height of the canvas: what is set; else the usual height, unless the
    /// number of rows decides.
    pub open spec fn canvas_height(&self) -> Option<u32> {
        match self.height {
            Some(h) => Some(h),
            None => if self.rows is Some {
                None
            } else {
                Some(CANVAS_HEIGHT)
            },
        }
    }

    pub fn resolved_canvas_width(&self) -> (r: Option<u32>)
        ensures
            r == self.canvas_width(),
    {
        match self.width {
            Some(w) => Some(w),
            None => if self.cols.is_some() {
                None
            } else {
                Some(CANVAS_WIDTH)
            },
        }
    }

    pub fn resolved_canvas_height(&self) -> (r: Option<u32>)
        ensures
            r == self.canvas_height(),
    {
        match self.height {
            Some(h) => Some(h),
            None => if self.rows.is_some() {
                None
            } else {
                Some(CANVAS_HEIGHT)
            },
        }
    }
}

impl Default for Settings {
    fn default() -> (r: Settings)
        ensures
            r.font_size == 22 * ONE,
            r.line_height == ONE,
            r.letter_spacing == ONE,
            r.width is None,
            r.height is None,
            r.cols is None,
            r.rows is None,
            r.padding == 60,
            r.margin == 0,
            r.window_bar == WindowBarStyle::Off,
            r.framerate == 50,
            r.playback_speed == ONE,
            r.typing_speed == 50 * MILLI,
            r.cursor_blink,
            r.font_family is None,
            r.shell is None,
            !r.mimic_vhs,
            r.margin_fill == [0u8, 0u8, 0u8],
            r.window_bar_size == 30,
            r.window_bar_title is None,
            r.window_bar_font_family is None,
            r.window_bar_font_size is None,
            r.border_radius == 0,
            r.theme == style::default_theme(),
    {
        Settings {
            shell: None,
            mimic_vhs: false,
            font_family: None,
            font_size: 22 * ONE,
            line_height: ONE,
            letter_spacing: ONE,
            width: None,
            height: None,
            cols: None,
            rows: None,
            padding: 60,
            margin: 0,
            margin_fill: [0u8, 0u8, 0u8],
            window_bar: WindowBarStyle::Off,
            window_bar_size: 30,
            window_bar_title: None,
            window_bar_font_family: None,
            window_bar_font_size: None,
            border_radius: 0,
            framerate: 50,
            playback_speed: ONE,
            typing_speed: 50 * MILLI,
            cursor_blink: true,
            theme: Theme::default(),
        }
    }
}

/// A parsed script.
#[derive(Debug, Clone)]
pub struct Script {
    pub settings: Settings,
    pub require: Vec<String>,
    pub env: Vec<(String, String)>,
    pub events: Vec<Event>,
}

} // verus!
