//! What a program changes about its terminal, told once for each change.
use vstd::prelude::*;
use vstd::string::*;

use crate::recording;
use crate::runner::keys;
use crate::runner::keys::{format_kitty_flags, KittyFlags};
use crate::text::same_text;

verus! {

#[derive(Debug, Clone, Copy, PartialEq, Eq, Structural)]
pub enum ScreenBuffer {
    Primary,
    Alternate,
}

/// The modes of the terminal. What it does not tell is left out.
#[derive(Debug, Clone)]
pub struct TerminalReading {
    pub x10_mouse: bool,
    pub normal_mouse: bool,
    pub button_mouse: bool,
    pub any_mouse: bool,
    pub sgr_pixels_mouse: bool,
    pub sgr_mouse: bool,
    pub urxvt_mouse: bool,
    pub utf8_mouse: bool,
    pub kitty_flags: Option<KittyFlags>,
    pub title: Option<String>,
    pub screen: Option<ScreenBuffer>,
    pub bracketed_paste: bool,
    pub cursor_visible: Option<bool>,
}

/// A change that a program made.
#[derive(Debug, Clone)]
pub enum Notice {
    MouseCapture(String),
    KittyDisabled,
    KittyEnabled(String),
    Title(String),
    Screen(ScreenBuffer),
    BracketedPaste(bool),
    CursorVisible(bool),
}

pub enum NoticeView {
    MouseCapture(Seq<char>),
    KittyDisabled,
    KittyEnabled(Seq<char>),
    Title(Seq<char>),
    Screen(ScreenBuffer),
    BracketedPaste(bool),
    CursorVisible(bool),
}

impl View for Notice {
    type V = NoticeView;

    open spec fn view(&self) -> NoticeView {
        match *self {
            Notice::MouseCapture(s) => NoticeView::MouseCapture(s@),
            Notice::KittyDisabled => NoticeView::KittyDisabled,
            Notice::KittyEnabled(s) => NoticeView::KittyEnabled(s@),
            Notice::Title(s) => NoticeView::Title(s@),
            Notice::Screen(b) => NoticeView::Screen(b),
            Notice::BracketedPaste(b) => NoticeView::BracketedPaste(b),
            Notice::CursorVisible(b) => NoticeView::CursorVisible(b),
        }
    }
}

pub open spec fn notices(v: Seq<Notice>) -> Seq<NoticeView> {
    Seq::new(v.len(), |i: int| v[i]@)
}

/// What was seen last.
pub struct TrackerState {
    pub mouse_capture: Option<Seq<char>>,
    pub kitty_flags: Option<KittyFlags>,
    pub title: Option<Seq<char>>,
    pub screen: Option<ScreenBuffer>,
    pub bracketed_paste: Option<bool>,
    pub cursor_visible: Option<bool>,
}

/// Remembers what was seen last.
#[derive(Debug, Clone)]
pub struct TerminalStateTracker {
    prev_mouse_capture: Option<String>,
    prev_kitty_flags: Option<KittyFlags>,
    prev_title: Option<String>,
    prev_screen: Option<ScreenBuffer>,
    prev_bracketed_paste: Option<bool>,
    prev_cursor_visible: Option<bool>,
}

impl View for TerminalStateTracker {
    type V = TrackerState;

    closed spec fn view(&self) -> TrackerState {
        TrackerState {
            mouse_capture: recording::opt_text(self.prev_mouse_capture),
            kitty_flags: self.prev_kitty_flags,
            title: recording::opt_text(self.prev_title),
            screen: self.prev_screen,
            bracketed_paste: self.prev_bracketed_paste,
            cursor_visible: self.prev_cursor_visible,
        }
    }
}

/// Which gestures of the mouse a program asks for.
pub open spec fn captured_gestures(r: TerminalReading) -> Seq<char> {
    if r.any_mouse {
        "Click+Drag+Move+Scroll"@
    } else if r.button_mouse {
        "Click+Drag+Scroll"@
    } else if r.normal_mouse {
        "Click+Scroll"@
    } else {
        "Click (X10)"@
    }
}

/// How coordinates are reported, if not in the oldest way.
pub open spec fn coordinate_format(r: TerminalReading) -> Option<Seq<char>> {
    if r.sgr_pixels_mouse {
        Some("Pixel Coords"@)
    } else if r.sgr_mouse {
        Some("SGR Coords"@)
    } else if r.urxvt_mouse {
        Some("URXVT Coords"@)
    } else if r.utf8_mouse {
        Some("UTF-8 Coords"@)
    } else {
        None
    }
}

pub open spec fn captures_mouse(r: TerminalReading) -> bool {
    r.any_mouse || r.button_mouse || r.normal_mouse || r.x10_mouse
}

/// What a program wants to hear of the mouse, in words.
pub open spec fn mouse_capture_text(r: TerminalReading) -> Seq<char> {
    if !captures_mouse(r) {
        "disabled"@
    } else {
        match coordinate_format(r) {
            Some(f) => captured_gestures(r) + " ("@ + f + ") events"@,
            None => captured_gestures(r) + " events"@,
        }
    }
}

/// What is told if `new` was not told before.
pub open spec fn told(out: Seq<NoticeView>, tell: bool, n: NoticeView) -> Seq<NoticeView> {
    if tell {
        out.push(n)
    } else {
        out
    }
}

/// What a reading makes of the state.
pub open spec fn state_after(s: TrackerState, r: TerminalReading) -> TrackerState {
    TrackerState {
        mouse_capture: Some(mouse_capture_text(r)),
        kitty_flags: if r.kitty_flags is Some {
            r.kitty_flags
        } else {
            s.kitty_flags
        },
        title: if r.title is Some {
            recording::opt_text(r.title)
        } else {
            s.title
        },
        screen: if r.screen is Some {
            r.screen
        } else {
            s.screen
        },
        bracketed_paste: Some(r.bracketed_paste),
        cursor_visible: if r.cursor_visible is Some {
            r.cursor_visible
        } else {
            s.cursor_visible
        },
    }
}

pub open spec fn kitty_notice(f: KittyFlags) -> NoticeView {
    if f.bits == 0 {
        NoticeView::KittyDisabled
    } else {
        NoticeView::KittyEnabled(keys::flags_text(f))
    }
}

/// The changes that a reading shows. What is seen for the first time is no change,
/// but for a mouse or a keyboard mode that is not disabled.
pub open spec fn changes(s: TrackerState, r: TerminalReading) -> Seq<NoticeView> {
    let capture = mouse_capture_text(r);
    let n1 = told(
        Seq::empty(),
        s.mouse_capture != Some(capture) && (s.mouse_capture is Some || captures_mouse(r)),
        NoticeView::MouseCapture(capture),
    );
    let n2 = match r.kitty_flags {
        Some(f) => told(
            n1,
            s.kitty_flags != Some(f) && (s.kitty_flags is Some || f.bits != 0),
            kitty_notice(f),
        ),
        None => n1,
    };
    let n3 = match r.title {
        Some(t) => told(n2, s.title is Some && s.title != Some(t@), NoticeView::Title(t@)),
        None => n2,
    };
    let n4 = match r.screen {
        Some(b) => told(n3, s.screen is Some && s.screen != Some(b), NoticeView::Screen(b)),
        None => n3,
    };
    let n5 = told(
        n4,
        s.bracketed_paste is Some && s.bracketed_paste != Some(r.bracketed_paste),
        NoticeView::BracketedPaste(r.bracketed_paste),
    );
    match r.cursor_visible {
        Some(v) => told(
            n5,
            s.cursor_visible is Some && s.cursor_visible != Some(v),
            NoticeView::CursorVisible(v),
        ),
        None => n5,
    }
}

/// The same reading again shows no change.
pub proof fn lemma_told_once(s: TrackerState, r: TerminalReading)
    ensures
        changes(state_after(s, r), r) == Seq::<NoticeView>::empty(),
        state_after(state_after(s, r), r) == state_after(s, r),
{
}

fn describe_capture(r: &TerminalReading) -> (out: String)
    ensures
        out@ == mouse_capture_text(*r),
{
    if !(r.any_mouse || r.button_mouse || r.normal_mouse || r.x10_mouse) {
        return "disabled".to_string();
    }
    let mut out: String = (if r.any_mouse {
        "Click+Drag+Move+Scroll"
    } else if r.button_mouse {
        "Click+Drag+Scroll"
    } else if r.normal_mouse {
        "Click+Scroll"
    } else {
        "Click (X10)"
    }).to_string();
    let format: Option<&str> = if r.sgr_pixels_mouse {
        Some("Pixel Coords")
    } else if r.sgr_mouse {
        Some("SGR Coords")
    } else if r.urxvt_mouse {
        Some("URXVT Coords")
    } else if r.utf8_mouse {
        Some("UTF-8 Coords")
    } else {
        None
    };
    match format {
        Some(f) => {
            out.append(" (");
            out.append(f);
            out.append(") events");
        },
        None => {
            out.append(" events");
        },
    }
    out
}

fn tell(out: &mut Vec<Notice>, n: Notice)
    ensures
        notices(final(out)@) == notices(old(out)@).push(n@),
{
    out.push(n);
    assert(notices(out@) =~= notices(old(out)@).push(n@));
}

fn is_same(a: &Option<String>, b: &str) -> (r: bool)
    ensures
        r == (recording::opt_text(*a) == Some(b@)),
{
    match a {
        Some(x) => same_text(x.as_str(), b),
        None => false,
    }
}

fn note_capture(prev: &mut Option<String>, r: &TerminalReading, out: &mut Vec<Notice>)
    ensures
        recording::opt_text(*final(prev)) == Some(mouse_capture_text(*r)),
        notices(final(out)@) == told(
            notices(old(out)@),
            recording::opt_text(*old(prev)) != Some(mouse_capture_text(*r)) && (*old(prev) is Some
                || captures_mouse(*r)),
            NoticeView::MouseCapture(mouse_capture_text(*r)),
        ),
{
    let capture: String = describe_capture(r);
    if !is_same(prev, capture.as_str()) {
        if prev.is_some() || r.any_mouse || r.button_mouse || r.normal_mouse || r.x10_mouse {
            tell(out, Notice::MouseCapture(capture.clone()));
        }
        *prev = Some(capture);
    }
}

fn note_kitty(prev: &mut Option<KittyFlags>, flags: Option<KittyFlags>, out: &mut Vec<Notice>)
    ensures
        *final(prev) == (if flags is Some {
            flags
        } else {
            *old(prev)
        }),
        notices(final(out)@) == (match flags {
            Some(f) => told(
                notices(old(out)@),
                *old(prev) != Some(f) && (*old(prev) is Some || f.bits != 0),
                kitty_notice(f),
            ),
            None => notices(old(out)@),
        }),
{
    match flags {
        Some(f) => {
            let same: bool = match *prev {
                Some(g) => g.bits == f.bits,
                None => false,
            };
            if !same {
                if prev.is_some() || f.bits != 0 {
                    if f.bits == 0 {
                        tell(out, Notice::KittyDisabled);
                    } else {
                        tell(out, Notice::KittyEnabled(format_kitty_flags(f)));
                    }
                }
                *prev = Some(f);
            }
        },
        None => {},
    }
}

fn note_title(prev: &mut Option<String>, title: &Option<String>, out: &mut Vec<Notice>)
    ensures
        recording::opt_text(*final(prev)) == (if title is Some {
            recording::opt_text(*title)
        } else {
            recording::opt_text(*old(prev))
        }),
        notices(final(out)@) == (match *title {
            Some(t) => told(
                notices(old(out)@),
                *old(prev) is Some && recording::opt_text(*old(prev)) != Some(t@),
                NoticeView::Title(t@),
            ),
            None => notices(old(out)@),
        }),
{
    match title {
        Some(t) => {
            if !is_same(prev, t.as_str()) {
                if prev.is_some() {
                    tell(out, Notice::Title(t.clone()));
                }
                *prev = Some(t.clone());
            }
        },
        None => {},
    }
}

fn note_screen(prev: &mut Option<ScreenBuffer>, screen: Option<ScreenBuffer>, out: &mut Vec<Notice>)
    ensures
        *final(prev) == (if screen is Some {
            screen
        } else {
            *old(prev)
        }),
        notices(final(out)@) == (match screen {
            Some(b) => told(
                notices(old(out)@),
                *old(prev) is Some && *old(prev) != Some(b),
                NoticeView::Screen(b),
            ),
            None => notices(old(out)@),
        }),
{
    match screen {
        Some(b) => {
            match *prev {
                Some(c) => {
                    if c != b {
                        tell(out, Notice::Screen(b));
                    }
                },
                None => {},
            }
            *prev = Some(b);
        },
        None => {},
    }
}

fn note_paste(prev: &mut Option<bool>, paste: bool, out: &mut Vec<Notice>)
    ensures
        *final(prev) == Some(paste),
        notices(final(out)@) == told(
            notices(old(out)@),
            *old(prev) is Some && *old(prev) != Some(paste),
            NoticeView::BracketedPaste(paste),
        ),
{
    match *prev {
        Some(p) => {
            if p != paste {
                tell(out, Notice::BracketedPaste(paste));
            }
        },
        None => {},
    }
    *prev = Some(paste);
}

fn note_cursor(prev: &mut Option<bool>, visible: Option<bool>, out: &mut Vec<Notice>)
    ensures
        *final(prev) == (if visible is Some {
            visible
        } else {
            *old(prev)
        }),
        notices(final(out)@) == (match visible {
            Some(v) => told(
                notices(old(out)@),
                *old(prev) is Some && *old(prev) != Some(v),
                NoticeView::CursorVisible(v),
            ),
            None => notices(old(out)@),
        }),
{
    match visible {
        Some(v) => {
            match *prev {
                Some(p) => {
                    if p != v {
                        tell(out, Notice::CursorVisible(v));
                    }
                },
                None => {},
            }
            *prev = Some(v);
        },
        None => {},
    }
}

impl TerminalStateTracker {
    /// A tracker that has seen nothing.
    pub fn new() -> (r: TerminalStateTracker)
        ensures
            r@ == (TrackerState {
                mouse_capture: None,
                kitty_flags: None,
                title: None,
                screen: None,
                bracketed_paste: None,
                cursor_visible: None,
            }),
    {
        TerminalStateTracker {
            prev_mouse_capture: None,
            prev_kitty_flags: None,
            prev_title: None,
            prev_screen: None,
            prev_bracketed_paste: None,
            prev_cursor_visible: None,
        }
    }

    /// Take a reading in, and hand out the changes that it shows.
    pub fn update_and_log(&mut self, r: &TerminalReading) -> (out: Vec<Notice>)
        ensures
            final(self)@ == state_after(old(self)@, *r),
            notices(out@) == changes(old(self)@, *r),
    {
        let mut out: Vec<Notice> = Vec::new();
        assert(notices(out@) =~= Seq::empty());
        note_capture(&mut self.prev_mouse_capture, r, &mut out);
        note_kitty(&mut self.prev_kitty_flags, r.kitty_flags, &mut out);
        note_title(&mut self.prev_title, &r.title, &mut out);
        note_screen(&mut self.prev_screen, r.screen, &mut out);
        note_paste(&mut self.prev_bracketed_paste, r.bracketed_paste, &mut out);
        note_cursor(&mut self.prev_cursor_visible, r.cursor_visible, &mut out);
        out
    }
}

} // verus!
