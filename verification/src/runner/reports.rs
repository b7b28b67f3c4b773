//! What holds of the texts that a run reads and writes: what is told of the terminal,
//! what it is told, and what is read off its screen.
use vstd::prelude::*;
use vstd::string::*;

use crate::recording::RawFrame;
use crate::render_svg::cells;
use crate::runner::keys;
use crate::runner::require;
use crate::runner::screen;
use crate::runner::screenshot;
use crate::runner::screenshot::ScreenshotKind;
use crate::runner::theme;
use crate::runner::tracker;
use crate::runner::tracker::{NoticeView, TerminalReading, TrackerState};
use crate::script::{KeyAction, KeySpec, WaitScope};
use crate::style::{Rgb, Theme};
use crate::text;

verus! {

proof fn lemma_told(out: Seq<NoticeView>, tell: bool, n: NoticeView, x: NoticeView)
    ensures
        tracker::told(out, tell, n).contains(x) <==> out.contains(x) || (tell && x == n),
{
    let v = tracker::told(out, tell, n);
    if tell {
        assert(v[out.len() as int] == n);
        if out.contains(x) {
            let i = choose|i: int| 0 <= i < out.len() && out[i] == x;
            assert(v[i] == x);
        }
        if v.contains(x) {
            let i = choose|i: int| 0 <= i < v.len() && v[i] == x;
            if i < out.len() {
                assert(out[i] == x);
            }
        }
    }
}

/// What is told of a reading is what differs from what was seen last, and only that. A
/// title, a screen, a mode of pasting or a cursor that is seen for the first time differs
/// from nothing; what the program wants to hear of mouse and keyboard is told the first
/// time too, unless it is nothing.
pub proof fn lemma_changes_told(s: TrackerState, r: TerminalReading, x: NoticeView)
    ensures
        tracker::changes(s, r).contains(x) <==> match x {
            NoticeView::Title(t) => (r.title matches Some(u) && u@ == t) && s.title is Some
                && s.title != Some(t),
            NoticeView::Screen(b) => r.screen == Some(b) && s.screen is Some && s.screen != Some(
                b,
            ),
            NoticeView::BracketedPaste(b) => r.bracketed_paste == b && (
            s.bracketed_paste matches Some(c) && c != b),
            NoticeView::CursorVisible(v) => (r.cursor_visible matches Some(u) && u == v) && (
            s.cursor_visible matches Some(u) && u != v),
            NoticeView::KittyDisabled => (r.kitty_flags matches Some(f) && f.bits == 0) && (
            s.kitty_flags matches Some(f) && f.bits != 0),
            NoticeView::KittyEnabled(t) => (r.kitty_flags matches Some(f) && f.bits != 0
                && keys::flags_text(f) == t) && s.kitty_flags != r.kitty_flags,
            NoticeView::MouseCapture(t) => tracker::mouse_capture_text(r) == t && s.mouse_capture
                != Some(t) && (s.mouse_capture is Some || r.any_mouse || r.button_mouse
                || r.normal_mouse || r.x10_mouse),
        },
{
    let capture = tracker::mouse_capture_text(r);
    let b1 = s.mouse_capture != Some(capture) && (s.mouse_capture is Some
        || tracker::captures_mouse(r));
    let m1 = NoticeView::MouseCapture(capture);
    let n1 = tracker::told(Seq::empty(), b1, m1);
    lemma_told(Seq::empty(), b1, m1, x);
    let n2 = match r.kitty_flags {
        Some(f) => {
            let b = s.kitty_flags != Some(f) && (s.kitty_flags is Some || f.bits != 0);
            lemma_told(n1, b, tracker::kitty_notice(f), x);
            tracker::told(n1, b, tracker::kitty_notice(f))
        },
        None => n1,
    };
    let n3 = match r.title {
        Some(t) => {
            let b = s.title is Some && s.title != Some(t@);
            lemma_told(n2, b, NoticeView::Title(t@), x);
            tracker::told(n2, b, NoticeView::Title(t@))
        },
        None => n2,
    };
    let n4 = match r.screen {
        Some(c) => {
            let b = s.screen is Some && s.screen != Some(c);
            lemma_told(n3, b, NoticeView::Screen(c), x);
            tracker::told(n3, b, NoticeView::Screen(c))
        },
        None => n3,
    };
    let b5 = s.bracketed_paste is Some && s.bracketed_paste != Some(r.bracketed_paste);
    lemma_told(n4, b5, NoticeView::BracketedPaste(r.bracketed_paste), x);
    let n5 = tracker::told(n4, b5, NoticeView::BracketedPaste(r.bracketed_paste));
    match r.cursor_visible {
        Some(v) => {
            let b = s.cursor_visible is Some && s.cursor_visible != Some(v);
            lemma_told(n5, b, NoticeView::CursorVisible(v), x);
            let n6 = tracker::told(n5, b, NoticeView::CursorVisible(v));
            assert(tracker::changes(s, r) == n6);
        },
        None => {
            assert(tracker::changes(s, r) == n5);
        },
    }
}

/// What was seen last is what the terminal tells; of what it does not tell, what it told
/// last.
pub proof fn lemma_reading_kept(s: TrackerState, r: TerminalReading)
    ensures
        ({
            let t = tracker::state_after(s, r);
            &&& r.title matches Some(u) ==> t.title == Some(u@)
            &&& r.title is None ==> t.title == s.title
            &&& r.screen is Some ==> t.screen == r.screen
            &&& r.screen is None ==> t.screen == s.screen
            &&& r.kitty_flags is Some ==> t.kitty_flags == r.kitty_flags
            &&& r.kitty_flags is None ==> t.kitty_flags == s.kitty_flags
            &&& r.cursor_visible is Some ==> t.cursor_visible == r.cursor_visible
            &&& r.cursor_visible is None ==> t.cursor_visible == s.cursor_visible
            &&& t.bracketed_paste == Some(r.bracketed_paste)
            &&& t.mouse_capture == Some(tracker::mouse_capture_text(r))
        }),
{
}

/// What a program wants to hear of the mouse is told by the most it asks for, and how
/// places are reported by the first way of these: pixels, SGR, URXVT, UTF-8.
pub proof fn lemma_capture_told(r: TerminalReading)
    ensures
        ({
            let t = tracker::mouse_capture_text(r);
            let how = if r.sgr_pixels_mouse {
                " (Pixel Coords) events"@
            } else if r.sgr_mouse {
                " (SGR Coords) events"@
            } else if r.urxvt_mouse {
                " (URXVT Coords) events"@
            } else if r.utf8_mouse {
                " (UTF-8 Coords) events"@
            } else {
                " events"@
            };
            &&& r.any_mouse ==> t == "Click+Drag+Move+Scroll"@ + how
            &&& !r.any_mouse && r.button_mouse ==> t == "Click+Drag+Scroll"@ + how
            &&& !r.any_mouse && !r.button_mouse && r.normal_mouse ==> t == "Click+Scroll"@ + how
            &&& !r.any_mouse && !r.button_mouse && !r.normal_mouse && r.x10_mouse ==> t
                == "Click (X10)"@ + how
            &&& !r.any_mouse && !r.button_mouse && !r.normal_mouse && !r.x10_mouse ==> t
                == "disabled"@
        }),
{
    reveal_strlit(" (Pixel Coords) events");
    reveal_strlit(" (SGR Coords) events");
    reveal_strlit(" (URXVT Coords) events");
    reveal_strlit(" (UTF-8 Coords) events");
    reveal_strlit("Pixel Coords");
    reveal_strlit("SGR Coords");
    reveal_strlit("URXVT Coords");
    reveal_strlit("UTF-8 Coords");
    reveal_strlit(" (");
    reveal_strlit(") events");
    let a = " ("@ + "Pixel Coords"@ + ") events"@;
    let b = " ("@ + "SGR Coords"@ + ") events"@;
    let c = " ("@ + "URXVT Coords"@ + ") events"@;
    let d = " ("@ + "UTF-8 Coords"@ + ") events"@;
    assert(a =~= " (Pixel Coords) events"@);
    assert(b =~= " (SGR Coords) events"@);
    assert(c =~= " (URXVT Coords) events"@);
    assert(d =~= " (UTF-8 Coords) events"@);
    let g = tracker::captured_gestures(r);
    assert(g + " ("@ + "Pixel Coords"@ + ") events"@ =~= g + a);
    assert(g + " ("@ + "SGR Coords"@ + ") events"@ =~= g + b);
    assert(g + " ("@ + "URXVT Coords"@ + ") events"@ =~= g + c);
    assert(g + " ("@ + "UTF-8 Coords"@ + ") events"@ =~= g + d);
}

/// A key needs the extended protocol exactly if it is released or held with super.
pub proof fn lemma_extended_keys(spec: KeySpec, action: KeyAction)
    ensures
        action == KeyAction::Release ==> keys::needs_extended(spec, action),
        spec.mods.super_key ==> keys::needs_extended(spec, action),
        action != KeyAction::Release && !spec.mods.super_key ==> !keys::needs_extended(
            spec,
            action,
        ),
{
}

/// The flags that are named are those that are set.
pub proof fn lemma_flags_named(bits: u8)
    ensures
        ({
            let names = keys::flag_names(bits);
            &&& names.contains("DISAMBIGUATE"@) <==> bits & 1 != 0
            &&& names.contains("REPORT_EVENTS"@) <==> bits & 2 != 0
            &&& names.contains("REPORT_ALTERNATES"@) <==> bits & 4 != 0
            &&& names.contains("REPORT_ALL"@) <==> bits & 8 != 0
            &&& names.contains("REPORT_ASSOCIATED"@) <==> bits & 16 != 0
        }),
{
    reveal_strlit("DISAMBIGUATE");
    reveal_strlit("REPORT_EVENTS");
    reveal_strlit("REPORT_ALTERNATES");
    reveal_strlit("REPORT_ALL");
    reveal_strlit("REPORT_ASSOCIATED");
    assert("REPORT_ALTERNATES"@[8] != "REPORT_ASSOCIATED"@[8]);
    let e = Seq::<Seq<char>>::empty();
    let n1 = named(e, bits & 1 != 0, "DISAMBIGUATE"@);
    let n2 = named(n1, bits & 2 != 0, "REPORT_EVENTS"@);
    let n3 = named(n2, bits & 4 != 0, "REPORT_ALTERNATES"@);
    let n4 = named(n3, bits & 8 != 0, "REPORT_ALL"@);
    let n5 = named(n4, bits & 16 != 0, "REPORT_ASSOCIATED"@);
    assert(n5 == keys::flag_names(bits));
    assert forall|x: Seq<char>| #[trigger] n5.contains(x) <==> (bits & 1 != 0 && x
        == "DISAMBIGUATE"@) || (bits & 2 != 0 && x == "REPORT_EVENTS"@) || (bits & 4 != 0 && x
        == "REPORT_ALTERNATES"@) || (bits & 8 != 0 && x == "REPORT_ALL"@) || (bits & 16 != 0 && x
        == "REPORT_ASSOCIATED"@) by {
        lemma_named(e, bits & 1 != 0, "DISAMBIGUATE"@, x);
        lemma_named(n1, bits & 2 != 0, "REPORT_EVENTS"@, x);
        lemma_named(n2, bits & 4 != 0, "REPORT_ALTERNATES"@, x);
        lemma_named(n3, bits & 8 != 0, "REPORT_ALL"@, x);
        lemma_named(n4, bits & 16 != 0, "REPORT_ASSOCIATED"@, x);
    }
    let (a, b, c) = ("DISAMBIGUATE"@, "REPORT_EVENTS"@, "REPORT_ALTERNATES"@);
    let (d, f) = ("REPORT_ALL"@, "REPORT_ASSOCIATED"@);
    assert(a.len() == 12 && b.len() == 13 && c.len() == 17 && d.len() == 10 && f.len() == 17);
    assert(n5.contains(a) <==> bits & 1 != 0);
    assert(n5.contains(b) <==> bits & 2 != 0);
    assert(n5.contains(c) <==> bits & 4 != 0);
    assert(n5.contains(d) <==> bits & 8 != 0);
    assert(n5.contains(f) <==> bits & 16 != 0);
}

spec fn named(out: Seq<Seq<char>>, name: bool, n: Seq<char>) -> Seq<Seq<char>> {
    if name {
        out.push(n)
    } else {
        out
    }
}

proof fn lemma_named(out: Seq<Seq<char>>, name: bool, n: Seq<char>, x: Seq<char>)
    ensures
        named(out, name, n).contains(x) <==> out.contains(x) || (name && x == n),
{
    let v = named(out, name, n);
    if name {
        assert(v[out.len() as int] == n);
        if out.contains(x) {
            let i = choose|i: int| 0 <= i < out.len() && out[i] == x;
            assert(v[i] == x);
        }
        if v.contains(x) {
            let i = choose|i: int| 0 <= i < v.len() && v[i] == x;
            if i < out.len() {
                assert(out[i] == x);
            }
        }
    }
}

/// The text that gives the terminal one of its colours.
pub open spec fn sets_color(code: Seq<char>, c: Rgb) -> Seq<char> {
    "\x1b]"@ + code + ";rgb:"@ + text::hex_byte(c[0]) + "/"@ + text::hex_byte(c[1]) + "/"@
        + text::hex_byte(c[2]) + "\x1b\\"@
}

proof fn lemma_sets_color(code: Seq<char>, c: Rgb)
    ensures
        theme::color_sequence(code, c) == sets_color(code, c),
{
    reveal_strlit(";");
    reveal_strlit("rgb:");
    reveal_strlit(";rgb:");
    assert(";"@ + "rgb:"@ =~= ";rgb:"@);
    let (r, g, b) = (text::hex_byte(c[0]), text::hex_byte(c[1]), text::hex_byte(c[2]));
    assert(theme::color_sequence(code, c) =~= "\x1b]"@ + code + (";"@ + "rgb:"@) + r + "/"@ + g
        + "/"@ + b + "\x1b\\"@);
}

/// A theme gives the terminal its colours: the sixteen of its palette, each under its own
/// number and in order, and then the foreground, the background, the cursor and, if it
/// has one, the selection.
pub proof fn lemma_theme_told(t: Theme, i: int)
    requires
        0 <= i < 16,
    ensures
        ({
            let v = theme::theme_texts(t);
            &&& v.len() == if t.selection is Some {
                20int
            } else {
                19
            }
            &&& v[i] == sets_color("4;"@ + text::decimal(i as nat), t.palette[i])
            &&& v[16] == sets_color("10"@, t.foreground)
            &&& v[17] == sets_color("11"@, t.background)
            &&& v[18] == sets_color("12"@, t.cursor)
            &&& t.selection matches Some(c) ==> v[19] == sets_color("17"@, c)
        }),
{
    lemma_sets_color("4;"@ + text::decimal(i as nat), t.palette[i]);
    lemma_sets_color("10"@, t.foreground);
    lemma_sets_color("11"@, t.background);
    lemma_sets_color("12"@, t.cursor);
    if let Some(c) = t.selection {
        lemma_sets_color("17"@, c);
    }
}

/// A program is missing exactly if the script requires it and it was not found; none is
/// missing exactly if all were found.
pub proof fn lemma_missing(required: Seq<String>, found: Seq<bool>, n: int, name: Seq<char>)
    requires
        0 <= n <= required.len(),
        found.len() == required.len(),
    ensures
        require::missing(required, found, n).contains(name) <==> exists|i: int|
            0 <= i < n && !found[i] && (#[trigger] required[i])@ == name,
        require::missing(required, found, n).len() == 0 <==> forall|i: int|
            0 <= i < n ==> #[trigger] found[i],
    decreases n,
{
    if n > 0 {
        lemma_missing(required, found, n - 1, name);
        let before = require::missing(required, found, n - 1);
        lemma_named(before, !found[n - 1], required[n - 1]@, name);
        assert(require::missing(required, found, n) == named(
            before,
            !found[n - 1],
            required[n - 1]@,
        ));
        if require::missing(required, found, n - 1).contains(name) {
            let i = choose|i: int|
                0 <= i < n - 1 && !found[i] && (#[trigger] required[i])@ == name;
            assert(0 <= i < n && !found[i] && required[i]@ == name);
        }
        if !found[n - 1] && required[n - 1]@ == name {
            assert(0 <= n - 1 < n && !found[n - 1] && required[n - 1]@ == name);
        }
    }
}

/// Whether a cell of the screen holds a single character, or none.
pub open spec fn plain_cell(cell: Seq<char>) -> bool {
    cell.len() <= 1
}

/// A row is read cell by cell: the character of each cell in its place, and a space where
/// there is none.
pub proof fn lemma_row_read(cells: Seq<Vec<char>>, n: int)
    requires
        0 <= n <= cells.len(),
        forall|i: int| 0 <= i < cells.len() ==> plain_cell((#[trigger] cells[i])@),
    ensures
        screen::row_text(cells, n).len() == n,
        forall|i: int|
            0 <= i < n ==> #[trigger] screen::row_text(cells, n)[i] == (if cells[i]@.len() == 0 {
                ' '
            } else {
                cells[i]@[0]
            }),
    decreases n,
{
    if n > 0 {
        lemma_row_read(cells, n - 1);
        assert(plain_cell(cells[n - 1]@));
    }
}

/// A wait that looks at a line looks at the last one that is not blank; where all are
/// blank, at nothing.
pub proof fn lemma_line_read(rows: Seq<Vec<Vec<char>>>)
    ensures
        ({
            let seen = screen::screen_text(rows, WaitScope::Line);
            ||| seen.len() == 0 && forall|k: int|
                0 <= k < rows.len() ==> screen::line((#[trigger] rows[k])@).len() == 0
            ||| seen.len() > 0 && exists|i: int|
                0 <= i < rows.len() && seen == screen::line((#[trigger] rows[i])@) && forall|k: int|
                    i < k < rows.len() ==> screen::line((#[trigger] rows[k])@).len() == 0
        }),
{
    lemma_last_line(rows, rows.len() as int);
}

proof fn lemma_last_line(rows: Seq<Vec<Vec<char>>>, n: int)
    requires
        0 <= n <= rows.len(),
    ensures
        ({
            let seen = screen::last_line(rows, n);
            ||| seen.len() == 0 && forall|k: int|
                0 <= k < n ==> screen::line((#[trigger] rows[k])@).len() == 0
            ||| seen.len() > 0 && exists|i: int|
                0 <= i < n && seen == screen::line((#[trigger] rows[i])@) && forall|k: int|
                    i < k < n ==> screen::line((#[trigger] rows[k])@).len() == 0
        }),
    decreases n,
{
    if n > 0 {
        lemma_last_line(rows, n - 1);
        if screen::line(rows[n - 1]@).len() > 0 {
            assert(screen::last_line(rows, n) == screen::line(rows[n - 1]@));
        } else if screen::last_line(rows, n - 1).len() > 0 {
            let i = choose|i: int|
                0 <= i < n - 1 && screen::last_line(rows, n - 1) == screen::line(
                    (#[trigger] rows[i])@,
                ) && forall|k: int|
                    i < k < n - 1 ==> screen::line((#[trigger] rows[k])@).len() == 0;
            assert forall|k: int| i < k < n implies screen::line(
                (#[trigger] rows[k])@,
            ).len() == 0 by {}
            assert(screen::last_line(rows, n) == screen::line(rows[i]@));
        }
    }
}

/// A wait that looks at the screen sees every row, in order, each on a line of its own
/// and without the white space at its end.
pub proof fn lemma_screen_read(rows: Seq<Vec<Vec<char>>>, n: int, k: int)
    requires
        0 <= k < n <= rows.len(),
    ensures
        screen::screen_text(rows, WaitScope::Screen) == screen::lines(rows, rows.len() as int),
        ({
            let row = rows[k]@;
            let whole = screen::row_text(row, row.len() as int);
            let seen = text::trimmed_end(whole);
            let from = screen::lines(rows, k).len() as int;
            let all = screen::lines(rows, n);
            &&& from + seen.len() < all.len()
            &&& all.subrange(from, from + seen.len()) == seen
            &&& all[from + seen.len()] == '\n'
            &&& k + 1 < n ==> screen::lines(rows, k + 1).len() == from + seen.len() + 1
            &&& k + 1 == n ==> all.len() == from + seen.len() + 1
            &&& k == 0 ==> from == 0
        }),
    decreases n,
{
    let row = rows[k]@;
    let seen = text::trimmed_end(screen::row_text(row, row.len() as int));
    let from = screen::lines(rows, k).len() as int;
    let all = screen::lines(rows, n);
    if k < n - 1 {
        lemma_screen_read(rows, n - 1, k);
        let before = screen::lines(rows, n - 1);
        assert(all.subrange(from, from + seen.len()) =~= before.subrange(from, from + seen.len()));
    } else {
        assert(all.subrange(from, from + seen.len()) =~= seen);
    }
}

/// A row of a screenshot in text is written cell by cell: where every cell has one
/// character or none, and no character is two columns wide, each is in its place.
pub proof fn lemma_row_written(f: RawFrame, row: int, n: int)
    requires
        f.wf(),
        0 <= row < f.rows,
        0 <= n <= f.cols,
        forall|c: int|
            0 <= c < f.cols ==> {
                let t = (#[trigger] f.cells@[row * f.cols + c]).text@;
                t.len() == 0 || (t.len() == 1 && !cells::is_wide(t[0]))
            },
    ensures
        screenshot::cells_text(f, row, n).len() == n,
        forall|c: int|
            0 <= c < n ==> #[trigger] screenshot::cells_text(f, row, n)[c] == ({
                let t = f.cells@[row * f.cols + c].text@;
                if t.len() == 0 {
                    ' '
                } else {
                    t[0]
                }
            }),
    decreases n,
{
    if n > 0 {
        lemma_row_written(f, row, n - 1);
        let t = f.cells@[row * f.cols + (n - 1)].text@;
        assert(t.len() == 0 || (t.len() == 1 && !cells::is_wide(t[0])));
        if n > 1 {
            let u = f.cells@[row * f.cols + (n - 2)].text@;
            assert(u.len() == 0 || (u.len() == 1 && !cells::is_wide(u[0])));
        }
        assert(screenshot::cell_text(f, row, n - 1).len() == 1);
    }
}

/// A row of a screenshot in text ends with the last cell that has text: that one has, and
/// none behind it.
pub proof fn lemma_row_ends(f: RawFrame, row: int, n: int)
    requires
        0 <= n,
    ensures
        ({
            let used = screenshot::used_cells(f, row, n);
            &&& 0 <= used <= n
            &&& used > 0 ==> f.cell(used - 1, row).text.len() > 0
            &&& forall|c: int| used <= c < n ==> (#[trigger] f.cell(c, row)).text.len() == 0
        }),
    decreases n,
{
    if n > 0 {
        lemma_row_ends(f, row, n - 1);
    }
}

/// The form of a screenshot is the one that its extension names, in upper or lower case,
/// and there is none for other extensions.
pub proof fn lemma_kind_named(ext: Seq<char>)
    ensures
        ({
            let kind = screenshot::kind_of(ext);
            let named = |name: Seq<char>| text::same_but_case(ext, name);
            &&& kind == Some(ScreenshotKind::Png) <==> named("png"@)
            &&& kind == Some(ScreenshotKind::Svg) <==> named("svg"@)
            &&& kind == Some(ScreenshotKind::Svgz) <==> named("svgz"@)
            &&& kind == Some(ScreenshotKind::Json) <==> named("json"@)
            &&& kind == Some(ScreenshotKind::Text) <==> named("txt"@) || named("ascii"@)
        }),
{
    reveal_strlit("png");
    reveal_strlit("svg");
    reveal_strlit("svgz");
    reveal_strlit("json");
    reveal_strlit("txt");
    reveal_strlit("ascii");
    lemma_names_apart(ext, "png"@, "svg"@);
    lemma_names_apart(ext, "png"@, "txt"@);
    lemma_names_apart(ext, "svg"@, "txt"@);
    lemma_names_apart(ext, "svgz"@, "json"@);
}

/// A text is the same as one of two that start with different letters at most.
proof fn lemma_names_apart(t: Seq<char>, a: Seq<char>, b: Seq<char>)
    requires
        a.len() > 0,
        b.len() > 0,
        text::lower(a[0]) != text::lower(b[0]),
    ensures
        !(text::same_but_case(t, a) && text::same_but_case(t, b)),
{
    if text::same_but_case(t, a) && text::same_but_case(t, b) {
        assert(text::lower(t[0]) == text::lower(a[0]));
        assert(text::lower(t[0]) == text::lower(b[0]));
    }
}

} // verus!
