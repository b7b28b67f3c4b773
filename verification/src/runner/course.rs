//! What holds of the course of a run: what is done when, what the program is sent, and
//! which frames are recorded.
use vstd::prelude::*;

use crate::nanos::{Nanos, MILLI};
use crate::runner::screen;
use crate::runner::session;
use crate::runner::session::{ActionView, Delivery, SessionView, Step};
use crate::script::{EventView, ModSet, MouseAction, MouseButton, WaitScope};
use crate::single;
use crate::single::ONE;
use crate::viewport::ViewportConfig;

verus! {

/// The next event is dispatched exactly when its time has come, no wait holds it back,
/// and no frame that is to be taken comes first. A frame is to be taken when its time has
/// come, up to the end of the run or as long as a wait lasts; it is taken exactly when no
/// event comes first. An event comes before a frame of the same time.
pub proof fn lemma_next_step(s: SessionView, at: Option<Nanos>, now: Nanos)
    ensures
        ({
            let frame = s.next_frame_at <= now && (s.next_frame_at <= s.total_duration
                || s.wait is Some);
            let event = s.wait is None && at is Some && at->0 <= now;
            &&& session::next(s, at, now) == Step::Dispatch <==> event && (frame ==> at->0
                <= s.next_frame_at)
            &&& session::next(s, at, now) == Step::Frame <==> frame && (event ==> s.next_frame_at
                < at->0)
            &&& session::next(s, at, now) == Step::Rest <==> !frame && !event
        }),
{
}

/// A run starts with its first event and a frame at once, shown, with nothing waited for,
/// copied or asked for. It lasts four frames longer than its timeline.
pub proof fn lemma_run_starts(timeline_end: Nanos, interval: Nanos)
    ensures
        ({
            let s = session::fresh(timeline_end, interval);
            &&& s.event_idx == 0
            &&& s.next_frame_at == 0
            &&& s.frame_interval == interval
            &&& s.total_duration == timeline_end + 4 * interval
            &&& !s.hidden && s.hidden_started_at is None && s.skipped == 0
            &&& s.wait is None
            &&& s.clipboard.len() == 0 && s.shots.len() == 0
            &&& s.expected == 0 && s.captured == 0 && s.max_queue == 0 && s.dropped == 0
            &&& session::next(s, None, 0) == Step::Frame
        }),
{
}

/// A wait begins when its turn comes: for the pattern and on the part of the screen that
/// the script says, and it is given up once its time is over. Nothing else changes. What
/// is no pattern is not waited for.
pub proof fn lemma_wait_begins(
    s: SessionView,
    scope: WaitScope,
    timeout: Nanos,
    pattern: Seq<char>,
    now: Nanos,
)
    requires
        now + timeout <= u128::MAX,
    ensures
        ({
            let t = session::after_event(s, EventView::Wait { scope, timeout, pattern }, now);
            &&& screen::is_regex(pattern) ==> (t.wait matches Some(w) && w.scope == scope
                && w.pattern == pattern && w.deadline - now == timeout && w.started_at == now)
            &&& !screen::is_regex(pattern) ==> t.wait == s.wait
            &&& t == SessionView { wait: t.wait, ..s }
        }),
{
}

/// What is copied is what is pasted, whatever happens in between, unless something else
/// is copied.
pub proof fn lemma_copy_is_pasted(
    s: SessionView,
    text: Seq<char>,
    between: Seq<EventView>,
    times: Seq<Nanos>,
    now: Nanos,
    grid: ViewportConfig,
)
    requires
        times.len() == between.len(),
        forall|i: int| 0 <= i < between.len() ==> !((#[trigger] between[i]) is Copy),
    ensures
        session::sent(
            happened(session::after_event(s, EventView::Copy(text), now), between, times),
            EventView::Paste,
            grid,
        ) == ActionView::Write(text),
{
    lemma_clipboard_kept(
        session::after_event(s, EventView::Copy(text), now),
        between,
        times,
    );
}

/// The state after some events, at some times.
pub open spec fn happened(s: SessionView, events: Seq<EventView>, times: Seq<Nanos>) -> SessionView
    decreases events.len(),
{
    if events.len() == 0 {
        s
    } else {
        session::after_event(
            happened(s, events.drop_last(), times.drop_last()),
            events.last(),
            times.last(),
        )
    }
}

proof fn lemma_clipboard_kept(s: SessionView, events: Seq<EventView>, times: Seq<Nanos>)
    requires
        times.len() == events.len(),
        forall|i: int| 0 <= i < events.len() ==> !((#[trigger] events[i]) is Copy),
    ensures
        happened(s, events, times).clipboard == s.clipboard,
    decreases events.len(),
{
    if events.len() > 0 {
        lemma_clipboard_kept(s, events.drop_last(), times.drop_last());
        assert(!(events[events.len() - 1] is Copy));
    }
}

/// What an event changes about the run: a screenshot is asked for behind the ones asked
/// for before, what is copied is kept, the terminal is hidden and shown. Events of the
/// keyboard and the mouse change nothing.
pub proof fn lemma_event_changes(s: SessionView, e: EventView, now: Nanos)
    ensures
        ({
            let t = session::after_event(s, e, now);
            &&& e matches EventView::Screenshot(path) ==> t == SessionView {
                shots: s.shots.push(path),
                ..s
            }
            &&& e matches EventView::Copy(text) ==> t == SessionView { clipboard: text, ..s }
            &&& e is Hide ==> t == SessionView { hidden: true, ..s }
            &&& e is Show ==> t == SessionView { hidden: false, ..s }
            &&& e is Type || e is Key || e is Paste || e is MouseInput || e is Sleep || e is Click
                || e is RightClick || e is DoubleClick || e is MouseScroll || e is MouseDrag
                || e is MouseMove ==> t == s
        }),
{
}

/// A text is sent as it is, a key with what is done to it. Waiting, screenshots, copying,
/// hiding and showing send nothing.
pub proof fn lemma_event_sends(s: SessionView, e: EventView, grid: ViewportConfig)
    ensures
        e matches EventView::Type { text, delay } ==> session::sent(s, e, grid)
            == ActionView::Write(text),
        e matches EventView::Key { key, action, count, delay } ==> session::sent(s, e, grid) == (
        ActionView::SendKey { key, action }),
        e is Paste ==> session::sent(s, e, grid) == ActionView::Write(s.clipboard),
        e is MouseInput ==> session::sent(s, e, grid) is Mouse,
        e is Wait || e is Screenshot || e is Copy || e is Hide || e is Show || e is Sleep
            ==> session::sent(s, e, grid) is Rest,
{
}

proof fn lemma_middle(n: u16, side: u32)
    requires
        2 * (n * side) + side <= 0xff_ffff,
    ensures
        session::cell_middle(n, side) == n * side * ONE + side * ONE / 2,
{
    let k = n * side;
    assert(0 <= k) by (nonlinear_arith)
        requires
            k == n * side,
    ;
    single::lemma_whole_exact(side);
    single::lemma_whole_exact(k as u32);
    assert(n * single::whole(side) == k * ONE) by (nonlinear_arith)
        requires
            single::whole(side) == side * ONE,
            k == n * side,
    ;
    assert(single::single(n * single::whole(side)) == k * ONE);
    let h = (2 * k + side) as nat;
    vstd::arithmetic::power2::lemma2_to64();
    vstd::arithmetic::power2::lemma2_to64_rest();
    single::lemma_single_shifted(h, 63);
    single::lemma_single_exact(h);
    let half = vstd::arithmetic::power2::pow2(63);
    assert(half * 2 == ONE);
    assert(k * ONE + side * ONE / 2 == h * half) by (nonlinear_arith)
        requires
            half * 2 == ONE,
            h == 2 * k + side,
            side >= 0,
    ;
}

/// The mouse is reported in the middle of its cell, or at the pixel that the script
/// says. It is reported with its button and the keys that are held, as pressed when a
/// button goes down or is held while it moves, and with the size of the grid and of a
/// cell.
pub proof fn lemma_mouse_reported(
    s: SessionView,
    action: MouseAction,
    button: Option<MouseButton>,
    col: u16,
    row: u16,
    pixel_coords: Option<(u32, u32)>,
    mods: ModSet,
    grid: ViewportConfig,
)
    requires
        2 * (col * grid.cell_width_px) + grid.cell_width_px <= 0xff_ffff,
        2 * (row * grid.cell_height_px) + grid.cell_height_px <= 0xff_ffff,
        pixel_coords matches Some(p) ==> p.0 <= 0xff_ffff && p.1 <= 0xff_ffff,
        grid.cols * grid.cell_width_px <= u32::MAX,
        grid.rows * grid.cell_height_px <= u32::MAX,
    ensures
        session::sent(
            s,
            EventView::MouseInput { action, button, col, row, pixel_coords, mods },
            grid,
        ) matches ActionView::Mouse(m) && {
            &&& pixel_coords matches Some(p) ==> m.x == p.0 * ONE && m.y == p.1 * ONE
            &&& pixel_coords is None ==> {
                &&& m.x == col * grid.cell_width_px * ONE + grid.cell_width_px * ONE / 2
                &&& m.y == row * grid.cell_height_px * ONE + grid.cell_height_px * ONE / 2
            }
            &&& m.action == action && m.button == button && m.mods == mods
            &&& action == MouseAction::Press ==> m.any_pressed
            &&& action == MouseAction::Release ==> !m.any_pressed
            &&& action == MouseAction::Motion ==> m.any_pressed == (button is Some)
            &&& m.screen_width == grid.cols * grid.cell_width_px
            &&& m.screen_height == grid.rows * grid.cell_height_px
            &&& m.cell_width == grid.cell_width_px && m.cell_height == grid.cell_height_px
        },
{
    match pixel_coords {
        Some(p) => {
            single::lemma_whole_exact(p.0);
            single::lemma_whole_exact(p.1);
        },
        None => {
            lemma_middle(col, grid.cell_width_px);
            lemma_middle(row, grid.cell_height_px);
            lemma_small(col as int, grid.cell_width_px as int);
            lemma_small(row as int, grid.cell_height_px as int);
        },
    }
    assert(0 <= grid.cols * grid.cell_width_px) by (nonlinear_arith);
    assert(0 <= grid.rows * grid.cell_height_px) by (nonlinear_arith);
}

proof fn lemma_small(n: int, side: int)
    requires
        0 <= n,
        0 <= side,
        2 * (n * side) + side <= 0xff_ffff,
    ensures
        0 <= n * side * ONE + side * ONE / 2 <= 0xff_ffff * ONE,
{
    let k = n * side;
    assert(0 <= k) by (nonlinear_arith)
        requires
            k == n * side,
            0 <= n,
            0 <= side,
    ;
    assert(n * side * ONE == k * ONE);
}

/// Frames come one interval after the other, shown or not. A frame takes all screenshots
/// that were asked for. One that is shown is counted as expected and as captured, and
/// adds as many to the frames that were dropped as there were consumers whose queue was
/// full; the longest queue is the longest that any consumer ever had.
pub proof fn lemma_frame_counted(s: SessionView, d: Seq<Delivery>)
    ensures
        ({
            let t = session::after_frame(s, d);
            &&& t.next_frame_at == s.next_frame_at + s.frame_interval
            &&& t.shots.len() == 0
            &&& !s.hidden ==> {
                &&& t.expected == s.expected + 1
                &&& t.captured == s.captured + 1
                &&& t.dropped == s.dropped + d.filter(|x: Delivery| x.full).len()
                &&& t.max_queue >= s.max_queue
                &&& forall|i: int|
                    0 <= i < d.len() ==> (#[trigger] d[i]).queue_len <= t.max_queue
                &&& t.max_queue == s.max_queue || exists|i: int|
                    0 <= i < d.len() && (#[trigger] d[i]).queue_len == t.max_queue
            }
            &&& s.hidden ==> t.expected == s.expected && t.captured == s.captured && t.dropped
                == s.dropped && t.max_queue == s.max_queue
            &&& t.event_idx == s.event_idx && t.frame_interval == s.frame_interval
                && t.total_duration == s.total_duration && t.hidden == s.hidden
                && t.hidden_started_at == s.hidden_started_at && t.skipped == s.skipped && t.wait
                == s.wait && t.clipboard == s.clipboard
        }),
{
    lemma_dropped(d, d.len() as int);
    assert(d.take(d.len() as int) =~= d);
    lemma_longest(d, s.max_queue, d.len() as int);
}

proof fn lemma_dropped(d: Seq<Delivery>, n: int)
    requires
        0 <= n <= d.len(),
    ensures
        session::dropped_count(d, n) == d.take(n).filter(|x: Delivery| x.full).len(),
    decreases n,
{
    reveal(Seq::filter);
    if n > 0 {
        lemma_dropped(d, n - 1);
        assert(d.take(n).drop_last() =~= d.take(n - 1));
        assert(d.take(n).last() == d[n - 1]);
    }
}

proof fn lemma_longest(d: Seq<Delivery>, before: int, n: int)
    requires
        0 <= n <= d.len(),
    ensures
        ({
            let m = session::longest_queue(d, before, n);
            &&& before <= m
            &&& forall|i: int| 0 <= i < n ==> (#[trigger] d[i]).queue_len <= m
            &&& m == before || exists|i: int| 0 <= i < n && (#[trigger] d[i]).queue_len == m
        }),
    decreases n,
{
    if n > 0 {
        lemma_longest(d, before, n - 1);
        if session::longest_queue(d, before, n) != session::longest_queue(d, before, n - 1) {
            assert(d[n - 1].queue_len == session::longest_queue(d, before, n));
        }
    }
}

/// A frame is recorded unless the terminal is hidden; if a screenshot is asked for, it is
/// taken even so. Its time in the recording is its own less all that was hidden before,
/// so that recorded frames follow each other as they were taken.
pub proof fn lemma_frame_recorded(s: SessionView, d: Seq<Delivery>)
    ensures
        session::recorded_time(s) is None <==> s.hidden && s.shots.len() == 0,
        session::recorded_time(s) is Some && s.next_frame_at >= s.skipped
            ==> session::recorded_time(s) == Some(s.next_frame_at - s.skipped),
        session::recorded_time(s) is Some && s.next_frame_at < s.skipped
            ==> session::recorded_time(s) == Some(0int),
        !s.hidden && s.next_frame_at >= s.skipped && s.frame_interval >= 0
            ==> session::recorded_time(session::after_frame(s, d)) == Some(
            session::recorded_time(s)->0 + s.frame_interval,
        ),
{
}

/// Once an event is dispatched it is the next one's turn. When it hid the terminal, the
/// time is kept; when it showed it again, the time in between is left out of the
/// recording. Nothing else changes.
pub proof fn lemma_event_counted(s: SessionView, was_hidden: bool, now: Nanos)
    ensures
        ({
            let t = session::dispatched(s, was_hidden, now);
            &&& t == SessionView {
                event_idx: s.event_idx + 1,
                hidden_started_at: t.hidden_started_at,
                skipped: t.skipped,
                ..s
            }
            &&& s.hidden == was_hidden ==> t.hidden_started_at == s.hidden_started_at && t.skipped
                == s.skipped
            &&& s.hidden && !was_hidden ==> t.hidden_started_at == Some(now) && t.skipped
                == s.skipped
            &&& !s.hidden && was_hidden ==> t.hidden_started_at is None && (
            s.hidden_started_at matches Some(h) ==> (h <= now ==> t.skipped == s.skipped + (now
                - h)))
        }),
{
}

/// A run is over when all events are dispatched, nothing is waited for and the frames
/// reach beyond its end; then nothing is due any more, ever.
pub proof fn lemma_run_over(s: SessionView, events: int, t: Nanos)
    ensures
        session::over(s, events) <==> s.event_idx >= events && s.wait is None && s.next_frame_at
            > s.total_duration,
        session::over(s, events) ==> session::next(s, None, t) == Step::Rest,
{
}

/// A run does not wake up for nothing: when it has slept until its deadline, an event or
/// a frame is due, a wait is given up, or its end is past.
pub proof fn lemma_deadline_has_reason(s: SessionView, at: Option<Nanos>, now: Nanos)
    requires
        now < session::deadline(s, at, now) <= u128::MAX,
        0 <= s.next_frame_at,
        0 <= s.total_duration,
    ensures
        ({
            let t = session::deadline(s, at, now);
            ||| session::next(s, at, t as u128) != Step::Rest
            ||| s.wait matches Some(w) && w.deadline == t
            ||| s.wait is None && t == s.total_duration + MILLI
            ||| s.wait is None && t == s.next_frame_at && t > s.total_duration
        }),
{
}

} // verus!
