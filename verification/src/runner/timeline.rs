//! The times at which the events of a script happen, and where the mouse is in
//! between.
use vstd::prelude::*;
use vstd::string::*;

use crate::nanos;
use crate::nanos::{scale, Nanos, LONGEST, SCALE_LIMIT, SPEED_LIMIT};
use crate::recording::MouseState;
use crate::runner::mouse;
use crate::runner::way;
use crate::runner::way::count_cells;
use crate::script::{
    Event, EventView, KeyAction, KeySpec, ModSet, MouseAction, MouseButton, MouseEasing,
    ScrollDirection, Settings,
};
use crate::single::{Measure, ONE};
use crate::text::to_chars;

verus! {

/// An event and when it happens.
#[derive(Debug, Clone)]
pub struct Scheduled {
    pub at: Nanos,
    pub event: Event,
}

pub struct ScheduledView {
    pub at: int,
    pub event: EventView,
}

impl View for Scheduled {
    type V = ScheduledView;

    open spec fn view(&self) -> ScheduledView {
        ScheduledView { at: self.at as int, event: self.event@ }
    }
}

pub open spec fn schedule(v: Seq<Scheduled>) -> Seq<ScheduledView> {
    Seq::new(v.len(), |i: int| v[i]@)
}

/// A straight piece of the way of the mouse.
#[derive(Debug, Clone, Copy)]
pub struct MouseSegment {
    pub start_time: Nanos,
    pub end_time: Nanos,
    pub start_col: Measure,
    pub start_row: Measure,
    pub end_col: Measure,
    pub end_row: Measure,
    pub state: MouseState,
    /// How the segment is eased, unless its times already are.
    pub easing: Option<MouseEasing>,
}

/// The way of the mouse through the cells of a gesture.
#[derive(Debug, Clone)]
pub struct MousePath {
    /// Where the mouse is at equal intervals of time.
    pub points: Vec<(Measure, Measure)>,
}

/// What was planned so far.
pub struct Plan {
    pub out: Seq<ScheduledView>,
    pub segments: Seq<MouseSegment>,
    /// When the next event happens.
    pub cursor: int,
}

/// The cell that a place is in: the nearest one.
pub open spec fn cell_of(v: Measure) -> u16 {
    let n = (v + ONE / 2) / (ONE as int);
    if n <= 0 {
        0
    } else if n >= 0xffff {
        0xffff
    } else {
        n as u16
    }
}

fn cell_at(v: Measure) -> (r: u16)
    ensures
        r == cell_of(v),
{
    if v <= 0 {
        return 0;
    }
    let w: i128 = v / ONE;
    let f: i128 = v % ONE;
    let n: i128 = if f >= ONE / 2 {
        w + 1
    } else {
        w
    };
    proof {
        assert((v + ONE / 2) / (ONE as int) == n);
    }
    if n >= 0xffff {
        0xffff
    } else {
        n as u16
    }
}

pub open spec fn mouse_event(
    action: MouseAction,
    button: Option<MouseButton>,
    col: u16,
    row: u16,
    mods: ModSet,
) -> EventView {
    EventView::MouseInput { action, button, col, row, pixel_coords: None, mods }
}

/// The mouse at rest on a cell.
pub open spec fn resting(start: int, end: int, col: Measure, row: Measure, state: MouseState)
    -> MouseSegment {
    MouseSegment {
        start_time: start as u128,
        end_time: end as u128,
        start_col: col,
        start_row: row,
        end_col: col,
        end_row: row,
        state,
        easing: None,
    }
}

/// A whole number of cells.
pub open spec fn cells(n: u16) -> Measure {
    (n * ONE) as i128
}

/// Text typed one character after another.
pub open spec fn typed(p: Plan, text: Seq<char>, per: int) -> Plan {
    Plan {
        out: p.out + Seq::new(
            text.len(),
            |i: int|
                ScheduledView {
                    at: p.cursor + i * per,
                    event: EventView::Type { text: seq![text[i]], delay: 0 },
                },
        ),
        segments: p.segments,
        cursor: p.cursor + text.len() * per,
    }
}

/// How often a key is pressed.
pub open spec fn presses(count: u32) -> int {
    if count == 0 {
        1
    } else {
        count as int
    }
}

/// A key pressed again and again.
pub open spec fn keyed(p: Plan, key: KeySpec, action: KeyAction, count: u32, per: int) -> Plan {
    Plan {
        out: p.out + Seq::new(
            presses(count) as nat,
            |i: int|
                ScheduledView {
                    at: p.cursor + i * per,
                    event: EventView::Key { key, action, count: 1, delay: 0 },
                },
        ),
        segments: p.segments,
        cursor: p.cursor + (presses(count) - 1) * per,
    }
}

/// A button pressed and, after `per`, released.
pub open spec fn pressed(
    out: Seq<ScheduledView>,
    at: int,
    per: int,
    button: MouseButton,
    col: u16,
    row: u16,
    mods: ModSet,
) -> Seq<ScheduledView> {
    out.push(
        ScheduledView {
            at,
            event: mouse_event(MouseAction::Press, Some(button), col, row, mods),
        },
    ).push(
        ScheduledView {
            at: at + per,
            event: mouse_event(MouseAction::Release, Some(button), col, row, mods),
        },
    )
}

/// A click: the button is held for `per`.
pub open spec fn clicked(
    p: Plan,
    col: u16,
    row: u16,
    mods: ModSet,
    button: MouseButton,
    per: int,
) -> Plan {
    Plan {
        out: pressed(p.out, p.cursor, per, button, col, row, mods),
        segments: p.segments.push(
            resting(p.cursor, p.cursor + per, cells(col), cells(row), MouseState::Clicking),
        ),
        cursor: p.cursor + per,
    }
}

/// Two clicks, `per` apart; the mouse is shown pressed throughout the first half.
pub open spec fn double_clicked(p: Plan, col: u16, row: u16, mods: ModSet, per: int) -> Plan {
    let c = p.cursor;
    Plan {
        out: pressed(
            pressed(p.out, c, per, MouseButton::Left, col, row, mods),
            c + 2 * per,
            per,
            MouseButton::Left,
            col,
            row,
            mods,
        ),
        segments: p.segments.push(
            resting(c, c + per, cells(col), cells(row), MouseState::Clicking),
        ).push(resting(c + per, c + 2 * per, cells(col), cells(row), MouseState::Clicking)),
        cursor: c + 4 * per,
    }
}

pub open spec fn wheel(direction: ScrollDirection) -> MouseButton {
    match direction {
        ScrollDirection::Up => MouseButton::WheelUp,
        ScrollDirection::Down => MouseButton::WheelDown,
    }
}

/// When the mouse is at point `j` of `n`: at equal intervals.
pub open spec fn time_at(start: int, total: int, n: int, j: int) -> int {
    start + total * j / (n - 1)
}

/// The pieces of a way up to point `j`.
pub open spec fn way(
    points: Seq<(Measure, Measure)>,
    start: int,
    total: int,
    state: MouseState,
    j: int,
) -> Seq<MouseSegment> {
    Seq::new(
        j as nat,
        |k: int|
            MouseSegment {
                start_time: time_at(start, total, points.len() as int, k) as u128,
                end_time: time_at(start, total, points.len() as int, k + 1) as u128,
                start_col: points[k].0,
                start_row: points[k].1,
                end_col: points[k + 1].0,
                end_row: points[k + 1].1,
                state,
                easing: None,
            },
    )
}

/// A motion for each point, up to point `j`, that lies in another cell than the
/// one before it.
pub open spec fn motions(
    points: Seq<(Measure, Measure)>,
    start: int,
    total: int,
    button: Option<MouseButton>,
    mods: ModSet,
    j: int,
) -> Seq<ScheduledView>
    decreases j,
{
    if j <= 1 {
        Seq::empty()
    } else {
        let before = motions(points, start, total, button, mods, j - 1);
        let col = cell_of(points[j - 1].0);
        let row = cell_of(points[j - 1].1);
        if col != cell_of(points[j - 2].0) || row != cell_of(points[j - 2].1) {
            before.push(
                ScheduledView {
                    at: time_at(start, total, points.len() as int, j - 1),
                    event: mouse_event(MouseAction::Motion, button, col, row, mods),
                },
            )
        } else {
            before
        }
    }
}

/// How long a gesture takes: what its own delay says, or, at typing speed, that
/// much for each cell of the way.
pub open spec fn gesture_time(delay: Nanos, settings: Settings, len: u32) -> int {
    let per = nanos::scaled(delay as nat, settings.playback_speed) as int;
    if delay != settings.typing_speed {
        per
    } else {
        per * len
    }
}

/// The mouse dragged along a way: pressed at its start, released `per` after it
/// arrived.
pub open spec fn dragged(p: Plan, path: MousePath, mods: ModSet, per: int, total: int) -> Plan {
    let points = path.points@;
    let n = points.len() as int;
    if n == 0 {
        p
    } else {
        let last = points[n - 1];
        let end = p.cursor + total;
        let left = Some(MouseButton::Left);
        Plan {
            out: p.out.push(
                ScheduledView {
                    at: p.cursor,
                    event: mouse_event(
                        MouseAction::Press,
                        left,
                        cell_of(points[0].0),
                        cell_of(points[0].1),
                        mods,
                    ),
                },
            ) + motions(points, p.cursor, total, left, mods, n) + seq![
                ScheduledView {
                    at: end + per,
                    event: mouse_event(
                        MouseAction::Release,
                        left,
                        cell_of(last.0),
                        cell_of(last.1),
                        mods,
                    ),
                },
            ],
            segments: p.segments + way(points, p.cursor, total, MouseState::Dragging, n - 1)
                + seq![resting(end, end + per, last.0, last.1, MouseState::Clicking)],
            cursor: end + per,
        }
    }
}

/// The mouse moved along a way.
pub open spec fn moved(p: Plan, path: MousePath, mods: ModSet, total: int) -> Plan {
    let points = path.points@;
    let n = points.len() as int;
    if n == 0 {
        p
    } else {
        Plan {
            out: p.out.push(
                ScheduledView {
                    at: p.cursor,
                    event: mouse_event(
                        MouseAction::Motion,
                        None,
                        cell_of(points[0].0),
                        cell_of(points[0].1),
                        mods,
                    ),
                },
            ) + motions(points, p.cursor, total, None, mods, n),
            segments: p.segments + way(points, p.cursor, total, MouseState::Moving, n - 1),
            cursor: p.cursor + total,
        }
    }
}

/// What an event adds to the plan.
pub open spec fn planned(p: Plan, e: EventView, path: MousePath, settings: Settings) -> Plan {
    let speed = settings.playback_speed;
    match e {
        EventView::Type { text, delay } => typed(
            p,
            text,
            nanos::scaled(delay as nat, speed) as int,
        ),
        EventView::Sleep(d) => Plan { cursor: p.cursor + nanos::scaled(d as nat, speed), ..p },
        EventView::Key { key, action, count, delay } => keyed(
            p,
            key,
            action,
            count,
            nanos::scaled(delay as nat, speed) as int,
        ),
        EventView::Click { col, row, mods, delay } => clicked(
            p,
            col,
            row,
            mods,
            MouseButton::Left,
            nanos::scaled(delay as nat, speed) as int,
        ),
        EventView::RightClick { col, row, mods, delay } => clicked(
            p,
            col,
            row,
            mods,
            MouseButton::Right,
            nanos::scaled(delay as nat, speed) as int,
        ),
        EventView::DoubleClick { col, row, mods, delay } => double_clicked(
            p,
            col,
            row,
            mods,
            nanos::scaled(delay as nat, speed) as int,
        ),
        EventView::MouseScroll { col, row, direction, mods, delay } => {
            let per = nanos::scaled(delay as nat, speed) as int;
            Plan {
                out: pressed(p.out, p.cursor, per, wheel(direction), col, row, mods),
                segments: p.segments,
                cursor: p.cursor + per,
            }
        },
        EventView::MouseDrag { coords, mods, delay, easing } => dragged(
            p,
            path,
            mods,
            nanos::scaled(delay as nat, speed) as int,
            gesture_time(delay, settings, way::way_cells(coords)),
        ),
        EventView::MouseMove { coords, mods, delay, easing } => moved(
            p,
            path,
            mods,
            gesture_time(delay, settings, way::way_cells(coords)),
        ),
        _ => Plan { out: p.out.push(ScheduledView { at: p.cursor, event: e }), ..p },
    }
}

/// The plan for the first `n` events.
pub open spec fn plan(
    events: Seq<Event>,
    paths: Seq<MousePath>,
    settings: Settings,
    n: int,
) -> Plan
    decreases n,
{
    if n <= 0 {
        Plan { out: Seq::empty(), segments: Seq::empty(), cursor: 0 }
    } else {
        planned(plan(events, paths, settings, n - 1), events[n - 1]@, paths[n - 1], settings)
    }
}

/// The delay of an event.
pub open spec fn delay_of(e: EventView) -> Nanos {
    match e {
        EventView::Type { text, delay } => delay,
        EventView::Sleep(d) => d,
        EventView::Key { key, action, count, delay } => delay,
        EventView::Click { col, row, mods, delay } => delay,
        EventView::RightClick { col, row, mods, delay } => delay,
        EventView::DoubleClick { col, row, mods, delay } => delay,
        EventView::MouseScroll { col, row, direction, mods, delay } => delay,
        EventView::MouseDrag { coords, mods, delay, easing } => delay,
        EventView::MouseMove { coords, mods, delay, easing } => delay,
        _ => 0,
    }
}

/// Whether the times of a script can be computed: no delay and no way is too long,
/// and the whole fits into a duration. A way of a single point has no direction.
pub open spec fn plan_fits(events: Seq<Event>, paths: Seq<MousePath>, settings: Settings) -> bool {
    &&& paths.len() == events.len()
    &&& settings.playback_speed < SPEED_LIMIT
    &&& forall|i: int| 0 <= i < events.len() ==> delay_of((#[trigger] events[i])@) < SCALE_LIMIT
    &&& forall|i: int|
        0 <= i < paths.len() ==> (#[trigger] paths[i]).points@.len() <= 0xffff_ffff
            && paths[i].points@.len() != 1
    &&& plan(events, paths, settings, events.len() as int).cursor <= LONGEST
}

proof fn lemma_product_rises(a: int, b: int, c: int)
    requires
        0 <= a <= b,
        0 <= c,
    ensures
        0 <= a * c <= b * c,
{
    assert(0 <= a * c <= b * c) by (nonlinear_arith)
        requires
            0 <= a <= b,
            0 <= c,
    ;
}

/// An event never takes time back.
proof fn lemma_planned_rises(p: Plan, e: EventView, path: MousePath, settings: Settings)
    ensures
        p.cursor <= planned(p, e, path, settings).cursor,
{
    match e {
        EventView::Type { text, delay } => {
            lemma_product_rises(
                0,
                text.len() as int,
                nanos::scaled(delay as nat, settings.playback_speed) as int,
            );
        },
        EventView::Key { key, action, count, delay } => {
            lemma_product_rises(
                0,
                presses(count) - 1,
                nanos::scaled(delay as nat, settings.playback_speed) as int,
            );
        },
        EventView::MouseDrag { coords, mods, delay, easing } => {
            lemma_product_rises(
                0,
                nanos::scaled(delay as nat, settings.playback_speed) as int,
                way::way_cells(coords) as int,
            );
        },
        EventView::MouseMove { coords, mods, delay, easing } => {
            lemma_product_rises(
                0,
                nanos::scaled(delay as nat, settings.playback_speed) as int,
                way::way_cells(coords) as int,
            );
        },
        _ => {},
    }
}

/// Later events start later.
pub proof fn lemma_plan_rises(
    events: Seq<Event>,
    paths: Seq<MousePath>,
    settings: Settings,
    i: int,
    j: int,
)
    requires
        0 <= i <= j,
    ensures
        0 <= plan(events, paths, settings, i).cursor <= plan(events, paths, settings, j).cursor,
    decreases j,
{
    if j > 0 {
        lemma_planned_rises(
            plan(events, paths, settings, j - 1),
            events[j - 1]@,
            paths[j - 1],
            settings,
        );
        if i < j {
            lemma_plan_rises(events, paths, settings, i, j - 1);
        } else {
            lemma_plan_rises(events, paths, settings, j - 1, j - 1);
        }
    }
}

/// Events moved on by `by`.
pub open spec fn later(v: Seq<ScheduledView>, by: int) -> Seq<ScheduledView> {
    Seq::new(v.len(), |i: int| ScheduledView { at: v[i].at + by, ..v[i] })
}

/// Pieces of a way moved on by `by`.
pub open spec fn later_way(v: Seq<MouseSegment>, by: int) -> Seq<MouseSegment> {
    Seq::new(
        v.len(),
        |i: int|
            MouseSegment {
                start_time: (v[i].start_time + by) as u128,
                end_time: (v[i].end_time + by) as u128,
                ..v[i]
            },
    )
}

/// One plan, and another one that starts where it ends.
pub open spec fn followed(p: Plan, q: Plan) -> Plan {
    Plan {
        out: p.out + later(q.out, p.cursor),
        segments: p.segments + later_way(q.segments, p.cursor),
        cursor: p.cursor + q.cursor,
    }
}

proof fn lemma_motions_later(
    points: Seq<(Measure, Measure)>,
    start: int,
    by: int,
    total: int,
    button: Option<MouseButton>,
    mods: ModSet,
    j: int,
)
    ensures
        motions(points, start + by, total, button, mods, j) == later(
            motions(points, start, total, button, mods, j),
            by,
        ),
    decreases j,
{
    if j > 1 {
        lemma_motions_later(points, start, by, total, button, mods, j - 1);
    }
    assert(motions(points, start + by, total, button, mods, j) =~= later(
        motions(points, start, total, button, mods, j),
        by,
    ));
}

proof fn lemma_way_later(
    points: Seq<(Measure, Measure)>,
    start: int,
    by: int,
    total: int,
    state: MouseState,
)
    requires
        points.len() >= 1,
        0 <= start,
        0 <= by,
        0 <= total,
        start + by + total <= LONGEST,
    ensures
        way(points, start + by, total, state, points.len() - 1) == later_way(
            way(points, start, total, state, points.len() - 1),
            by,
        ),
{
    let n = points.len() as int;
    let a = way(points, start + by, total, state, n - 1);
    let b = later_way(way(points, start, total, state, n - 1), by);
    assert forall|k: int| 0 <= k < a.len() implies a[k] == b[k] by {
        lemma_time_at(start, total, n, k);
        lemma_time_at(start, total, n, k + 1);
    }
    assert(a =~= b);
}

proof fn lemma_typed_follows(p: Plan, q: Plan, text: Seq<char>, per: int)
    requires
        0 <= p.cursor,
        0 <= q.cursor,
    ensures
        typed(followed(p, q), text, per) == followed(p, typed(q, text, per)),
{
    let a = typed(followed(p, q), text, per);
    let b = followed(p, typed(q, text, per));
    assert(a.out =~= b.out);
    assert(a.segments =~= b.segments);
}

proof fn lemma_keyed_follows(
    p: Plan,
    q: Plan,
    key: KeySpec,
    action: KeyAction,
    count: u32,
    per: int,
)
    requires
        0 <= p.cursor,
        0 <= q.cursor,
    ensures
        keyed(followed(p, q), key, action, count, per) == followed(
            p,
            keyed(q, key, action, count, per),
        ),
{
    let a = keyed(followed(p, q), key, action, count, per);
    let b = followed(p, keyed(q, key, action, count, per));
    assert(a.out =~= b.out);
    assert(a.segments =~= b.segments);
}

proof fn lemma_clicked_follows(
    p: Plan,
    q: Plan,
    col: u16,
    row: u16,
    mods: ModSet,
    button: MouseButton,
    per: int,
)
    requires
        0 <= p.cursor,
        0 <= q.cursor,
        0 <= per,
        p.cursor + q.cursor + per <= LONGEST,
    ensures
        clicked(followed(p, q), col, row, mods, button, per) == followed(
            p,
            clicked(q, col, row, mods, button, per),
        ),
{
    let a = clicked(followed(p, q), col, row, mods, button, per);
    let b = followed(p, clicked(q, col, row, mods, button, per));
    assert(a.out =~= b.out);
    assert(a.segments =~= b.segments);
}

proof fn lemma_double_follows(p: Plan, q: Plan, col: u16, row: u16, mods: ModSet, per: int)
    requires
        0 <= p.cursor,
        0 <= q.cursor,
        0 <= per,
        p.cursor + q.cursor + 4 * per <= LONGEST,
    ensures
        double_clicked(followed(p, q), col, row, mods, per) == followed(
            p,
            double_clicked(q, col, row, mods, per),
        ),
{
    let a = double_clicked(followed(p, q), col, row, mods, per);
    let b = followed(p, double_clicked(q, col, row, mods, per));
    assert(a.out =~= b.out);
    assert(a.segments =~= b.segments);
}

proof fn lemma_pressed_later(
    x: Seq<ScheduledView>,
    y: Seq<ScheduledView>,
    by: int,
    at: int,
    per: int,
    button: MouseButton,
    col: u16,
    row: u16,
    mods: ModSet,
)
    ensures
        pressed(x + later(y, by), at + by, per, button, col, row, mods) == x + later(
            pressed(y, at, per, button, col, row, mods),
            by,
        ),
{
    assert(pressed(x + later(y, by), at + by, per, button, col, row, mods) =~= x + later(
        pressed(y, at, per, button, col, row, mods),
        by,
    ));
}

proof fn lemma_dragged_follows(
    p: Plan,
    q: Plan,
    path: MousePath,
    mods: ModSet,
    per: int,
    total: int,
)
    requires
        0 <= p.cursor,
        0 <= q.cursor,
        0 <= per,
        0 <= total,
        p.cursor + q.cursor + total + per <= LONGEST,
    ensures
        dragged(followed(p, q), path, mods, per, total) == followed(
            p,
            dragged(q, path, mods, per, total),
        ),
{
    let points = path.points@;
    let n = points.len() as int;
    if n > 0 {
        let left = Some(MouseButton::Left);
        lemma_motions_later(points, q.cursor, p.cursor, total, left, mods, n);
        lemma_way_later(points, q.cursor, p.cursor, total, MouseState::Dragging);
    }
    let a = dragged(followed(p, q), path, mods, per, total);
    let b = followed(p, dragged(q, path, mods, per, total));
    assert(a.out =~= b.out);
    assert(a.segments =~= b.segments);
}

proof fn lemma_moved_follows(p: Plan, q: Plan, path: MousePath, mods: ModSet, total: int)
    requires
        0 <= p.cursor,
        0 <= q.cursor,
        0 <= total,
        p.cursor + q.cursor + total <= LONGEST,
    ensures
        moved(followed(p, q), path, mods, total) == followed(p, moved(q, path, mods, total)),
{
    let points = path.points@;
    let n = points.len() as int;
    if n > 0 {
        lemma_motions_later(points, q.cursor, p.cursor, total, None, mods, n);
        lemma_way_later(points, q.cursor, p.cursor, total, MouseState::Moving);
    }
    let a = moved(followed(p, q), path, mods, total);
    let b = followed(p, moved(q, path, mods, total));
    assert(a.out =~= b.out);
    assert(a.segments =~= b.segments);
}

proof fn lemma_pushed_follows(p: Plan, q: Plan, e: EventView)
    ensures
        followed(p, q).out.push(ScheduledView { at: p.cursor + q.cursor, event: e }) == p.out
            + later(q.out.push(ScheduledView { at: q.cursor, event: e }), p.cursor),
{
    assert(followed(p, q).out.push(ScheduledView { at: p.cursor + q.cursor, event: e })
        =~= p.out + later(q.out.push(ScheduledView { at: q.cursor, event: e }), p.cursor));
}

/// What an event adds to a plan does not depend on what was planned before.
proof fn lemma_planned_follows(
    p: Plan,
    q: Plan,
    e: EventView,
    path: MousePath,
    settings: Settings,
)
    requires
        0 <= p.cursor,
        0 <= q.cursor,
        planned(followed(p, q), e, path, settings).cursor <= LONGEST,
    ensures
        planned(followed(p, q), e, path, settings) == followed(
            p,
            planned(q, e, path, settings),
        ),
{
    let speed = settings.playback_speed;
    match e {
        EventView::Type { text, delay } => {
            lemma_typed_follows(p, q, text, nanos::scaled(delay as nat, speed) as int);
        },
        EventView::Key { key, action, count, delay } => {
            let per = nanos::scaled(delay as nat, speed) as int;
            lemma_keyed_follows(p, q, key, action, count, per);
        },
        EventView::Click { col, row, mods, delay } => {
            let per = nanos::scaled(delay as nat, speed) as int;
            lemma_clicked_follows(p, q, col, row, mods, MouseButton::Left, per);
        },
        EventView::RightClick { col, row, mods, delay } => {
            let per = nanos::scaled(delay as nat, speed) as int;
            lemma_clicked_follows(p, q, col, row, mods, MouseButton::Right, per);
        },
        EventView::DoubleClick { col, row, mods, delay } => {
            lemma_double_follows(p, q, col, row, mods, nanos::scaled(delay as nat, speed) as int);
        },
        EventView::MouseScroll { col, row, direction, mods, delay } => {
            let per = nanos::scaled(delay as nat, speed) as int;
            lemma_pressed_later(
                p.out,
                q.out,
                p.cursor,
                q.cursor,
                per,
                wheel(direction),
                col,
                row,
                mods,
            );
        },
        EventView::MouseDrag { coords, mods, delay, easing } => {
            let per = nanos::scaled(delay as nat, speed) as int;
            let total = gesture_time(delay, settings, way::way_cells(coords));
            lemma_product_rises(0, per, way::way_cells(coords) as int);
            if path.points@.len() > 0 {
                lemma_dragged_follows(p, q, path, mods, per, total);
            }
        },
        EventView::MouseMove { coords, mods, delay, easing } => {
            let per = nanos::scaled(delay as nat, speed) as int;
            let total = gesture_time(delay, settings, way::way_cells(coords));
            lemma_product_rises(0, per, way::way_cells(coords) as int);
            if path.points@.len() > 0 {
                lemma_moved_follows(p, q, path, mods, total);
            }
        },
        _ => {
            lemma_pushed_follows(p, q, e);
        },
    }
}

proof fn lemma_plan_of_first(
    a: Seq<Event>,
    b: Seq<Event>,
    pa: Seq<MousePath>,
    pb: Seq<MousePath>,
    settings: Settings,
    n: int,
)
    requires
        a.len() == pa.len(),
        n <= a.len(),
    ensures
        plan(a + b, pa + pb, settings, n) == plan(a, pa, settings, n),
    decreases n,
{
    if n > 0 {
        lemma_plan_of_first(a, b, pa, pb, settings, n - 1);
        assert((a + b)[n - 1] == a[n - 1]);
        assert((pa + pb)[n - 1] == pa[n - 1]);
    }
}

/// A plan that nothing follows.
proof fn lemma_followed_by_nothing(p: Plan)
    ensures
        followed(p, Plan { out: Seq::empty(), segments: Seq::empty(), cursor: 0 }) == p,
{
    let q = Plan { out: Seq::empty(), segments: Seq::empty(), cursor: 0 };
    assert(p.out + later(q.out, p.cursor) =~= p.out);
    assert(p.segments + later_way(q.segments, p.cursor) =~= p.segments);
}

#[verifier::spinoff_prover]
#[verifier::rlimit(40)]
proof fn lemma_plan_of_second(
    a: Seq<Event>,
    b: Seq<Event>,
    pa: Seq<MousePath>,
    pb: Seq<MousePath>,
    settings: Settings,
    n: int,
)
    requires
        a.len() == pa.len(),
        b.len() == pb.len(),
        0 <= n <= b.len(),
        plan(a + b, pa + pb, settings, a.len() + n).cursor <= LONGEST,
    ensures
        plan(a + b, pa + pb, settings, a.len() + n) == followed(
            plan(a, pa, settings, a.len() as int),
            plan(b, pb, settings, n),
        ),
    decreases n,
{
    let p = plan(a, pa, settings, a.len() as int);
    if n > 0 {
        let all = a.len() + n;
        let q = plan(b, pb, settings, n - 1);
        lemma_plan_rises(a + b, pa + pb, settings, all - 1, all);
        lemma_plan_of_second(a, b, pa, pb, settings, n - 1);
        lemma_plan_rises(a, pa, settings, 0, a.len() as int);
        lemma_plan_rises(b, pb, settings, 0, n - 1);
        assert((a + b)[all - 1] == b[n - 1]);
        assert((pa + pb)[all - 1] == pb[n - 1]);
        lemma_planned_follows(p, q, b[n - 1]@, pb[n - 1], settings);
    } else {
        lemma_plan_of_first(a, b, pa, pb, settings, a.len() as int);
        lemma_followed_by_nothing(p);
    }
}

/// The plan of two scripts, one behind the other, is the plan of the first, followed by
/// that of the second, whose times are moved on by the end of the first. Nothing is
/// planned for no events.
pub proof fn lemma_plans_join(
    a: Seq<Event>,
    b: Seq<Event>,
    pa: Seq<MousePath>,
    pb: Seq<MousePath>,
    settings: Settings,
)
    requires
        a.len() == pa.len(),
        plan_fits(a + b, pa + pb, settings),
    ensures
        plan(a + b, pa + pb, settings, (a + b).len() as int) == followed(
            plan(a, pa, settings, a.len() as int),
            plan(b, pb, settings, b.len() as int),
        ),
        plan(Seq::empty(), Seq::empty(), settings, 0) == (Plan {
            out: Seq::empty(),
            segments: Seq::empty(),
            cursor: 0,
        }),
{
    lemma_plan_of_second(a, b, pa, pb, settings, b.len() as int);
}

fn push_event(out: &mut Vec<Scheduled>, at: Nanos, event: Event)
    ensures
        schedule(final(out)@) == schedule(old(out)@).push(
            ScheduledView { at: at as int, event: event@ },
        ),
{
    out.push(Scheduled { at, event });
    assert(schedule(out@) =~= schedule(old(out)@).push(
        ScheduledView { at: at as int, event: event@ },
    ));
}

fn push_mouse(
    out: &mut Vec<Scheduled>,
    at: Nanos,
    action: MouseAction,
    button: Option<MouseButton>,
    col: u16,
    row: u16,
    mods: ModSet,
)
    ensures
        schedule(final(out)@) == schedule(old(out)@).push(
            ScheduledView { at: at as int, event: mouse_event(action, button, col, row, mods) },
        ),
{
    push_event(out, at, Event::MouseInput { action, button, col, row, pixel_coords: None, mods });
}

fn plan_typing(
    out: &mut Vec<Scheduled>,
    cursor: Nanos,
    text: &str,
    per: Nanos,
    Ghost(p): Ghost<Plan>,
) -> (r: Nanos)
    requires
        schedule(old(out)@) == p.out,
        p.cursor == cursor,
        typed(p, text@, per as int).cursor <= LONGEST,
    ensures
        schedule(final(out)@) == typed(p, text@, per as int).out,
        r == typed(p, text@, per as int).cursor,
{
    let chars: Vec<char> = to_chars(text);
    let ghost all = typed(p, text@, per as int);
    let mut at: Nanos = cursor;
    let mut i: usize = 0;
    proof {
        lemma_product_rises(0, 0, per as int);
    }
    while i < chars.len()
        invariant
            chars@ == text@,
            i <= chars@.len(),
            all == typed(p, text@, per as int),
            all.cursor <= LONGEST,
            p.cursor == cursor,
            at == cursor + i * per,
            schedule(out@).len() == p.out.len() + i,
            forall|k: int| 0 <= k < p.out.len() + i ==> schedule(out@)[k] == all.out[k],
        decreases chars@.len() - i,
    {
        let mut one: String = String::new();
        one.push(chars[i]);
        assert(one@ =~= seq![text@[i as int]]);
        let ghost before = schedule(out@);
        proof {
            lemma_product_rises(i + 1, text@.len() as int, per as int);
            lemma_product_rises(0, i as int, per as int);
            assert((i + 1) * per == i * per + per) by (nonlinear_arith);
        }
        push_event(out, at, Event::Type { text: one, delay: 0 });
        at = at + per;
        i = i + 1;
    }
    assert(schedule(out@) =~= all.out);
    at
}

fn plan_key(
    out: &mut Vec<Scheduled>,
    cursor: Nanos,
    key: KeySpec,
    action: KeyAction,
    count: u32,
    per: Nanos,
    Ghost(p): Ghost<Plan>,
) -> (r: Nanos)
    requires
        schedule(old(out)@) == p.out,
        p.cursor == cursor,
        keyed(p, key, action, count, per as int).cursor <= LONGEST,
    ensures
        schedule(final(out)@) == keyed(p, key, action, count, per as int).out,
        r == keyed(p, key, action, count, per as int).cursor,
{
    let n: u32 = if count == 0 {
        1
    } else {
        count
    };
    let ghost all = keyed(p, key, action, count, per as int);
    let mut at: Nanos = cursor;
    let mut i: u32 = 0;
    proof {
        lemma_product_rises(0, 0, per as int);
    }
    while i < n
        invariant
            n == presses(count),
            i <= n,
            all == keyed(p, key, action, count, per as int),
            all.cursor <= LONGEST,
            p.cursor == cursor,
            at == cursor + (if i == 0 {
                0
            } else {
                i - 1
            }) * per,
            schedule(out@).len() == p.out.len() + i,
            forall|k: int| 0 <= k < p.out.len() + i ==> schedule(out@)[k] == all.out[k],
        decreases n - i,
    {
        proof {
            lemma_product_rises(i as int, n - 1, per as int);
            lemma_product_rises(0, i as int, per as int);
            if i > 0 {
                assert((i - 1) * per + per == i * per) by (nonlinear_arith);
            }
        }
        if i > 0 {
            at = at + per;
        }
        push_event(out, at, Event::Key { key, action, count: 1, delay: 0 });
        i = i + 1;
    }
    assert(schedule(out@) =~= all.out);
    at
}

fn push_resting(
    segments: &mut Vec<MouseSegment>,
    start_time: Nanos,
    end_time: Nanos,
    col: Measure,
    row: Measure,
    state: MouseState,
)
    ensures
        final(segments)@ == old(segments)@.push(
            resting(start_time as int, end_time as int, col, row, state),
        ),
{
    segments.push(
        MouseSegment {
            start_time,
            end_time,
            start_col: col,
            start_row: row,
            end_col: col,
            end_row: row,
            state,
            easing: None,
        },
    );
}

fn plan_click(
    out: &mut Vec<Scheduled>,
    segments: &mut Vec<MouseSegment>,
    cursor: Nanos,
    col: u16,
    row: u16,
    mods: ModSet,
    button: MouseButton,
    per: Nanos,
    Ghost(p): Ghost<Plan>,
) -> (r: Nanos)
    requires
        schedule(old(out)@) == p.out,
        old(segments)@ == p.segments,
        p.cursor == cursor,
        clicked(p, col, row, mods, button, per as int).cursor <= LONGEST,
    ensures
        schedule(final(out)@) == clicked(p, col, row, mods, button, per as int).out,
        final(segments)@ == clicked(p, col, row, mods, button, per as int).segments,
        r == clicked(p, col, row, mods, button, per as int).cursor,
{
    push_resting(
        segments,
        cursor,
        cursor + per,
        col as i128 * ONE,
        row as i128 * ONE,
        MouseState::Clicking,
    );
    push_mouse(out, cursor, MouseAction::Press, Some(button), col, row, mods);
    push_mouse(out, cursor + per, MouseAction::Release, Some(button), col, row, mods);
    cursor + per
}

fn plan_double_click(
    out: &mut Vec<Scheduled>,
    segments: &mut Vec<MouseSegment>,
    cursor: Nanos,
    col: u16,
    row: u16,
    mods: ModSet,
    per: Nanos,
    Ghost(p): Ghost<Plan>,
) -> (r: Nanos)
    requires
        schedule(old(out)@) == p.out,
        old(segments)@ == p.segments,
        p.cursor == cursor,
        double_clicked(p, col, row, mods, per as int).cursor <= LONGEST,
    ensures
        schedule(final(out)@) == double_clicked(p, col, row, mods, per as int).out,
        final(segments)@ == double_clicked(p, col, row, mods, per as int).segments,
        r == double_clicked(p, col, row, mods, per as int).cursor,
{
    let x: Measure = col as i128 * ONE;
    let y: Measure = row as i128 * ONE;
    push_resting(segments, cursor, cursor + per, x, y, MouseState::Clicking);
    push_resting(segments, cursor + per, cursor + 2 * per, x, y, MouseState::Clicking);
    let left: Option<MouseButton> = Some(MouseButton::Left);
    push_mouse(out, cursor, MouseAction::Press, left, col, row, mods);
    push_mouse(out, cursor + per, MouseAction::Release, left, col, row, mods);
    push_mouse(out, cursor + 2 * per, MouseAction::Press, left, col, row, mods);
    push_mouse(out, cursor + 3 * per, MouseAction::Release, left, col, row, mods);
    cursor + 4 * per
}

/// The times along a way lie between its start and its end, in order.
pub proof fn lemma_time_at(start: int, total: int, n: int, j: int)
    requires
        n >= 2,
        0 <= j <= n - 1,
        0 <= total,
    ensures
        start <= time_at(start, total, n, j) <= start + total,
        j < n - 1 ==> time_at(start, total, n, j) <= time_at(start, total, n, j + 1),
        time_at(start, total, n, 0) == start,
        time_at(start, total, n, n - 1) == start + total,
{
    let d = n - 1;
    assert(0 <= total * j <= total * d) by (nonlinear_arith)
        requires
            0 <= j <= d,
            0 <= total,
    ;
    assert((total * d) / d == total) by (nonlinear_arith)
        requires
            d > 0,
    ;
    vstd::arithmetic::div_mod::lemma_div_is_ordered(0, total * j, d);
    vstd::arithmetic::div_mod::lemma_div_is_ordered(total * j, total * d, d);
    assert(0int / d == 0) by (nonlinear_arith)
        requires
            d > 0,
    ;
    assert(total * 0 == 0);
    if j < d {
        assert(total * j <= total * (j + 1)) by (nonlinear_arith)
            requires
                0 <= total,
        ;
        vstd::arithmetic::div_mod::lemma_div_is_ordered(total * j, total * (j + 1), d);
    }
}

fn point_time(start: Nanos, total: Nanos, n: usize, j: usize) -> (r: Nanos)
    requires
        2 <= n <= 0xffff_ffff,
        j < n,
        start + total <= LONGEST,
    ensures
        r == time_at(start as int, total as int, n as int, j as int),
        start <= r <= start + total,
{
    proof {
        lemma_time_at(start as int, total as int, n as int, j as int);
        assert(0 <= total * j <= LONGEST * 0xffff_ffff) by (nonlinear_arith)
            requires
                0 <= j <= 0xffff_ffff,
                0 <= total <= LONGEST,
        ;
    }
    start + total * j as u128 / (n - 1) as u128
}

fn plan_way(
    segments: &mut Vec<MouseSegment>,
    points: &Vec<(Measure, Measure)>,
    start: Nanos,
    total: Nanos,
    state: MouseState,
)
    requires
        2 <= points@.len() <= 0xffff_ffff,
        start + total <= LONGEST,
    ensures
        final(segments)@ == old(segments)@ + way(
            points@,
            start as int,
            total as int,
            state,
            points@.len() - 1,
        ),
{
    let n: usize = points.len();
    let ghost before = segments@;
    let ghost all = before + way(points@, start as int, total as int, state, n - 1);
    let mut j: usize = 0;
    while j < n - 1
        invariant
            n == points@.len(),
            2 <= n <= 0xffff_ffff,
            start + total <= LONGEST,
            j <= n - 1,
            all == before + way(points@, start as int, total as int, state, n - 1),
            segments@.len() == before.len() + j,
            forall|k: int| 0 <= k < before.len() + j ==> segments@[k] == all[k],
        decreases n - 1 - j,
    {
        let a: (Measure, Measure) = points[j];
        let b: (Measure, Measure) = points[j + 1];
        segments.push(
            MouseSegment {
                start_time: point_time(start, total, n, j),
                end_time: point_time(start, total, n, j + 1),
                start_col: a.0,
                start_row: a.1,
                end_col: b.0,
                end_row: b.1,
                state,
                easing: None,
            },
        );
        j = j + 1;
    }
    assert(segments@ =~= all);
}

fn plan_motions(
    out: &mut Vec<Scheduled>,
    points: &Vec<(Measure, Measure)>,
    start: Nanos,
    total: Nanos,
    button: Option<MouseButton>,
    mods: ModSet,
)
    requires
        2 <= points@.len() <= 0xffff_ffff,
        start + total <= LONGEST,
    ensures
        schedule(final(out)@) == schedule(old(out)@) + motions(
            points@,
            start as int,
            total as int,
            button,
            mods,
            points@.len() as int,
        ),
{
    let n: usize = points.len();
    let ghost before = schedule(out@);
    let mut j: usize = 1;
    assert(schedule(out@) =~= before + motions(
        points@,
        start as int,
        total as int,
        button,
        mods,
        1,
    ));
    while j < n
        invariant
            n == points@.len(),
            2 <= n <= 0xffff_ffff,
            start + total <= LONGEST,
            1 <= j <= n,
            schedule(out@) == before + motions(
                points@,
                start as int,
                total as int,
                button,
                mods,
                j as int,
            ),
        decreases n - j,
    {
        let col: u16 = cell_at(points[j].0);
        let row: u16 = cell_at(points[j].1);
        if col != cell_at(points[j - 1].0) || row != cell_at(points[j - 1].1) {
            let at: Nanos = point_time(start, total, n, j);
            push_mouse(out, at, MouseAction::Motion, button, col, row, mods);
        }
        assert(schedule(out@) =~= before + motions(
            points@,
            start as int,
            total as int,
            button,
            mods,
            j + 1,
        ));
        j = j + 1;
    }
}

fn plan_drag(
    out: &mut Vec<Scheduled>,
    segments: &mut Vec<MouseSegment>,
    cursor: Nanos,
    path: &MousePath,
    mods: ModSet,
    per: Nanos,
    total: Nanos,
    Ghost(p): Ghost<Plan>,
) -> (r: Nanos)
    requires
        schedule(old(out)@) == p.out,
        old(segments)@ == p.segments,
        p.cursor == cursor,
        2 <= path.points@.len() <= 0xffff_ffff,
        dragged(p, *path, mods, per as int, total as int).cursor <= LONGEST,
    ensures
        schedule(final(out)@) == dragged(p, *path, mods, per as int, total as int).out,
        final(segments)@ == dragged(p, *path, mods, per as int, total as int).segments,
        r == dragged(p, *path, mods, per as int, total as int).cursor,
{
    let n: usize = path.points.len();
    let first: (Measure, Measure) = path.points[0];
    let last: (Measure, Measure) = path.points[n - 1];
    let left: Option<MouseButton> = Some(MouseButton::Left);
    let end: Nanos = cursor + total;
    push_mouse(out, cursor, MouseAction::Press, left, cell_at(first.0), cell_at(first.1), mods);
    plan_way(segments, &path.points, cursor, total, MouseState::Dragging);
    push_resting(segments, end, end + per, last.0, last.1, MouseState::Clicking);
    plan_motions(out, &path.points, cursor, total, left, mods);
    push_mouse(
        out,
        end + per,
        MouseAction::Release,
        left,
        cell_at(last.0),
        cell_at(last.1),
        mods,
    );
    assert(schedule(out@) =~= dragged(p, *path, mods, per as int, total as int).out);
    assert(segments@ =~= dragged(p, *path, mods, per as int, total as int).segments);
    end + per
}

fn plan_move(
    out: &mut Vec<Scheduled>,
    segments: &mut Vec<MouseSegment>,
    cursor: Nanos,
    path: &MousePath,
    mods: ModSet,
    total: Nanos,
    Ghost(p): Ghost<Plan>,
) -> (r: Nanos)
    requires
        schedule(old(out)@) == p.out,
        old(segments)@ == p.segments,
        p.cursor == cursor,
        2 <= path.points@.len() <= 0xffff_ffff,
        moved(p, *path, mods, total as int).cursor <= LONGEST,
    ensures
        schedule(final(out)@) == moved(p, *path, mods, total as int).out,
        final(segments)@ == moved(p, *path, mods, total as int).segments,
        r == moved(p, *path, mods, total as int).cursor,
{
    let first: (Measure, Measure) = path.points[0];
    push_mouse(out, cursor, MouseAction::Motion, None, cell_at(first.0), cell_at(first.1), mods);
    plan_way(segments, &path.points, cursor, total, MouseState::Moving);
    plan_motions(out, &path.points, cursor, total, None, mods);
    assert(schedule(out@) =~= moved(p, *path, mods, total as int).out);
    assert(segments@ =~= moved(p, *path, mods, total as int).segments);
    cursor + total
}

/// The plan for the events of a script: what happens when, where the mouse is in
/// between, and when the last event is over. `paths` holds, at the place of each
/// gesture, the way that the mouse takes.
pub fn build_timeline(
    events: &Vec<Event>,
    paths: &Vec<MousePath>,
    settings: &Settings,
) -> (r: (Vec<Scheduled>, Vec<MouseSegment>, Nanos))
    requires
        plan_fits(events@, paths@, *settings),
    ensures
        schedule(r.0@) == plan(events@, paths@, *settings, events@.len() as int).out,
        r.1@ == plan(events@, paths@, *settings, events@.len() as int).segments,
        r.2 == plan(events@, paths@, *settings, events@.len() as int).cursor,
{
    let mut out: Vec<Scheduled> = Vec::new();
    let mut segments: Vec<MouseSegment> = Vec::new();
    let mut cursor: Nanos = 0;
    let speed: Measure = settings.playback_speed;
    let mut i: usize = 0;
    assert(schedule(out@) =~= Seq::empty());
    while i < events.len()
        invariant
            plan_fits(events@, paths@, *settings),
            speed == settings.playback_speed,
            i <= events@.len(),
            schedule(out@) == plan(events@, paths@, *settings, i as int).out,
            segments@ == plan(events@, paths@, *settings, i as int).segments,
            cursor == plan(events@, paths@, *settings, i as int).cursor,
        decreases events@.len() - i,
    {
        let ghost p = plan(events@, paths@, *settings, i as int);
        let ghost e = events@[i as int]@;
        let ghost q = planned(p, e, paths@[i as int], *settings);
        proof {
            lemma_plan_rises(events@, paths@, *settings, i + 1, events@.len() as int);
            assert(q == plan(events@, paths@, *settings, i + 1));
            assert(delay_of(e) < SCALE_LIMIT);
            lemma_planned_rises(p, e, paths@[i as int], *settings);
        }
        match &events[i] {
            Event::Type { text, delay } => {
                let per: Nanos = scale(*delay, speed);
                cursor = plan_typing(&mut out, cursor, text.as_str(), per, Ghost(p));
            },
            Event::Sleep(d) => {
                let per: Nanos = scale(*d, speed);
                cursor = cursor + per;
            },
            Event::Key { key, action, count, delay } => {
                let per: Nanos = scale(*delay, speed);
                cursor = plan_key(&mut out, cursor, *key, *action, *count, per, Ghost(p));
            },
            Event::Click { col, row, mods, delay } => {
                let per: Nanos = scale(*delay, speed);
                cursor =
                plan_click(
                    &mut out,
                    &mut segments,
                    cursor,
                    *col,
                    *row,
                    *mods,
                    MouseButton::Left,
                    per,
                    Ghost(p),
                );
            },
            Event::RightClick { col, row, mods, delay } => {
                let per: Nanos = scale(*delay, speed);
                cursor =
                plan_click(
                    &mut out,
                    &mut segments,
                    cursor,
                    *col,
                    *row,
                    *mods,
                    MouseButton::Right,
                    per,
                    Ghost(p),
                );
            },
            Event::DoubleClick { col, row, mods, delay } => {
                let per: Nanos = scale(*delay, speed);
                cursor =
                plan_double_click(
                    &mut out,
                    &mut segments,
                    cursor,
                    *col,
                    *row,
                    *mods,
                    per,
                    Ghost(p),
                );
            },
            Event::MouseScroll { col, row, direction, mods, delay } => {
                let per: Nanos = scale(*delay, speed);
                let button: Option<MouseButton> = match direction {
                    ScrollDirection::Up => Some(MouseButton::WheelUp),
                    ScrollDirection::Down => Some(MouseButton::WheelDown),
                };
                push_mouse(&mut out, cursor, MouseAction::Press, button, *col, *row, *mods);
                cursor = cursor + per;
                push_mouse(&mut out, cursor, MouseAction::Release, button, *col, *row, *mods);
            },
            Event::MouseDrag { coords, mods, delay, easing } => {
                let per: Nanos = scale(*delay, speed);
                assert(paths@[i as int].points@.len() != 1);
                if paths[i].points.len() > 0 {
                    let total: Nanos = gesture_duration(*delay, settings, count_cells(coords));
                    cursor =
                    plan_drag(
                        &mut out,
                        &mut segments,
                        cursor,
                        &paths[i],
                        *mods,
                        per,
                        total,
                        Ghost(p),
                    );
                }
            },
            Event::MouseMove { coords, mods, delay, easing } => {
                assert(paths@[i as int].points@.len() != 1);
                if paths[i].points.len() > 0 {
                    let total: Nanos = gesture_duration(*delay, settings, count_cells(coords));
                    cursor =
                    plan_move(
                        &mut out,
                        &mut segments,
                        cursor,
                        &paths[i],
                        *mods,
                        total,
                        Ghost(p),
                    );
                }
            },
            Event::MouseInput { action, button, col, row, pixel_coords, mods } => {
                push_event(
                    &mut out,
                    cursor,
                    Event::MouseInput {
                        action: *action,
                        button: *button,
                        col: *col,
                        row: *row,
                        pixel_coords: *pixel_coords,
                        mods: *mods,
                    },
                );
            },
            Event::Wait { scope, timeout, pattern } => {
                push_event(
                    &mut out,
                    cursor,
                    Event::Wait { scope: *scope, timeout: *timeout, pattern: pattern.clone() },
                );
            },
            Event::Screenshot(path) => {
                push_event(&mut out, cursor, Event::Screenshot(path.clone()));
            },
            Event::Copy(text) => {
                push_event(&mut out, cursor, Event::Copy(text.clone()));
            },
            Event::Paste => {
                push_event(&mut out, cursor, Event::Paste);
            },
            Event::Hide => {
                push_event(&mut out, cursor, Event::Hide);
            },
            Event::Show => {
                push_event(&mut out, cursor, Event::Show);
            },
        }
        i = i + 1;
    }
    (out, segments, cursor)
}

/// How long a gesture takes.
pub fn gesture_duration(delay: Nanos, settings: &Settings, len: u32) -> (r: Nanos)
    requires
        delay < SCALE_LIMIT,
        settings.playback_speed < SPEED_LIMIT,
        gesture_time(delay, *settings, len) <= LONGEST,
    ensures
        r == gesture_time(delay, *settings, len),
{
    let per: Nanos = scale(delay, settings.playback_speed);
    if delay != settings.typing_speed {
        per
    } else {
        per * len as u128
    }
}

/// Whether the times of a schedule rise and do not pass `end`.
pub open spec fn rising(v: Seq<ScheduledView>, end: int) -> bool {
    &&& forall|i: int, j: int| 0 <= i <= j < v.len() ==> (#[trigger] v[i]).at <= (#[trigger] v[j]).at
    &&& forall|i: int| 0 <= i < v.len() ==> 0 <= (#[trigger] v[i]).at <= end
}

proof fn lemma_motions_rise(
    points: Seq<(Measure, Measure)>,
    start: int,
    total: int,
    button: Option<MouseButton>,
    mods: ModSet,
    j: int,
)
    requires
        0 <= start,
        0 <= total,
        2 <= points.len(),
        1 <= j <= points.len(),
    ensures
        rising(
            motions(points, start, total, button, mods, j),
            time_at(start, total, points.len() as int, j - 1),
        ),
        forall|i: int|
            0 <= i < motions(points, start, total, button, mods, j).len() ==> start <= (
            #[trigger] motions(points, start, total, button, mods, j)[i]).at,
    decreases j,
{
    if j > 1 {
        lemma_motions_rise(points, start, total, button, mods, j - 1);
        lemma_time_at(start, total, points.len() as int, j - 2);
        lemma_time_at(start, total, points.len() as int, j - 1);
    }
}

/// A schedule that rises still rises when what comes later is added.
proof fn lemma_rising_add(a: Seq<ScheduledView>, mid: int, b: Seq<ScheduledView>, end: int)
    requires
        rising(a, mid),
        rising(b, end),
        mid <= end,
        forall|i: int| 0 <= i < b.len() ==> mid <= (#[trigger] b[i]).at,
    ensures
        rising(a + b, end),
{
    let v = a + b;
    assert forall|i: int, j: int| 0 <= i <= j < v.len() implies (#[trigger] v[i]).at <= (
    #[trigger] v[j]).at by {
        if j < a.len() {
            assert(v[i] == a[i] && v[j] == a[j]);
        } else if i < a.len() {
            assert(v[i] == a[i]);
            assert(v[j] == b[j - a.len()]);
        } else {
            assert(v[i] == b[i - a.len()]);
            assert(v[j] == b[j - a.len()]);
        }
    }
    assert forall|i: int| 0 <= i < v.len() implies 0 <= (#[trigger] v[i]).at <= end by {
        if i < a.len() {
            assert(v[i] == a[i]);
        } else {
            assert(v[i] == b[i - a.len()]);
        }
    }
}

proof fn lemma_rising_push(a: Seq<ScheduledView>, mid: int, s: ScheduledView, end: int)
    requires
        rising(a, mid),
        0 <= mid <= s.at <= end,
    ensures
        rising(a.push(s), end),
{
    assert(a.push(s) =~= a + seq![s]);
    lemma_rising_add(a, mid, seq![s], end);
}

proof fn lemma_pressed_rises(
    a: Seq<ScheduledView>,
    mid: int,
    at: int,
    per: int,
    button: MouseButton,
    col: u16,
    row: u16,
    mods: ModSet,
)
    requires
        rising(a, mid),
        0 <= mid <= at,
        0 <= per,
    ensures
        rising(pressed(a, at, per, button, col, row, mods), at + per),
{
    let s = ScheduledView {
        at,
        event: mouse_event(MouseAction::Press, Some(button), col, row, mods),
    };
    let t = ScheduledView {
        at: at + per,
        event: mouse_event(MouseAction::Release, Some(button), col, row, mods),
    };
    lemma_rising_push(a, mid, s, at);
    lemma_rising_push(a.push(s), at, t, at + per);
}

proof fn lemma_planned_rising(p: Plan, e: EventView, path: MousePath, settings: Settings)
    requires
        0 <= p.cursor,
        rising(p.out, p.cursor),
        path.points@.len() != 1,
    ensures
        rising(
            planned(p, e, path, settings).out,
            planned(p, e, path, settings).cursor,
        ),
{
    let q = planned(p, e, path, settings);
    let speed = settings.playback_speed;
    let per = nanos::scaled(delay_of(e) as nat, speed) as int;
    lemma_planned_rises(p, e, path, settings);
    match e {
        EventView::Type { text, delay } => {
            let tail = Seq::new(
                text.len(),
                |i: int|
                    ScheduledView {
                        at: p.cursor + i * per,
                        event: EventView::Type { text: seq![text[i]], delay: 0 },
                    },
            );
            lemma_even_rising(tail, p.cursor, per, q.cursor);
            lemma_rising_add(p.out, p.cursor, tail, q.cursor);
        },
        EventView::Sleep(d) => {
            lemma_rising_later(p.out, p.cursor, q.cursor);
        },
        EventView::Key { key, action, count, delay } => {
            let n = presses(count);
            let tail = Seq::new(
                n as nat,
                |i: int|
                    ScheduledView {
                        at: p.cursor + i * per,
                        event: EventView::Key { key, action, count: 1, delay: 0 },
                    },
            );
            assert(p.cursor + (n - 1) * per == q.cursor);
            assert forall|i: int| 0 <= i < tail.len() implies (#[trigger] tail[i]).at
                <= q.cursor by {
                lemma_product_rises(i, n - 1, per);
            }
            lemma_even_rising(tail, p.cursor, per, q.cursor);
            lemma_rising_add(p.out, p.cursor, tail, q.cursor);
        },
        EventView::Click { col, row, mods, delay } => {
            lemma_pressed_rises(
                p.out,
                p.cursor,
                p.cursor,
                per,
                MouseButton::Left,
                col,
                row,
                mods,
            );
        },
        EventView::RightClick { col, row, mods, delay } => {
            lemma_pressed_rises(
                p.out,
                p.cursor,
                p.cursor,
                per,
                MouseButton::Right,
                col,
                row,
                mods,
            );
        },
        EventView::DoubleClick { col, row, mods, delay } => {
            lemma_pressed_rises(
                p.out,
                p.cursor,
                p.cursor,
                per,
                MouseButton::Left,
                col,
                row,
                mods,
            );
            let once = pressed(p.out, p.cursor, per, MouseButton::Left, col, row, mods);
            lemma_pressed_rises(
                once,
                p.cursor + per,
                p.cursor + 2 * per,
                per,
                MouseButton::Left,
                col,
                row,
                mods,
            );
            lemma_rising_later(q.out, p.cursor + 3 * per, q.cursor);
        },
        EventView::MouseScroll { col, row, direction, mods, delay } => {
            lemma_pressed_rises(p.out, p.cursor, p.cursor, per, wheel(direction), col, row, mods);
        },
        EventView::MouseDrag { coords, mods, delay, easing } => {
            let points = path.points@;
            let n = points.len() as int;
            if n > 0 {
                let total = gesture_time(delay, settings, way::way_cells(coords));
                lemma_product_rises(0, per, way::way_cells(coords) as int);
                let left = Some(MouseButton::Left);
                let s = ScheduledView {
                    at: p.cursor,
                    event: mouse_event(
                        MouseAction::Press,
                        left,
                        cell_of(points[0].0),
                        cell_of(points[0].1),
                        mods,
                    ),
                };
                lemma_rising_push(p.out, p.cursor, s, p.cursor);
                lemma_motions_rise(points, p.cursor, total, left, mods, n);
                lemma_time_at(p.cursor, total, n, n - 1);
                let m = motions(points, p.cursor, total, left, mods, n);
                lemma_rising_add(p.out.push(s), p.cursor, m, p.cursor + total);
                let t = q.out[q.out.len() - 1];
                assert(q.out =~= (p.out.push(s) + m).push(t));
                assert(t.at == q.cursor);
                lemma_rising_push(p.out.push(s) + m, p.cursor + total, t, q.cursor);
            }
        },
        EventView::MouseMove { coords, mods, delay, easing } => {
            let points = path.points@;
            let n = points.len() as int;
            if n > 0 {
                let total = gesture_time(delay, settings, way::way_cells(coords));
                lemma_product_rises(0, per, way::way_cells(coords) as int);
                let s = ScheduledView {
                    at: p.cursor,
                    event: mouse_event(
                        MouseAction::Motion,
                        None,
                        cell_of(points[0].0),
                        cell_of(points[0].1),
                        mods,
                    ),
                };
                lemma_rising_push(p.out, p.cursor, s, p.cursor);
                lemma_motions_rise(points, p.cursor, total, None, mods, n);
                lemma_time_at(p.cursor, total, n, n - 1);
                let m = motions(points, p.cursor, total, None, mods, n);
                lemma_rising_add(p.out.push(s), p.cursor, m, p.cursor + total);
            }
        },
        _ => {
            lemma_rising_push(
                p.out,
                p.cursor,
                ScheduledView { at: p.cursor, event: e },
                p.cursor,
            );
        },
    }
}

proof fn lemma_rising_later(a: Seq<ScheduledView>, mid: int, end: int)
    requires
        rising(a, mid),
        mid <= end,
    ensures
        rising(a, end),
{
}

/// Equal steps rise.
proof fn lemma_even_rising(tail: Seq<ScheduledView>, start: int, per: int, end: int)
    requires
        0 <= start,
        0 <= per,
        forall|i: int| 0 <= i < tail.len() ==> (#[trigger] tail[i]).at == start + i * per,
        start + tail.len() * per <= end || forall|i: int|
            0 <= i < tail.len() ==> (#[trigger] tail[i]).at <= end,
    ensures
        rising(tail, end),
        forall|i: int| 0 <= i < tail.len() ==> start <= (#[trigger] tail[i]).at,
{
    assert forall|i: int, j: int| 0 <= i <= j < tail.len() implies (#[trigger] tail[i]).at <= (
    #[trigger] tail[j]).at by {
        lemma_product_rises(i, j, per);
    }
    assert forall|i: int| 0 <= i < tail.len() implies start <= (#[trigger] tail[i]).at <= end by {
        lemma_product_rises(0, i, per);
        lemma_product_rises(i, tail.len() as int, per);
    }
}

/// Events happen in the order of the script, none before the run starts and none
/// after the plan ends.
pub proof fn lemma_timeline_rises(
    events: Seq<Event>,
    paths: Seq<MousePath>,
    settings: Settings,
    n: int,
)
    requires
        plan_fits(events, paths, settings),
        0 <= n <= events.len(),
    ensures
        rising(
            plan(events, paths, settings, n).out,
            plan(events, paths, settings, n).cursor,
        ),
    decreases n,
{
    if n > 0 {
        lemma_timeline_rises(events, paths, settings, n - 1);
        lemma_plan_rises(events, paths, settings, n - 1, n);
        assert(paths[n - 1].points@.len() != 1);
        lemma_planned_rising(
            plan(events, paths, settings, n - 1),
            events[n - 1]@,
            paths[n - 1],
            settings,
        );
    }
}

/// A click holds the button for as long as it says, and nothing comes in between:
/// the next event happens when the button is released.
pub proof fn lemma_click_holds(
    p: Plan,
    path: MousePath,
    settings: Settings,
    col: u16,
    row: u16,
    mods: ModSet,
    delay: Nanos,
)
    requires
        settings.playback_speed == ONE,
        delay < 0x8_0000 * nanos::SECOND,
    ensures
        ({
            let q = planned(p, EventView::Click { col, row, mods, delay }, path, settings);
            let n = p.out.len() as int;
            &&& q.out.len() == n + 2
            &&& q.out[n] == (ScheduledView {
                at: p.cursor,
                event: mouse_event(MouseAction::Press, Some(MouseButton::Left), col, row, mods),
            })
            &&& q.out[n + 1] == (ScheduledView {
                at: p.cursor + delay,
                event: mouse_event(MouseAction::Release, Some(MouseButton::Left), col, row, mods),
            })
            &&& q.cursor == p.cursor + delay
        }),
{
    nanos::lemma_scaled_by_one(delay as nat);
}

/// The pieces of a way meet, in time and in place.
pub proof fn lemma_way_meets(
    points: Seq<(Measure, Measure)>,
    start: int,
    total: int,
    state: MouseState,
    j: int,
    k: int,
)
    requires
        0 <= k,
        k + 1 < j <= points.len() - 1,
    ensures
        ({
            let w = way(points, start, total, state, j);
            &&& w[k].end_time == w[k + 1].start_time
            &&& w[k].end_col == w[k + 1].start_col
            &&& w[k].end_row == w[k + 1].start_row
        }),
{
}

/// The mouse takes equally long for all pieces of its way, but for the rounding of
/// a nanosecond.
pub proof fn lemma_way_even(start: int, total: int, n: int, j: int)
    requires
        n >= 2,
        0 <= j < n - 1,
        0 <= total,
    ensures
        ({
            let step = time_at(start, total, n, j + 1) - time_at(start, total, n, j);
            total / (n - 1) <= step <= total / (n - 1) + 1
        }),
{
    let d = n - 1;
    let a = total * j;
    let b = total * (j + 1);
    assert(b == a + total) by (nonlinear_arith)
        requires
            a == total * j,
            b == total * (j + 1),
    ;
    vstd::arithmetic::div_mod::lemma_fundamental_div_mod(a, d);
    vstd::arithmetic::div_mod::lemma_fundamental_div_mod(b, d);
    vstd::arithmetic::div_mod::lemma_fundamental_div_mod(total, d);
    let x = a / d;
    let y = b / d;
    let z = total / d;
    assert(z <= y - x <= z + 1) by (nonlinear_arith)
        requires
            a == d * x + a % d,
            b == d * y + b % d,
            total == d * z + total % d,
            b == a + total,
            0 <= a % d < d,
            0 <= b % d < d,
            0 <= total % d < d,
    ;
}

proof fn lemma_even_add(a: Seq<MouseSegment>, b: Seq<MouseSegment>)
    requires
        mouse::evenly(a),
        mouse::evenly(b),
    ensures
        mouse::evenly(a + b),
{
    assert forall|i: int| 0 <= i < (a + b).len() implies (#[trigger] (a + b)[i]).easing is None
        || (a + b)[i].easing == Some(MouseEasing::Linear) by {
        if i < a.len() {
            assert(a[i].easing is None || a[i].easing == Some(MouseEasing::Linear));
        } else {
            let j = i - a.len();
            assert(b[j].easing is None || b[j].easing == Some(MouseEasing::Linear));
        }
    }
}

proof fn lemma_planned_even(p: Plan, e: EventView, path: MousePath, settings: Settings)
    requires
        mouse::evenly(p.segments),
    ensures
        mouse::evenly(planned(p, e, path, settings).segments),
{
    let q = planned(p, e, path, settings);
    match e {
        EventView::MouseDrag { coords, mods, delay, easing } => {
            let n = path.points@.len() as int;
            if n > 0 {
                let total = gesture_time(delay, settings, way::way_cells(coords));
                let w = way(path.points@, p.cursor, total, MouseState::Dragging, n - 1);
                let end = q.segments[q.segments.len() - 1];
                lemma_even_add(p.segments, w);
                lemma_even_add(p.segments + w, seq![end]);
                assert(q.segments =~= p.segments + w + seq![end]);
            }
        },
        EventView::MouseMove { coords, mods, delay, easing } => {
            let n = path.points@.len() as int;
            if n > 0 {
                let total = gesture_time(delay, settings, way::way_cells(coords));
                lemma_even_add(
                    p.segments,
                    way(path.points@, p.cursor, total, MouseState::Moving, n - 1),
                );
            }
        },
        _ => {
            let more = q.segments.skip(p.segments.len() as int);
            assert(q.segments =~= p.segments + more);
            lemma_even_add(p.segments, more);
        },
    }
}

/// The segments of a plan have no easing of their own: how fast the mouse is shows
/// in where it is at equal intervals of time.
pub proof fn lemma_plan_even(
    events: Seq<Event>,
    paths: Seq<MousePath>,
    settings: Settings,
    n: int,
)
    ensures
        mouse::evenly(plan(events, paths, settings, n).segments),
    decreases n,
{
    if n > 0 {
        lemma_plan_even(events, paths, settings, n - 1);
        lemma_planned_even(
            plan(events, paths, settings, n - 1),
            events[n - 1]@,
            paths[n - 1],
            settings,
        );
    }
}

} // verus!
