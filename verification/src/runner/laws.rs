//! What holds of a run as a whole: that what a script says is what is sent to the
//! terminal, and that the mouse is where its movements take it.
use vstd::prelude::*;

use crate::exact;
use crate::nanos;
use crate::nanos::Nanos;
use crate::recording::MouseState;
use crate::runner::mouse;
use crate::runner::timeline;
use crate::runner::timeline::{MousePath, MouseSegment, Plan, ScheduledView};
use crate::runner::way;
use crate::script::{
    Event, EventView, KeyAction, KeySpec, ModSet, MouseAction, MouseButton, MouseEasing,
    ScrollDirection, Settings,
};
use crate::single;
use crate::single::{Measure, ONE};

verus! {

/// The texts of the events that type, joined in the order of the timeline.
pub open spec fn typed_text(v: Seq<ScheduledView>) -> Seq<char>
    decreases v.len(),
{
    if v.len() == 0 {
        Seq::empty()
    } else {
        typed_text(v.drop_last()) + match v.last().event {
            EventView::Type { text, delay } => text,
            _ => Seq::empty(),
        }
    }
}

/// The texts that the first `n` events of a script type, joined.
pub open spec fn script_text(events: Seq<Event>, n: int) -> Seq<char>
    decreases n,
{
    if n <= 0 {
        Seq::empty()
    } else {
        script_text(events, n - 1) + match events[n - 1]@ {
            EventView::Type { text, delay } => text,
            _ => Seq::empty(),
        }
    }
}

proof fn lemma_typed_text_add(a: Seq<ScheduledView>, b: Seq<ScheduledView>)
    ensures
        typed_text(a + b) == typed_text(a) + typed_text(b),
    decreases b.len(),
{
    if b.len() == 0 {
        assert(a + b =~= a);
        assert(typed_text(a) + typed_text(b) =~= typed_text(a));
    } else {
        assert((a + b).drop_last() =~= a + b.drop_last());
        lemma_typed_text_add(a, b.drop_last());
        assert(typed_text(a + b) =~= typed_text(a) + typed_text(b));
    }
}

proof fn lemma_typed_one_by_one(v: Seq<ScheduledView>, text: Seq<char>)
    requires
        v.len() == text.len(),
        forall|i: int|
            0 <= i < v.len() ==> (#[trigger] v[i]).event == (EventView::Type {
                text: seq![text[i]],
                delay: 0,
            }),
    ensures
        typed_text(v) == text,
    decreases v.len(),
{
    if v.len() > 0 {
        lemma_typed_one_by_one(v.drop_last(), text.drop_last());
        assert(v[v.len() - 1].event == v.last().event);
        assert(text =~= text.drop_last() + seq![text.last()]);
    }
}

proof fn lemma_nothing_typed(v: Seq<ScheduledView>)
    requires
        forall|i: int| 0 <= i < v.len() ==> !((#[trigger] v[i]).event is Type),
    ensures
        typed_text(v) == Seq::<char>::empty(),
    decreases v.len(),
{
    if v.len() > 0 {
        assert(!(v[v.len() - 1].event is Type));
        lemma_nothing_typed(v.drop_last());
        assert(typed_text(v) =~= Seq::<char>::empty());
    }
}

/// What is planned for an event comes behind what was planned before it.
pub open spec fn added(p: Plan, q: Plan) -> Seq<ScheduledView> {
    q.out.skip(p.out.len() as int)
}

/// The texts of the events planned for a text that is typed, joined in the order of the
/// timeline, are that text. There is one event for each character, the next one always
/// the delay after the one before, and the delay passes after the last one too.
pub proof fn lemma_text_is_typed(
    p: Plan,
    path: MousePath,
    settings: Settings,
    text: Seq<char>,
    delay: Nanos,
)
    ensures
        ({
            let q = timeline::planned(p, EventView::Type { text, delay }, path, settings);
            let per = nanos::scaled(delay as nat, settings.playback_speed);
            let new = added(p, q);
            &&& q.out == p.out + new
            &&& typed_text(new) == text
            &&& new.len() == text.len()
            &&& forall|i: int|
                0 <= i < new.len() ==> (#[trigger] new[i]).at == p.cursor + i * per
            &&& q.cursor == p.cursor + text.len() * per
            &&& q.segments == p.segments
        }),
{
    let q = timeline::planned(p, EventView::Type { text, delay }, path, settings);
    let new = added(p, q);
    assert(q.out =~= p.out + new);
    lemma_typed_one_by_one(new, text);
}

/// What a run types is what its script types, to the last character and in order: what
/// the events in between do to the keyboard or the mouse adds no text.
pub proof fn lemma_run_types_script(
    events: Seq<Event>,
    paths: Seq<MousePath>,
    settings: Settings,
    n: int,
)
    requires
        0 <= n <= events.len(),
    ensures
        typed_text(timeline::plan(events, paths, settings, n).out) == script_text(events, n),
    decreases n,
{
    if n > 0 {
        let p = timeline::plan(events, paths, settings, n - 1);
        let e = events[n - 1]@;
        let path = paths[n - 1];
        let q = timeline::planned(p, e, path, settings);
        let new = added(p, q);
        lemma_run_types_script(events, paths, settings, n - 1);
        match e {
            EventView::Type { text, delay } => {
                lemma_text_is_typed(p, path, settings, text, delay);
            },
            EventView::MouseDrag { coords, mods, delay, easing } => {
                lemma_gesture_is_mouse(p, e, path, settings);
                lemma_nothing_typed(new);
            },
            EventView::MouseMove { coords, mods, delay, easing } => {
                lemma_gesture_is_mouse(p, e, path, settings);
                lemma_nothing_typed(new);
            },
            _ => {
                assert(q.out =~= p.out + new);
                lemma_nothing_typed(new);
            },
        }
        lemma_typed_text_add(p.out, new);
        assert(typed_text(q.out) =~= script_text(events, n));
    }
}

proof fn lemma_motions_are_mouse(
    points: Seq<(Measure, Measure)>,
    start: int,
    total: int,
    button: Option<MouseButton>,
    mods: ModSet,
    j: int,
)
    ensures
        ({
            let v = timeline::motions(points, start, total, button, mods, j);
            forall|i: int| 0 <= i < v.len() ==> (#[trigger] v[i]).event is MouseInput
        }),
    decreases j,
{
    if j > 1 {
        lemma_motions_are_mouse(points, start, total, button, mods, j - 1);
    }
}

proof fn lemma_gesture_is_mouse(p: Plan, e: EventView, path: MousePath, settings: Settings)
    requires
        e is MouseDrag || e is MouseMove,
    ensures
        ({
            let q = timeline::planned(p, e, path, settings);
            &&& q.out == p.out + added(p, q)
            &&& forall|i: int|
                0 <= i < added(p, q).len() ==> (#[trigger] added(p, q)[i]).event is MouseInput
        }),
{
    let q = timeline::planned(p, e, path, settings);
    let points = path.points@;
    let n = points.len() as int;
    match e {
        EventView::MouseDrag { coords, mods, delay, easing } => {
            let total = timeline::gesture_time(delay, settings, way::way_cells(coords));
            lemma_motions_are_mouse(points, p.cursor, total, Some(MouseButton::Left), mods, n);
            assert(q.out =~= p.out + added(p, q));
        },
        EventView::MouseMove { coords, mods, delay, easing } => {
            let total = timeline::gesture_time(delay, settings, way::way_cells(coords));
            lemma_motions_are_mouse(points, p.cursor, total, None, mods, n);
            assert(q.out =~= p.out + added(p, q));
        },
        _ => {},
    }
}

/// Whether an event happens at a time and is the given input of the mouse, in cells.
pub open spec fn mouse_at(
    s: ScheduledView,
    at: int,
    does: MouseAction,
    with: Option<MouseButton>,
    on: (u16, u16),
    held: ModSet,
) -> bool {
    s.at == at && (s.event matches EventView::MouseInput {
        action,
        button,
        col,
        row,
        pixel_coords,
        mods,
    } && action == does && button == with && col == on.0 && row == on.1 && pixel_coords is None
        && mods == held)
}

/// A key is pressed as often as the script says, at least once, each time the delay
/// after the time before. Each press is the same: the key, with its modifiers, and what
/// is done with it.
pub proof fn lemma_key_is_pressed(
    p: Plan,
    path: MousePath,
    settings: Settings,
    key: KeySpec,
    action: KeyAction,
    count: u32,
    delay: Nanos,
)
    ensures
        ({
            let q = timeline::planned(p, EventView::Key { key, action, count, delay }, path, settings);
            let per = nanos::scaled(delay as nat, settings.playback_speed);
            let new = added(p, q);
            &&& q.out == p.out + new
            &&& count >= 1 ==> new.len() == count
            &&& count == 0 ==> new.len() == 1
            &&& forall|i: int|
                0 <= i < new.len() ==> (#[trigger] new[i]).at == p.cursor + i * per
                    && new[i].event == (EventView::Key { key, action, count: 1, delay: 0 })
            &&& q.cursor == new.last().at
            &&& q.segments == p.segments
        }),
{
    let q = timeline::planned(p, EventView::Key { key, action, count, delay }, path, settings);
    assert(q.out =~= p.out + added(p, q));
}

/// A pause is as long as the script says, and nothing is sent in it.
pub proof fn lemma_sleep_passes(p: Plan, path: MousePath, settings: Settings, d: Nanos)
    ensures
        ({
            let q = timeline::planned(p, EventView::Sleep(d), path, settings);
            &&& q.out == p.out
            &&& q.segments == p.segments
            &&& q.cursor == p.cursor + nanos::scaled(d as nat, settings.playback_speed)
        }),
{
}

/// A click with the left or the right button presses that button on the cell, and
/// releases it there after the delay. Meanwhile the mouse is shown clicking on the cell.
pub proof fn lemma_click_presses(
    p: Plan,
    path: MousePath,
    settings: Settings,
    right: bool,
    col: u16,
    row: u16,
    mods: ModSet,
    delay: Nanos,
)
    requires
        0 <= p.cursor,
        p.cursor + nanos::scaled(delay as nat, settings.playback_speed) <= nanos::LONGEST,
    ensures
        ({
            let e = if right {
                EventView::RightClick { col, row, mods, delay }
            } else {
                EventView::Click { col, row, mods, delay }
            };
            let button = if right {
                MouseButton::Right
            } else {
                MouseButton::Left
            };
            let per = nanos::scaled(delay as nat, settings.playback_speed);
            let q = timeline::planned(p, e, path, settings);
            let new = added(p, q);
            let s = q.segments.last();
            &&& q.out == p.out + new
            &&& new.len() == 2
            &&& mouse_at(new[0], p.cursor, MouseAction::Press, Some(button), (col, row), mods)
            &&& mouse_at(
                new[1],
                p.cursor + per,
                MouseAction::Release,
                Some(button),
                (col, row),
                mods,
            )
            &&& q.cursor == p.cursor + per
            &&& q.segments == p.segments.push(s)
            &&& s.start_time == p.cursor && s.end_time == p.cursor + per
            &&& s.start_col == col * ONE && s.end_col == col * ONE
            &&& s.start_row == row * ONE && s.end_row == row * ONE
            &&& s.state == MouseState::Clicking
        }),
{
    let e = if right {
        EventView::RightClick { col, row, mods, delay }
    } else {
        EventView::Click { col, row, mods, delay }
    };
    let q = timeline::planned(p, e, path, settings);
    assert(q.out =~= p.out + added(p, q));
}

/// A double click presses and releases the left button on the cell twice, with the
/// delay between each two of these, and again between its end and what comes next.
pub proof fn lemma_double_click_presses(
    p: Plan,
    path: MousePath,
    settings: Settings,
    col: u16,
    row: u16,
    mods: ModSet,
    delay: Nanos,
)
    ensures
        ({
            let q = timeline::planned(
                p,
                EventView::DoubleClick { col, row, mods, delay },
                path,
                settings,
            );
            let per = nanos::scaled(delay as nat, settings.playback_speed);
            let new = added(p, q);
            let left = Some(MouseButton::Left);
            &&& q.out == p.out + new
            &&& new.len() == 4
            &&& mouse_at(new[0], p.cursor, MouseAction::Press, left, (col, row), mods)
            &&& mouse_at(new[1], p.cursor + per, MouseAction::Release, left, (col, row), mods)
            &&& mouse_at(new[2], p.cursor + 2 * per, MouseAction::Press, left, (col, row), mods)
            &&& mouse_at(new[3], p.cursor + 3 * per, MouseAction::Release, left, (col, row), mods)
            &&& q.cursor == p.cursor + 4 * per
        }),
{
    let q = timeline::planned(p, EventView::DoubleClick { col, row, mods, delay }, path, settings);
    assert(q.out =~= p.out + added(p, q));
}

/// Scrolling turns the wheel on the cell, up or down as the script says: it is pressed
/// and, after the delay, released. The mouse stays where it is.
pub proof fn lemma_scroll_turns_wheel(
    p: Plan,
    path: MousePath,
    settings: Settings,
    col: u16,
    row: u16,
    up: bool,
    mods: ModSet,
    delay: Nanos,
)
    ensures
        ({
            let direction = if up {
                ScrollDirection::Up
            } else {
                ScrollDirection::Down
            };
            let button = if up {
                MouseButton::WheelUp
            } else {
                MouseButton::WheelDown
            };
            let per = nanos::scaled(delay as nat, settings.playback_speed);
            let q = timeline::planned(
                p,
                EventView::MouseScroll { col, row, direction, mods, delay },
                path,
                settings,
            );
            let new = added(p, q);
            &&& q.out == p.out + new
            &&& new.len() == 2
            &&& mouse_at(new[0], p.cursor, MouseAction::Press, Some(button), (col, row), mods)
            &&& mouse_at(
                new[1],
                p.cursor + per,
                MouseAction::Release,
                Some(button),
                (col, row),
                mods,
            )
            &&& q.cursor == p.cursor + per
            &&& q.segments == p.segments
        }),
{
    let direction = if up {
        ScrollDirection::Up
    } else {
        ScrollDirection::Down
    };
    let q = timeline::planned(
        p,
        EventView::MouseScroll { col, row, direction, mods, delay },
        path,
        settings,
    );
    assert(q.out =~= p.out + added(p, q));
}

/// What takes no time of its own (waiting for a text, screenshots, the clipboard, hiding
/// and showing, input of the mouse as such) is passed on as it is, when its turn comes.
pub proof fn lemma_passed_on(p: Plan, e: EventView, path: MousePath, settings: Settings)
    requires
        e is MouseInput || e is Wait || e is Screenshot || e is Copy || e is Paste || e is Hide
            || e is Show,
    ensures
        ({
            let q = timeline::planned(p, e, path, settings);
            &&& q.out == p.out.push(ScheduledView { at: p.cursor, event: e })
            &&& q.segments == p.segments
            &&& q.cursor == p.cursor
        }),
{
}

/// The cell that a place is in is the nearest one: its middle is at most half a cell
/// away.
pub proof fn lemma_cell_nearest(v: Measure)
    requires
        0 <= v <= 0xffff * ONE,
    ensures
        timeline::cell_of(v) * ONE - ONE / 2 <= v <= timeline::cell_of(v) * ONE + ONE / 2,
{
}

/// The cell that a point of a way is in.
pub open spec fn point_cell(points: Seq<(Measure, Measure)>, k: int) -> (u16, u16) {
    (timeline::cell_of(points[k].0), timeline::cell_of(points[k].1))
}

/// Whether the mouse comes to another cell with point `k` of a way.
pub open spec fn enters(points: Seq<(Measure, Measure)>, k: int) -> bool {
    point_cell(points, k) != point_cell(points, k - 1)
}

/// The number of points, behind the first and before point `j`, with which the mouse
/// comes to another cell.
pub open spec fn entered(points: Seq<(Measure, Measure)>, j: int) -> nat
    decreases j,
{
    if j <= 1 {
        0
    } else if enters(points, j - 1) {
        entered(points, j - 1) + 1
    } else {
        entered(points, j - 1)
    }
}

/// The motions of a way: one for each point with which the mouse comes to another cell,
/// to that cell, when it is there.
proof fn lemma_motions(
    points: Seq<(Measure, Measure)>,
    start: int,
    total: int,
    button: Option<MouseButton>,
    mods: ModSet,
    j: int,
)
    ensures
        ({
            let v = timeline::motions(points, start, total, button, mods, j);
            &&& v.len() == entered(points, j)
            &&& forall|k: int|
                1 <= k < j && #[trigger] enters(points, k) ==> entered(points, k) < v.len()
                    && mouse_at(
                    v[entered(points, k) as int],
                    start + total * k / (points.len() - 1),
                    MouseAction::Motion,
                    button,
                    point_cell(points, k),
                    mods,
                )
            &&& forall|i: int|
                0 <= i < v.len() ==> ((#[trigger] v[i]).event matches EventView::MouseInput {
                    action,
                    button: b,
                    col,
                    row,
                    pixel_coords,
                    mods: m,
                } && action == MouseAction::Motion && b == button && m == mods)
        }),
    decreases j,
{
    if j > 1 {
        lemma_motions(points, start, total, button, mods, j - 1);
        let before = timeline::motions(points, start, total, button, mods, j - 1);
        let v = timeline::motions(points, start, total, button, mods, j);
        assert(v.len() == entered(points, j));
        assert forall|k: int| 1 <= k < j && #[trigger] enters(points, k) implies entered(points, k)
            < v.len() && mouse_at(
            v[entered(points, k) as int],
            start + total * k / (points.len() - 1),
            MouseAction::Motion,
            button,
            point_cell(points, k),
            mods,
        ) by {
            if k < j - 1 {
                assert(v[entered(points, k) as int] == before[entered(points, k) as int]);
            }
        }
    }
}

/// Along a way, the mouse is sent to each cell that it comes to, in order and when it is
/// there, and to no other: between two motions it stays in a cell. What is sent between
/// the first and the last cell are motions only, with the button that is held.
pub open spec fn follows_way(
    v: Seq<ScheduledView>,
    points: Seq<(Measure, Measure)>,
    start: int,
    total: int,
    button: Option<MouseButton>,
    mods: ModSet,
) -> bool {
    &&& v.len() == entered(points, points.len() as int)
    &&& forall|k: int|
        1 <= k < points.len() && #[trigger] enters(points, k) ==> mouse_at(
            v[entered(points, k) as int],
            start + total * k / (points.len() - 1),
            MouseAction::Motion,
            button,
            point_cell(points, k),
            mods,
        )
}

/// Dragging presses the left button where the way starts, moves the mouse along the way
/// with the button held, and releases it where the way ends, the delay after it came
/// there. The way takes the delay, or, at typing speed, the delay for each cell of it.
pub proof fn lemma_drag_follows_way(
    p: Plan,
    path: MousePath,
    settings: Settings,
    coords: Seq<(u16, u16)>,
    mods: ModSet,
    delay: Nanos,
    easing: Option<MouseEasing>,
)
    requires
        path.points@.len() >= 2,
    ensures
        ({
            let points = path.points@;
            let n = points.len() as int;
            let q = timeline::planned(
                p,
                EventView::MouseDrag { coords, mods, delay, easing },
                path,
                settings,
            );
            let new = added(p, q);
            let left = Some(MouseButton::Left);
            let total = timeline::gesture_time(delay, settings, way::way_cells(coords));
            let per = nanos::scaled(delay as nat, settings.playback_speed);
            &&& q.out == p.out + new
            &&& new.len() >= 2
            &&& mouse_at(new[0], p.cursor, MouseAction::Press, left, point_cell(points, 0), mods)
            &&& follows_way(new.subrange(1, new.len() - 1), points, p.cursor, total, left, mods)
            &&& mouse_at(
                new.last(),
                p.cursor + total + per,
                MouseAction::Release,
                left,
                point_cell(points, n - 1),
                mods,
            )
            &&& q.cursor == new.last().at
            &&& delay != settings.typing_speed ==> total == per
            &&& delay == settings.typing_speed ==> total == per * way::way_cells(coords)
        }),
{
    let points = path.points@;
    let n = points.len() as int;
    let q = timeline::planned(
        p,
        EventView::MouseDrag { coords, mods, delay, easing },
        path,
        settings,
    );
    let new = added(p, q);
    let left = Some(MouseButton::Left);
    let total = timeline::gesture_time(delay, settings, way::way_cells(coords));
    lemma_motions(points, p.cursor, total, left, mods, n);
    let m = timeline::motions(points, p.cursor, total, left, mods, n);
    assert(q.out =~= p.out + new);
    assert(new.subrange(1, new.len() - 1) =~= m);
}

/// Moving sends the mouse to where the way starts and then along the way, with no button
/// held. The way takes the delay, or, at typing speed, the delay for each cell of it.
pub proof fn lemma_move_follows_way(
    p: Plan,
    path: MousePath,
    settings: Settings,
    coords: Seq<(u16, u16)>,
    mods: ModSet,
    delay: Nanos,
    easing: Option<MouseEasing>,
)
    requires
        path.points@.len() >= 2,
    ensures
        ({
            let points = path.points@;
            let q = timeline::planned(
                p,
                EventView::MouseMove { coords, mods, delay, easing },
                path,
                settings,
            );
            let new = added(p, q);
            let total = timeline::gesture_time(delay, settings, way::way_cells(coords));
            let per = nanos::scaled(delay as nat, settings.playback_speed);
            &&& q.out == p.out + new
            &&& new.len() >= 1
            &&& mouse_at(new[0], p.cursor, MouseAction::Motion, None, point_cell(points, 0), mods)
            &&& follows_way(new.skip(1), points, p.cursor, total, None, mods)
            &&& q.cursor == p.cursor + total
            &&& delay != settings.typing_speed ==> total == per
            &&& delay == settings.typing_speed ==> total == per * way::way_cells(coords)
        }),
{
    let points = path.points@;
    let n = points.len() as int;
    let q = timeline::planned(
        p,
        EventView::MouseMove { coords, mods, delay, easing },
        path,
        settings,
    );
    let new = added(p, q);
    let total = timeline::gesture_time(delay, settings, way::way_cells(coords));
    lemma_motions(points, p.cursor, total, None, mods, n);
    assert(q.out =~= p.out + new);
    assert(new.skip(1) =~= timeline::motions(points, p.cursor, total, None, mods, n));
}

/// The segment that is underway is underway, and none before it is; where none is
/// found, none is underway.
proof fn lemma_active(v: Seq<MouseSegment>, at: Nanos, i: int)
    requires
        0 <= i,
    ensures
        match mouse::active(v, at, i) {
            Some(k) => i <= k < v.len() && v[k].start_time <= at <= v[k].end_time && forall|m: int|
                i <= m < k ==> !((#[trigger] v[m]).start_time <= at <= v[m].end_time),
            None => forall|m: int|
                i <= m < v.len() ==> !((#[trigger] v[m]).start_time <= at <= v[m].end_time),
        },
    decreases v.len() - i,
{
    if i < v.len() && !(v[i].start_time <= at <= v[i].end_time) {
        lemma_active(v, at, i + 1);
    }
}

/// The segment that ended last has ended, no other that has ended did so later, and
/// of those that ended at the same time it is the last.
proof fn lemma_ended(v: Seq<MouseSegment>, at: Nanos, n: int)
    requires
        0 <= n <= v.len(),
    ensures
        match mouse::ended(v, at, n) {
            Some(k) => {
                &&& 0 <= k < n
                &&& v[k].end_time <= at
                &&& forall|m: int|
                    0 <= m < n && (#[trigger] v[m]).end_time <= at ==> v[m].end_time
                        <= v[k].end_time
                &&& forall|m: int|
                    k < m < n && (#[trigger] v[m]).end_time <= at ==> v[m].end_time
                        < v[k].end_time
            },
            None => forall|m: int| 0 <= m < n ==> at < (#[trigger] v[m]).end_time,
        },
    decreases n,
{
    if n > 0 {
        lemma_ended(v, at, n - 1);
    }
}

/// Whether no movement is underway at a given time.
pub open spec fn at_rest(v: Seq<MouseSegment>, at: Nanos) -> bool {
    forall|k: int|
        0 <= k < v.len() ==> at < (#[trigger] v[k]).start_time || v[k].end_time < at
}

/// Whether movement `i` has ended by a given time, and none that has ended by that time
/// ended later than it.
pub open spec fn ended_last(v: Seq<MouseSegment>, at: Nanos, i: int) -> bool {
    &&& 0 <= i < v.len()
    &&& v[i].end_time <= at
    &&& forall|k: int|
        0 <= k < v.len() && (#[trigger] v[k]).end_time <= at ==> v[k].end_time <= v[i].end_time
}

/// When no movement is underway and some have ended, the mouse rests at the end of one
/// that has ended, and none that has ended by that time ended later than it. It is shown
/// there for three seconds from that end on.
pub proof fn lemma_mouse_rests(v: Seq<MouseSegment>, at: Nanos, j: int)
    requires
        at_rest(v, at),
        0 <= j < v.len(),
        v[j].end_time <= at,
    ensures
        exists|i: int| #[trigger]
            ended_last(v, at, i) && mouse::resolved(v, at) == (if at - v[i].end_time <= 3_000_000_000 {
                Some((v[i].end_col, v[i].end_row, MouseState::Moving))
            } else {
                None
            }),
{
    lemma_active(v, at, 0);
    lemma_ended(v, at, v.len() as int);
    let i = mouse::ended(v, at, v.len() as int)->0;
    assert(ended_last(v, at, i));
    assert(mouse::active(v, at, 0) is None);
}

/// When no movement is underway and none has ended, the mouse waits where the first one
/// starts. It is shown there for the last three seconds before that.
pub proof fn lemma_mouse_waits(v: Seq<MouseSegment>, at: Nanos)
    requires
        at_rest(v, at),
        forall|k: int| 0 <= k < v.len() ==> at < (#[trigger] v[k]).end_time,
    ensures
        v.len() == 0 ==> mouse::resolved(v, at) is None,
        v.len() > 0 ==> mouse::resolved(v, at) == (if v[0].start_time - at <= 3_000_000_000 {
            Some((v[0].start_col, v[0].start_row, MouseState::Moving))
        } else {
            None
        }),
{
    lemma_active(v, at, 0);
    lemma_ended(v, at, v.len() as int);
}

/// During a movement the mouse is shown in the state of that movement: of the first
/// that is underway.
pub proof fn lemma_mouse_underway(v: Seq<MouseSegment>, at: Nanos, i: int)
    requires
        0 <= i < v.len() <= usize::MAX,
        v[i].start_time <= at <= v[i].end_time,
        forall|k: int|
            0 <= k < i ==> at < (#[trigger] v[k]).start_time || v[k].end_time < at,
    ensures
        mouse::resolved(v, at) matches Some(m) && m.2 == v[i].state,
        v[i].start_time == v[i].end_time ==> mouse::resolved(v, at) == Some(
            (v[i].end_col, v[i].end_row, v[i].state),
        ),
{
    lemma_active(v, at, 0);
}

/// A duration that is not nothing is more than no seconds.
proof fn lemma_seconds_positive(ns: nat)
    requires
        ns > 0,
    ensures
        mouse::seconds(ns) > 0,
        mouse::seconds(0) == 0,
{
    let (w, f) = (ns / nanos::SECOND as nat, ns % nanos::SECOND as nat);
    let u = mouse::SECOND_UNITS as nat;
    let a = single::single_ratio(w * u, 1);
    let n = single::single_ratio(f, 1);
    let b = single::single_ratio(n * u, nanos::SECOND as nat);
    if w > 0 {
        assert(w * u >= 1) by (nonlinear_arith)
            requires
                w >= 1,
                u >= 1,
        ;
        single::lemma_single_positive(w * u);
    } else {
        single::lemma_single_positive(f);
        let q = (n * u) / (nanos::SECOND as nat);
        assert(q >= 1) by (nonlinear_arith)
            requires
                n >= 1,
                u >= nanos::SECOND,
                nanos::SECOND > 0,
                q == (n * u) / (nanos::SECOND as nat),
        ;
        single::lemma_single_ratio_bounds(n * u, nanos::SECOND as nat);
    }
    single::lemma_single_positive(a + b);
    assert(0nat * u == 0);
    single::lemma_single_exact(0);
    lemma_nothing(nanos::SECOND as nat);
}

/// No part of anything is nothing.
proof fn lemma_nothing(x: nat)
    requires
        x > 0,
    ensures
        single::single_ratio(0, x) == 0,
{
    exact::lemma_ratio_cancels(0, x);
    assert(0 * x == 0);
    single::lemma_single_exact(0);
}

/// On a straight piece of a way, the mouse is where it starts when it starts and where it
/// ends when it ends.
proof fn lemma_ends_of_way(a: int, b: int)
    requires
        -0xffff <= a <= 0xffff,
        -0xffff <= b <= 0xffff,
    ensures
        mouse::between((a * ONE) as i128, (b * ONE) as i128, 0) == a * ONE,
        mouse::between((a * ONE) as i128, (b * ONE) as i128, ONE) == b * ONE,
{
    let (x, y) = (a * ONE, b * ONE);
    exact::lemma_wholes_exact(a);
    exact::lemma_wholes_exact(b);
    exact::lemma_wholes_exact(b - a);
    let d = y - x;
    assert(d == (b - a) * ONE) by (nonlinear_arith)
        requires
            d == b * ONE - a * ONE,
    ;
    assert(single::single(d) == d);
    assert(single::magnitude(0) * single::magnitude(d) == 0) by (nonlinear_arith)
        requires
            single::magnitude(0) == 0,
    ;
    lemma_nothing(ONE as nat);
    let m = single::magnitude(d);
    exact::lemma_ratio_cancels(m, ONE as nat);
    assert(single::magnitude(ONE as int) * m == m * (ONE as nat)) by (nonlinear_arith)
        requires
            single::magnitude(ONE as int) == ONE,
    ;
    assert(single::single_ratio(m, 1) == m);
    assert(mouse::product(0, d) == 0);
    assert(mouse::product(ONE as int, d) == d);
}

/// The mouse leaves the cell where a movement starts when it starts, and is at the cell
/// where it ends when it ends.
pub proof fn lemma_mouse_arrives(
    v: Seq<MouseSegment>,
    i: int,
    from: (u16, u16),
    to: (u16, u16),
    at: Nanos,
)
    requires
        0 <= i < v.len() <= usize::MAX,
        v[i].start_time < v[i].end_time,
        v[i].start_time <= at <= v[i].end_time,
        forall|k: int|
            0 <= k < i ==> at < (#[trigger] v[k]).start_time || v[k].end_time < at,
        v[i].start_col == from.0 * ONE,
        v[i].start_row == from.1 * ONE,
        v[i].end_col == to.0 * ONE,
        v[i].end_row == to.1 * ONE,
    ensures
        at == v[i].start_time ==> mouse::resolved(v, at) == Some(
            (v[i].start_col, v[i].start_row, v[i].state),
        ),
        at == v[i].end_time ==> mouse::resolved(v, at) == Some(
            (v[i].end_col, v[i].end_row, v[i].state),
        ),
{
    lemma_active(v, at, 0);
    let d = (v[i].end_time - v[i].start_time) as nat;
    lemma_seconds_positive(d);
    let x = mouse::seconds(d);
    lemma_nothing(x);
    assert(0 * (ONE as nat) == 0);
    assert(mouse::fraction(0, d) == 0);
    exact::lemma_ratio_cancels(ONE as nat, x);
    single::lemma_whole_exact(1);
    assert(x * (ONE as nat) == (ONE as nat) * x) by (nonlinear_arith);
    assert(single::single_ratio(ONE as nat, 1) == ONE) by {
        assert(1u32 * ONE == ONE);
    }
    assert(mouse::fraction(d, d) == ONE);
    lemma_ends_of_way(from.0 as int, to.0 as int);
    lemma_ends_of_way(from.1 as int, to.1 as int);
}

} // verus!
