//! A run in progress: which event or frame is due, what an event does, and when
//! the run is over.
use vstd::prelude::*;
use vstd::string::*;

use crate::nanos::{Nanos, LONGEST, MILLI};
use crate::runner::screen;
use crate::runner::screen::is_wait_pattern;
use crate::runner::stats::RunStats;
use crate::script::{
    Event, EventView, KeyAction, KeySpec, ModSet, MouseAction, MouseButton, NamedKey, WaitScope,
};
use crate::single;
use crate::single::{from_whole, round_single, Measure, ONE};
use crate::text;
use crate::viewport::ViewportConfig;

verus! {

/// How many frames more than the timeline are recorded, so that the last state is
/// always captured.
pub const TAIL_FRAMES: u128 = 4;

/// The longest time to sleep at once in milliseconds.
pub const LONGEST_SLEEP_MS: u128 = 1000;

/// A wait in progress. All later events are held back until its pattern is on the
/// screen or its time is up.
#[derive(Debug, Clone)]
pub struct WaitState {
    pub scope: WaitScope,
    pub pattern: String,
    pub deadline: Nanos,
    pub started_at: Nanos,
}

pub struct WaitView {
    pub scope: WaitScope,
    pub pattern: Seq<char>,
    pub deadline: Nanos,
    pub started_at: Nanos,
}

impl View for WaitState {
    type V = WaitView;

    open spec fn view(&self) -> WaitView {
        WaitView {
            scope: self.scope,
            pattern: self.pattern@,
            deadline: self.deadline,
            started_at: self.started_at,
        }
    }
}

/// The state of a run.
#[derive(Debug, Clone)]
pub struct Session {
    pub event_idx: usize,
    pub next_frame_at: Nanos,
    pub frame_interval: Nanos,
    /// How long the run lasts; a wait makes it longer.
    pub total_duration: Nanos,
    pub hidden: bool,
    pub hidden_started_at: Option<Nanos>,
    /// Time that is left out of the recording.
    pub skipped_recording_time: Nanos,
    pub wait: Option<WaitState>,
    pub clipboard: String,
    pub pending_screenshots: Vec<String>,
    pub expected_frames: u64,
    pub captured_frames: u64,
    pub max_queue_len: usize,
    pub dropped_frames: u64,
}

pub struct SessionView {
    pub event_idx: int,
    pub next_frame_at: int,
    pub frame_interval: int,
    pub total_duration: int,
    pub hidden: bool,
    pub hidden_started_at: Option<Nanos>,
    pub skipped: int,
    pub wait: Option<WaitView>,
    pub clipboard: Seq<char>,
    pub shots: Seq<Seq<char>>,
    pub expected: int,
    pub captured: int,
    pub max_queue: int,
    pub dropped: int,
}

pub open spec fn wait_view(w: Option<WaitState>) -> Option<WaitView> {
    match w {
        Some(x) => Some(x@),
        None => None,
    }
}

impl View for Session {
    type V = SessionView;

    open spec fn view(&self) -> SessionView {
        SessionView {
            event_idx: self.event_idx as int,
            next_frame_at: self.next_frame_at as int,
            frame_interval: self.frame_interval as int,
            total_duration: self.total_duration as int,
            hidden: self.hidden,
            hidden_started_at: self.hidden_started_at,
            skipped: self.skipped_recording_time as int,
            wait: wait_view(self.wait),
            clipboard: self.clipboard@,
            shots: text::texts(self.pending_screenshots@),
            expected: self.expected_frames as int,
            captured: self.captured_frames as int,
            max_queue: self.max_queue_len as int,
            dropped: self.dropped_frames as int,
        }
    }
}

/// The state before anything happened.
pub open spec fn fresh(timeline_end: Nanos, interval: Nanos) -> SessionView {
    SessionView {
        event_idx: 0,
        next_frame_at: 0,
        frame_interval: interval as int,
        total_duration: timeline_end + TAIL_FRAMES * interval,
        hidden: false,
        hidden_started_at: None,
        skipped: 0,
        wait: None,
        clipboard: Seq::empty(),
        shots: Seq::empty(),
        expected: 0,
        captured: 0,
        max_queue: 0,
        dropped: 0,
    }
}

/// What is to be done next.
#[derive(Debug, Clone, Copy, PartialEq, Eq, Structural)]
pub enum Step {
    /// Dispatch the next event.
    Dispatch,
    /// Take the next frame.
    Frame,
    /// Nothing is due.
    Rest,
}

/// Whether the next event, scheduled for `at`, is due. During a wait none is.
pub open spec fn event_due(s: SessionView, at: Option<Nanos>, now: Nanos) -> bool {
    &&& s.wait is None
    &&& at matches Some(t) && t <= now
}

/// Whether the next frame is due: within the duration of the run, or during a
/// wait.
pub open spec fn frame_due(s: SessionView, now: Nanos) -> bool {
    s.next_frame_at <= now && (s.next_frame_at <= s.total_duration || s.wait is Some)
}

/// What is to be done next: events and frames in the order of their times, an event
/// before a frame of the same time.
pub open spec fn next(s: SessionView, at: Option<Nanos>, now: Nanos) -> Step {
    if event_due(s, at, now) && (!frame_due(s, now) || at->0 <= s.next_frame_at) {
        Step::Dispatch
    } else if frame_due(s, now) {
        Step::Frame
    } else {
        Step::Rest
    }
}

/// Nothing is done ahead of something that is due earlier.
pub proof fn lemma_in_order(s: SessionView, at: Option<Nanos>, now: Nanos)
    ensures
        next(s, at, now) == Step::Dispatch ==> event_due(s, at, now) && (frame_due(s, now) ==> at->0
            <= s.next_frame_at),
        next(s, at, now) == Step::Frame ==> frame_due(s, now) && (event_due(s, at, now)
            ==> s.next_frame_at < at->0),
        next(s, at, now) == Step::Rest <==> !event_due(s, at, now) && !frame_due(s, now),
{
}

/// What the screen and the time make of a wait: once its pattern is there or its
/// time is up, the run goes on, longer by as much as the wait took.
pub open spec fn wait_resolved(s: SessionView, now: Nanos, matched: bool) -> SessionView {
    match s.wait {
        Some(w) => if matched || now >= w.deadline {
            SessionView {
                wait: None,
                total_duration: s.total_duration + (if now > w.started_at {
                    now - w.started_at
                } else {
                    0
                }),
                ..s
            }
        } else {
            s
        },
        None => s,
    }
}

/// A wait holds every event back until its pattern is there or its time is up, and
/// what was left of the run when it began is still left when it is over.
pub proof fn lemma_wait_holds(
    s: SessionView,
    w: WaitView,
    at: Option<Nanos>,
    now: Nanos,
    matched: bool,
)
    requires
        s.wait == Some(w),
        w.started_at <= now,
    ensures
        next(s, at, now) != Step::Dispatch,
        wait_resolved(s, now, matched).wait is None <==> matched || now >= w.deadline,
        wait_resolved(s, now, matched).wait is None ==> wait_resolved(
            s,
            now,
            matched,
        ).total_duration - now == s.total_duration - w.started_at,
        wait_resolved(s, now, matched).wait is Some ==> wait_resolved(s, now, matched) == s,
{
}

/// What the program is sent.
#[derive(Debug, Clone)]
pub enum Action {
    /// Nothing.
    Rest,
    /// Text as it is.
    Write(String),
    /// A key, as the terminal encodes it.
    SendKey { key: KeySpec, action: KeyAction },
    /// A report of the mouse, as the terminal encodes it.
    Mouse(MouseReport),
}

pub enum ActionView {
    Rest,
    Write(Seq<char>),
    SendKey { key: KeySpec, action: KeyAction },
    Mouse(MouseReport),
}

impl View for Action {
    type V = ActionView;

    open spec fn view(&self) -> ActionView {
        match *self {
            Action::Rest => ActionView::Rest,
            Action::Write(t) => ActionView::Write(t@),
            Action::SendKey { key, action } => ActionView::SendKey { key, action },
            Action::Mouse(m) => ActionView::Mouse(m),
        }
    }
}

/// Where the mouse is and what it does, in pixels of the grid.
#[derive(Debug, Clone, Copy)]
pub struct MouseReport {
    pub x: Measure,
    pub y: Measure,
    pub any_pressed: bool,
    pub action: MouseAction,
    pub button: Option<MouseButton>,
    pub mods: ModSet,
    pub screen_width: u32,
    pub screen_height: u32,
    pub cell_width: u32,
    pub cell_height: u32,
}

/// The middle of a cell in pixels.
pub open spec fn cell_middle(n: u16, side: u32) -> int {
    single::single(single::single(n * single::whole(side)) + single::whole(side) / 2)
}

/// The report of a movement or a button.
pub open spec fn mouse_report(
    action: MouseAction,
    button: Option<MouseButton>,
    col: u16,
    row: u16,
    pixels: Option<(u32, u32)>,
    mods: ModSet,
    grid: ViewportConfig,
) -> MouseReport {
    MouseReport {
        x: match pixels {
            Some((x, _)) => single::whole(x) as i128,
            None => cell_middle(col, grid.cell_width_px) as i128,
        },
        y: match pixels {
            Some((_, y)) => single::whole(y) as i128,
            None => cell_middle(row, grid.cell_height_px) as i128,
        },
        any_pressed: match action {
            MouseAction::Press => true,
            MouseAction::Release => false,
            MouseAction::Motion => button is Some,
        },
        action,
        button,
        mods,
        screen_width: (grid.cols * grid.cell_width_px) as u32,
        screen_height: (grid.rows * grid.cell_height_px) as u32,
        cell_width: grid.cell_width_px,
        cell_height: grid.cell_height_px,
    }
}

/// What an event does to the run. A wait whose pattern is no regular expression
/// does nothing.
pub open spec fn after_event(s: SessionView, e: EventView, now: Nanos) -> SessionView {
    match e {
        EventView::Wait { scope, timeout, pattern } => if screen::is_regex(pattern) {
            SessionView {
                wait: Some(
                    WaitView {
                        scope,
                        pattern,
                        deadline: (now + timeout) as u128,
                        started_at: now,
                    },
                ),
                ..s
            }
        } else {
            s
        },
        EventView::Screenshot(path) => SessionView { shots: s.shots.push(path), ..s },
        EventView::Copy(t) => SessionView { clipboard: t, ..s },
        EventView::Hide => SessionView { hidden: true, ..s },
        EventView::Show => SessionView { hidden: false, ..s },
        _ => s,
    }
}

/// What an event sends to the program.
pub open spec fn sent(s: SessionView, e: EventView, grid: ViewportConfig) -> ActionView {
    match e {
        EventView::Type { text, delay } => ActionView::Write(text),
        EventView::Key { key, action, count, delay } => ActionView::SendKey { key, action },
        EventView::Paste => ActionView::Write(s.clipboard),
        EventView::MouseInput { action, button, col, row, pixel_coords, mods } =>
            ActionView::Mouse(mouse_report(action, button, col, row, pixel_coords, mods, grid)),
        _ => ActionView::Rest,
    }
}

/// What is said of a wait whose pattern is no regular expression.
pub open spec fn bad_pattern(pattern: Seq<char>) -> Seq<char> {
    "invalid Wait regex `"@ + pattern + "`"@
}

/// The event counted, and the time for which the terminal is hidden kept.
pub open spec fn dispatched(s: SessionView, was_hidden: bool, now: Nanos) -> SessionView {
    let t = SessionView { event_idx: s.event_idx + 1, ..s };
    if !was_hidden && s.hidden {
        SessionView { hidden_started_at: Some(now), ..t }
    } else if was_hidden && !s.hidden {
        SessionView {
            hidden_started_at: None,
            skipped: s.skipped + (match s.hidden_started_at {
                Some(h) => if now > h {
                    now - h
                } else {
                    0
                },
                None => 0,
            }),
            ..t
        }
    } else {
        t
    }
}

/// When the next frame is recorded as taken, if it is taken at all: not while the
/// terminal is hidden, unless for a screenshot. Hidden time does not count.
pub open spec fn recorded_time(s: SessionView) -> Option<int> {
    if s.hidden && s.shots.len() == 0 {
        None
    } else {
        Some(
            if s.next_frame_at > s.skipped {
                s.next_frame_at - s.skipped
            } else {
                0
            },
        )
    }
}

/// How a consumer took a frame.
#[derive(Debug, Clone, Copy)]
pub struct Delivery {
    /// Length of its queue before.
    pub queue_len: usize,
    /// Whether the queue was full, so that the frame was dropped.
    pub full: bool,
}

/// The longest queue among the first `n` deliveries and what was seen before.
pub open spec fn longest_queue(d: Seq<Delivery>, before: int, n: int) -> int
    decreases n,
{
    if n <= 0 {
        before
    } else {
        let m = longest_queue(d, before, n - 1);
        if d[n - 1].queue_len > m {
            d[n - 1].queue_len as int
        } else {
            m
        }
    }
}

/// How many of the first `n` deliveries were dropped.
pub open spec fn dropped_count(d: Seq<Delivery>, n: int) -> int
    decreases n,
{
    if n <= 0 {
        0
    } else {
        dropped_count(d, n - 1) + (if d[n - 1].full {
            1int
        } else {
            0
        })
    }
}

/// The state after a frame: the next one is an interval later, the screenshots are
/// taken, and a frame that is not hidden is counted.
pub open spec fn after_frame(s: SessionView, d: Seq<Delivery>) -> SessionView {
    let t = SessionView {
        next_frame_at: s.next_frame_at + s.frame_interval,
        shots: Seq::empty(),
        ..s
    };
    if s.hidden {
        t
    } else {
        SessionView {
            expected: s.expected + 1,
            captured: s.captured + 1,
            max_queue: longest_queue(d, s.max_queue, d.len() as int),
            dropped: s.dropped + dropped_count(d, d.len() as int),
            ..t
        }
    }
}

/// Whether the run is over: all events are dispatched, no wait is left, and the
/// last frame is taken.
pub open spec fn over(s: SessionView, events: int) -> bool {
    s.event_idx >= events && s.wait is None && s.next_frame_at > s.total_duration
}

/// When something may have to be done next.
pub open spec fn deadline(s: SessionView, at: Option<Nanos>, now: Nanos) -> int {
    let a = s.next_frame_at;
    let b = match s.wait {
        Some(w) => if w.deadline < a {
            w.deadline as int
        } else {
            a
        },
        None => {
            let c = if s.total_duration + MILLI < a {
                s.total_duration + MILLI
            } else {
                a
            };
            match at {
                Some(t) => if t < c {
                    t as int
                } else {
                    c
                },
                None => c,
            }
        },
    };
    if b > now {
        b
    } else {
        now as int
    }
}

/// Nothing is slept through: what is not due now is not due before the deadline
/// either.
pub proof fn lemma_deadline_in_time(s: SessionView, at: Option<Nanos>, now: Nanos, t: Nanos)
    requires
        next(s, at, now) == Step::Rest,
        now <= t < deadline(s, at, now),
    ensures
        next(s, at, t) == Step::Rest,
        s.wait matches Some(w) ==> t < w.deadline || now >= w.deadline,
{
}

/// Every captured frame was expected, and every expected one captured.
pub proof fn lemma_frames_captured(s: SessionView, d: Seq<Delivery>)
    requires
        s.expected == s.captured,
    ensures
        after_frame(s, d).expected == after_frame(s, d).captured,
{
}

/// Time for which the terminal is hidden is cut out of the recording: a frame
/// after a show is recorded as much earlier as the terminal was hidden.
pub proof fn lemma_hidden_time_cut(s: SessionView, hide: Nanos, show: Nanos)
    requires
        !s.hidden,
        hide <= show,
        s.next_frame_at >= s.skipped + (show - hide),
    ensures
        ({
            let a = dispatched(after_event(s, EventView::Hide, hide), false, hide);
            let b = dispatched(after_event(a, EventView::Show, show), true, show);
            recorded_time(b) == Some(recorded_time(s)->0 - (show - hide))
        }),
{
}

impl Session {
    /// A run before anything happened.
    pub fn new(timeline_end: Nanos, frame_interval: Nanos) -> (r: Session)
        requires
            timeline_end + TAIL_FRAMES * frame_interval <= LONGEST,
        ensures
            r@ == fresh(timeline_end, frame_interval),
    {
        let r: Session = Session {
            event_idx: 0,
            next_frame_at: 0,
            frame_interval,
            total_duration: timeline_end + TAIL_FRAMES * frame_interval,
            hidden: false,
            hidden_started_at: None,
            skipped_recording_time: 0,
            wait: None,
            clipboard: String::new(),
            pending_screenshots: Vec::new(),
            expected_frames: 0,
            captured_frames: 0,
            max_queue_len: 0,
            dropped_frames: 0,
        };
        assert(r@.shots =~= Seq::empty());
        r
    }

    /// What is to be done next; `at` is when the next event is scheduled.
    pub fn next_step(&self, at: Option<Nanos>, now: Nanos) -> (r: Step)
        ensures
            r == next(self@, at, now),
    {
        let frame: bool = self.next_frame_at <= now && (self.next_frame_at <= self.total_duration
            || self.wait.is_some());
        match at {
            Some(t) => {
                if self.wait.is_none() && t <= now && (!frame || t <= self.next_frame_at) {
                    return Step::Dispatch;
                }
            },
            None => {},
        }
        if frame {
            Step::Frame
        } else {
            Step::Rest
        }
    }

    /// Let a wait end, if its pattern is on the screen or its time is up.
    pub fn resolve_wait(&mut self, now: Nanos, matched: bool)
        requires
            now <= LONGEST,
            old(self).total_duration <= LONGEST,
        ensures
            final(self)@ == wait_resolved(old(self)@, now, matched),
    {
        let (over, longer) = match &self.wait {
            Some(w) => (
                matched || now >= w.deadline,
                if now > w.started_at {
                    now - w.started_at
                } else {
                    0
                },
            ),
            None => (false, 0),
        };
        if over {
            self.total_duration = self.total_duration + longer;
            self.wait = None;
        }
    }

    /// Carry an event out: change the state of the run, and say what the program is
    /// sent.
    pub fn execute_event(&mut self, event: &Event, now: Nanos, grid: &ViewportConfig) -> (r: Result<
        Action,
        String,
    >)
        requires
            now <= LONGEST,
            event@ matches EventView::Wait { scope, timeout, pattern } ==> now + timeout <= LONGEST,
            grid.cols * grid.cell_width_px <= u32::MAX,
            grid.rows * grid.cell_height_px <= u32::MAX,
        ensures
            final(self)@ == after_event(old(self)@, event@, now),
            match r {
                Ok(a) => a@ == sent(old(self)@, event@, *grid) && !(event@ matches EventView::Wait {
                    scope,
                    timeout,
                    pattern,
                } && !screen::is_regex(pattern)),
                Err(m) => event@ matches EventView::Wait { scope, timeout, pattern }
                    && !screen::is_regex(pattern) && m@ == bad_pattern(pattern),
            },
    {
        match event {
            Event::Type { text, delay } => Ok(Action::Write(text.clone())),
            Event::Key { key, action, count, delay } => Ok(
                Action::SendKey { key: *key, action: *action },
            ),
            Event::Wait { scope, timeout, pattern } => {
                if !is_wait_pattern(pattern.as_str()) {
                    let mut m: String = "invalid Wait regex `".to_string();
                    m.append(pattern.as_str());
                    m.append("`");
                    return Err(m);
                }
                self.wait = Some(
                    WaitState {
                        scope: *scope,
                        pattern: pattern.clone(),
                        deadline: now + *timeout,
                        started_at: now,
                    },
                );
                Ok(Action::Rest)
            },
            Event::Screenshot(path) => {
                self.pending_screenshots.push(path.clone());
                assert(self@.shots =~= old(self)@.shots.push(path@));
                Ok(Action::Rest)
            },
            Event::Copy(text) => {
                self.clipboard = text.clone();
                Ok(Action::Rest)
            },
            Event::Paste => Ok(Action::Write(self.clipboard.clone())),
            Event::Hide => {
                self.hidden = true;
                Ok(Action::Rest)
            },
            Event::Show => {
                self.hidden = false;
                Ok(Action::Rest)
            },
            Event::MouseInput { action, button, col, row, pixel_coords, mods } => {
                let m: MouseReport = report(
                    *action,
                    *button,
                    *col,
                    *row,
                    *pixel_coords,
                    *mods,
                    grid,
                );
                Ok(Action::Mouse(m))
            },
            Event::Sleep(_) => Ok(Action::Rest),
            Event::Click { .. } => Ok(Action::Rest),
            Event::RightClick { .. } => Ok(Action::Rest),
            Event::DoubleClick { .. } => Ok(Action::Rest),
            Event::MouseScroll { .. } => Ok(Action::Rest),
            Event::MouseDrag { .. } => Ok(Action::Rest),
            Event::MouseMove { .. } => Ok(Action::Rest),
        }
    }

    /// Count an event that was carried out at `now`.
    pub fn note_event(&mut self, was_hidden: bool, now: Nanos)
        requires
            old(self).event_idx < usize::MAX,
            old(self).skipped_recording_time <= LONGEST,
            now <= LONGEST,
        ensures
            final(self)@ == dispatched(old(self)@, was_hidden, now),
    {
        self.event_idx = self.event_idx + 1;
        if !was_hidden && self.hidden {
            self.hidden_started_at = Some(now);
        } else if was_hidden && !self.hidden {
            match self.hidden_started_at {
                Some(h) => {
                    if now > h {
                        self.skipped_recording_time = self.skipped_recording_time + (now - h);
                    }
                },
                None => {},
            }
            self.hidden_started_at = None;
        }
    }

    /// When the next frame is recorded as taken, if it is taken at all.
    pub fn recorded_at(&self) -> (r: Option<Nanos>)
        ensures
            match r {
                Some(t) => recorded_time(self@) == Some(t as int),
                None => recorded_time(self@) is None,
            },
    {
        assert(self@.shots.len() == self.pending_screenshots@.len());
        if self.hidden && self.pending_screenshots.len() == 0 {
            return None;
        }
        if self.next_frame_at > self.skipped_recording_time {
            Some(self.next_frame_at - self.skipped_recording_time)
        } else {
            Some(0)
        }
    }

    /// Go on to the next frame, and hand out the screenshots that this one was
    /// taken for.
    pub fn finish_frame(&mut self, deliveries: &Vec<Delivery>) -> (r: Vec<String>)
        requires
            old(self).next_frame_at <= LONGEST,
            old(self).frame_interval <= LONGEST,
            old(self).expected_frames < u64::MAX,
            old(self).captured_frames < u64::MAX,
            old(self).dropped_frames + deliveries@.len() <= u64::MAX,
        ensures
            final(self)@ == after_frame(old(self)@, deliveries@),
            text::texts(r@) == old(self)@.shots,
    {
        let ghost s = self@;
        let mut shots: Vec<String> = Vec::new();
        std::mem::swap(&mut shots, &mut self.pending_screenshots);
        self.next_frame_at = self.next_frame_at + self.frame_interval;
        if !self.hidden {
            self.expected_frames = self.expected_frames + 1;
            self.captured_frames = self.captured_frames + 1;
            let first: usize = self.max_queue_len;
            let before: u64 = self.dropped_frames;
            let mut most: usize = first;
            let mut lost: u64 = 0;
            let mut i: usize = 0;
            while i < deliveries.len()
                invariant
                    i <= deliveries@.len(),
                    most == longest_queue(deliveries@, first as int, i as int),
                    lost == dropped_count(deliveries@, i as int),
                    lost <= i,
                    before + deliveries@.len() <= u64::MAX,
                decreases deliveries@.len() - i,
            {
                if deliveries[i].queue_len > most {
                    most = deliveries[i].queue_len;
                }
                if deliveries[i].full {
                    lost = lost + 1;
                }
                i = i + 1;
            }
            self.max_queue_len = most;
            self.dropped_frames = before + lost;
        }
        assert(self@.shots =~= Seq::empty());
        shots
    }

    /// Whether the run is over.
    pub fn is_over(&self, events: usize) -> (r: bool)
        ensures
            r == over(self@, events as int),
    {
        self.event_idx >= events && self.wait.is_none() && self.next_frame_at
            > self.total_duration
    }

    /// When something may have to be done next.
    pub fn next_deadline(&self, at: Option<Nanos>, now: Nanos) -> (r: Nanos)
        requires
            self.total_duration <= LONGEST,
        ensures
            r == deadline(self@, at, now),
            r >= now,
    {
        let mut d: Nanos = self.next_frame_at;
        match &self.wait {
            Some(w) => {
                if w.deadline < d {
                    d = w.deadline;
                }
            },
            None => {
                if self.total_duration + MILLI < d {
                    d = self.total_duration + MILLI;
                }
                match at {
                    Some(t) => {
                        if t < d {
                            d = t;
                        }
                    },
                    None => {},
                }
            },
        }
        if d > now {
            d
        } else {
            now
        }
    }

    /// The counters of the run.
    pub fn stats(&self, consumers: usize) -> (r: RunStats)
        ensures
            r == (RunStats {
                expected_frames: self.expected_frames,
                captured_frames: self.captured_frames,
                raw_frame_consumer_count: consumers,
                max_raw_frame_consumer_queue_len: self.max_queue_len,
                raw_frame_consumer_dropped_frames: self.dropped_frames,
            }),
    {
        RunStats {
            expected_frames: self.expected_frames,
            captured_frames: self.captured_frames,
            raw_frame_consumer_count: consumers,
            max_raw_frame_consumer_queue_len: self.max_queue_len,
            raw_frame_consumer_dropped_frames: self.dropped_frames,
        }
    }
}

/// Milliseconds to sleep until a deadline, at most a second.
pub fn sleep_ms(deadline: Nanos, now: Nanos) -> (r: u16)
    ensures
        r == (if deadline > now {
            if (deadline - now) / (MILLI as int) <= LONGEST_SLEEP_MS {
                (deadline - now) / (MILLI as int)
            } else {
                LONGEST_SLEEP_MS as int
            }
        } else {
            0
        }),
{
    if deadline > now {
        let ms: u128 = (deadline - now) / MILLI;
        if ms <= LONGEST_SLEEP_MS {
            ms as u16
        } else {
            LONGEST_SLEEP_MS as u16
        }
    } else {
        0
    }
}

/// Whether so many hundredths of the expected time have passed.
pub open spec fn passed(now: int, expected: int, hundredths: int) -> bool {
    expected > 0 && 100 * now >= hundredths * expected
}

/// The first tenth, counted in hundredths from `next` on, that has not passed; 110 if
/// all have.
pub open spec fn tenth_ahead(now: int, expected: int, next: int) -> int
    decreases 110 - next,
{
    if next <= 100 && passed(now, expected, next) {
        tenth_ahead(now, expected, next + 10)
    } else {
        next
    }
}

fn has_passed(now: Nanos, expected: Nanos, hundredths: u32) -> (r: bool)
    requires
        now <= LONGEST,
        expected <= LONGEST,
        hundredths <= 100,
    ensures
        r == passed(now as int, expected as int, hundredths as int),
{
    assert(0 <= hundredths * expected <= 100 * LONGEST) by (nonlinear_arith)
        requires
            hundredths <= 100,
            expected <= LONGEST,
    ;
    expected > 0 && 100 * now >= hundredths as u128 * expected
}

/// The tenths of the expected time from `next` on that have passed are due to be told.
/// Returns the first one that is not.
pub fn tenths_due(now: Nanos, expected: Nanos, next: u32) -> (r: u32)
    requires
        now <= LONGEST,
        expected <= LONGEST,
        next <= 110,
    ensures
        r == tenth_ahead(now as int, expected as int, next as int),
        next <= r <= 110,
{
    let mut r: u32 = next;
    while r <= 100 && has_passed(now, expected, r)
        invariant
            now <= LONGEST,
            expected <= LONGEST,
            next <= r <= 110,
            tenth_ahead(now as int, expected as int, next as int) == tenth_ahead(
                now as int,
                expected as int,
                r as int,
            ),
        decreases 110 - r,
    {
        r = r + 10;
    }
    r
}

/// Every tenth is told once: those that are due at `a`, and those that are due at `b`
/// from there on, are together those that are due at `b` without a look at `a`. They are
/// the ones that have passed.
pub proof fn lemma_tenths_told_once(a: int, b: int, expected: int, next: int, t: int)
    requires
        0 <= a <= b,
        0 <= next <= 110,
        next % 10 == 0,
        next <= t <= 100,
        t % 10 == 0,
    ensures
        ({
            let r = tenth_ahead(a, expected, next);
            &&& next <= r <= 110
            &&& t < r <==> passed(a, expected, t)
            &&& tenth_ahead(b, expected, r) == tenth_ahead(b, expected, next)
        }),
    decreases 110 - next,
{
    if passed(a, expected, next) {
        assert(passed(b, expected, next));
        if next < t {
            lemma_tenths_told_once(a, b, expected, next + 10, t);
        } else if next < 100 {
            lemma_tenths_told_once(a, b, expected, next + 10, 100);
        } else {
            assert(tenth_ahead(a, expected, 110) == 110);
            assert(tenth_ahead(b, expected, 110) == 110);
        }
    } else {
        assert(!passed(a, expected, t)) by (nonlinear_arith)
            requires
                !(expected > 0 && 100 * a >= next * expected),
                next <= t,
        ;
    }
}

fn middle(n: u16, side: u32) -> (r: Measure)
    ensures
        r == cell_middle(n, side),
{
    let w: Measure = from_whole(side);
    assert(0 <= n * w <= 0xffff * 0x2_0000_0000 * ONE) by (nonlinear_arith)
        requires
            0 <= n <= 0xffff,
            0 <= w <= 0x2_0000_0000 * ONE,
    ;
    let a: Measure = round_single(n as i128 * w);
    round_single(a + w / 2)
}

fn report(
    action: MouseAction,
    button: Option<MouseButton>,
    col: u16,
    row: u16,
    pixels: Option<(u32, u32)>,
    mods: ModSet,
    grid: &ViewportConfig,
) -> (r: MouseReport)
    requires
        grid.cols * grid.cell_width_px <= u32::MAX,
        grid.rows * grid.cell_height_px <= u32::MAX,
    ensures
        r == mouse_report(action, button, col, row, pixels, mods, *grid),
{
    let (x, y) = match pixels {
        Some((px, py)) => (from_whole(px), from_whole(py)),
        None => (middle(col, grid.cell_width_px), middle(row, grid.cell_height_px)),
    };
    MouseReport {
        x,
        y,
        any_pressed: match action {
            MouseAction::Press => true,
            MouseAction::Release => false,
            MouseAction::Motion => button.is_some(),
        },
        action,
        button,
        mods,
        screen_width: grid.cols as u32 * grid.cell_width_px,
        screen_height: grid.rows as u32 * grid.cell_height_px,
        cell_width: grid.cell_width_px,
        cell_height: grid.cell_height_px,
    }
}

/// What is sent for a key: what the terminal encodes it as; a space for the space
/// key if that is nothing.
pub fn key_bytes(encoded: Vec<u8>, key: NamedKey) -> (r: Vec<u8>)
    ensures
        r@ == (if encoded@.len() > 0 {
            encoded@
        } else if key == NamedKey::Space {
            seq![0x20u8]
        } else {
            Seq::empty()
        }),
{
    if encoded.len() > 0 {
        return encoded;
    }
    let mut out: Vec<u8> = Vec::new();
    if key == NamedKey::Space {
        out.push(0x20);
    }
    assert(out@ =~= (if key == NamedKey::Space {
        seq![0x20u8]
    } else {
        Seq::empty()
    }));
    out
}

} // verus!
