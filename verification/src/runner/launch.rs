//! All that is settled before a run starts.
use vstd::prelude::*;
use vstd::string::*;

use crate::nanos;
use crate::nanos::{frame_interval, Nanos, LONGEST};
use crate::runner::options;
use crate::runner::options::{derive_options, pty_size, CellMetrics, PtySize};
use crate::runner::require;
use crate::runner::require::enforce_require;
use crate::runner::session;
use crate::runner::session::{Session, TAIL_FRAMES};
use crate::runner::theme;
use crate::runner::theme::apply_theme;
use crate::runner::timeline;
use crate::runner::timeline::{build_timeline, MousePath, MouseSegment, Scheduled};
use crate::script::Script;
use crate::text;
use crate::viewport::ViewportConfig;

verus! {

/// A renderer that frames are streamed to.
#[derive(Debug, Clone, Copy, PartialEq, Eq, Structural)]
pub enum RendererBackend {
    Gif,
    Svg,
    Json,
}

/// Who gets the frames of a run.
#[derive(Debug, Clone, Copy, PartialEq, Eq, Structural)]
pub enum Consumer {
    /// Keeps them all, with a whole frame at every interval.
    FullRecording { keyframe_interval: u32 },
    Renderer(RendererBackend),
}

/// What was found out about the machine and the font.
#[derive(Debug, Clone)]
pub struct RunFacts {
    /// Which of the required programs are there.
    pub found: Vec<bool>,
    pub metrics: CellMetrics,
    /// The ways of the mouse, one for each event.
    pub paths: Vec<MousePath>,
}

/// A run ready to start.
#[derive(Debug, Clone)]
pub struct RunPlan {
    pub viewport: ViewportConfig,
    pub pty: PtySize,
    /// What the terminal is told first.
    pub theme: Vec<String>,
    pub timeline: Vec<Scheduled>,
    pub mouse_segments: Vec<MouseSegment>,
    pub session: Session,
    /// How long the run takes if no wait takes any time.
    pub expected: Nanos,
    pub consumers: Vec<Consumer>,
}

/// Whether a run can be planned.
pub open spec fn run_fits(script: Script, facts: RunFacts) -> bool {
    let v = options::derived(script.settings, facts.metrics);
    &&& facts.found@.len() == script.require@.len()
    &&& facts.metrics.cell_width_px > 0
    &&& facts.metrics.cell_height_px > 0
    &&& 2 * (script.settings.padding + script.settings.margin) <= u32::MAX
    &&& v.cols * v.cell_width_px <= u32::MAX
    &&& v.rows * v.cell_height_px <= u32::MAX
    &&& script.settings.framerate > 0
    &&& timeline::plan_fits(script.events@, facts.paths@, script.settings)
    &&& timeline::plan(
        script.events@,
        facts.paths@,
        script.settings,
        script.events@.len() as int,
    ).cursor + TAIL_FRAMES * nanos::interval(script.settings.framerate) <= LONGEST
}

/// Programs that the script requires and that are not there.
pub open spec fn missing(script: Script, facts: RunFacts) -> Seq<Seq<char>> {
    require::missing(script.require@, facts.found@, script.require@.len() as int)
}

/// Whether `p` is the plan of a run for these consumers.
pub open spec fn is_run_plan(
    p: RunPlan,
    script: Script,
    facts: RunFacts,
    consumers: Seq<Consumer>,
) -> bool {
    let t = timeline::plan(
        script.events@,
        facts.paths@,
        script.settings,
        script.events@.len() as int,
    );
    &&& p.viewport == options::derived(script.settings, facts.metrics)
    &&& p.pty == options::pty_size_of(p.viewport)
    &&& text::texts(p.theme@) == theme::theme_texts(script.settings.theme)
    &&& timeline::schedule(p.timeline@) == t.out
    &&& p.mouse_segments@ == t.segments
    &&& p.session@ == session::fresh(
        t.cursor as u128,
        nanos::interval(script.settings.framerate) as u128,
    )
    &&& p.expected == t.cursor
    &&& p.consumers@ == consumers
}

/// Plan a run whose frames go to these consumers.
pub fn run_with_raw_frame_consumers(
    script: &Script,
    facts: &RunFacts,
    consumers: Vec<Consumer>,
) -> (r: Result<RunPlan, String>)
    requires
        run_fits(*script, *facts),
    ensures
        match r {
            Ok(p) => missing(*script, *facts).len() == 0 && is_run_plan(
                p,
                *script,
                *facts,
                consumers@,
            ),
            Err(m) => missing(*script, *facts).len() > 0 && m@ == require::missing_message(
                missing(*script, *facts),
            ),
        },
{
    match enforce_require(&script.require, &facts.found) {
        Ok(_) => {},
        Err(m) => {
            return Err(m);
        },
    }
    let viewport: ViewportConfig = derive_options(&script.settings, &facts.metrics);
    let pty: PtySize = pty_size(&viewport);
    let colors: Vec<String> = apply_theme(&script.settings.theme);
    let (events, segments, end) = build_timeline(&script.events, &facts.paths, &script.settings);
    let interval: Nanos = frame_interval(script.settings.framerate);
    let session: Session = Session::new(end, interval);
    Ok(
        RunPlan {
            viewport,
            pty,
            theme: colors,
            timeline: events,
            mouse_segments: segments,
            session,
            expected: end,
            consumers,
        },
    )
}

/// Plan a run whose frames go to one consumer or none.
pub fn run_with_raw_frame_consumer(
    script: &Script,
    facts: &RunFacts,
    consumer: Option<Consumer>,
) -> (r: Result<RunPlan, String>)
    requires
        run_fits(*script, *facts),
    ensures
        match r {
            Ok(p) => missing(*script, *facts).len() == 0 && is_run_plan(
                p,
                *script,
                *facts,
                match consumer {
                    Some(c) => seq![c],
                    None => Seq::empty(),
                },
            ),
            Err(m) => missing(*script, *facts).len() > 0 && m@ == require::missing_message(
                missing(*script, *facts),
            ),
        },
{
    let mut consumers: Vec<Consumer> = Vec::new();
    match consumer {
        Some(c) => {
            consumers.push(c);
            assert(consumers@ =~= seq![c]);
        },
        None => {},
    }
    run_with_raw_frame_consumers(script, facts, consumers)
}

/// Plan a run without consumers.
pub fn run(script: &Script, facts: &RunFacts) -> (r: Result<RunPlan, String>)
    requires
        run_fits(*script, *facts),
    ensures
        match r {
            Ok(p) => missing(*script, *facts).len() == 0 && is_run_plan(
                p,
                *script,
                *facts,
                Seq::empty(),
            ),
            Err(m) => missing(*script, *facts).len() > 0 && m@ == require::missing_message(
                missing(*script, *facts),
            ),
        },
{
    run_with_raw_frame_consumers(script, facts, Vec::new())
}

} // verus!
