//! Record terminal sessions from scripts, and render them as animated SVG and GIF.
//!
//! - [`run`] plans a run of a script; [`run_and_return_recording`],
//!   [`run_and_render_gif`], [`run_and_render_svg`], [`run_and_render_json`] and
//!   [`run_and_render`] plan one whose frames are kept or rendered.
//! - [`render_gif`] and [`render_svg`] render a recording.
use vstd::prelude::*;
use vstd::string::*;

pub mod error;
pub mod exact;
pub mod merge;
pub mod messages;
pub mod nanos;
pub mod pace;
pub mod pointer;
pub mod recording;
pub mod render_gif;
pub mod render_svg;
pub mod root;
pub mod runner;
pub mod script;
pub mod single;
pub mod sort;
pub mod style;
pub mod style_flags;
pub mod text;
pub mod viewport;

use crate::error::RenderError;
use crate::recording::Recording;
use crate::render_gif::{GifFrame, GlyphLookup, GlyphSheet, RasterSetup};
use crate::render_svg::RenderInput;
use crate::runner::launch;
use crate::runner::launch::{Consumer, RendererBackend, RunFacts, RunPlan};
use crate::runner::options::derive_options;
use crate::runner::require;
use crate::script::Script;

verus! {

/// Plan a run of a script.
pub fn run(script: &Script, facts: &RunFacts) -> (r: Result<RunPlan, String>)
    requires
        launch::run_fits(*script, *facts),
    ensures
        match r {
            Ok(p) => launch::missing(*script, *facts).len() == 0 && launch::is_run_plan(
                p,
                *script,
                *facts,
                Seq::empty(),
            ),
            Err(m) => launch::missing(*script, *facts).len() > 0 && m@ == require::missing_message(
                launch::missing(*script, *facts),
            ),
        },
{
    runner::launch::run(script, facts)
}

/// Plan a run of a script whose frames are all kept, with a whole frame every five
/// seconds.
pub fn run_and_return_recording(script: &Script, facts: &RunFacts) -> (r: Result<RunPlan, String>)
    requires
        launch::run_fits(*script, *facts),
        script.settings.framerate * 5 <= u32::MAX,
    ensures
        match r {
            Ok(p) => launch::missing(*script, *facts).len() == 0 && launch::is_run_plan(
                p,
                *script,
                *facts,
                seq![
                    Consumer::FullRecording {
                        keyframe_interval: (script.settings.framerate * 5) as u32,
                    },
                ],
            ),
            Err(m) => launch::missing(*script, *facts).len() > 0 && m@ == require::missing_message(
                launch::missing(*script, *facts),
            ),
        },
{
    let viewport: crate::viewport::ViewportConfig = derive_options(
        &script.settings,
        &facts.metrics,
    );
    let consumer: Consumer = Consumer::FullRecording {
        keyframe_interval: viewport.framerate * 5,
    };
    runner::launch::run_with_raw_frame_consumer(script, facts, Some(consumer))
}

/// The consumers of renderers.
pub open spec fn rendered_by(renderers: Seq<RendererBackend>) -> Seq<Consumer> {
    Seq::new(renderers.len(), |i: int| Consumer::Renderer(renderers[i]))
}

/// Plan a run of a script whose frames are rendered as they come.
pub fn run_and_render(
    script: &Script,
    facts: &RunFacts,
    renderers: &Vec<RendererBackend>,
) -> (r: Result<RunPlan, String>)
    requires
        launch::run_fits(*script, *facts),
    ensures
        match r {
            Ok(p) => launch::missing(*script, *facts).len() == 0 && launch::is_run_plan(
                p,
                *script,
                *facts,
                rendered_by(renderers@),
            ),
            Err(m) => launch::missing(*script, *facts).len() > 0 && m@ == require::missing_message(
                launch::missing(*script, *facts),
            ),
        },
{
    let mut consumers: Vec<Consumer> = Vec::new();
    let mut i: usize = 0;
    while i < renderers.len()
        invariant
            i <= renderers@.len(),
            consumers@.len() == i,
            forall|k: int| 0 <= k < i ==> consumers@[k] == rendered_by(renderers@)[k],
        decreases renderers@.len() - i,
    {
        consumers.push(Consumer::Renderer(renderers[i]));
        i = i + 1;
    }
    assert(consumers@ =~= rendered_by(renderers@));
    runner::launch::run_with_raw_frame_consumers(script, facts, consumers)
}

fn run_and_render_one(
    script: &Script,
    facts: &RunFacts,
    backend: RendererBackend,
) -> (r: Result<RunPlan, String>)
    requires
        launch::run_fits(*script, *facts),
    ensures
        match r {
            Ok(p) => launch::missing(*script, *facts).len() == 0 && launch::is_run_plan(
                p,
                *script,
                *facts,
                seq![Consumer::Renderer(backend)],
            ),
            Err(m) => launch::missing(*script, *facts).len() > 0 && m@ == require::missing_message(
                launch::missing(*script, *facts),
            ),
        },
{
    let mut renderers: Vec<RendererBackend> = Vec::new();
    renderers.push(backend);
    assert(rendered_by(renderers@) =~= seq![Consumer::Renderer(backend)]);
    run_and_render(script, facts, &renderers)
}

/// Plan a run of a script whose frames become an animated GIF.
pub fn run_and_render_gif(script: &Script, facts: &RunFacts) -> (r: Result<RunPlan, String>)
    requires
        launch::run_fits(*script, *facts),
    ensures
        match r {
            Ok(p) => launch::missing(*script, *facts).len() == 0 && launch::is_run_plan(
                p,
                *script,
                *facts,
                seq![Consumer::Renderer(RendererBackend::Gif)],
            ),
            Err(m) => launch::missing(*script, *facts).len() > 0 && m@ == require::missing_message(
                launch::missing(*script, *facts),
            ),
        },
{
    run_and_render_one(script, facts, RendererBackend::Gif)
}

/// Plan a run of a script whose frames become an animated SVG document.
pub fn run_and_render_svg(script: &Script, facts: &RunFacts) -> (r: Result<RunPlan, String>)
    requires
        launch::run_fits(*script, *facts),
    ensures
        match r {
            Ok(p) => launch::missing(*script, *facts).len() == 0 && launch::is_run_plan(
                p,
                *script,
                *facts,
                seq![Consumer::Renderer(RendererBackend::Svg)],
            ),
            Err(m) => launch::missing(*script, *facts).len() > 0 && m@ == require::missing_message(
                launch::missing(*script, *facts),
            ),
        },
{
    run_and_render_one(script, facts, RendererBackend::Svg)
}

/// Plan a run of a script whose frames become a recording in JSON.
pub fn run_and_render_json(script: &Script, facts: &RunFacts) -> (r: Result<RunPlan, String>)
    requires
        launch::run_fits(*script, *facts),
    ensures
        match r {
            Ok(p) => launch::missing(*script, *facts).len() == 0 && launch::is_run_plan(
                p,
                *script,
                *facts,
                seq![Consumer::Renderer(RendererBackend::Json)],
            ),
            Err(m) => launch::missing(*script, *facts).len() > 0 && m@ == require::missing_message(
                launch::missing(*script, *facts),
            ),
        },
{
    run_and_render_one(script, facts, RendererBackend::Json)
}

/// The pictures of a recording as an animated GIF.
pub fn render_gif(
    rec: Recording,
    setup: RasterSetup,
    sheets: &Vec<GlyphSheet>,
    lookups: Option<&Vec<GlyphLookup>>,
) -> (r: Result<Vec<GifFrame>, RenderError>)
    requires
        setup.fits(),
        sheets@.len() == rec.frames@.len(),
        forall|i: int|
            0 <= i < rec.frames@.len() ==> (#[trigger] rec.frames@[i] matches Some(f)
                ==> render_gif::stream::frame_fits(setup, f, sheets@[i])
                && render_gif::movie::lookups_cover(lookups, f.cells@)),
    ensures
        match r {
            Ok(v) => render_gif::movie::obstacle(
                rec.frames@,
                render_gif::movie::lookups_view(lookups),
                setup,
                sheets@,
                0,
            ) is None && render_gif::movie::pictures(v@) == render_gif::movie::movie(
                setup,
                render_gif::movie::kept(rec.frames@, rec.frames@.len() as int),
                sheets@,
            ),
            Err(e) => render_gif::movie::obstacle(
                rec.frames@,
                render_gif::movie::lookups_view(lookups),
                setup,
                sheets@,
                0,
            ) == Some(e),
        },
{
    render_gif::render_gif(rec, setup, sheets, lookups)
}

/// The recording as an animated SVG document.
pub fn render_svg(rec: Recording, input: &RenderInput) -> (r: Result<String, RenderError>)
    requires
        input.cfg == rec.spec_viewport(),
        recording::missing_frame(rec.frames@, 0) is None ==> render_svg::entry::renderable(
            recording::present_frames(rec.frames@),
            *input,
        ),
    ensures
        match r {
            Ok(out) => recording::missing_frame(rec.frames@, 0) is None
                && render_svg::entry::missing_glyph(
                recording::present_frames(rec.frames@),
                *input,
            ) is None && render_svg::entry::is_svg_of(
                out@,
                recording::present_frames(rec.frames@),
                *input,
            ),
            Err(RenderError::FrameMissing(i)) => recording::missing_frame(rec.frames@, 0) == Some(
                i as int,
            ),
            Err(RenderError::GlyphMissing(c)) => recording::missing_frame(rec.frames@, 0) is None
                && render_svg::entry::missing_glyph(
                recording::present_frames(rec.frames@),
                *input,
            ) == Some(c),
        },
{
    render_svg::render_svg_to_string(rec, input)
}

} // verus!
