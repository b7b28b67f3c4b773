# evp

Records terminal sessions from scripts and renders them as animated SVG and GIF.

- `src/` is the library. It plans a run of a script, decides at each moment what is
  due, turns what the terminal shows into frames, and renders frames. Every function
  has a contract that [Verus](https://github.com/verus-lang/verus) proves.
- `tests/` runs the library.
- `app/` surrounds it with what it cannot do: the terminal, files, threads, fonts and
  floating point.

## The library

- `script`, `recording`, `style`, `viewport`: what a script, a frame and a canvas are.
- `runner`: from a script to frames. `timeline` says when each event happens,
  `launch` what is settled before a run, `session` what is due in it, `capture` what a
  frame holds, `mouse` where the pointer is, `screenshot` what a screenshot is.
- `render_svg`: from frames to a document. `cells` and `split` find how long each cell
  looks the same, `layout` places it, `optimize` and `arrange` join what belongs
  together, `document` writes it down, `still` does without motion for a screenshot,
  `render` holds it all together.
- `render_gif`: from frames to pictures. `palette`, `canvas` and `stamp` draw, `glyphs`
  places characters, `raster` draws a frame, `stream` and `movie` make pictures of
  frames, `view` says what a viewer sees of them.
- `pointer`: the shape of the mouse pointer.
- `single`, `root`, `nanos`: single precision and durations, computed with integers.
- `text`, `sort`, `merge`: texts, sorting, and joining neighbours.

Lengths are integers: `single::ONE` is one. The result of an operation is rounded as
single precision rounds it.

The functions named `lemma_` that are public are laws of the library. Among them:
`render_svg::render::lemma_document_shows_frames` (a document shows at each moment
the text of the frame of that moment), `render_gif::view::lemma_movie_seen` (pictures
laid over each other show each frame), `render_svg::calm::lemma_screenshot_is_still` (a
screenshot holds no animation), `runner::timeline::lemma_plans_join` (scripts can be
planned one after the other), `runner::session::lemma_in_order` and
`lemma_deadline_in_time` (nothing is done out of order or slept through).

What is trusted is marked `#[verifier::external_body]` or `assume_specification`, and
says there what it claims of the function that it calls.
