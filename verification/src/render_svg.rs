//! Animated SVG renderer.
pub mod arrange;
pub mod bounds;
pub mod calm;
pub mod cells;
pub mod choices;
pub mod courses;
pub mod document;
pub mod drawings;
pub mod elements;
pub mod entry;
pub mod figures;
pub mod fonts;
pub mod laws;
pub mod layout;
pub mod lengths;
pub mod markup;
pub mod metrics;
pub mod motions;
pub mod optimize;
pub mod options;
pub mod overlay;
pub mod render;
pub mod run_text;
pub mod seen;
pub mod shapes;
pub mod split;
pub mod still;
pub mod text_markup;
pub mod tracks;
pub mod written;

pub use elements::{
    AnimatedProperty, BgRect, CursorRect, MouseSpan, StyleAnimation, StyleKeyframe, TSpan,
    TextElement, TitleSegment, WindowBarCircle, YAnimation,
};
pub use optimize::{
    append_newlines_to_final_tspans, group_text_elements_by_row_and_time,
    group_text_elements_final, optimize_bg_rect_scroll, optimize_bg_rects, optimize_rows,
    optimize_tspans,
};
pub use document::SvgDoc;
pub use entry::{file_bytes, is_svgz, render_svg_frame_to_string, render_svg_to_string};
pub use fonts::{
    generate_style_block, used_code_points, used_fonts, EmbedPlan, FontData, FontUse, StyleError,
};
pub use metrics::metrics_exist;
pub use options::SvgOptions;
pub use render::{render_from_frames, shown_chars, BuildInfo, FontBook, RenderInput};
pub use text_markup::ColorClasses;
