//! Frames as an animated GIF: palette, drawing in palette indices, and the stream
//! of frames.

pub mod around;
pub mod canvas;
pub mod fitting;
pub mod glyphs;
pub mod laws;
pub mod mouse_pixels;
pub mod movie;
pub mod outcomes;
pub mod palette;
pub mod pens;
pub mod pixels;
pub mod raster;
pub mod stamp;
pub mod stream;
pub mod view;

pub use canvas::{
    blend_pixel_idx, fill_circle_idx, fill_rect_idx, inside_rounded_rect,
    mask_outside_rounded_rect_idx,
};
pub use glyphs::{
    css_cell_metrics, glyph_line, glyph_scale, is_within_reach, measure_cell_px, place_glyphs, place_title,
    title_size, CellFont, CharGlyph, FontLengths, GlyphMask, Shift, FONT_LIMIT, LINE_LIMIT,
    MOST_CHARS,
};
pub use movie::{
    append_comment, png_file, png_outcome, render_gif, render_png_frame, PngError,
};
pub use palette::{
    assemble_palette, find_closest_color, flatten_palette, TRANSPARENT_COLOR_INDEX,
};
pub use raster::{
    draw_window_bar_idx, is_cell_changed, rasterize_raw_frame_idx, GlyphSheet, RasterSetup,
};
pub use stamp::{draw_circle_idx, GlyphBlit};
pub use stream::{write_gif_frame, GifFrame, GifStream, GlyphLookup};
