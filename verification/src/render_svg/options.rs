//! What can be chosen about a document.
use vstd::prelude::*;
use vstd::string::*;

use crate::single::{Measure, ONE};

verus! {

/// Tunables for the SVG renderer.
#[derive(Debug, Clone)]
pub struct SvgOptions {
    /// Path to a font of one's own.
    pub font_path: Option<String>,
    /// CSS `font-family` of every text.
    pub font_family: String,
    /// CSS `font-size`.
    pub font_size: Measure,
    /// Whether the used fonts are carried along.
    pub embed_fonts: bool,
    /// Whether system fonts are left out of the font families.
    pub no_system_fonts: bool,
    /// Whether this is a static screenshot, without animations.
    pub is_screenshot: bool,
    pub window_bar_title: Option<String>,
    pub window_bar_font_family: Option<String>,
    pub window_bar_font_size: Option<Measure>,
}

/// The font families that are named by default.
pub open spec fn default_families() -> Seq<char> {
    "'JetBrainsMono Nerd Font Mono', 'Noto Sans Mono', 'Noto Emoji', 'Noto Sans Symbols 2', 'Noto Sans Mono CJK JP', 'unifont_upper', 'unifont_csur', ui-monospace, Menlo, Consolas, 'DejaVu Sans Mono', monospace"@
}

impl Default for SvgOptions {
    fn default() -> (r: SvgOptions)
        ensures
            r.font_path is None,
            r.font_family@ == default_families(),
            r.font_size == 16 * ONE,
            r.embed_fonts,
            !r.no_system_fonts,
            !r.is_screenshot,
            r.window_bar_title is None,
            r.window_bar_font_family is None,
            r.window_bar_font_size is None,
    {
        SvgOptions {
            font_path: None,
            font_family:
                "'JetBrainsMono Nerd Font Mono', 'Noto Sans Mono', 'Noto Emoji', 'Noto Sans Symbols 2', 'Noto Sans Mono CJK JP', 'unifont_upper', 'unifont_csur', ui-monospace, Menlo, Consolas, 'DejaVu Sans Mono', monospace".to_string(),
            font_size: 16 * ONE,
            embed_fonts: true,
            no_system_fonts: false,
            is_screenshot: false,
            window_bar_title: None,
            window_bar_font_family: None,
            window_bar_font_size: None,
        }
    }
}

} // verus!
