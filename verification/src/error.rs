//! Why a recording cannot be rendered.
use vstd::prelude::*;
use vstd::string::*;

use crate::render_svg::fonts::StyleError;
use crate::text;
use crate::text::push_decimal;

verus! {

/// Why a recording cannot be rendered.
#[derive(Debug, Clone, Copy, PartialEq, Eq)]
pub enum RenderError {
    /// A frame could not be reconstructed.
    FrameMissing(usize),
    /// No embedded font has a glyph for the character.
    GlyphMissing(char),
}

impl RenderError {
    pub open spec fn message_text(self) -> Seq<char> {
        match self {
            RenderError::FrameMissing(i) => "failed to reconstruct frame "@ + text::decimal(
                i as nat,
            ),
            RenderError::GlyphMissing(c) => StyleError::GlyphMissing(c).message_text(),
        }
    }

    /// The error in words.
    pub fn message(&self) -> (out: String)
        ensures
            out@ == self.message_text(),
    {
        match self {
            RenderError::FrameMissing(i) => {
                let mut out: String = "failed to reconstruct frame ".to_string();
                push_decimal(&mut out, *i as u128);
                out
            },
            RenderError::GlyphMissing(c) => StyleError::GlyphMissing(*c).message(),
        }
    }
}

} // verus!
