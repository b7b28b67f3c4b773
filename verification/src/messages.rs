//! What can be read in messages, comments and text files.
use vstd::prelude::*;

use crate::error::RenderError;
use crate::recording::RawFrame;
use crate::render_gif::movie;
use crate::render_svg::fonts;
use crate::render_svg::fonts::StyleError;
use crate::render_svg::written;
use crate::runner::require;
use crate::runner::screenshot;
use crate::text;

verus! {

/// What an upper case hexadecimal digit stands for.
pub open spec fn digit_value(c: char) -> nat {
    if 'A' <= c {
        (c as u32 - 'A' as u32 + 10) as nat
    } else {
        (c as u32 - '0' as u32) as nat
    }
}

/// The number that some hexadecimal digits stand for.
pub open spec fn hex_value(s: Seq<char>) -> nat
    decreases s.len(),
{
    if s.len() == 0 {
        0
    } else {
        hex_value(s.drop_last()) * 16 + digit_value(s.last())
    }
}

/// A code point can be read back from its digits, of which there are as many as asked for
/// at least.
pub proof fn lemma_code_point_read(n: nat, width: nat)
    ensures
        hex_value(fonts::code_point_text(n, width)) == n,
        fonts::code_point_text(n, width).len() >= width,
        fonts::code_point_text(n, width).len() >= 1,
    decreases n, width,
{
    let s = fonts::code_point_text(n, width);
    let d = n % 16;
    assert(digit_value(fonts::upper_hex(d)) == d);
    if n < 16 && width <= 1 {
        assert(s.drop_last() =~= Seq::empty());
        assert(hex_value(s.drop_last()) == 0);
    } else if n < 16 {
        lemma_code_point_read(0, (width - 1) as nat);
        assert(s.drop_last() =~= fonts::code_point_text(0, (width - 1) as nat));
    } else {
        let w = if width == 0 {
            0
        } else {
            (width - 1) as nat
        };
        lemma_code_point_read(n / 16, w);
        assert(s.drop_last() =~= fonts::code_point_text(n / 16, w));
    }
}

/// The error of a missing glyph names the character, and that of a missing frame the
/// frame.
pub proof fn lemma_error_names(c: char, i: usize)
    ensures
        written::says(StyleError::GlyphMissing(c).message_text(), seq![c]),
        written::says(
            StyleError::GlyphMissing(c).message_text(),
            fonts::code_point_text((c as u32) as nat, 4),
        ),
        RenderError::GlyphMissing(c).message_text() == StyleError::GlyphMissing(
            c,
        ).message_text(),
        written::says(RenderError::FrameMissing(i).message_text(), text::decimal(i as nat)),
{
    let a = "Glyph not found in embedded fonts for character '"@;
    let b = "' (U+"@;
    let h = fonts::code_point_text((c as u32) as nat, 4);
    let e = ")"@;
    assert(a + seq![c] + b + h + e =~= a + seq![c] + (b + h + e));
    written::lemma_says(a, seq![c], b + h + e);
    written::lemma_says(a + seq![c] + b, h, e);
    written::lemma_says("failed to reconstruct frame "@, text::decimal(i as nat), e);
}

pub(crate) proof fn lemma_joined_says(parts: Seq<Seq<char>>, sep: Seq<char>, i: int)
    requires
        0 <= i < parts.len(),
    ensures
        written::says(text::joined(parts, sep), parts[i]),
    decreases parts.len(),
{
    let none = Seq::<char>::empty();
    if parts.len() == 1 {
        written::lemma_says(none, parts[0], none);
        assert(none + parts[0] =~= parts[0]);
    } else if i == parts.len() - 1 {
        written::lemma_says(text::joined(parts.drop_last(), sep) + sep, parts.last(), none);
    } else {
        lemma_joined_says(parts.drop_last(), sep, i);
        let before = text::joined(parts.drop_last(), sep);
        written::lemma_says_around(none, before, sep, parts[i]);
        written::lemma_says_around(none, before + sep, parts.last(), parts[i]);
    }
}

/// The message on programs that were not found names each of them.
pub proof fn lemma_missing_told(names: Seq<Seq<char>>, i: int)
    requires
        0 <= i < names.len(),
    ensures
        written::says(require::missing_message(names), names[i]),
{
    lemma_joined_says(names, ", "@, i);
    written::lemma_says_around(
        "the following `Require`d program(s) were not found on $PATH: "@,
        text::joined(names, ", "@),
        ". Install them or remove the `Require` directive(s) from the tape."@,
        names[i],
    );
}

/// The rows of a screenshot in text are one below the other: before a row there are those
/// above it, and behind it its line ends.
pub proof fn lemma_rows_in_order(f: RawFrame, row: int, n: int)
    requires
        0 <= row < n,
    ensures
        ({
            let above = screenshot::frame_text(f, row);
            let line = screenshot::cells_text(
                f,
                row,
                screenshot::used_cells(f, row, f.cols as int),
            );
            let all = screenshot::frame_text(f, n);
            let end = above.len() + line.len();
            &&& all.len() > end
            &&& all.take(above.len() as int) == above
            &&& all.subrange(above.len() as int, end as int) == line
            &&& all[end as int] == '\n'
            &&& row + 1 == n ==> all.len() == end + 1
        }),
    decreases n,
{
    let above = screenshot::frame_text(f, row);
    let line = screenshot::cells_text(f, row, screenshot::used_cells(f, row, f.cols as int));
    let all = screenshot::frame_text(f, n);
    let end = above.len() + line.len();
    if row + 1 < n {
        lemma_rows_in_order(f, row, n - 1);
        let less = screenshot::frame_text(f, n - 1);
        assert(all.take(less.len() as int) =~= less);
        assert(all.take(above.len() as int) =~= less.take(above.len() as int));
        assert(all.subrange(above.len() as int, end as int) =~= less.subrange(
            above.len() as int,
            end as int,
        ));
    } else {
        assert(all.take(above.len() as int) =~= above);
        assert(all.subrange(above.len() as int, end as int) =~= line);
    }
}

/// The comment in a file says how long it took and how many frames there are, and its
/// block holds that text behind its length.
pub proof fn lemma_comment_read(elapsed_ms: u128, frames: u128)
    ensures
        ({
            let t = movie::comment_text(elapsed_ms, frames);
            let block = movie::comment_block(t);
            &&& written::says(t, "elapsed_ms="@ + text::decimal(elapsed_ms as nat))
            &&& written::says(t, " frames="@ + text::decimal(frames as nat))
            &&& t.len() <= 255 ==> {
                &&& block.len() == t.len() + 4
                &&& block[0] == 0x21
                &&& block[1] == 0xFE
                &&& block[2] == t.len()
                &&& forall|i: int| 0 <= i < t.len() ==> block[3 + i] == #[trigger] t[i] as u8
                &&& block.last() == 0
            }
        }),
{
    let t = movie::comment_text(elapsed_ms, frames);
    let a = text::decimal(elapsed_ms as nat);
    let b = text::decimal(frames as nat);
    let none = Seq::<char>::empty();
    reveal_strlit("Created by evp | elapsed_ms=");
    reveal_strlit("Created by evp | ");
    reveal_strlit("elapsed_ms=");
    assert("Created by evp | elapsed_ms="@ =~= "Created by evp | "@ + "elapsed_ms="@);
    assert(t =~= "Created by evp | "@ + ("elapsed_ms="@ + a) + (" frames="@ + b));
    written::lemma_says("Created by evp | "@, "elapsed_ms="@ + a, " frames="@ + b);
    written::lemma_says("Created by evp | "@ + ("elapsed_ms="@ + a), " frames="@ + b, none);
}

} // verus!
