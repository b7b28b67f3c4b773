//! Telling the terminal its colours.
use vstd::prelude::*;
use vstd::string::*;

use crate::style::{Rgb, Theme};
use crate::text;
use crate::text::{push_decimal, push_hex_byte};

verus! {

/// A colour as `rgb:rr/gg/bb`.
pub open spec fn rgb_text(c: Rgb) -> Seq<char> {
    "rgb:"@ + text::hex_byte(c[0]) + "/"@ + text::hex_byte(c[1]) + "/"@ + text::hex_byte(c[2])
}

/// `OSC code ; colour ST`.
pub open spec fn color_sequence(code: Seq<char>, c: Rgb) -> Seq<char> {
    "\x1b]"@ + code + ";"@ + rgb_text(c) + "\x1b\\"@
}

/// The code of an indexed colour: `4;index`.
pub open spec fn palette_code(i: int) -> Seq<char> {
    "4;"@ + text::decimal(i as nat)
}

/// The sequences that give the terminal the colours of a theme: the sixteen
/// indexed ones, foreground, background and cursor, and the selection if it has
/// one.
pub open spec fn theme_texts(t: Theme) -> Seq<Seq<char>> {
    let indexed = Seq::new(16, |i: int| color_sequence(palette_code(i), t.palette[i]));
    let three = indexed.push(color_sequence("10"@, t.foreground)).push(
        color_sequence("11"@, t.background),
    ).push(color_sequence("12"@, t.cursor));
    match t.selection {
        Some(c) => three.push(color_sequence("17"@, c)),
        None => three,
    }
}

fn sequence(code: &str, c: Rgb) -> (out: String)
    ensures
        out@ == color_sequence(code@, c),
{
    let mut color: String = "rgb:".to_string();
    push_hex_byte(&mut color, c[0]);
    color.append("/");
    push_hex_byte(&mut color, c[1]);
    color.append("/");
    push_hex_byte(&mut color, c[2]);
    let mut out: String = "\x1b]".to_string();
    out.append(code);
    out.append(";");
    out.append(color.as_str());
    out.append("\x1b\\");
    out
}

/// The sequences that give the terminal the colours of a theme.
pub fn apply_theme(t: &Theme) -> (out: Vec<String>)
    ensures
        text::texts(out@) == theme_texts(*t),
{
    let mut out: Vec<String> = Vec::new();
    let ghost all = theme_texts(*t);
    let mut i: usize = 0;
    while i < 16
        invariant
            i <= 16,
            all == theme_texts(*t),
            out@.len() == i,
            forall|k: int| 0 <= k < i ==> (#[trigger] out@[k])@ == all[k],
        decreases 16 - i,
    {
        let mut code: String = "4;".to_string();
        push_decimal(&mut code, i as u128);
        assert(code@ == palette_code(i as int));
        let s: String = sequence(code.as_str(), t.palette[i]);
        out.push(s);
        i = i + 1;
    }
    out.push(sequence("10", t.foreground));
    out.push(sequence("11", t.background));
    out.push(sequence("12", t.cursor));
    match t.selection {
        Some(c) => {
            out.push(sequence("17", c));
        },
        None => {},
    }
    assert(text::texts(out@) =~= all);
    out
}

} // verus!
