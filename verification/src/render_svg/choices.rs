//! What holds of the fonts that a document names and carries along.
use vstd::prelude::*;
use vstd::string::*;

use crate::render_svg::fonts;
use crate::render_svg::fonts::FontUse;
use crate::sort;
use crate::text;

verus! {

/// The character that is told to lack a glyph is the first that does; where none is told,
/// every character has one.
pub proof fn lemma_missing_glyph(uses: Seq<FontUse>, i: int)
    requires
        0 <= i,
    ensures
        match fonts::missing_from(uses, i) {
            Some(c) => exists|n: int|
                i <= n < uses.len() && !(#[trigger] uses[n]).has_glyph && uses[n].c == c && forall|
                    k: int,
                |
                    i <= k < n ==> (#[trigger] uses[k]).has_glyph,
            None => forall|k: int| i <= k < uses.len() ==> (#[trigger] uses[k]).has_glyph,
        },
    decreases uses.len() - i,
{
    if i < uses.len() && uses[i].has_glyph {
        lemma_missing_glyph(uses, i + 1);
        if let Some(c) = fonts::missing_from(uses, i + 1) {
            let n = choose|n: int|
                i + 1 <= n < uses.len() && !(#[trigger] uses[n]).has_glyph && uses[n].c == c
                    && forall|k: int| i + 1 <= k < n ==> (#[trigger] uses[k]).has_glyph;
            assert forall|k: int| i <= k < n implies (#[trigger] uses[k]).has_glyph by {}
        }
    }
}

/// A font is carried along exactly if some character is shown by it, each once and in
/// the order of their places.
pub proof fn lemma_used_fonts(uses: Seq<FontUse>, font: u32)
    ensures
        fonts::used_places(uses).contains(font) <==> exists|i: int|
            0 <= i < uses.len() && (#[trigger] uses[i]).font == font,
        forall|i: int, j: int|
            0 <= i < j < fonts::used_places(uses).len() ==> fonts::used_places(uses)[i]
                < fonts::used_places(uses)[j],
{
    let all = Seq::new(uses.len(), |i: int| uses[i].font);
    sort::lemma_distinct_ascending(all);
    assert(fonts::used_places(uses).contains(font) <==> all.contains(font));
    if all.contains(font) {
        let i = choose|i: int| 0 <= i < all.len() && all[i] == font;
        assert(uses[i].font == font);
    }
    if exists|i: int| 0 <= i < uses.len() && (#[trigger] uses[i]).font == font {
        let i = choose|i: int| 0 <= i < uses.len() && (#[trigger] uses[i]).font == font;
        assert(all[i] == font);
    }
}

/// A font has to show exactly the characters that it is used for.
pub proof fn lemma_codes(uses: Seq<FontUse>, font: u32, code: u32)
    ensures
        fonts::codes_in(uses, font).contains(code) <==> exists|i: int|
            0 <= i < uses.len() && (#[trigger] uses[i]).font == font && uses[i].c as u32 == code,
    decreases uses.len(),
{
    if uses.len() > 0 {
        let d = uses.drop_last();
        let before = fonts::codes_in(d, font);
        let after = fonts::codes_in(uses, font);
        lemma_codes(d, font, code);
        if before.contains(code) {
            let i = choose|i: int|
                0 <= i < d.len() && (#[trigger] d[i]).font == font && d[i].c as u32 == code;
            assert(uses[i] == d[i]);
            let k = choose|k: int| 0 <= k < before.len() && before[k] == code;
            assert(after[k] == code);
        }
        if uses.last().font == font {
            assert(uses[uses.len() - 1].font == font);
            assert(after[before.len() as int] == uses.last().c as u32);
            if after.contains(code) && !before.contains(code) {
                let k = choose|k: int| 0 <= k < after.len() && after[k] == code;
                if k < before.len() {
                    assert(before[k] == code);
                }
            }
        }
        if exists|i: int|
            0 <= i < uses.len() && (#[trigger] uses[i]).font == font && uses[i].c as u32 == code {
            let i = choose|i: int|
                0 <= i < uses.len() && (#[trigger] uses[i]).font == font && uses[i].c as u32
                    == code;
            if i < d.len() {
                assert(d[i] == uses[i]);
            }
        }
    }
}

/// No style block is written where no font is to be embedded, or nothing is shown.
pub proof fn lemma_no_block(uses: Seq<FontUse>, data: Seq<fonts::FontData>, embed: bool)
    requires
        !embed || uses.len() == 0,
    ensures
        fonts::style_block_text(uses, data, embed).len() == 0,
{
    reveal_strlit("");
}

/// The families that are kept where system fonts are not wanted are those that are no
/// system font, whatever their case, in their order and without white space around them.
pub proof fn lemma_own_fonts(parts: Seq<Seq<char>>, n: int, name: Seq<char>)
    requires
        0 <= n <= parts.len(),
    ensures
        fonts::own_fonts(parts, n).contains(name) <==> !fonts::is_system_font(name) && exists|i:
            int| 0 <= i < n && fonts::trimmed(#[trigger] parts[i]) == name,
    decreases n,
{
    if n > 0 {
        lemma_own_fonts(parts, n - 1, name);
        let before = fonts::own_fonts(parts, n - 1);
        let after = fonts::own_fonts(parts, n);
        let t = fonts::trimmed(parts[n - 1]);
        if before.contains(name) {
            let k = choose|k: int| 0 <= k < before.len() && before[k] == name;
            assert(after[k] == name);
            let i = choose|i: int| 0 <= i < n - 1 && fonts::trimmed(#[trigger] parts[i]) == name;
            assert(0 <= i < n && fonts::trimmed(parts[i]) == name);
        }
        if !fonts::is_system_font(t) {
            assert(after[before.len() as int] == t);
            if after.contains(name) && !before.contains(name) {
                let k = choose|k: int| 0 <= k < after.len() && after[k] == name;
                if k < before.len() {
                    assert(before[k] == name);
                }
                assert(name == t);
            }
        }
    }
}

/// With system fonts, a document names the families that it was given; a font of one's
/// own is named before all others.
pub proof fn lemma_family(family: Seq<char>, no_system_fonts: bool, own: Seq<char>)
    ensures
        fonts::family_text(family, false, None) == family,
        fonts::family_text(family, no_system_fonts, Some(own)) == "'"@ + own + "', "@
            + fonts::family_text(family, no_system_fonts, None),
{
}

/// A system font is one of six names, in upper or lower case.
pub proof fn lemma_system_fonts(s: Seq<char>)
    ensures
        fonts::is_system_font(s) <==> {
            ||| text::same_but_case(s, "ui-monospace"@)
            ||| text::same_but_case(s, "Menlo"@)
            ||| text::same_but_case(s, "Consolas"@)
            ||| text::same_but_case(s, "'DejaVu Sans Mono'"@)
            ||| text::same_but_case(s, "\"DejaVu Sans Mono\""@)
            ||| text::same_but_case(s, "monospace"@)
        },
{
    let v = fonts::SYSTEM_FONTS;
    assert(v[0]@ == "ui-monospace"@);
    assert(v[1]@ == "Menlo"@);
    assert(v[2]@ == "Consolas"@);
    assert(v[3]@ == "'DejaVu Sans Mono'"@);
    assert(v[4]@ == "\"DejaVu Sans Mono\""@);
    assert(v[5]@ == "monospace"@);
}

} // verus!
