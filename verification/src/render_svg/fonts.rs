//! Which fonts a document names, and which it carries along.
use vstd::prelude::*;
use vstd::string::*;

use base64::Engine;

use crate::sort;
use crate::sort::sort_distinct;
use crate::text;
use crate::text::{chars_text, is_same_but_case, is_space_char, join, to_chars};

verus! {

/// The character that stands for a number below 64.
pub open spec fn base64_char(n: nat) -> char {
    if n < 26 {
        (65 + n) as char
    } else if n < 52 {
        (71 + n) as char
    } else if n < 62 {
        (n - 4) as char
    } else if n == 62 {
        '+'
    } else {
        '/'
    }
}

/// Bytes in base 64 with the standard alphabet, padded: three bytes become four
/// characters.
pub open spec fn base64_text(b: Seq<u8>) -> Seq<char>
    decreases b.len(),
{
    if b.len() == 0 {
        Seq::empty()
    } else if b.len() == 1 {
        seq![base64_char((b[0] / 4) as nat), base64_char((b[0] % 4 * 16) as nat), '=', '=']
    } else if b.len() == 2 {
        seq![
            base64_char((b[0] / 4) as nat),
            base64_char((b[0] % 4 * 16 + b[1] / 16) as nat),
            base64_char((b[1] % 16 * 4) as nat),
            '=',
        ]
    } else {
        seq![
            base64_char((b[0] / 4) as nat),
            base64_char((b[0] % 4 * 16 + b[1] / 16) as nat),
            base64_char((b[1] % 16 * 4 + b[2] / 64) as nat),
            base64_char((b[2] % 64) as nat),
        ] + base64_text(b.skip(3))
    }
}

/// `base64::Engine::encode` of the engine `STANDARD` returns the bytes in base
/// 64 with the standard alphabet and padding.
#[verifier::external_body]
fn encode_base64(bytes: &Vec<u8>) -> (out: String)
    ensures
        out@ == base64_text(bytes@),
{
    base64::engine::general_purpose::STANDARD.encode(bytes)
}

/// The font that shows one character of a cell.
#[derive(Debug, Clone, Copy)]
pub struct FontUse {
    pub c: char,
    /// Place of the font in the list of fonts.
    pub font: u32,
    /// Whether the font has a glyph for the character.
    pub has_glyph: bool,
}

/// Why a document cannot be made.
#[derive(Debug, Clone, Copy, PartialEq, Eq)]
pub enum StyleError {
    /// No embedded font has a glyph for the character.
    GlyphMissing(char),
}

/// The upper case hexadecimal digit of `d`.
pub open spec fn upper_hex(d: nat) -> char {
    if d < 10 {
        (48 + d) as char
    } else {
        (55 + d) as char
    }
}

/// `n` in upper case hexadecimal, at least four digits.
pub open spec fn code_point_text(n: nat, width: nat) -> Seq<char>
    decreases n, width,
{
    if n < 16 && width <= 1 {
        seq![upper_hex(n)]
    } else if n < 16 {
        code_point_text(0, (width - 1) as nat).push(upper_hex(n))
    } else {
        code_point_text(n / 16, if width == 0 {
            0
        } else {
            (width - 1) as nat
        }).push(upper_hex(n % 16))
    }
}

fn push_upper_hex(out: &mut String, n: u32, width: u8)
    ensures
        final(out)@ == old(out)@ + code_point_text(n as nat, width as nat),
    decreases n, width,
{
    let d: u8 = (n % 16) as u8;
    let digit: char = if d < 10 {
        (48u8 + d) as char
    } else {
        (55u8 + d) as char
    };
    if n < 16 && width <= 1 {
        out.push(digit);
    } else if n < 16 {
        push_upper_hex(out, 0, width - 1);
        out.push(digit);
    } else {
        push_upper_hex(
            out,
            n / 16,
            if width == 0 {
                0
            } else {
                width - 1
            },
        );
        out.push(digit);
    }
    assert(out@ =~= old(out)@ + code_point_text(n as nat, width as nat));
}

impl StyleError {
    pub open spec fn message_text(self) -> Seq<char> {
        match self {
            StyleError::GlyphMissing(c) => "Glyph not found in embedded fonts for character '"@
                + seq![c] + "' (U+"@ + code_point_text((c as u32) as nat, 4) + ")"@,
        }
    }

    /// The error in words.
    pub fn message(&self) -> (out: String)
        ensures
            out@ == self.message_text(),
    {
        match self {
            StyleError::GlyphMissing(c) => {
                let mut out: String =
                    "Glyph not found in embedded fonts for character '".to_string();
                let ghost head = out@;
                out.push(*c);
                assert(out@ =~= head + seq![*c]);
                out.append("' (U+");
                push_upper_hex(&mut out, *c as u32, 4);
                out.append(")");
                out
            },
        }
    }
}

/// The first character, from `i` on, without a glyph.
pub open spec fn missing_from(uses: Seq<FontUse>, i: int) -> Option<char>
    decreases uses.len() - i,
{
    if i < 0 || i >= uses.len() {
        None
    } else if !uses[i].has_glyph {
        Some(uses[i].c)
    } else {
        missing_from(uses, i + 1)
    }
}

/// The places of the fonts that are used, ascending.
pub open spec fn used_places(uses: Seq<FontUse>) -> Seq<u32> {
    sort::distinct_ascending(Seq::new(uses.len(), |i: int| uses[i].font))
}

/// The code points shown by one font.
pub open spec fn codes_in(uses: Seq<FontUse>, font: u32) -> Seq<u32>
    decreases uses.len(),
{
    if uses.len() == 0 {
        Seq::empty()
    } else if uses.last().font == font {
        codes_in(uses.drop_last(), font).push(uses.last().c as u32)
    } else {
        codes_in(uses.drop_last(), font)
    }
}

fn find_missing(uses: &Vec<FontUse>) -> (r: Option<char>)
    ensures
        r == missing_from(uses@, 0),
{
    let mut i: usize = 0;
    while i < uses.len()
        invariant
            i <= uses@.len(),
            missing_from(uses@, 0) == missing_from(uses@, i as int),
        decreases uses@.len() - i,
    {
        if !uses[i].has_glyph {
            return Some(uses[i].c);
        }
        i = i + 1;
    }
    None
}

/// The places of the fonts that are used, ascending.
pub fn used_fonts(uses: &Vec<FontUse>) -> (out: Vec<u32>)
    ensures
        out@ == used_places(uses@),
{
    let mut all: Vec<u32> = Vec::new();
    let mut i: usize = 0;
    while i < uses.len()
        invariant
            i <= uses@.len(),
            all@.len() == i,
            forall|k: int| 0 <= k < i ==> all@[k] == uses@[k].font,
        decreases uses@.len() - i,
    {
        all.push(uses[i].font);
        i = i + 1;
    }
    assert(all@ =~= Seq::new(uses@.len(), |i: int| uses@[i].font));
    sort_distinct(all)
}

/// The code points that one font shows, ascending.
pub fn used_code_points(uses: &Vec<FontUse>, font: u32) -> (out: Vec<u32>)
    ensures
        out@ == sort::distinct_ascending(codes_in(uses@, font)),
{
    let mut all: Vec<u32> = Vec::new();
    let mut i: usize = 0;
    while i < uses.len()
        invariant
            i <= uses@.len(),
            all@ == codes_in(uses@.take(i as int), font),
        decreases uses@.len() - i,
    {
        assert(uses@.take(i + 1).drop_last() =~= uses@.take(i as int));
        if uses[i].font == font {
            let c: char = uses[i].c;
            all.push(c as u32);
        }
        i = i + 1;
    }
    assert(uses@.take(uses@.len() as int) =~= uses@);
    sort_distinct(all)
}

/// What its permissions, and the attempt to subset it, make of a font.
pub enum EmbedPlan {
    /// The characters that are used, as WOFF2.
    Subset(Vec<u8>),
    /// Subsetting is allowed but failed.
    SubsetFailed,
    /// The font may only be embedded as a whole, for a reason.
    Full(String),
    /// The font may not be embedded, for a reason.
    Omit(String),
    /// The permissions could not be read.
    Unknown,
}

/// A font that a document can carry along.
pub struct FontData {
    pub family_name: String,
    pub weight: String,
    pub style: String,
    pub woff2: Option<Vec<u8>>,
    pub ttf: Vec<u8>,
    pub plan: EmbedPlan,
}

/// Whether OpenType data holds PostScript outlines.
pub open spec fn is_otf(ttf: Seq<u8>) -> bool {
    ttf.len() >= 4 && ttf[0] == 79 && ttf[1] == 84 && ttf[2] == 84 && ttf[3] == 79
}

/// Data of a font with its format and media type.
pub open spec fn source_text(data: Seq<u8>, mime: Seq<char>, format: Seq<char>) -> Seq<char> {
    "url(data:"@ + mime + ";base64,"@ + base64_text(data) + ") format('"@ + format + "')"@
}

impl FontData {
    /// The font as a whole.
    pub open spec fn full_source(self) -> Seq<char> {
        match self.woff2 {
            Some(w) => source_text(w@, "font/woff2"@, "woff2"@),
            None => if is_otf(self.ttf@) {
                source_text(self.ttf@, "font/opentype"@, "opentype"@)
            } else {
                source_text(self.ttf@, "font/truetype"@, "truetype"@)
            },
        }
    }

    /// The rule that declares the font with the data of `source`.
    pub open spec fn face(self, source: Seq<char>) -> Seq<char> {
        "@font-face { font-family: '"@ + self.family_name@ + "'; src: "@ + source
            + "; font-weight: "@ + self.weight@ + "; font-style: "@ + self.style@ + "; }\n"@
    }

    /// The rule of the font, with a comment where it is not a subset.
    pub open spec fn css(self) -> Seq<char> {
        match self.plan {
            EmbedPlan::Subset(b) => self.face(source_text(b@, "font/woff2"@, "woff2"@)),
            EmbedPlan::SubsetFailed => "/* Font subsetting failed for '"@ + self.family_name@
                + "'; embedding the full font data in this SVG. */\n"@ + self.face(
                self.full_source(),
            ),
            EmbedPlan::Full(reason) => "/* "@ + reason@ + " */\n"@ + self.face(self.full_source()),
            EmbedPlan::Omit(reason) => "/* "@ + reason@ + " */\n"@,
            EmbedPlan::Unknown => "/* Font permission check failed for '"@ + self.family_name@
                + "'; embedding the full font data in this SVG. */\n"@ + self.face(
                self.full_source(),
            ),
        }
    }

    fn format_full(&self) -> (out: String)
        ensures
            out@ == self.full_source(),
    {
        match &self.woff2 {
            Some(w) => format_source(w, "font/woff2", "woff2"),
            None => {
                let t: &Vec<u8> = &self.ttf;
                if t.len() >= 4 && t[0] == 79 && t[1] == 84 && t[2] == 84 && t[3] == 79 {
                    format_source(t, "font/opentype", "opentype")
                } else {
                    format_source(t, "font/truetype", "truetype")
                }
            },
        }
    }

    fn format_face(&self, source: &str) -> (out: String)
        ensures
            out@ == self.face(source@),
    {
        let mut out: String = "@font-face { font-family: '".to_string();
        out.append(self.family_name.as_str());
        out.append("'; src: ");
        out.append(source);
        out.append("; font-weight: ");
        out.append(self.weight.as_str());
        out.append("; font-style: ");
        out.append(self.style.as_str());
        out.append("; }\n");
        out
    }

    /// The rule of the font.
    pub fn to_css(&self) -> (out: String)
        ensures
            out@ == self.css(),
    {
        match &self.plan {
            EmbedPlan::Subset(b) => {
                let source: String = format_source(b, "font/woff2", "woff2");
                self.format_face(source.as_str())
            },
            EmbedPlan::SubsetFailed => {
                let mut out: String = "/* Font subsetting failed for '".to_string();
                out.append(self.family_name.as_str());
                out.append("'; embedding the full font data in this SVG. */\n");
                out.append(self.format_face(self.format_full().as_str()).as_str());
                out
            },
            EmbedPlan::Full(reason) => {
                let mut out: String = "/* ".to_string();
                out.append(reason.as_str());
                out.append(" */\n");
                out.append(self.format_face(self.format_full().as_str()).as_str());
                out
            },
            EmbedPlan::Omit(reason) => {
                let mut out: String = "/* ".to_string();
                out.append(reason.as_str());
                out.append(" */\n");
                out
            },
            EmbedPlan::Unknown => {
                let mut out: String = "/* Font permission check failed for '".to_string();
                out.append(self.family_name.as_str());
                out.append("'; embedding the full font data in this SVG. */\n");
                out.append(self.format_face(self.format_full().as_str()).as_str());
                out
            },
        }
    }
}

fn format_source(data: &Vec<u8>, mime: &str, format: &str) -> (out: String)
    ensures
        out@ == source_text(data@, mime@, format@),
{
    let mut out: String = "url(data:".to_string();
    out.append(mime);
    out.append(";base64,");
    out.append(encode_base64(data).as_str());
    out.append(") format('");
    out.append(format);
    out.append("')");
    out
}

/// The rules of the first `n` fonts of `places`, without places that hold no
/// font.
pub open spec fn faces_css(fonts: Seq<FontData>, places: Seq<u32>, n: int) -> Seq<char>
    decreases n,
{
    if n <= 0 {
        ""@
    } else {
        faces_css(fonts, places, n - 1) + (if places[n - 1] < fonts.len() {
            fonts[places[n - 1] as int].css()
        } else {
            ""@
        })
    }
}

/// The style block that carries the used fonts along.
pub open spec fn style_block_text(
    uses: Seq<FontUse>,
    fonts: Seq<FontData>,
    embed_fonts: bool,
) -> Seq<char> {
    if !embed_fonts || uses.len() == 0 {
        ""@
    } else {
        let places = used_places(uses);
        "<style>\n"@ + faces_css(fonts, places, places.len() as int) + "</style>\n"@
    }
}

/// The style block that carries the used fonts along. Without system fonts to
/// fall back on, every character must have a glyph.
pub fn generate_style_block(
    uses: &Vec<FontUse>,
    fonts: &Vec<FontData>,
    embed_fonts: bool,
    no_system_fonts: bool,
) -> (r: Result<String, StyleError>)
    ensures
        match r {
            Ok(out) => (no_system_fonts ==> missing_from(uses@, 0) is None) && out@
                == style_block_text(uses@, fonts@, embed_fonts),
            Err(StyleError::GlyphMissing(c)) => no_system_fonts && missing_from(uses@, 0)
                == Some(c),
        },
{
    if no_system_fonts {
        match find_missing(uses) {
            Some(c) => {
                return Err(StyleError::GlyphMissing(c));
            },
            None => {},
        }
    }
    if !embed_fonts || uses.len() == 0 {
        return Ok("".to_string());
    }
    let places: Vec<u32> = used_fonts(uses);
    let mut faces: String = "".to_string();
    let mut i: usize = 0;
    while i < places.len()
        invariant
            i <= places@.len(),
            faces@ == faces_css(fonts@, places@, i as int),
        decreases places@.len() - i,
    {
        let p: usize = places[i] as usize;
        if p < fonts.len() {
            faces.append(fonts[p].to_css().as_str());
        } else {
            faces.append("");
        }
        i = i + 1;
    }
    let mut out: String = "<style>\n".to_string();
    out.append(faces.as_str());
    out.append("</style>\n");
    Ok(out)
}

/// The parts of `s` between commas.
pub open spec fn comma_parts(s: Seq<char>) -> Seq<Seq<char>>
    decreases s.len(),
{
    if s.len() == 0 {
        seq![Seq::empty()]
    } else {
        let before = comma_parts(s.drop_last());
        if s.last() == ',' {
            before.push(Seq::empty())
        } else {
            before.drop_last().push(before.last().push(s.last()))
        }
    }
}

/// `s` without white space at its begin.
pub open spec fn trimmed_start(s: Seq<char>) -> Seq<char>
    decreases s.len(),
{
    if s.len() > 0 && text::is_space(s[0]) {
        trimmed_start(s.skip(1))
    } else {
        s
    }
}

/// `s` without white space around it.
pub open spec fn trimmed(s: Seq<char>) -> Seq<char> {
    text::trimmed_end(trimmed_start(s))
}

/// Fonts that a system may have.
pub const SYSTEM_FONTS: [&'static str; 6] = [
    "ui-monospace",
    "Menlo",
    "Consolas",
    "'DejaVu Sans Mono'",
    "\"DejaVu Sans Mono\"",
    "monospace",
];

/// Whether a text names a font that a system may have.
pub open spec fn is_system_font(s: Seq<char>) -> bool {
    exists|i: int| 0 <= i < 6 && text::same_but_case(s, #[trigger] SYSTEM_FONTS[i]@)
}

/// The first `n` of the parts, trimmed, without system fonts.
pub open spec fn own_fonts(parts: Seq<Seq<char>>, n: int) -> Seq<Seq<char>>
    decreases n,
{
    if n <= 0 {
        Seq::empty()
    } else {
        let before = own_fonts(parts, n - 1);
        let t = trimmed(parts[n - 1]);
        if is_system_font(t) {
            before
        } else {
            before.push(t)
        }
    }
}

/// The font families of a document: those of the options, without system fonts
/// if they are not wanted, behind the family of a font of one's own.
pub open spec fn family_text(
    family: Seq<char>,
    no_system_fonts: bool,
    primary: Option<Seq<char>>,
) -> Seq<char> {
    let parts = comma_parts(family);
    let rest = if no_system_fonts {
        text::joined(own_fonts(parts, parts.len() as int), ", "@)
    } else {
        family
    };
    match primary {
        Some(p) => "'"@ + p + "', "@ + rest,
        None => rest,
    }
}

fn names_system_font(s: &Vec<char>) -> (r: bool)
    ensures
        r == is_system_font(s@),
{
    let mut i: usize = 0;
    while i < 6
        invariant
            i <= 6,
            forall|k: int| 0 <= k < i ==> !text::same_but_case(s@, #[trigger] SYSTEM_FONTS[k]@),
        decreases 6 - i,
    {
        if is_same_but_case(s, SYSTEM_FONTS[i]) {
            return true;
        }
        i = i + 1;
    }
    false
}

fn split_commas(s: &str) -> (out: Vec<Vec<char>>)
    ensures
        out@.len() == comma_parts(s@).len(),
        forall|i: int| 0 <= i < out@.len() ==> (#[trigger] out@[i])@ == comma_parts(s@)[i],
{
    let chars: Vec<char> = to_chars(s);
    let mut out: Vec<Vec<char>> = Vec::new();
    out.push(Vec::new());
    let mut i: usize = 0;
    assert(out@[0]@ =~= comma_parts(chars@.take(0))[0]);
    while i < chars.len()
        invariant
            i <= chars@.len(),
            out@.len() > 0,
            out@.len() == comma_parts(chars@.take(i as int)).len(),
            forall|k: int|
                0 <= k < out@.len() ==> (#[trigger] out@[k])@ == comma_parts(
                    chars@.take(i as int),
                )[k],
        decreases chars@.len() - i,
    {
        assert(chars@.take(i + 1).drop_last() =~= chars@.take(i as int));
        assert(chars@.take(i + 1).last() == chars@[i as int]);
        let ghost before = out@;
        if chars[i] == ',' {
            let empty: Vec<char> = Vec::new();
            out.push(empty);
            assert(out@[before.len() as int]@ =~= Seq::empty());
        } else {
            let n: usize = out.len();
            out[n - 1].push(chars[i]);
            assert forall|k: int| 0 <= k < out@.len() implies (#[trigger] out@[k])@ == comma_parts(
                chars@.take(i + 1),
            )[k] by {
                if k < n - 1 {
                    assert(out@[k] == before[k]);
                }
            }
        }
        i = i + 1;
    }
    assert(chars@.take(chars@.len() as int) =~= s@);
    out
}

fn trim(s: &Vec<char>) -> (out: Vec<char>)
    ensures
        out@ == trimmed(s@),
{
    let mut from: usize = 0;
    assert(s@.skip(0) =~= s@);
    while from < s.len() && is_space_char(s[from])
        invariant
            from <= s@.len(),
            trimmed_start(s@) == trimmed_start(s@.skip(from as int)),
        decreases s@.len() - from,
    {
        assert(s@.skip(from as int).skip(1) =~= s@.skip(from + 1));
        from = from + 1;
    }
    assert(trimmed_start(s@) == s@.skip(from as int));
    let mut to: usize = s.len();
    let ghost rest = s@.skip(from as int);
    assert(rest.take(rest.len() as int) =~= rest);
    while to > from && is_space_char(s[to - 1])
        invariant
            from <= to <= s@.len(),
            rest == s@.skip(from as int),
            text::trimmed_end(rest) == text::trimmed_end(rest.take(to - from)),
        decreases to,
    {
        assert(rest.take(to - from).last() == s@[to - 1]);
        assert(rest.take(to - from).drop_last() =~= rest.take(to - from - 1));
        to = to - 1;
    }
    proof {
        if to > from {
            assert(rest.take(to - from).last() == s@[to - 1]);
        }
        assert(text::trimmed_end(rest) == rest.take(to - from));
    }
    let mut out: Vec<char> = Vec::new();
    let mut i: usize = from;
    while i < to
        invariant
            from <= i <= to <= s@.len(),
            out@ == s@.subrange(from as int, i as int),
        decreases to - i,
    {
        out.push(s[i]);
        i = i + 1;
        assert(out@ =~= s@.subrange(from as int, i as int));
    }
    assert(out@ =~= rest.take(to - from));
    out
}

/// The font families of a document.
pub fn select_font_family(family: &str, no_system_fonts: bool, primary: &Option<String>) -> (out:
    String)
    ensures
        out@ == family_text(
            family@,
            no_system_fonts,
            match primary {
                Some(p) => Some(p@),
                None => None,
            },
        ),
{
    let mut rest: String = family.to_string();
    if no_system_fonts {
        let parts: Vec<Vec<char>> = split_commas(family);
        let ghost p = comma_parts(family@);
        let mut kept: Vec<String> = Vec::new();
        let mut i: usize = 0;
        assert(text::texts(kept@) =~= own_fonts(p, 0));
        while i < parts.len()
            invariant
                p == comma_parts(family@),
                parts@.len() == p.len(),
                forall|k: int| 0 <= k < parts@.len() ==> (#[trigger] parts@[k])@ == p[k],
                i <= parts@.len(),
                text::texts(kept@) == own_fonts(p, i as int),
            decreases parts@.len() - i,
        {
            assert(parts@[i as int]@ == p[i as int]);
            let t: Vec<char> = trim(&parts[i]);
            let ghost before = text::texts(kept@);
            if !names_system_font(&t) {
                let n: usize = t.len();
                let s: String = chars_text(&t, 0, n);
                assert(s@ =~= t@);
                kept.push(s);
                assert(text::texts(kept@) =~= before.push(t@));
            }
            i = i + 1;
        }
        rest = join(&kept, ", ");
    }
    match primary {
        Some(p) => {
            let mut out: String = "'".to_string();
            out.append(p.as_str());
            out.append("', ");
            out.append(rest.as_str());
            out
        },
        None => rest,
    }
}

} // verus!
