//! The text on the screen, and waiting for it.
use vstd::prelude::*;
use vstd::string::*;

use crate::script::WaitScope;
use crate::text;
use crate::text::is_space_char;

verus! {

/// The first `n` cells of a row: their characters, a space for a cell without any.
pub open spec fn row_text(cells: Seq<Vec<char>>, n: int) -> Seq<char>
    decreases n,
{
    if n <= 0 {
        Seq::empty()
    } else {
        row_text(cells, n - 1) + (if cells[n - 1]@.len() == 0 {
            seq![' ']
        } else {
            cells[n - 1]@
        })
    }
}

/// A row of the screen.
pub open spec fn line(cells: Seq<Vec<char>>) -> Seq<char> {
    text::trimmed_end(row_text(cells, cells.len() as int))
}

/// The first `n` lines, each with its end.
pub open spec fn lines(rows: Seq<Vec<Vec<char>>>, n: int) -> Seq<char>
    decreases n,
{
    if n <= 0 {
        Seq::empty()
    } else {
        (lines(rows, n - 1) + line(rows[n - 1]@)).push('\n')
    }
}

/// The last of the first `n` lines that is not empty.
pub open spec fn last_line(rows: Seq<Vec<Vec<char>>>, n: int) -> Seq<char>
    decreases n,
{
    if n <= 0 {
        Seq::empty()
    } else if line(rows[n - 1]@).len() > 0 {
        line(rows[n - 1]@)
    } else {
        last_line(rows, n - 1)
    }
}

/// What a wait looks at.
pub open spec fn screen_text(rows: Seq<Vec<Vec<char>>>, scope: WaitScope) -> Seq<char> {
    match scope {
        WaitScope::Line => last_line(rows, rows.len() as int),
        WaitScope::Screen => lines(rows, rows.len() as int),
    }
}

/// Nothing is lost to trimming but white space, and what is left does not end in
/// it.
pub proof fn lemma_trimmed(s: Seq<char>)
    ensures
        text::trimmed_end(s).len() <= s.len(),
        text::trimmed_end(s) == s.take(text::trimmed_end(s).len() as int),
        text::trimmed_end(s).len() > 0 ==> !text::is_space(text::trimmed_end(s).last()),
        forall|i: int| text::trimmed_end(s).len() <= i < s.len() ==> text::is_space(#[trigger] s[i]),
    decreases s.len(),
{
    if s.len() > 0 && text::is_space(s.last()) {
        let t = s.drop_last();
        lemma_trimmed(t);
        assert(t.take(text::trimmed_end(t).len() as int) =~= s.take(text::trimmed_end(t).len() as int));
        assert forall|i: int| text::trimmed_end(s).len() <= i < s.len() implies text::is_space(
            #[trigger] s[i],
        ) by {
            if i < t.len() {
                assert(t[i] == s[i]);
            }
        }
    } else {
        assert(s.take(s.len() as int) =~= s);
    }
}

fn read_row(cells: &Vec<Vec<char>>) -> (out: Vec<char>)
    ensures
        out@ == line(cells@),
{
    let mut out: Vec<char> = Vec::new();
    let mut i: usize = 0;
    while i < cells.len()
        invariant
            i <= cells@.len(),
            out@ == row_text(cells@, i as int),
        decreases cells@.len() - i,
    {
        let ghost before = out@;
        if cells[i].len() == 0 {
            out.push(' ');
            assert(out@ =~= before + seq![' ']);
        } else {
            let ghost cell = cells@[i as int]@;
            let mut k: usize = 0;
            while k < cells[i].len()
                invariant
                    i < cells@.len(),
                    cell == cells@[i as int]@,
                    k <= cell.len(),
                    out@ == before + cell.take(k as int),
                decreases cell.len() - k,
            {
                out.push(cells[i][k]);
                assert(out@ =~= before + cell.take(k + 1));
                k = k + 1;
            }
            assert(cell.take(cell.len() as int) =~= cell);
        }
        i = i + 1;
    }
    let ghost all = out@;
    let mut n: usize = out.len();
    assert(all.take(all.len() as int) =~= all);
    while n > 0 && is_space_char(out[n - 1])
        invariant
            out@ == all,
            n <= all.len(),
            text::trimmed_end(all) == text::trimmed_end(all.take(n as int)),
        decreases n,
    {
        assert(all.take(n as int).drop_last() =~= all.take(n - 1));
        assert(all.take(n as int).last() == all[n - 1]);
        n = n - 1;
    }
    proof {
        if n > 0 {
            assert(all.take(n as int).last() == all[n - 1]);
        }
    }
    out.truncate(n);
    assert(out@ =~= all.take(n as int));
    out
}

fn push_chars(out: &mut String, chars: &Vec<char>)
    ensures
        final(out)@ == old(out)@ + chars@,
{
    let mut i: usize = 0;
    while i < chars.len()
        invariant
            i <= chars@.len(),
            out@ == old(out)@ + chars@.take(i as int),
        decreases chars@.len() - i,
    {
        out.push(chars[i]);
        assert(out@ =~= old(out)@ + chars@.take(i + 1));
        i = i + 1;
    }
    assert(chars@.take(chars@.len() as int) =~= chars@);
}

/// What a wait looks at, the screen being given as the characters of each cell.
pub fn read_screen_text(rows: &Vec<Vec<Vec<char>>>, scope: WaitScope) -> (out: String)
    ensures
        out@ == screen_text(rows@, scope),
{
    let mut last: Vec<char> = Vec::new();
    let mut all: String = String::new();
    let mut i: usize = 0;
    while i < rows.len()
        invariant
            i <= rows@.len(),
            all@ == lines(rows@, i as int),
            last@ == last_line(rows@, i as int),
        decreases rows@.len() - i,
    {
        let row: Vec<char> = read_row(&rows[i]);
        push_chars(&mut all, &row);
        all.push('\n');
        if row.len() > 0 {
            last = row;
        }
        i = i + 1;
    }
    match scope {
        WaitScope::Line => {
            let mut out: String = String::new();
            push_chars(&mut out, &last);
            assert(out@ =~= last@);
            out
        },
        WaitScope::Screen => all,
    }
}

/// Whether a text is a regular expression to `regex::Regex::new`.
pub uninterp spec fn is_regex(pattern: Seq<char>) -> bool;

/// Whether `regex::Regex::is_match` finds a match of the pattern anywhere in the
/// text.
pub uninterp spec fn regex_found(pattern: Seq<char>, text: Seq<char>) -> bool;

/// Whether `regex::Regex::new` accepts the pattern: trusted to depend on the
/// pattern alone.
#[verifier::external_body]
fn pattern_ok(pattern: &str) -> (r: bool)
    ensures
        r == is_regex(pattern@),
{
    regex::Regex::new(pattern).is_ok()
}

/// Whether `regex::Regex::is_match` finds a match: trusted to depend on the pattern
/// and the text alone.
#[verifier::external_body]
fn pattern_found(pattern: &str, text: &str) -> (r: bool)
    requires
        is_regex(pattern@),
    ensures
        r == regex_found(pattern@, text@),
{
    match regex::Regex::new(pattern) {
        Ok(re) => re.is_match(text),
        Err(_) => false,
    }
}

/// Whether a wait can look for the pattern.
pub fn is_wait_pattern(pattern: &str) -> (r: bool)
    ensures
        r == is_regex(pattern@),
{
    pattern_ok(pattern)
}

/// Whether the pattern of a wait is on the screen.
pub fn matches_wait(rows: &Vec<Vec<Vec<char>>>, scope: WaitScope, pattern: &str) -> (r: bool)
    ensures
        r == (is_regex(pattern@) && regex_found(pattern@, screen_text(rows@, scope))),
{
    if !pattern_ok(pattern) {
        return false;
    }
    let text: String = read_screen_text(rows, scope);
    pattern_found(pattern, text.as_str())
}

} // verus!
