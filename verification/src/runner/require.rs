//! The programs that a script requires.
use vstd::prelude::*;
use vstd::string::*;

use crate::text;
use crate::text::join;

verus! {

/// Those of the first `n` programs that were not found.
pub open spec fn missing(required: Seq<String>, found: Seq<bool>, n: int) -> Seq<Seq<char>>
    decreases n,
{
    if n <= 0 {
        Seq::empty()
    } else {
        let before = missing(required, found, n - 1);
        if found[n - 1] {
            before
        } else {
            before.push(required[n - 1]@)
        }
    }
}

/// What is said of programs that were not found.
pub open spec fn missing_message(names: Seq<Seq<char>>) -> Seq<char> {
    "the following `Require`d program(s) were not found on $PATH: "@ + text::joined(names, ", "@)
        + ". Install them or remove the `Require` directive(s) from the tape."@
}

/// Check that every program was found; the message names all that were not.
pub fn enforce_require(required: &Vec<String>, found: &Vec<bool>) -> (r: Result<(), String>)
    requires
        found@.len() == required@.len(),
    ensures
        match r {
            Ok(_) => missing(required@, found@, required@.len() as int).len() == 0,
            Err(m) => missing(required@, found@, required@.len() as int).len() > 0 && m@
                == missing_message(missing(required@, found@, required@.len() as int)),
        },
{
    let mut names: Vec<String> = Vec::new();
    let mut i: usize = 0;
    assert(text::texts(names@) =~= Seq::empty());
    while i < required.len()
        invariant
            found@.len() == required@.len(),
            i <= required@.len(),
            text::texts(names@) == missing(required@, found@, i as int),
        decreases required@.len() - i,
    {
        if !found[i] {
            let ghost before = text::texts(names@);
            names.push(required[i].clone());
            assert(text::texts(names@) =~= before.push(required@[i as int]@));
        }
        i = i + 1;
    }
    assert(names@.len() == text::texts(names@).len());
    if names.len() == 0 {
        return Ok(());
    }
    let mut m: String = "the following `Require`d program(s) were not found on $PATH: ".to_string();
    let list: String = join(&names, ", ");
    m.append(list.as_str());
    m.append(". Install them or remove the `Require` directive(s) from the tape.");
    Err(m)
}

/// Whether a program is named by its path, so that no directory is searched:
/// `separators` holds the characters that separate the parts of a path.
pub fn is_literal_path(prog: &Vec<char>, separators: &Vec<char>) -> (r: bool)
    ensures
        r == exists|i: int, k: int|
            0 <= i < prog@.len() && 0 <= k < separators@.len() && #[trigger] prog@[i]
                == #[trigger] separators@[k],
{
    let mut i: usize = 0;
    while i < prog.len()
        invariant
            i <= prog@.len(),
            forall|a: int, b: int|
                0 <= a < i && 0 <= b < separators@.len() ==> #[trigger] prog@[a]
                    != #[trigger] separators@[b],
        decreases prog@.len() - i,
    {
        let mut k: usize = 0;
        while k < separators.len()
            invariant
                i < prog@.len(),
                k <= separators@.len(),
                forall|b: int| 0 <= b < k ==> prog@[i as int] != #[trigger] separators@[b],
            decreases separators@.len() - k,
        {
            if prog[i] == separators[k] {
                assert(prog@[i as int] == separators@[k as int]);
                return true;
            }
            k = k + 1;
        }
        i = i + 1;
    }
    false
}

} // verus!
