//! Keys that need more than the plain keyboard protocol.
use vstd::prelude::*;
use vstd::string::*;

use crate::script::{KeyAction, KeySpec};
use crate::text;
use crate::text::join;

verus! {

/// Flags of the kitty keyboard protocol.
#[derive(Debug, Clone, Copy, PartialEq, Eq, Structural)]
pub struct KittyFlags {
    pub bits: u8,
}

pub const DISAMBIGUATE: u8 = 1;

pub const REPORT_EVENTS: u8 = 2;

pub const REPORT_ALTERNATES: u8 = 4;

pub const REPORT_ALL: u8 = 8;

pub const REPORT_ASSOCIATED: u8 = 16;

/// Whether a key can only be told apart by the extended protocol: a release, or a
/// key held with super.
pub open spec fn needs_extended(spec: KeySpec, action: KeyAction) -> bool {
    action == KeyAction::Release || spec.mods.super_key
}

/// Whether a key can only be told apart by the extended protocol.
pub fn key_requires_kitty_extended(spec: &KeySpec, action: KeyAction) -> (r: bool)
    ensures
        r == needs_extended(*spec, action),
{
    action == KeyAction::Release || spec.mods.super_key
}

/// What is said of a key that the terminal cannot send.
pub const KITTY_WARNING: &'static str =
    "key event likely requires kitty extended keyboard protocol, but kitty mode is disabled";

/// The warning for a key that needs the extended protocol while it is disabled.
pub fn warn_if_kitty_extended_required(
    spec: &KeySpec,
    action: KeyAction,
    flags: KittyFlags,
) -> (r: Option<String>)
    ensures
        match r {
            Some(m) => needs_extended(*spec, action) && flags.bits == 0 && m@ == KITTY_WARNING@,
            None => !needs_extended(*spec, action) || flags.bits != 0,
        },
{
    if key_requires_kitty_extended(spec, action) && flags.bits == 0 {
        Some(KITTY_WARNING.to_string())
    } else {
        None
    }
}

/// The names of the flags that are set, in their order.
pub open spec fn flag_names(bits: u8) -> Seq<Seq<char>> {
    let n1 = if bits & DISAMBIGUATE != 0 {
        Seq::<Seq<char>>::empty().push("DISAMBIGUATE"@)
    } else {
        Seq::<Seq<char>>::empty()
    };
    let n2 = if bits & REPORT_EVENTS != 0 {
        n1.push("REPORT_EVENTS"@)
    } else {
        n1
    };
    let n3 = if bits & REPORT_ALTERNATES != 0 {
        n2.push("REPORT_ALTERNATES"@)
    } else {
        n2
    };
    let n4 = if bits & REPORT_ALL != 0 {
        n3.push("REPORT_ALL"@)
    } else {
        n3
    };
    if bits & REPORT_ASSOCIATED != 0 {
        n4.push("REPORT_ASSOCIATED"@)
    } else {
        n4
    }
}

/// The flags in words.
pub open spec fn flags_text(flags: KittyFlags) -> Seq<char> {
    if flags.bits == 0 {
        "disabled"@
    } else if flag_names(flags.bits).len() == 0 {
        text::joined(seq!["UNKNOWN"@], "+"@)
    } else {
        text::joined(flag_names(flags.bits), "+"@)
    }
}

fn push_name(names: &mut Vec<String>, name: &str)
    ensures
        text::texts(final(names)@) == text::texts(old(names)@).push(name@),
{
    names.push(name.to_string());
    assert(text::texts(names@) =~= text::texts(old(names)@).push(name@));
}

/// The flags in words: their names, joined by plus signs.
pub fn format_kitty_flags(flags: KittyFlags) -> (out: String)
    ensures
        out@ == flags_text(flags),
{
    if flags.bits == 0 {
        return "disabled".to_string();
    }
    let mut names: Vec<String> = Vec::new();
    assert(text::texts(names@) =~= Seq::empty());
    if flags.bits & DISAMBIGUATE != 0 {
        push_name(&mut names, "DISAMBIGUATE");
    }
    if flags.bits & REPORT_EVENTS != 0 {
        push_name(&mut names, "REPORT_EVENTS");
    }
    if flags.bits & REPORT_ALTERNATES != 0 {
        push_name(&mut names, "REPORT_ALTERNATES");
    }
    if flags.bits & REPORT_ALL != 0 {
        push_name(&mut names, "REPORT_ALL");
    }
    if flags.bits & REPORT_ASSOCIATED != 0 {
        push_name(&mut names, "REPORT_ASSOCIATED");
    }
    assert(names@.len() == text::texts(names@).len());
    if names.len() == 0 {
        push_name(&mut names, "UNKNOWN");
        assert(text::texts(names@) =~= seq!["UNKNOWN"@]);
    }
    join(&names, "+")
}

} // verus!
