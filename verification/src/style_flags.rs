//! Bits of a cell's style.
use vstd::prelude::*;

verus! {

pub const BOLD: u8 = 1;

pub const ITALIC: u8 = 2;

pub const UNDERLINE: u8 = 4;

pub const STRIKETHROUGH: u8 = 8;

pub const INVERSE: u8 = 16;

pub const DIM: u8 = 32;

} // verus!
