//! Verified core of two small puzzle computations over line-based input:
//! a sliding-window depth-change counter and a submarine navigator that
//! accumulates position from movement commands.

pub mod depth;
pub mod navigation;
pub mod parsing;

use vstd::prelude::*;

verus! {

/// Copy a string slice into an owned `String` with the same characters.
pub fn hstr(s: &str) -> (r: String)
    ensures
        r@ == s@,
{
    s.to_owned()
}

} // verus!
