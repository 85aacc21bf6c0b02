//! A pattern-driven syntax highlighting engine.
//!
//! Given source text and a language identifier, the engine assigns a display
//! color to every character of the text using priority-ordered regular
//! expression rule groups, and emits a flat sequence of colored ranges
//! ("tokens") that exactly reconstruct the input when concatenated.

use vstd::prelude::*;

pub mod color;
pub mod driver;
pub mod highlight;
pub mod rematch;
pub mod rules;
mod strutil;
pub mod viewer;

verus! {

/// The fallback color used for characters no pattern group claims,
/// and for a color string that cannot be parsed.
pub open spec fn default_color() -> Seq<char> {
    "#ffffff"@
}

} // verus!
