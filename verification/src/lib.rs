//! A compiler for a line-oriented markup language: blocks separated by
//! blank lines are scanned for directives, headings and inline markup,
//! assembled into a numbered document tree with ids, cross references and
//! replacements, and rendered as an HTML document.
use vstd::prelude::*;

pub mod blocks;
pub mod document;
pub mod errors;
pub mod html;
pub mod input;
pub mod laws;
pub mod parse;
pub mod strutil;
pub mod text;

verus! {

} // verus!
