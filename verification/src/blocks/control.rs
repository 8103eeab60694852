use vstd::prelude::*;
use crate::text::Text;

verus! {

/// A directive consumed by the document itself, invisible in the output.
#[derive(Debug)]
pub enum DocumentControl {
    /// The document title; the first writer wins.
    Title(Text),
    /// One stylesheet link; these accumulate.
    Stylesheet(Text),
    /// The document author; the first writer wins.
    Author(Text),
    /// The document description; the first writer wins.
    Description(Text),
    /// The document language; the first writer wins.
    Lang(Text),
    /// Another input source to read, parse and add in place.
    Import(Text),
}

} // verus!
