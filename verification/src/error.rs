//! What can go wrong.

use vstd::prelude::*;

verus! {

/// The ways in which an input can be at fault. Each variant that holds a
/// string holds the input that was refused, but for `Parse`, which holds the
/// parser's account of the document.
#[derive(Debug, PartialEq, Eq)]
pub enum RecolourError {
    /// The palette document is not a mapping from names to lists of strings.
    Parse(String),
    /// A colour is not written as six hexadecimal digits, with or without a
    /// leading `#`.
    InvalidColor(String),
    /// The catalogue holds no scheme of this name.
    UnknownScheme(String),
    /// The palette holds no colour to choose from.
    EmptyPalette,
    /// The selection is not the number of an entry of the list.
    InvalidSelection(String),
}

} // verus!
