//! Boilerplate removal for HTML documents.
//!
//! The crate segments a parsed HTML tree into an ordered sequence of text
//! paragraphs, classifies each paragraph as content or boilerplate by a
//! density-based heuristic, revises the classification from neighbour
//! context, and renders the retained text.

use vstd::prelude::*;

pub mod justtext;
pub mod laws;
pub mod parser;
pub mod tools;

verus! {

/// The ways the extraction core can fail.
///
/// Loading the stopword dictionary and parsing HTML happen outside this
/// crate; their failures are reported through these variants by the caller.
#[derive(Clone, Copy, Debug, PartialEq, Eq, Structural)]
pub enum JustextError {
    /// The HTML document has no root element.
    MissingRoot,
    /// The stopword dictionary could not be loaded; processing must not start.
    NoStopwordDictionary,
    /// A configured threshold is out of its valid range.
    MalformedConfig,
}

} // verus!
