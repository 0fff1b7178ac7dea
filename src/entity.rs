use vstd::prelude::*;
use crate::pod::Pod;

verus! {

/// The result of parsing a document.
#[derive(Debug, PartialEq)]
pub struct ParsedEntity<D = Pod> {
    /// The front matter, if a non-empty block was found and its format accepted it.
    pub data: Option<D>,
    /// The input without the metadata block and its delimiter lines; it includes the excerpt.
    pub content: String,
    /// The excerpt, if its delimiter was found.
    pub excerpt: Option<String>,
    /// The input as given.
    pub orig: String,
    /// The trimmed text of the metadata block; empty if none was found.
    pub matter: String,
}

} // verus!
