use vstd::prelude::*;
use crate::error::Error;
use crate::pod::Pod;

verus! {

/// A front-matter format: turns the text of a metadata block into a [`Pod`].
///
/// An engine that finds the block empty (only comments, say) returns `Pod::Null`.
pub trait Engine {
    fn parse(content: &str) -> Result<Pod, Error>;
}

} // verus!
