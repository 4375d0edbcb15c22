//! Resolving a category to the article titles inside it.

use vstd::prelude::*;

use crate::error::TomeError;

verus! {

/// Finds the article titles of a category, following subcategories `depth`
/// levels down (0 is the category alone).
pub trait CategoryResolver {
    /// The titles inside `category`.
    fn resolve(&self, category: &str, depth: u8) -> Result<Vec<String>, TomeError>;
}

/// A resolver that finds nothing.
pub struct NoopResolver;

impl CategoryResolver for NoopResolver {
    /// Always an empty list.
    fn resolve(&self, category: &str, depth: u8) -> (r: Result<Vec<String>, TomeError>)
        ensures
            r matches Ok(v) && v@.len() == 0,
    {
        Ok(Vec::new())
    }
}

} // verus!
