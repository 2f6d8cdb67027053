//! Cephalon: the verified core of a knowledge-base assistant that turns a
//! directory of documents into text chunks ready for semantic search.

use vstd::prelude::*;

pub mod cli;
pub mod database;
pub mod document;
pub mod documents;
pub mod knowledge_base;
pub mod models;

verus! {

/// Adds two numbers.
pub fn add(left: usize, right: usize) -> (sum: usize)
    requires
        left + right <= usize::MAX,
    ensures
        sum == left + right,
{
    left + right
}

} // verus!
