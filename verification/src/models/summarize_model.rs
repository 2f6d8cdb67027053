//! What the library knows of summarising text.

use vstd::prelude::*;

verus! {

/// Why a summary could not be made: the summarisation model could not be
/// loaded.
#[derive(Debug, Clone)]
pub struct SummaryModelError;

} // verus!
