//! Errors reported by the engine.

use vstd::prelude::*;

verus! {

/// A configuration the engine cannot run with.
#[derive(Debug, Clone)]
pub enum PyinError {
    InvalidConfig(String),
}

} // verus!
