use vstd::prelude::*;

use crate::madeleine_error::MadeleineError;

verus! {

/// Result type used throughout the library.
pub type Result<T, E = MadeleineError> = core::result::Result<T, E>;

} // verus!
