//! The model of a `Result` whose sides have models.

use vstd::prelude::*;

verus! {

/// The model of an outcome: the model of what it holds on either side.
pub open spec fn outcome_view<T: View, E: View>(outcome: Result<T, E>) -> Result<T::V, E::V> {
    match outcome {
        Ok(value) => Ok(value@),
        Err(error) => Err(error@),
    }
}

} // verus!
