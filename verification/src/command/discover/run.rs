//! Forcing all participants to announce themselves again.

use crate::command::protocol::{DiscoverRequest, DiscoverResponse};
use vstd::prelude::*;

verus! {

/// Confirms that the announcement has been forced.
pub fn build_response(_request: DiscoverRequest) -> (r: DiscoverResponse)
    ensures
        r.triggered,
{
    DiscoverResponse { triggered: true }
}

} // verus!
