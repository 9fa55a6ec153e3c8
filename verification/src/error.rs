//! Failures that a request can end in.

use vstd::prelude::*;

verus! {

/// Why a request produced no page.
#[derive(Debug, Clone, Copy, PartialEq, Eq, Structural)]
pub enum Error {
    /// The store could not be reached or could not run the query.
    StoreUnavailable,
    /// The flat rows handed to the chain reconstructor are not grouped and
    /// ordered the way a ranked ascent delivers them.
    MalformedAscentInput,
}

} // verus!
