//! The marker of entities that the tick simulation drives.

use vstd::prelude::*;

verus! {

/// Only entities that carry this marker are advanced by the tick passes. On
/// a client those are the predictions; the sources they mirror are not.
#[derive(Clone, Copy, Debug, PartialEq, Eq, Structural)]
pub struct Controlled;

} // verus!
