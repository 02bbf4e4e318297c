//! The highest tile row a player has reached.

use vstd::prelude::*;

verus! {

#[derive(Clone, Copy, Debug, PartialEq, Eq, Structural)]
pub struct Score {
    pub value: u16,
}

impl Score {
    pub fn new() -> (s: Score)
        ensures
            s.value == 0,
    {
        Score { value: 0 }
    }
}

} // verus!
