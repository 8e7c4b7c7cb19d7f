//! Defaults of online change-point detection that are not floating point.
use vstd::prelude::*;

verus! {

/// Default maximum run length to track; older run-length hypotheses are
/// truncated.
pub fn default_max_run_length() -> (n: usize)
    ensures
        n == 1000,
{
    1000
}

} // verus!
