//! Concurrency policy: map a logical-CPU count to a bounded intra-batch
//! fan-out.

use vstd::prelude::*;

verus! {

/// The fan-out that a plan built for `logical` logical CPUs may use:
/// half the CPU count, rounded up, clamped to the range `[1, 4]`.
pub open spec fn spec_concurrency(logical: nat) -> nat {
    if logical == 0 {
        1
    } else if (logical + 1) / 2 < 4 {
        (logical + 1) / 2
    } else {
        4
    }
}

/// Bounded intra-batch fan-out for a machine with `logical` logical CPUs.
///
/// `min(4, ceil(logical / 2))`, and `1` when `logical` is `0`.
pub fn compute_concurrency(logical: usize) -> (r: usize)
    ensures
        r == spec_concurrency(logical as nat),
        1 <= r <= 4,
        logical >= 1 ==> r == if (logical + 1) / 2 < 4 {
            (logical + 1) / 2 as int
        } else {
            4
        },
{
    if logical == 0 {
        return 1;
    }
    let half = logical / 2 + logical % 2;
    if half < 4 {
        half
    } else {
        4
    }
}

} // verus!
