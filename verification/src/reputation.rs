//! The reputation that a chunk needs before it is fetched.

use vstd::prelude::*;

verus! {

/// The lowest reputation with which a chunk is still trusted.
pub const REPUTATION_THRESHOLD: isize = -3;

/// Whether a chunk of reputation `score` is trusted.
pub open spec fn passes_spec(score: int) -> bool {
    score >= REPUTATION_THRESHOLD
}

/// Decides whether a chunk of reputation `score` may be trusted.
pub fn passes(score: isize) -> (ok: bool)
    ensures
        ok == passes_spec(score as int),
{
    score >= REPUTATION_THRESHOLD
}

} // verus!
