//! Keeping the instruction cache and the pipeline in step with code that was
//! just written, for machines on which the instruction cache follows the data
//! path by itself: there is nothing to do. For machines on which it does not,
//! `line_sweep` says which lines are to be invalidated.

use vstd::prelude::*;

verus! {

/// Ensures that the cache lines covered by `slice` are invalidated in the
/// instruction cache. With a coherent instruction cache this is a no-op.
pub fn invalidate_icache_lines(_slice: &[u8]) {
}

/// Ensures the instruction pipeline is brought fully up to date with any
/// previous writes and cache invalidations. With a coherent instruction cache
/// this is a no-op.
pub fn invalidate_pipeline() {
}

} // verus!
