//! Frame profiling hooks (the build without the profiler attached).

use vstd::prelude::*;

verus! {

/// Marks the end of a frame for the profiler; without a profiler it does nothing.
pub fn mark_frame() {
}

/// Whether memory tracking was set up, with a note for the user. Without a
/// profiler there is none.
pub fn setup_memory_tracking() -> (r: Option<&'static str>)
    ensures
        r is None,
{
    None
}

} // verus!
