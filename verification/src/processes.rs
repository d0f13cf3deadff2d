//! Thread scheduling states.

use vstd::prelude::*;

verus! {

/// Where a thread stands in its lifecycle; a sleeping thread carries the
/// tick it wants to wake at.
#[derive(Debug, Clone)]
pub enum ThreadState {
    NotStarted,
    Ready,
    Running,
    Sleeping(u64),
    Terminated,
}

} // verus!
