//! How many workers share a shift.

use vstd::prelude::*;

verus! {

/// The worker count for a detected number of processors: that number, but at least
/// one, and no more than a `u32` holds.
pub open spec fn workers_for(detected: usize) -> u32 {
    if detected < 1 {
        1
    } else if detected > u32::MAX {
        u32::MAX
    } else {
        detected as u32
    }
}

/// The number of logical processors that `num_cpus::get` reports.
///
/// Nothing is taken on trust of the number: it depends on the machine, and on what
/// the process is allowed to use of it. Its documentation promises at least one, but
/// the count is brought into range all the same, so nothing rests on the promise.
#[verifier::external_body]
fn detected_processors() -> (n: usize) {
    num_cpus::get()
}

/// Turns a detected number of processors into a worker count.
pub fn worker_count_for(detected: usize) -> (workers: u32)
    ensures
        workers == workers_for(detected),
        workers >= 1,
{
    if detected < 1 {
        1
    } else if detected > u32::MAX as usize {
        u32::MAX
    } else {
        detected as u32
    }
}

/// The worker count for this machine: one worker for each logical processor.
///
/// To be asked once, at startup; the shifts take the count as a parameter.
pub fn worker_count() -> (workers: u32)
    ensures
        workers >= 1,
{
    worker_count_for(detected_processors())
}

} // verus!
