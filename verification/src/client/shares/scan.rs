//! Share scanning: progress reporting.
use vstd::prelude::*;

verus! {

/// Files between two progress notifications of a scan.
pub const PROGRESS_INTERVAL: u64 = 1000;

/// Count of files scanned so far.
pub struct Progress {
    count: u64,
}

impl View for Progress {
    type V = u64;

    closed spec fn view(&self) -> u64 {
        self.count
    }
}

impl Progress {
    pub fn new() -> (p: Self)
        ensures
            p@ == 0,
    {
        Progress { count: 0 }
    }

    /// Counts one more file; the new count when it is a multiple of the
    /// interval, so that the scan's observer is told.
    pub fn add(&mut self) -> (notify: Option<u64>)
        ensures
            final(self)@ == (old(self)@ as int + 1) % 0x1_0000_0000_0000_0000,
            notify == if final(self)@ % PROGRESS_INTERVAL == 0 {
                Some(final(self)@)
            } else {
                None::<u64>
            },
    {
        self.count = self.count.wrapping_add(1);
        if self.count % PROGRESS_INTERVAL == 0 {
            Some(self.count)
        } else {
            None
        }
    }
}

/// Between two notifications exactly `PROGRESS_INTERVAL` files are counted:
/// counting from a notified count, the next notification comes after that
/// many more files and not before.
pub proof fn law_progress_interval(count: u64, more: u64)
    requires
        count % PROGRESS_INTERVAL == 0,
        0 < more,
        count as int + more < 0x1_0000_0000_0000_0000,
    ensures
        ((count + more) as u64 % PROGRESS_INTERVAL == 0) == (more % PROGRESS_INTERVAL == 0),
{
}

} // verus!
