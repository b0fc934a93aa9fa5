//! Transfer speed, measured over windows of at least a second.
use vstd::prelude::*;

verus! {

/// Shortest time between two speed samples, in nanoseconds.
pub const SAMPLE_WINDOW_NS: u64 = 1_000_000_000;

/// Bytes per second over `elapsed_ns` nanoseconds, rounded down and
/// capped at the largest `u32`.
pub open spec fn rate_of(bytes: nat, elapsed_ns: nat) -> u32 {
    let r = bytes * 1_000_000_000 / elapsed_ns;
    if r > u32::MAX {
        u32::MAX
    } else {
        r as u32
    }
}

/// The speed of a transfer, from the bytes done at two moments.
pub struct SpeedMeter {
    last: Option<(u64, u64)>,
    bps: u32,
}

impl SpeedMeter {
    /// The moment (nanoseconds on a monotonic clock) and byte count of the
    /// last sample kept.
    pub closed spec fn last(&self) -> Option<(u64, u64)> {
        self.last
    }

    /// The last speed measured.
    pub closed spec fn rate(&self) -> u32 {
        self.bps
    }

    pub fn new() -> (m: Self)
        ensures
            m.last() is None,
            m.rate() == 0,
    {
        SpeedMeter { last: None, bps: 0 }
    }

    /// Takes a sample at `now_ns`.  The first one only sets the start; a
    /// later one at least a window after the last kept, with no fewer
    /// bytes done, measures the speed since then.  The speed is returned.
    pub fn sample(&mut self, now_ns: u64, bytes_done: u64) -> (bps: u32)
        ensures
            match old(self).last() {
                None => final(self).last() == Some((now_ns, bytes_done)) && final(self).rate()
                    == old(self).rate(),
                Some((at, bytes)) => if now_ns >= at && now_ns - at >= SAMPLE_WINDOW_NS
                    && bytes_done >= bytes {
                    final(self).rate() == rate_of((bytes_done - bytes) as nat, (now_ns - at) as nat)
                        && final(self).last() == Some((now_ns, bytes_done))
                } else {
                    final(self).rate() == old(self).rate() && final(self).last() == old(self).last()
                },
            },
            bps == final(self).rate(),
    {
        match self.last {
            None => {
                self.last = Some((now_ns, bytes_done));
            },
            Some((at, bytes)) => {
                if now_ns >= at && now_ns - at >= SAMPLE_WINDOW_NS && bytes_done >= bytes {
                    let delta = (bytes_done - bytes) as u128;
                    let elapsed = (now_ns - at) as u128;
                    assert(delta * 1_000_000_000 <= u128::MAX) by (nonlinear_arith)
                        requires
                            delta <= u64::MAX,
                    ;
                    let r = delta * 1_000_000_000 / elapsed;
                    self.bps = if r > 0xffff_ffff {
                        0xffff_ffff
                    } else {
                        r as u32
                    };
                    self.last = Some((now_ns, bytes_done));
                }
            },
        }
        self.bps
    }

    /// Forgets the samples and the speed.
    pub fn reset(&mut self)
        ensures
            final(self).last() is None,
            final(self).rate() == 0,
    {
        self.last = None;
        self.bps = 0;
    }
}

} // verus!
