//! Keeping a file transfer under a rate: after each chunk the transfer
//! waits until the bytes of the current window would have taken that long
//! at the rate, and a window that reached a second's worth starts over.
use vstd::prelude::*;

verus! {

/// What pacing decides after a chunk.
#[derive(Debug, Clone, Copy, PartialEq, Eq, Structural)]
pub struct PaceStep {
    /// How long to wait, in nanoseconds.
    pub wait_ns: u64,
    /// The bytes the window holds after the wait.
    pub window_bytes: u64,
    /// A new window starts after the wait.
    pub restart: bool,
}

/// The nanoseconds `bytes` take at `limit_bps` bytes a second, at most
/// `u64::MAX`.
pub open spec fn time_for(bytes: u64, limit_bps: u64) -> int {
    let t = bytes * 1_000_000_000 / (limit_bps as int);
    if t > u64::MAX { u64::MAX as int } else { t }
}

/// The step after `count` more bytes, with the window started
/// `elapsed_ns` ago and `window_bytes` in it; a limit of 0 means none.
pub fn pace_step(window_bytes: u64, count: u64, limit_bps: u64, elapsed_ns: u64) -> (p: PaceStep)
    ensures
        limit_bps == 0 ==> p == (PaceStep { wait_ns: 0, window_bytes: 0, restart: true }),
        limit_bps > 0 ==> {
            let w: u64 = if window_bytes + count > u64::MAX { u64::MAX } else { (window_bytes + count) as u64 };
            &&& p.wait_ns == if time_for(w, limit_bps) > elapsed_ns {
                time_for(w, limit_bps) - elapsed_ns
            } else {
                0
            }
            &&& p.restart == (w >= limit_bps)
            &&& p.window_bytes == if w >= limit_bps { 0 } else { w }
        },
{
    if limit_bps == 0 {
        return PaceStep { wait_ns: 0, window_bytes: 0, restart: true };
    }
    let w = window_bytes.saturating_add(count);
    let t128: u128 = (w as u128) * 1_000_000_000u128 / (limit_bps as u128);
    let t: u64 = if t128 > u64::MAX as u128 { u64::MAX } else { t128 as u64 };
    let wait_ns = if t > elapsed_ns { t - elapsed_ns } else { 0 };
    let restart = w >= limit_bps;
    PaceStep { wait_ns, window_bytes: if restart { 0 } else { w }, restart }
}

} // verus!
