//! Downloads and uploads: where files land, and the state of each transfer.

pub mod downloads;
pub mod files;
pub mod folders;
pub mod queue;
pub mod registry;
pub mod uploads;

use vstd::prelude::*;

use crate::types::{TransferDirection, TransferId, TransferSnapshot, TransferStatus};

verus! {

/// Answer to a request to download a file.
#[must_use]
#[derive(Debug, Clone, Copy, PartialEq, Eq, Structural)]
pub enum EnqueueResult {
    Enqueued,
    AlreadyActive,
}

/// Answer to a request to retry a download.
#[must_use]
#[derive(Debug, Clone, Copy, PartialEq, Eq, Structural)]
pub enum RetryResult {
    Requeued,
    AlreadyActive,
    NotFound,
}

/// Answer to a request to abort a transfer.
#[must_use]
#[derive(Debug, Clone, Copy, PartialEq, Eq, Structural)]
pub enum AbortResult {
    Aborted,
    NotFound,
}

/// Work the transfer bookkeeping hands to the rest of the client.
#[derive(Debug)]
pub enum TransferWork {
    Progress(TransferSnapshot),
    Update(TransferSnapshot),
    Finished { snapshot: TransferSnapshot, avg_speed_bps: Option<u32> },
    Removed { direction: TransferDirection, ids: Vec<TransferId> },
}

/// Source of fresh transfer ids.
pub struct TransferIds {
    next: u64,
}

impl View for TransferIds {
    /// The id the next `mint` returns.
    type V = nat;

    closed spec fn view(&self) -> nat {
        self.next as nat
    }
}

impl TransferIds {
    /// Ids continue after the largest id of the transfers kept from before.
    pub fn new(seeds: &[TransferSnapshot]) -> (ids: Self)
        requires
            forall|i: int| 0 <= i < seeds@.len() ==> (#[trigger] seeds@[i]).id.0 < u64::MAX,
        ensures
            forall|i: int| 0 <= i < seeds@.len() ==> (#[trigger] seeds@[i]).id.0 < ids@,
            seeds@.len() == 0 ==> ids@ == 1,
            seeds@.len() > 0 ==> exists|i: int|
                0 <= i < seeds@.len() && ids@ == (#[trigger] seeds@[i]).id.0 + 1,
    {
        let mut max: u64 = 0;
        let mut i: usize = 0;
        while i < seeds.len()
            invariant
                i <= seeds@.len(),
                forall|j: int| 0 <= j < seeds@.len() ==> (#[trigger] seeds@[j]).id.0 < u64::MAX,
                forall|j: int| 0 <= j < i ==> (#[trigger] seeds@[j]).id.0 <= max,
                i == 0 ==> max == 0,
                i > 0 ==> exists|j: int| 0 <= j < i && max == (#[trigger] seeds@[j]).id.0,
            decreases seeds@.len() - i,
        {
            if i == 0 || seeds[i].id.0 > max {
                max = seeds[i].id.0;
            }
            i = i + 1;
        }
        Self { next: max + 1 }
    }

    /// A fresh id; ids only grow.
    pub fn mint(&mut self) -> (id: TransferId)
        requires
            old(self)@ < u64::MAX,
        ensures
            id.0 == old(self)@,
            final(self)@ == old(self)@ + 1,
    {
        let id = TransferId(self.next);
        self.next = self.next + 1;
        id
    }

    /// Whether another id can be minted.
    pub fn can_mint(&self) -> (b: bool)
        ensures
            b == (self@ < u64::MAX),
    {
        self.next < u64::MAX
    }
}

/// Ids minted one after another differ, and each is above every id given
/// to `new`.
pub proof fn law_minted_ids_are_fresh(first: nat, second: nat, seed_max: nat)
    requires
        seed_max < first,
        second == first + 1,
    ensures
        first != second,
        seed_max < second,
{
}

/// Successive mints of one source: when the source starts at `start` (one
/// above the largest seed id, as `new` gives) and each mint returns the
/// source's id and advances it by one (as `mint` does), the `i`-th mint
/// returns `start + i`; the ids grow strictly, so no two are equal and none
/// is a seed id.
pub proof fn law_mints_are_consecutive(start: nat, sources: Seq<nat>, minted: Seq<nat>, seed_max: nat)
    requires
        sources.len() == minted.len() + 1,
        sources[0] == start,
        seed_max < start,
        forall|i: int| 0 <= i < minted.len() ==> #[trigger] minted[i] == sources[i] && sources[i + 1]
            == sources[i] + 1,
    ensures
        forall|i: int| 0 <= i < minted.len() ==> #[trigger] minted[i] == start + i,
        forall|i: int, j: int| 0 <= i < j < minted.len() ==> minted[i] < minted[j],
        forall|i: int| 0 <= i < minted.len() ==> seed_max < #[trigger] minted[i],
    decreases minted.len(),
{
    if minted.len() > 0 {
        let n = minted.len() - 1;
        law_mints_are_consecutive(start, sources.take(n + 1), minted.take(n), seed_max);
        assert forall|i: int| 0 <= i < minted.len() implies #[trigger] minted[i] == start + i by {
            if i < n {
                assert(minted.take(n)[i] == minted[i]);
            } else {
                assert(sources.take(n + 1)[n] == sources[n]);
                if n > 0 {
                    assert(minted.take(n)[n - 1] == minted[n - 1]);
                    assert(minted[n - 1] == sources[n - 1]);
                }
            }
        }
    }
}

/// Where a transfer stands.
#[derive(Debug, Clone, PartialEq, Eq)]
pub enum TransferPhase {
    Queued,
    GettingStatus,
    Transferring,
    Placing,
    Finished,
    Aborted,
    Failed(String),
}

impl TransferPhase {
    pub open spec fn spec_status(&self) -> TransferStatus {
        match self {
            TransferPhase::Queued | TransferPhase::GettingStatus => TransferStatus::Queued,
            TransferPhase::Transferring | TransferPhase::Placing => TransferStatus::Transferring,
            TransferPhase::Finished => TransferStatus::Finished,
            TransferPhase::Aborted => TransferStatus::Aborted,
            TransferPhase::Failed(_) => TransferStatus::Failed,
        }
    }

    pub open spec fn spec_is_active(&self) -> bool {
        self is Queued || self is GettingStatus || self is Transferring || self is Placing
    }

    /// The status shown for the phase.
    pub fn status(&self) -> (s: TransferStatus)
        ensures
            s == self.spec_status(),
    {
        match self {
            Self::Queued | Self::GettingStatus => TransferStatus::Queued,
            Self::Transferring | Self::Placing => TransferStatus::Transferring,
            Self::Finished => TransferStatus::Finished,
            Self::Aborted => TransferStatus::Aborted,
            Self::Failed(_) => TransferStatus::Failed,
        }
    }

    /// Whether the transfer is still under way.
    pub fn is_active(&self) -> (b: bool)
        ensures
            b == self.spec_is_active(),
    {
        match self {
            Self::Queued | Self::GettingStatus | Self::Transferring | Self::Placing => true,
            _ => false,
        }
    }

    /// The phase of a transfer kept from before; transfers that were under
    /// way come back as queued before they are seeded.
    pub fn from_seed(seed: &TransferSnapshot) -> (phase: Self)
        requires
            seed.status != TransferStatus::Transferring,
        ensures
            seed.status == TransferStatus::Queued ==> phase == TransferPhase::Queued,
            seed.status == TransferStatus::Finished ==> phase == TransferPhase::Finished,
            seed.status == TransferStatus::Aborted ==> phase == TransferPhase::Aborted,
            seed.status == TransferStatus::Failed ==> (phase matches TransferPhase::Failed(r) && r@
                == match seed.failure_reason {
                Some(s) => s@,
                None => Seq::<char>::empty(),
            }),
    {
        match seed.status {
            TransferStatus::Queued => Self::Queued,
            TransferStatus::Finished => Self::Finished,
            TransferStatus::Aborted => Self::Aborted,
            _ => Self::Failed(
                match &seed.failure_reason {
                    Some(reason) => reason.clone(),
                    None => String::new(),
                },
            ),
        }
    }
}

/// The status of a phase is active exactly while the phase is.
pub proof fn law_active_phases_show_as_unfinished(phase: TransferPhase)
    ensures
        phase.spec_is_active() <==> (phase.spec_status() == TransferStatus::Queued
            || phase.spec_status() == TransferStatus::Transferring),
{
}

/// Reasons sent to peers when a transfer is refused or ends early.
pub struct TransferRejectReason;

impl TransferRejectReason {
    pub const QUEUED: &'static str = "Queued";
    pub const BANNED: &'static str = "Banned";
    pub const COMPLETE: &'static str = "Complete";
    pub const CANCELLED: &'static str = "Cancelled";
    pub const FILE_NOT_SHARED: &'static str = "File not shared.";
    pub const TOO_MANY_FILES: &'static str = "Too many files";
    pub const TOO_MANY_MEGABYTES: &'static str = "Too many megabytes";
}

} // verus!
