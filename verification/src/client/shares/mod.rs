//! Shared folders: scanning them, and answering for them.
use vstd::prelude::*;

pub mod audio;
pub mod cache;
pub mod index;
pub mod scan;

verus! {

/// A folder of the disk shared under a virtual name, to everybody or to
/// buddies only.
#[derive(Debug, Clone, PartialEq, Eq)]
pub struct SharedFolder {
    pub virtual_name: String,
    /// Where the folder is on disk.
    pub path: String,
    pub buddy_only: bool,
}

} // verus!
