//! Folder downloads: which remote folder a download of a folder is rooted at.
use vstd::prelude::*;

use crate::protocol::wire::chars_of;
use crate::text::{find_last, last_index_of, slice_range, string_from_chars};

verus! {

/// Folder names shorter than this many characters (such as `CD1`) are
/// kept together with their parent folder.
pub const SHORT_FOLDER_NAME_CHARS: usize = 12;

/// The remote folder a folder download is rooted at: the parent of the
/// requested folder when the latter has a short name, else the folder.
pub open spec fn destination_root_of(directory: Seq<char>) -> Seq<char> {
    let k = last_index_of(directory, '\\');
    let parent = if k < 0 { Seq::empty() } else { directory.subrange(0, k) };
    let basename = if k < 0 { directory } else { directory.subrange(k + 1, directory.len() as int) };
    if parent.len() > 0 && basename.len() < SHORT_FOLDER_NAME_CHARS {
        parent
    } else {
        directory
    }
}

pub fn destination_root(directory: &str) -> (root: String)
    ensures
        root@ == destination_root_of(directory@),
{
    let chars = chars_of(directory);
    proof {
        crate::text::lemma_last_index_of_bounds(chars@, '\\');
    }
    match find_last(chars.as_slice(), '\\') {
        Some(k) => {
            if k > 0 && chars.len() - (k + 1) < SHORT_FOLDER_NAME_CHARS {
                string_from_chars(slice_range(chars.as_slice(), 0, k).as_slice())
            } else {
                directory.to_owned()
            }
        },
        None => directory.to_owned(),
    }
}

} // verus!
