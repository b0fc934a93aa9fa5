//! Which shared files have their audio attributes read, and the
//! attributes kept from what is read.
use vstd::prelude::*;

use crate::protocol::wire::chars_of;
use crate::text::{find_last, last_index_of, lowercase, lowercase_of, slice_range, string_from_chars, text_eq};
use crate::types::FileAttributes;

verus! {

/// Durations of this many seconds or more are not sent.
pub const UINT32_LIMIT: u64 = 4_294_967_296;

/// Files this small are not read.
pub const MIN_AUDIO_SIZE: u64 = 128;

/// File name extensions of audio files, lowercase.
pub open spec fn audio_extensions() -> Seq<Seq<char>> {
    seq![
        "aac"@, "ac3"@, "afc"@, "aif"@, "aifc"@, "aiff"@, "ape"@, "au"@, "bwav"@, "bwf"@, "dff"@,
        "dsd"@, "dsf"@, "dts"@, "flac"@, "m4a"@, "m4b"@, "mka"@, "mp1"@, "mp2"@, "mp3"@, "mp+"@,
        "mpc"@, "oga"@, "ogg"@, "opus"@, "spx"@, "tak"@, "tta"@, "wav"@, "wma"@, "wv"@,
    ]
}

/// The extension of a file name: what follows its last dot, unless the
/// name has no dot or only a leading one.
pub open spec fn extension_of(name: Seq<char>) -> Option<Seq<char>> {
    let d = last_index_of(name, '.');
    if d > 0 {
        Some(name.subrange(d + 1, name.len() as int))
    } else {
        None
    }
}

/// Whether a file name has an audio extension, compared without case.
pub open spec fn is_audio_name(name: Seq<char>) -> bool {
    match extension_of(name) {
        Some(e) => audio_extensions().contains(lowercase_of(e)),
        None => false,
    }
}

/// Whether a file name has an audio extension, compared without case.
pub fn has_audio_extension(file_name: &str) -> (b: bool)
    ensures
        b == is_audio_name(file_name@),
{
    let chars = chars_of(file_name);
    proof {
        crate::text::lemma_last_index_of_bounds(chars@, '.');
    }
    let d = match find_last(chars.as_slice(), '.') {
        Some(k) if k > 0 => k,
        _ => {
            return false;
        },
    };
    let n = chars.len();
    assert(d < n);
    let ext = string_from_chars(slice_range(chars.as_slice(), d + 1, n).as_slice());
    let lower = lowercase(ext.as_str());
    proof {
        assert(extension_of(file_name@) == Some(ext@));
    }
    let known = [
        "aac", "ac3", "afc", "aif", "aifc", "aiff", "ape", "au", "bwav", "bwf", "dff", "dsd", "dsf",
        "dts", "flac", "m4a", "m4b", "mka", "mp1", "mp2", "mp3", "mp+", "mpc", "oga", "ogg", "opus",
        "spx", "tak", "tta", "wav", "wma", "wv",
    ];
    let ghost list = audio_extensions();
    proof {
        assert(known@.map_values(|s: &str| s@) =~= list);
    }
    let mut i: usize = 0;
    while i < known.len()
        invariant
            known@.map_values(|s: &str| s@) == list,
            list == audio_extensions(),
            lower@ == lowercase_of(ext@),
            extension_of(file_name@) == Some(ext@),
            i <= known@.len(),
            forall|j: int| 0 <= j < i ==> list[j] != lower@,
        decreases known@.len() - i,
    {
        proof {
            assert(list[i as int] == known@[i as int]@);
        }
        if text_eq(known[i], lower.as_str()) {
            proof {
                assert(list[i as int] == lower@);
                assert(list.contains(lower@));
                assert(audio_extensions().contains(lowercase_of(ext@)));
            }
            return true;
        }
        i = i + 1;
    }
    false
}

/// Whether the audio attributes of a file are read: an audio file of more
/// than `MIN_AUDIO_SIZE` bytes.
pub fn reads_audio_attributes(file_name: &str, size: u64) -> (b: bool)
    ensures
        b == (size > MIN_AUDIO_SIZE && is_audio_name(file_name@)),
{
    size > MIN_AUDIO_SIZE && has_audio_extension(file_name)
}

/// The attributes kept from what was read of an audio file: the positive
/// bit rate, sample rate and bit depth, and the length in seconds when it
/// fits.
pub fn attributes_from(
    bitrate: Option<u32>,
    sample_rate: Option<u32>,
    bit_depth: Option<u8>,
    duration_secs: u64,
) -> (a: FileAttributes)
    ensures
        a.bitrate == match bitrate {
            Some(v) if v > 0 => Some(v),
            _ => None,
        },
        a.sample_rate == match sample_rate {
            Some(v) if v > 0 => Some(v),
            _ => None,
        },
        a.bit_depth == match bit_depth {
            Some(v) if v > 0 => Some(v as u32),
            _ => None,
        },
        a.length == if duration_secs < UINT32_LIMIT {
            Some(duration_secs as u32)
        } else {
            None
        },
        a.vbr is None,
{
    let mut a = FileAttributes::empty();
    a.bitrate = match bitrate {
        Some(v) if v > 0 => Some(v),
        _ => None,
    };
    a.sample_rate = match sample_rate {
        Some(v) if v > 0 => Some(v),
        _ => None,
    };
    a.bit_depth = match bit_depth {
        Some(v) if v > 0 => Some(v as u32),
        _ => None,
    };
    if duration_secs < UINT32_LIMIT {
        a.length = Some(duration_secs as u32);
    }
    a
}

} // verus!
