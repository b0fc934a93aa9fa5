//! The attribute cache kept between scans: for each file, the audio
//! attributes read from it with the size and modification time it had,
//! kept on disk as gzip-compressed JSON.
use std::io::Read;

use vstd::prelude::*;

use crate::types::FileAttributes;

verus! {

/// The gzip stream `flate2` produces for the bytes at its default level.
pub uninterp spec fn gzip_compressed(data: Seq<u8>) -> Seq<u8>;

/// What `flate2` decodes from a gzip stream: the bytes, or `None` when it
/// reports an error.
pub uninterp spec fn gzip_inflated(data: Seq<u8>) -> Option<Seq<u8>>;

/// `flate2::read::GzEncoder` at the default level, read to its end: the
/// gzip stream of `data`. Reading from a byte slice cannot fail, and
/// decoding the stream gives `data` back (the encoder and decoder are
/// inverses, as the crate documents).
#[verifier::external_body]
fn gzip_compress(data: &[u8]) -> (out: Vec<u8>)
    ensures
        out@ == gzip_compressed(data@),
        gzip_inflated(out@) == Some(data@),
{
    let mut encoder = flate2::read::GzEncoder::new(data, flate2::Compression::default());
    let mut out = Vec::new();
    encoder.read_to_end(&mut out).unwrap();
    out
}

/// `flate2::read::GzDecoder`, read to its end: the decoded bytes, or the
/// decoder's error.
#[verifier::external_body]
fn gzip_decompress(data: &[u8]) -> (res: Result<Vec<u8>, std::io::Error>)
    ensures
        match res {
            Ok(out) => gzip_inflated(data@) == Some(out@),
            Err(_) => gzip_inflated(data@) is None,
        },
{
    let mut decoder = flate2::read::GzDecoder::new(data);
    let mut out = Vec::new();
    decoder.read_to_end(&mut out)?;
    Ok(out)
}

/// The bytes of the cache file for its JSON text.
pub fn pack_cache(json: &[u8]) -> (file: Vec<u8>)
    ensures
        file@ == gzip_compressed(json@),
        gzip_inflated(file@) == Some(json@),
{
    gzip_compress(json)
}

/// The JSON text of a cache file, or `None` when the file is not gzip
/// (the cache is then read as empty).
pub fn unpack_cache(file: &[u8]) -> (json: Option<Vec<u8>>)
    ensures
        match json {
            Some(j) => gzip_inflated(file@) == Some(j@),
            None => gzip_inflated(file@) is None,
        },
{
    match gzip_decompress(file) {
        Ok(out) => Some(out),
        Err(_) => None,
    }
}

/// The attributes read from a file, with the size and modification time
/// (seconds since the epoch) it had then.
#[derive(Debug, Clone, Copy, PartialEq, Eq)]
pub struct CacheEntry {
    pub size: u64,
    pub mtime: u64,
    pub attributes: FileAttributes,
}

/// The attributes a cache entry gives for a file of this size and
/// modification time: those recorded, when both still match.
pub fn cached_attributes(entry: Option<&CacheEntry>, size: u64, mtime: u64) -> (a: Option<FileAttributes>)
    ensures
        a == match entry {
            Some(e) => if e.size == size && e.mtime == mtime {
                Some(e.attributes)
            } else {
                None
            },
            None => None,
        },
{
    match entry {
        Some(e) => if e.size == size && e.mtime == mtime {
            Some(e.attributes)
        } else {
            None
        },
        None => None,
    }
}

} // verus!
