//! Zlib compression of large peer messages, through the `flate2` crate.
use std::io::Read;

use vstd::prelude::*;

use super::wire::ProtocolError;

verus! {

/// The zlib stream `flate2` produces for the bytes at compression level 4.
pub uninterp spec fn zlib_compressed(data: Seq<u8>) -> Seq<u8>;

/// What `flate2` inflates from a zlib stream when reading at most `cap`
/// bytes of output: the bytes, or `None` when it reports an error.
pub uninterp spec fn zlib_inflated(data: Seq<u8>, cap: nat) -> Option<Seq<u8>>;

/// `flate2::read::ZlibEncoder` at level 4, read to its end: the compressed
/// stream of `data`.  Reading from a byte slice cannot fail.  Inflating the
/// stream with room for all of `data` gives `data` back (the encoder and
/// decoder are inverses, as the crate documents).
#[verifier::external_body]
fn zlib_compress(data: &[u8]) -> (out: Vec<u8>)
    ensures
        out@ == zlib_compressed(data@),
        forall|cap: nat| cap >= data@.len() ==> #[trigger] zlib_inflated(out@, cap) == Some(data@),
{
    let mut encoder = flate2::read::ZlibEncoder::new(data, flate2::Compression::new(4));
    let mut out = Vec::new();
    encoder.read_to_end(&mut out).unwrap();
    out
}

/// `flate2::read::ZlibDecoder` behind `Read::take(cap)`, read to its end:
/// the inflated bytes, at most `cap` of them, or the decoder's error.
#[verifier::external_body]
fn zlib_decompress(data: &[u8], cap: u64) -> (res: Result<Vec<u8>, std::io::Error>)
    ensures
        match res {
            Ok(out) => zlib_inflated(data@, cap as nat) == Some(out@) && out@.len() <= cap,
            Err(_) => zlib_inflated(data@, cap as nat) is None,
        },
{
    let mut decoder = flate2::read::ZlibDecoder::new(data).take(cap);
    let mut out = Vec::new();
    decoder.read_to_end(&mut out)?;
    Ok(out)
}

/// Compresses a message payload.
pub fn compress(data: &[u8]) -> (out: Vec<u8>)
    ensures
        out@ == zlib_compressed(data@),
        forall|cap: nat| cap >= data@.len() ==> #[trigger] zlib_inflated(out@, cap) == Some(data@),
{
    zlib_compress(data)
}

/// Outcome of inflating a payload with a size limit.
pub enum Inflated {
    Data(Seq<u8>),
    TooLarge,
    Failed,
}

/// Inflating reads one byte past the limit, so that a larger payload shows.
pub open spec fn inflated(data: Seq<u8>, limit: nat) -> Inflated {
    match zlib_inflated(data, limit + 1) {
        Some(out) => if out.len() > limit {
            Inflated::TooLarge
        } else {
            Inflated::Data(out)
        },
        None => Inflated::Failed,
    }
}

/// Inflates a payload of at most `limit` bytes.
pub fn decompress(data: &[u8], limit: usize) -> (res: Result<Vec<u8>, ProtocolError>)
    requires
        limit < u64::MAX,
    ensures
        match inflated(data@, limit as nat) {
            Inflated::Data(out) => res matches Ok(v) && v@ == out,
            Inflated::TooLarge => res matches Err(ProtocolError::DecompressedTooLarge { limit: l })
                && l == limit,
            Inflated::Failed => res matches Err(ProtocolError::Decompress(_)),
        },
{
    let out = match zlib_decompress(data, limit as u64 + 1) {
        Ok(out) => out,
        Err(error) => return Err(ProtocolError::Decompress(error)),
    };
    if out.len() > limit {
        return Err(ProtocolError::DecompressedTooLarge { limit });
    }
    Ok(out)
}

/// A compressed payload within the limit inflates to itself.
pub proof fn law_compress_roundtrip(data: Seq<u8>, compressed: Seq<u8>, limit: nat)
    requires
        data.len() <= limit,
        forall|cap: nat| cap >= data.len() ==> #[trigger] zlib_inflated(compressed, cap) == Some(data),
    ensures
        inflated(compressed, limit) == Inflated::Data(data),
{
    assert(zlib_inflated(compressed, limit + 1) == Some(data));
}

} // verus!
