//! zlib compression of the payload before it is fragmented.
//!
//! Only the format matters to the peer, not the bytes: it inflates whatever is produced.

use flate2::read::{ZlibDecoder, ZlibEncoder};
use flate2::Compression;
use std::io::Read;
use vstd::prelude::*;

verus! {

/// Larger payloads are refused. This is the effective limit on the size of a terminal.
pub const BUFFER_SIZE: usize = 0x40_0000;

#[derive(Debug, Clone, Copy, PartialEq, Eq, Structural)]
pub enum CompressError {
    /// The data does not decompress, or is not a zlib stream at all.
    Malformed,
    /// The result would exceed the size limit.
    TooLarge,
}

impl CompressError {
    /// The message for a person.
    pub open spec fn message(self) -> Seq<char> {
        match self {
            CompressError::Malformed => "could not decompress payload"@,
            CompressError::TooLarge => "decompressed payload is too large"@,
        }
    }

    /// The message for a person.
    pub fn text(&self) -> (s: &'static str)
        ensures
            s@ == self.message(),
    {
        match self {
            CompressError::Malformed => "could not decompress payload",
            CompressError::TooLarge => "decompressed payload is too large",
        }
    }
}

/// The zlib stream that a text is deflated to at the default level, if that succeeds.
pub uninterp spec fn zlib_deflated(input: Seq<u8>) -> Option<Seq<u8>>;

/// The first `limit` bytes of what a zlib stream inflates to, or nothing if it is not one.
pub uninterp spec fn zlib_inflated(input: Seq<u8>, limit: nat) -> Option<Seq<u8>>;

/// `flate2::read::ZlibEncoder` at the default level, read to its end. What it writes
/// depends on the input alone, is never empty, since a stream has a header and a
/// checksum, and is inflated to the input again.
#[verifier::external_body]
fn deflate(input: &[u8]) -> (r: Option<Vec<u8>>)
    ensures
        r is Some == zlib_deflated(input@) is Some,
        r is Some ==> zlib_deflated(input@) == Some(r->0@),
        r is Some ==> r->0@.len() > 0,
        r is Some ==> forall|limit: nat| #[trigger]
            zlib_inflated(r->0@, limit) == Some(first_bytes(input@, limit)),
{
    let mut out = Vec::new();
    let mut encoder = ZlibEncoder::new(input, Compression::default());
    match encoder.read_to_end(&mut out) {
        Ok(_) => Some(out),
        Err(_) => None,
    }
}

/// `flate2::read::ZlibDecoder`, read to its end or to the given number of bytes. What it
/// returns depends on the input and the limit alone and is not longer than the limit.
#[verifier::external_body]
fn inflate(input: &[u8], limit: u64) -> (r: Option<Vec<u8>>)
    ensures
        r is Some == zlib_inflated(input@, limit as nat) is Some,
        r is Some ==> zlib_inflated(input@, limit as nat) == Some(r->0@),
        r is Some ==> r->0@.len() <= limit,
{
    let mut out = Vec::new();
    let mut decoder = ZlibDecoder::new(input).take(limit);
    match decoder.read_to_end(&mut out) {
        Ok(_) => Some(out),
        Err(_) => None,
    }
}

/// The beginning of a text, at most `limit` bytes of it.
pub open spec fn first_bytes(s: Seq<u8>, limit: nat) -> Seq<u8> {
    if s.len() <= limit {
        s
    } else {
        s.take(limit as int)
    }
}

/// What is made of an inflated payload: one that reached past the limit is refused.
pub open spec fn accepted(inflated: Option<Seq<u8>>) -> Result<Seq<u8>, CompressError> {
    match inflated {
        None => Err(CompressError::Malformed),
        Some(s) => if s.len() > BUFFER_SIZE {
            Err(CompressError::TooLarge)
        } else {
            Ok(s)
        },
    }
}

/// The payload in a zlib stream.
pub open spec fn uncompressed(input: Seq<u8>) -> Result<Seq<u8>, CompressError> {
    if input.len() == 0 {
        Err(CompressError::Malformed)
    } else {
        accepted(zlib_inflated(input, (BUFFER_SIZE + 1) as nat))
    }
}

/// Compress a payload. What is returned is uncompressed to the payload again, unless that
/// is too large.
pub fn compress(input: &[u8]) -> (r: Result<Vec<u8>, CompressError>)
    ensures
        match zlib_deflated(input@) {
            Some(s) => r matches Ok(out) && out@ == s && out@.len() > 0 && uncompressed(out@)
                == if input@.len() <= BUFFER_SIZE {
                Ok::<Seq<u8>, CompressError>(input@)
            } else {
                Err(CompressError::TooLarge)
            },
            None => r matches Err(e) && e == CompressError::Malformed,
        },
{
    match deflate(input) {
        Some(out) => {
            assert(zlib_inflated(out@, (BUFFER_SIZE + 1) as nat) == Some(
                first_bytes(input@, (BUFFER_SIZE + 1) as nat),
            ));
            Ok(out)
        },
        None => Err(CompressError::Malformed),
    }
}

/// Uncompress a payload. An empty one is never a zlib stream. One byte past the limit is
/// asked for, so that hitting it exactly is distinguishable from overrunning it.
pub fn uncompress(input: &[u8]) -> (r: Result<Vec<u8>, CompressError>)
    ensures
        match uncompressed(input@) {
            Ok(s) => r matches Ok(out) && out@ == s,
            Err(e) => r matches Err(f) && f == e,
        },
{
    if input.len() == 0 {
        return Err(CompressError::Malformed);
    }
    accept(inflate(input, BUFFER_SIZE as u64 + 1))
}

/// Takes what was inflated, unless it reached past the limit.
pub fn accept(inflated: Option<Vec<u8>>) -> (r: Result<Vec<u8>, CompressError>)
    ensures
        match inflated {
            None => r matches Err(e) && e == CompressError::Malformed,
            Some(s) => if s@.len() > BUFFER_SIZE {
                r matches Err(e) && e == CompressError::TooLarge
            } else {
                r matches Ok(out) && out@ == s@
            },
        },
{
    match inflated {
        None => Err(CompressError::Malformed),
        Some(out) => {
            if out.len() > BUFFER_SIZE {
                return Err(CompressError::TooLarge);
            }
            Ok(out)
        },
    }
}

} // verus!
