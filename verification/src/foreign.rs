//! The calls into outside crates and the parts of std that Verus gives no
//! specification for: the checksum, whole-section compression, UTF-8
//! decoding, and the clock. Each sits behind one small trusted item.

use vstd::prelude::*;
use vstd::utf8::{encode_utf8, valid_utf8};

verus! {

/// The CRC-32 (IEEE) checksum of a byte sequence, as `crc32fast` computes
/// it: a function of the bytes alone.
pub uninterp spec fn crc32_of(b: Seq<u8>) -> u32;

/// Relies on `crc32fast::hash`: the CRC-32 (IEEE) of the bytes, determined
/// by the bytes alone.
#[verifier::external_body]
pub(crate) fn crc32(b: &[u8]) -> (r: u32)
    ensures
        r == crc32_of(b@),
{
    crc32fast::hash(b)
}

/// What zstd decompression yields on a byte sequence: the payload for a
/// well-formed frame, `None` where the bytes are not one.
pub uninterp spec fn unzstd_of(b: Seq<u8>) -> Option<Seq<u8>>;

/// Relies on `zstd::stream::encode_all`: compression is lossless, so a
/// frame it returns decompresses to exactly the input.
#[verifier::external_body]
pub(crate) fn zstd_compress(b: &[u8]) -> (r: Option<Vec<u8>>)
    ensures
        r matches Some(c) ==> unzstd_of(c@) == Some(b@),
{
    match zstd::stream::encode_all(b, 0) {
        Ok(c) => Some(c),
        Err(_) => None,
    }
}

/// Relies on `zstd::stream::decode_all`: a successful decode returns the
/// frame's payload, which depends on the frame bytes alone.
#[verifier::external_body]
pub(crate) fn zstd_decompress(b: &[u8]) -> (r: Option<Vec<u8>>)
    ensures
        r matches Some(d) ==> unzstd_of(b@) == Some(d@),
{
    match zstd::stream::decode_all(b) {
        Ok(d) => Some(d),
        Err(_) => None,
    }
}

/// Relies on `core::str::from_utf8`: it succeeds exactly on valid UTF-8 and
/// returns the string those bytes encode.
#[verifier::external_body]
pub(crate) fn bytes_to_string(b: &[u8]) -> (r: Option<String>)
    ensures
        r matches Some(s) ==> valid_utf8(b@) && encode_utf8(s@) == b@,
        r is None ==> !valid_utf8(b@),
{
    match core::str::from_utf8(b) {
        Ok(s) => Some(s.to_owned()),
        Err(_) => None,
    }
}

/// Relies on `std::time::SystemTime`: seconds since the Unix epoch, zero if
/// the clock reads before it. Nothing is promised of the value.
#[verifier::external_body]
pub(crate) fn unix_now() -> u64 {
    match std::time::SystemTime::now().duration_since(std::time::UNIX_EPOCH) {
        Ok(d) => d.as_secs(),
        Err(_) => 0,
    }
}

} // verus!
