//! Trusted boundary to the content-hash primitive and the wall clock.

use vstd::prelude::*;

verus! {

/// The 32-byte BLAKE3 digest of a byte sequence.  The digest is a
/// function of the input alone, identical across processes and
/// machines.
pub uninterp spec fn blake3_of(input: Seq<u8>) -> Seq<u8>;

/// Relies on blake3::hash: the digest depends on the input bytes
/// alone and is 32 bytes long.
#[verifier::external_body]
pub fn blake3_hash32(input: &Vec<u8>) -> (r: [u8; 32])
    ensures
        r@ == blake3_of(input@),
{
    *blake3::hash(input.as_slice()).as_bytes()
}

/// Relies on std::time::SystemTime::now: wall-clock milliseconds since
/// the epoch.  Nothing is promised of the value.
#[verifier::external_body]
pub fn now_millis() -> u64 {
    std::time::SystemTime::now().duration_since(std::time::UNIX_EPOCH).map(
        |d| d.as_millis() as u64,
    ).unwrap_or(0)
}

/// Relies on std::time::SystemTime::now: wall-clock seconds since the
/// epoch.  Nothing is promised of the value.
#[verifier::external_body]
pub fn now_secs() -> u64 {
    std::time::SystemTime::now().duration_since(std::time::UNIX_EPOCH).map(
        |d| d.as_secs(),
    ).unwrap_or(0)
}

} // verus!
