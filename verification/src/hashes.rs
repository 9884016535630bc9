//! The crate's trusted boundary: the SHA-3 family, the operating system's
//! random source, and buffer wiping.
//!
//! Every call into an outside crate that the library makes goes through one
//! of the wrappers in this file.  Each digest is given a name (an
//! uninterpreted spec function); the verified code above reasons purely in
//! terms of those names.

use vstd::prelude::*;

use rand_core::RngCore;
use sha3::digest::{ExtendableOutput, Update};
use sha3::{Digest, Sha3_256, Sha3_512, Shake128, Shake256};
use zeroize::Zeroize;

verus! {

/// The 32-byte SHA3-256 digest of a message.
pub uninterp spec fn sha3_256_bytes(m: Seq<u8>) -> Seq<u8>;

/// The 64-byte SHA3-512 digest of a message.
pub uninterp spec fn sha3_512_bytes(m: Seq<u8>) -> Seq<u8>;

/// Byte `i` of the unbounded SHAKE-128 output stream on a message.
pub uninterp spec fn shake128_byte(m: Seq<u8>, i: int) -> u8;

/// Byte `i` of the unbounded SHAKE-256 output stream on a message.
pub uninterp spec fn shake256_byte(m: Seq<u8>, i: int) -> u8;

/// Relies on sha3::Sha3_256: a 32-byte digest determined by the message alone.
#[verifier::external_body]
pub fn sha3_256_hash(m: &Vec<u8>) -> (r: Vec<u8>)
    ensures
        r@ == sha3_256_bytes(m@),
        r@.len() == 32,
{
    let mut hasher = Sha3_256::new();
    Digest::update(&mut hasher, m.as_slice());
    hasher.finalize().to_vec()
}

/// Relies on sha3::Sha3_512: a 64-byte digest determined by the message alone.
#[verifier::external_body]
pub fn sha3_512_hash(m: &Vec<u8>) -> (r: Vec<u8>)
    ensures
        r@ == sha3_512_bytes(m@),
        r@.len() == 64,
{
    let mut hasher = Sha3_512::new();
    Digest::update(&mut hasher, m.as_slice());
    hasher.finalize().to_vec()
}

/// Relies on sha3::Shake128: the first `n` bytes of an output stream
/// determined by the message alone.
#[verifier::external_body]
pub fn shake128_squeeze(m: &Vec<u8>, n: usize) -> (r: Vec<u8>)
    ensures
        r@.len() == n,
        forall|t: int| 0 <= t < n ==> r@[t] == shake128_byte(m@, t),
{
    let mut hasher = Shake128::default();
    hasher.update(m.as_slice());
    let mut out = vec![0u8; n];
    hasher.finalize_xof_into(&mut out);
    out
}

/// Relies on sha3::Shake256: the first `n` bytes of an output stream
/// determined by the message alone.
#[verifier::external_body]
pub fn shake256_squeeze(m: &Vec<u8>, n: usize) -> (r: Vec<u8>)
    ensures
        r@.len() == n,
        forall|t: int| 0 <= t < n ==> r@[t] == shake256_byte(m@, t),
{
    let mut hasher = Shake256::default();
    hasher.update(m.as_slice());
    let mut out = vec![0u8; n];
    hasher.finalize_xof_into(&mut out);
    out
}

/// Relies on rand_core::OsRng::try_fill_bytes: on success the buffer is
/// filled from the operating system's entropy source.  Nothing is promised
/// of the bytes themselves.
#[verifier::external_body]
pub fn fill_random(n: usize) -> (r: Option<Vec<u8>>)
    ensures
        r is Some ==> r.unwrap()@.len() == n,
{
    let mut out = vec![0u8; n];
    match rand_core::OsRng.try_fill_bytes(&mut out) {
        Ok(()) => Some(out),
        Err(_) => None,
    }
}

/// Relies on zeroize::Zeroize for Vec<u8>: every byte (and the spare
/// capacity) is overwritten with zeros and the vector is cleared.
#[verifier::external_body]
pub fn wipe_bytes(v: &mut Vec<u8>)
    ensures
        final(v)@.len() == 0,
{
    v.zeroize();
}

} // verus!
