//! Module-lattice key encapsulation (FIPS 203 initial public draft).
//!
//! The crate implements the three ML-KEM parameter sets over the ring
//! `Z_q[X]/(X^256 + 1)` with `q = 3329`: key generation, encapsulation and
//! decapsulation, together with the byte codecs, samplers and number-theoretic
//! transform they are built from.  The SHA-3 family and the operating system's
//! random source are the only outside collaborators; everything computed from
//! their outputs is verified.

use vstd::prelude::*;

pub mod byte_fns;
pub mod hashes;
pub mod helpers;
pub mod k_pke;
pub mod ml_kem;
pub mod ml_kem_1024;
pub mod ml_kem_512;
pub mod ml_kem_768;
pub mod ntt;
pub mod params;
pub mod sampling;
pub mod types;

verus! {

/// The field modulus `q = 3329`.
pub const Q: u16 = 3329;

/// `zeta = 17`, a primitive 256-th root of unity modulo `q`.
pub const ZETA: u16 = 17;

/// Byte length of a shared secret key.
pub const SSK_LEN: usize = 32;

/// The error kinds that reach a caller of the library.
#[derive(Clone, Copy, Debug, PartialEq, Eq, Structural)]
pub enum MlKemError {
    /// A byte string had the wrong length for the parameter set.
    LengthMismatch,
    /// An encapsulation key failed the 12-bit modulus check.
    InvalidEncapsKey,
    /// The operating system's random source failed.
    RngFailure,
}

/// The 32-byte shared secret that both parties derive.
///
/// Equality on shared secrets compares every byte; it never stops at the
/// first difference.
pub struct SharedSecretKey {
    bytes: Vec<u8>,
}

impl View for SharedSecretKey {
    type V = Seq<u8>;

    closed spec fn view(&self) -> Seq<u8> {
        self.bytes@
    }
}

impl SharedSecretKey {
    /// Wraps 32 bytes as a shared secret.
    pub fn new(bytes: Vec<u8>) -> (r: Self)
        requires
            bytes@.len() == 32,
        ensures
            r@ == bytes@,
    {
        SharedSecretKey { bytes }
    }

    /// Hands the secret out as its 32 raw bytes.
    pub fn into_bytes(self) -> (r: Vec<u8>)
        ensures
            r@ == self@,
    {
        self.bytes
    }

    /// Copies the secret out as its 32 raw bytes.
    pub fn get_bytes(&self) -> (r: Vec<u8>)
        ensures
            r@ == self@,
    {
        let mut out: Vec<u8> = Vec::new();
        let mut i: usize = 0;
        while i < self.bytes.len()
            invariant
                i <= self.bytes@.len(),
                out@ == self.bytes@.subrange(0, i as int),
            decreases self.bytes@.len() - i,
        {
            out.push(self.bytes[i]);
            i = i + 1;
            proof {
                assert(out@ =~= self.bytes@.subrange(0, i as int));
            }
        }
        proof {
            assert(out@ =~= self.bytes@);
        }
        out
    }

    /// Overwrites the secret with zeros and empties the buffer.
    pub fn zeroize(&mut self)
        ensures
            final(self)@.len() == 0,
    {
        crate::hashes::wipe_bytes(&mut self.bytes);
    }
}

impl PartialEq for SharedSecretKey {
    /// Whole-buffer comparison: every byte is inspected whatever the result.
    fn eq(&self, other: &Self) -> (r: bool)
    {
        if self.bytes.len() != other.bytes.len() {
            return false;
        }
        let mut same: bool = true;
        let mut i: usize = 0;
        proof {
            assert(self.bytes@.subrange(0, 0) =~= other.bytes@.subrange(0, 0));
        }
        while i < self.bytes.len()
            invariant
                i <= self.bytes@.len(),
                self.bytes@.len() == other.bytes@.len(),
                same <==> self.bytes@.subrange(0, i as int) == other.bytes@.subrange(0, i as int),
            decreases self.bytes@.len() - i,
        {
            let eq_here = self.bytes[i] == other.bytes[i];
            let next = same && eq_here;
            proof {
                let a = self.bytes@;
                let b = other.bytes@;
                assert(a.subrange(0, i + 1).drop_last() =~= a.subrange(0, i as int));
                assert(b.subrange(0, i + 1).drop_last() =~= b.subrange(0, i as int));
                if next {
                    assert(a.subrange(0, i + 1) =~= b.subrange(0, i + 1));
                } else if a.subrange(0, i + 1) == b.subrange(0, i + 1) {
                    assert(a.subrange(0, i + 1)[i as int] == b.subrange(0, i + 1)[i as int]);
                    assert(a.subrange(0, i + 1).drop_last() == b.subrange(0, i + 1).drop_last());
                    assert(false);
                }
            }
            same = next;
            i = i + 1;
        }
        proof {
            assert(self.bytes@.subrange(0, self.bytes@.len() as int) =~= self.bytes@);
            assert(other.bytes@.subrange(0, other.bytes@.len() as int) =~= other.bytes@);
        }
        same
    }
}

impl vstd::std_specs::cmp::PartialEqSpecImpl for SharedSecretKey {
    open spec fn obeys_eq_spec() -> bool {
        true
    }

    open spec fn eq_spec(&self, other: &Self) -> bool {
        self@ == other@
    }
}

} // verus!
