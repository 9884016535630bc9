//! ML-KEM-512: `k = 2`, `eta1 = 3`, `eta2 = 2`, `du = 10`, `dv = 4`.
//!
//! A typical flow: the originator runs `key_gen` and sends the
//! encapsulation key's bytes across; the remote party rebuilds it with
//! `new_ek`, runs `encaps`, and sends the ciphertext bytes back; the
//! originator rebuilds those with `new_ct` and runs `decaps`.  Both now
//! hold the same shared secret.

use vstd::prelude::*;

use crate::hashes::fill_random;
use crate::ml_kem::{
    ml_kem_decaps, ml_kem_encaps, ml_kem_key_gen, spec_decaps, spec_encaps_ct, spec_encaps_ssk,
    spec_mlkem_keygen, spec_modulus_ok,
};
use crate::params::{params_512, Params};
use crate::{MlKemError, SharedSecretKey};

verus! {

/// Encapsulation key length in bytes.
pub const EK_LEN: usize = 800;

/// Decapsulation key length in bytes.
pub const DK_LEN: usize = 1632;

/// Ciphertext length in bytes.
pub const CT_LEN: usize = 768;

/// The parameter set of this module.
pub open spec fn spec_params() -> Params {
    Params { k: 2, eta1: 3, eta2: 2, du: 10, dv: 4 }
}

/// An ML-KEM-512 encapsulation key.
pub struct EncapsKey {
    bytes: Vec<u8>,
}

/// An ML-KEM-512 decapsulation key.
pub struct DecapsKey {
    bytes: Vec<u8>,
}

/// An ML-KEM-512 ciphertext.
pub struct CipherText {
    bytes: Vec<u8>,
}

impl View for EncapsKey {
    type V = Seq<u8>;

    closed spec fn view(&self) -> Seq<u8> {
        self.bytes@
    }
}

impl View for DecapsKey {
    type V = Seq<u8>;

    closed spec fn view(&self) -> Seq<u8> {
        self.bytes@
    }
}

impl View for CipherText {
    type V = Seq<u8>;

    closed spec fn view(&self) -> Seq<u8> {
        self.bytes@
    }
}

impl EncapsKey {
    #[verifier::type_invariant]
    spec fn type_inv(self) -> bool {
        self.bytes@.len() == 800
    }

    /// Wraps encapsulation-key bytes; fails on any other length.
    pub fn new(bytes: Vec<u8>) -> (r: Result<Self, MlKemError>)
        ensures
            r is Ok <==> bytes@.len() == 800,
            r is Ok ==> r.unwrap()@ == bytes@,
            r is Err ==> r == Result::<Self, MlKemError>::Err(MlKemError::LengthMismatch),
    {
        if bytes.len() != EK_LEN {
            return Err(MlKemError::LengthMismatch);
        }
        Ok(EncapsKey { bytes })
    }

    /// The key as bytes.
    pub fn to_bytes(&self) -> (r: Vec<u8>)
        ensures
            r@ == self@,
    {
        crate::helpers::copy_bytes(&self.bytes)
    }

    /// Encapsulates: validates the key, draws 32 random bytes `m`, and
    /// derives the shared secret and ciphertext from `G(m || H(ek))`.
    ///
    /// Fails with `InvalidEncapsKey` exactly when the key fails the 12-bit
    /// modulus check, which runs before any randomness is drawn, and with
    /// `RngFailure` when the random source does.
    pub fn encaps(&self) -> (r: Result<(SharedSecretKey, CipherText), MlKemError>)
        ensures
            r == Result::<(SharedSecretKey, CipherText), MlKemError>::Err(
                MlKemError::InvalidEncapsKey,
            ) <==> !spec_modulus_ok(2, self@),
            r is Ok ==> spec_modulus_ok(2, self@) && exists|m: Seq<u8>|
                m.len() == 32 && r.unwrap().0@ == spec_encaps_ssk(spec_params(), self@, m)
                    && r.unwrap().1@ == spec_encaps_ct(spec_params(), self@, m),
            r is Err ==> r == Result::<(SharedSecretKey, CipherText), MlKemError>::Err(
                MlKemError::InvalidEncapsKey,
            ) || r == Result::<(SharedSecretKey, CipherText), MlKemError>::Err(
                MlKemError::RngFailure,
            ),
    {
        proof {
            use_type_invariant(self);
        }
        let p = params_512();
        if !crate::ml_kem::modulus_check(p, &self.bytes) {
            return Err(MlKemError::InvalidEncapsKey);
        }
        let m = match fill_random(32) {
            Some(m) => m,
            None => {
                return Err(MlKemError::RngFailure);
            },
        };
        match ml_kem_encaps(p, &self.bytes, &m) {
            Ok((ssk, ct)) => {
                proof {
                    assert(spec_encaps_ssk(spec_params(), self@, m@).len() == 32);
                }
                Ok((SharedSecretKey::new(ssk), CipherText { bytes: ct }))
            },
            Err(_) => {
                proof {
                    assert(false);
                }
                Err(MlKemError::RngFailure)
            },
        }
    }
}

impl DecapsKey {
    #[verifier::type_invariant]
    spec fn type_inv(self) -> bool {
        self.bytes@.len() == 1632
    }

    /// Wraps decapsulation-key bytes; fails on any other length.
    pub fn new(bytes: Vec<u8>) -> (r: Result<Self, MlKemError>)
        ensures
            r is Ok <==> bytes@.len() == 1632,
            r is Ok ==> r.unwrap()@ == bytes@,
            r is Err ==> r == Result::<Self, MlKemError>::Err(MlKemError::LengthMismatch),
    {
        if bytes.len() != DK_LEN {
            return Err(MlKemError::LengthMismatch);
        }
        Ok(DecapsKey { bytes })
    }

    /// The key as bytes.
    pub fn to_bytes(&self) -> (r: Vec<u8>)
        ensures
            r@ == self@,
    {
        crate::helpers::copy_bytes(&self.bytes)
    }

    /// Decapsulates a ciphertext.  Never fails: a ciphertext that does not
    /// survive re-encryption yields the implicit-rejection key.
    pub fn decaps(&self, ct: &CipherText) -> (r: SharedSecretKey)
        ensures
            r@ == spec_decaps(spec_params(), self@, ct@),
    {
        proof {
            use_type_invariant(self);
            use_type_invariant(ct);
        }
        let p = params_512();
        match ml_kem_decaps(p, &self.bytes, &ct.bytes) {
            Ok(ssk) => SharedSecretKey::new(ssk),
            Err(_) => {
                proof {
                    assert(false);
                }
                SharedSecretKey::new(Vec::new())
            },
        }
    }

    /// Overwrites the key with zeros and consumes it.
    pub fn zeroize(self) {
        let mut bytes = self.bytes;
        crate::hashes::wipe_bytes(&mut bytes);
    }
}

impl CipherText {
    #[verifier::type_invariant]
    spec fn type_inv(self) -> bool {
        self.bytes@.len() == 768
    }

    /// Wraps ciphertext bytes; fails on any other length.
    pub fn new(bytes: Vec<u8>) -> (r: Result<Self, MlKemError>)
        ensures
            r is Ok <==> bytes@.len() == 768,
            r is Ok ==> r.unwrap()@ == bytes@,
            r is Err ==> r == Result::<Self, MlKemError>::Err(MlKemError::LengthMismatch),
    {
        if bytes.len() != CT_LEN {
            return Err(MlKemError::LengthMismatch);
        }
        Ok(CipherText { bytes })
    }

    /// The ciphertext as bytes.
    pub fn to_bytes(&self) -> (r: Vec<u8>)
        ensures
            r@ == self@,
    {
        crate::helpers::copy_bytes(&self.bytes)
    }
}

/// Rebuilds an encapsulation key from its bytes.
pub fn new_ek(bytes: Vec<u8>) -> (r: Result<EncapsKey, MlKemError>)
    ensures
        r is Ok <==> bytes@.len() == 800,
        r is Ok ==> r.unwrap()@ == bytes@,
{
    EncapsKey::new(bytes)
}

/// Rebuilds a ciphertext from its bytes.
pub fn new_ct(bytes: Vec<u8>) -> (r: Result<CipherText, MlKemError>)
    ensures
        r is Ok <==> bytes@.len() == 768,
        r is Ok ==> r.unwrap()@ == bytes@,
{
    CipherText::new(bytes)
}

/// `ML-KEM.KeyGen`: draws the seeds `z` and `d` from the operating
/// system's random source and derives a key pair.
pub fn key_gen() -> (r: Result<(EncapsKey, DecapsKey), MlKemError>)
    ensures
        r is Ok ==> exists|z: Seq<u8>, d: Seq<u8>|
            z.len() == 32 && d.len() == 32 && #[trigger] spec_mlkem_keygen(spec_params(), z, d)
                == (r.unwrap().0@, r.unwrap().1@),
        r is Err ==> r == Result::<(EncapsKey, DecapsKey), MlKemError>::Err(
            MlKemError::RngFailure,
        ),
{
    let p = params_512();
    let z = match fill_random(32) {
        Some(z) => z,
        None => {
            return Err(MlKemError::RngFailure);
        },
    };
    let d = match fill_random(32) {
        Some(d) => d,
        None => {
            return Err(MlKemError::RngFailure);
        },
    };
    let (ek, dk) = ml_kem_key_gen(p, &z, &d);
    proof {
        assert(spec_mlkem_keygen(spec_params(), z@, d@) == (ek@, dk@));
    }
    Ok((EncapsKey { bytes: ek }, DecapsKey { bytes: dk }))
}

} // verus!
