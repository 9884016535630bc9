//! The ML-KEM construction over K-PKE: key generation, encapsulation with
//! the encryption-key modulus check, and decapsulation with implicit
//! rejection.
//!
//! Decapsulation re-encrypts the decrypted message and selects between the
//! honest key and the rejection key `J(z || c)` with a byte-wise mask, so
//! that neither the comparison nor the selection branches on secret data.

use vstd::prelude::*;

use crate::byte_fns::{byte_decode, lemma_p2_unfold, spec_byte_decode, spec_byte_encode};
use crate::hashes::sha3_256_bytes;
use crate::helpers::{append_bytes, copy_bytes, h, j, spec_g, spec_j, sub_bytes, g};
use crate::k_pke::{
    k_pke_decrypt, k_pke_encrypt, k_pke_key_gen, spec_kpke_decrypt, spec_kpke_encrypt,
    spec_kpke_keygen,
};
use crate::params::{spec_ct_len, spec_dk_len, spec_ek_len, wf_params, Params};
use crate::MlKemError;

verus! {

/// The key pair of `ML-KEM.KeyGen` on seeds `z` (implicit rejection) and
/// `d` (K-PKE): `ek = ek_pke` and `dk = dk_pke || ek || H(ek) || z`.
pub open spec fn spec_mlkem_keygen(p: Params, z: Seq<u8>, d: Seq<u8>) -> (Seq<u8>, Seq<u8>) {
    let ek = spec_kpke_keygen(p, d).0;
    let dk = spec_kpke_keygen(p, d).1 + ek + sha3_256_bytes(ek) + z;
    (ek, dk)
}

/// Whether every 12-bit coefficient packed in the first `384k` bytes of
/// `ek` is below `q` — the encapsulation-key modulus check.
pub open spec fn spec_modulus_ok(k: int, ek: Seq<u8>) -> bool {
    forall|i: int, c: int|
        0 <= i < k && 0 <= c < 256 ==> #[trigger] spec_byte_decode(
            12,
            ek.subrange(384 * i, 384 * (i + 1)),
        )[c] < 3329
}

/// The shared secret of `ML-KEM.Encaps` on message randomness `m`:
/// the first half of `G(m || H(ek))`.
pub open spec fn spec_encaps_ssk(p: Params, ek: Seq<u8>, m: Seq<u8>) -> Seq<u8> {
    spec_g(m + sha3_256_bytes(ek)).0
}

/// The ciphertext of `ML-KEM.Encaps` on message randomness `m`:
/// `K-PKE.Encrypt(ek, m, r)` with `r` the second half of `G(m || H(ek))`.
pub open spec fn spec_encaps_ct(p: Params, ek: Seq<u8>, m: Seq<u8>) -> Seq<u8> {
    spec_kpke_encrypt(p, ek, m, spec_g(m + sha3_256_bytes(ek)).1)
}

/// The shared secret of `ML-KEM.Decaps`: the honest key `K'` derived from
/// the decrypted message if re-encryption reproduces the ciphertext, and
/// the implicit-rejection key `J(z || c)` otherwise.
pub open spec fn spec_decaps(p: Params, dk: Seq<u8>, ct: Seq<u8>) -> Seq<u8> {
    let k = p.k as int;
    let dk_pke = dk.subrange(0, 384 * k);
    let ek_pke = dk.subrange(384 * k, 768 * k + 32);
    let hh = dk.subrange(768 * k + 32, 768 * k + 64);
    let z = dk.subrange(768 * k + 64, 768 * k + 96);
    let m_prime = spec_kpke_decrypt(p, dk_pke, ct);
    let k_prime = spec_g(m_prime + hh).0;
    let r_prime = spec_g(m_prime + hh).1;
    let k_bar = spec_j(z + ct);
    let c_prime = spec_kpke_encrypt(p, ek_pke, m_prime, r_prime);
    if ct == c_prime {
        k_prime
    } else {
        k_bar
    }
}

/// Law: the modulus check accepts exactly the encapsulation keys whose
/// first `384k` bytes the 12-bit encode-decode round trip maps to
/// themselves, chunk by chunk — a coefficient of `q` or more is changed by
/// the reduction modulo `q` that re-encoding performs.
pub proof fn lemma_modulus_check_is_round_trip(k: int, ek: Seq<u8>)
    requires
        1 <= k <= 4,
        ek.len() == 384 * k + 32,
    ensures
        spec_modulus_ok(k, ek) <==> (forall|i: int|
            0 <= i < k ==> spec_byte_encode(
                12,
                spec_byte_decode(12, #[trigger] ek.subrange(384 * i, 384 * (i + 1))),
            ) == ek.subrange(384 * i, 384 * (i + 1))),
{
    if spec_modulus_ok(k, ek) {
        assert forall|i: int| 0 <= i < k implies spec_byte_encode(
            12,
            spec_byte_decode(12, #[trigger] ek.subrange(384 * i, 384 * (i + 1))),
        ) == ek.subrange(384 * i, 384 * (i + 1)) by {
            let chunk = ek.subrange(384 * i, 384 * (i + 1));
            let f = spec_byte_decode(12, chunk);
            crate::byte_fns::lemma_encode_decode_round_trip(
                12,
                chunk,
                f,
                spec_byte_encode(12, f),
            );
        }
    }
    if forall|i: int|
        0 <= i < k ==> spec_byte_encode(
            12,
            spec_byte_decode(12, #[trigger] ek.subrange(384 * i, 384 * (i + 1))),
        ) == ek.subrange(384 * i, 384 * (i + 1)) {
        assert forall|i: int, c: int| 0 <= i < k && 0 <= c < 256 implies #[trigger] spec_byte_decode(
            12,
            ek.subrange(384 * i, 384 * (i + 1)),
        )[c] < 3329 by {
            let chunk = ek.subrange(384 * i, 384 * (i + 1));
            let f = spec_byte_decode(12, chunk);
            let b2 = spec_byte_encode(12, f);
            assert(b2 == chunk);
            crate::byte_fns::lemma_decode_encode_round_trip(12, f, b2, spec_byte_decode(12, b2));
            assert(f[c] == (f[c] as int) % 3329);
        }
    }
}

/// Law: decapsulation never fails observably.  For any decapsulation key
/// and ciphertext of the right lengths it returns a value deterministically
/// derived from them; that value is the honest key `G(m' || h).0` when the
/// ciphertext survives re-encryption, and the implicit-rejection key
/// `J(z || c)` on the key's `z` component whenever it does not.
pub proof fn lemma_implicit_rejection(p: Params, dk: Seq<u8>, ct: Seq<u8>)
    requires
        wf_params(p),
        dk.len() == spec_dk_len(p),
        ct.len() == spec_ct_len(p),
    ensures
        ({
            let k = p.k as int;
            let m_prime = spec_kpke_decrypt(p, dk.subrange(0, 384 * k), ct);
            let r_prime = spec_g(m_prime + dk.subrange(768 * k + 32, 768 * k + 64)).1;
            let c_prime = spec_kpke_encrypt(p, dk.subrange(384 * k, 768 * k + 32), m_prime, r_prime);
            &&& (ct != c_prime ==> spec_decaps(p, dk, ct) == spec_j(
                dk.subrange(768 * k + 64, 768 * k + 96) + ct,
            ))
            &&& (ct == c_prime ==> spec_decaps(p, dk, ct) == spec_g(
                m_prime + dk.subrange(768 * k + 32, 768 * k + 64),
            ).0)
        }),
{
}

/// `ML-KEM.KeyGen` from explicit 32-byte seeds: `z` feeds the implicit
/// rejection path, `d` feeds `K-PKE.KeyGen`.
pub fn ml_kem_key_gen(p: Params, z: &Vec<u8>, d: &Vec<u8>) -> (r: (Vec<u8>, Vec<u8>))
    requires
        wf_params(p),
        z@.len() == 32,
        d@.len() == 32,
    ensures
        r.0@ == spec_mlkem_keygen(p, z@, d@).0,
        r.1@ == spec_mlkem_keygen(p, z@, d@).1,
        r.0@.len() == spec_ek_len(p),
        r.1@.len() == spec_dk_len(p),
{
    let (ek, dk_pke) = k_pke_key_gen(p, d);
    let h_ek = h(&ek);
    let mut dk = dk_pke;
    append_bytes(&mut dk, &ek);
    append_bytes(&mut dk, &h_ek);
    append_bytes(&mut dk, z);
    proof {
        assert(dk@ =~= spec_mlkem_keygen(p, z@, d@).1);
    }
    (ek, dk)
}

/// Runs the modulus check on an encapsulation key of the right length.
pub fn modulus_check(p: Params, ek: &Vec<u8>) -> (ok: bool)
    requires
        wf_params(p),
        ek@.len() == spec_ek_len(p),
    ensures
        ok <==> spec_modulus_ok(p.k as int, ek@),
{
    let k = p.k;
    let mut ok = true;
    let mut i: usize = 0;
    while i < k
        invariant
            wf_params(p),
            k == p.k,
            ek@.len() == spec_ek_len(p),
            i <= k,
            ok <==> forall|t: int, c: int|
                0 <= t < i && 0 <= c < 256 ==> #[trigger] spec_byte_decode(
                    12,
                    ek@.subrange(384 * t, 384 * (t + 1)),
                )[c] < 3329,
        decreases k - i,
    {
        let chunk = sub_bytes(ek, 384 * i, 384 * (i + 1));
        let f = match byte_decode(12, &chunk) {
            Ok(f) => f,
            Err(_) => {
                proof {
                    assert(false);
                }
                Vec::new()
            },
        };
        let mut chunk_ok = true;
        let mut c: usize = 0;
        while c < 256
            invariant
                f@.len() == 256,
                c <= 256,
                chunk_ok <==> forall|t: int| 0 <= t < c ==> f@[t] < 3329,
            decreases 256 - c,
        {
            let below = f[c] < 3329;
            chunk_ok = chunk_ok && below;
            c = c + 1;
        }
        ok = ok && chunk_ok;
        i = i + 1;
        proof {
            assert(f@ == spec_byte_decode(12, ek@.subrange(384 * (i - 1), 384 * i)));
        }
    }
    ok
}

/// A byte that is 0 when the two strings are equal and 255 otherwise,
/// computed by a whole-buffer accumulation that inspects every byte.
fn ct_neq_mask(a: &Vec<u8>, b: &Vec<u8>) -> (mask: u8)
    requires
        a@.len() == b@.len(),
    ensures
        mask == 0 <==> a@ == b@,
        mask == 0 || mask == 255,
{
    let n = a.len();
    let mut acc: u8 = 0;
    let mut i: usize = 0;
    proof {
        assert(a@.subrange(0, 0) =~= b@.subrange(0, 0));
    }
    while i < n
        invariant
            n == a@.len(),
            a@.len() == b@.len(),
            i <= n,
            acc == 0 <==> a@.subrange(0, i as int) == b@.subrange(0, i as int),
        decreases n - i,
    {
        let x = a[i];
        let y = b[i];
        let d = x ^ y;
        proof {
            assert(x ^ y == 0 <==> x == y) by (bit_vector);
            assert(acc | d == 0 <==> (acc == 0 && d == 0)) by (bit_vector);
            assert(a@.subrange(0, i + 1).drop_last() =~= a@.subrange(0, i as int));
            assert(b@.subrange(0, i + 1).drop_last() =~= b@.subrange(0, i as int));
            if acc == 0 && d == 0 {
                assert(a@.subrange(0, i + 1) =~= b@.subrange(0, i + 1));
            } else if a@.subrange(0, i + 1) == b@.subrange(0, i + 1) {
                assert(a@.subrange(0, i + 1)[i as int] == b@.subrange(0, i + 1)[i as int]);
                assert(a@.subrange(0, i + 1).drop_last() == b@.subrange(0, i + 1).drop_last());
                assert(false);
            }
        }
        acc = acc | d;
        i = i + 1;
    }
    proof {
        assert(a@.subrange(0, n as int) =~= a@);
        assert(b@.subrange(0, n as int) =~= b@);
    }
    let bit = ((acc as u16 + 255) / 256) as u8;
    proof {
        if acc == 0 {
            assert(bit == 0);
        } else {
            assert(bit == 1);
        }
    }
    bit * 255
}

/// Selects `x` where the mask byte is 0 and `y` where it is 255, byte by
/// byte, without branching on the mask.
fn ct_select(x: &Vec<u8>, y: &Vec<u8>, mask: u8) -> (r: Vec<u8>)
    requires
        x@.len() == y@.len(),
        mask == 0 || mask == 255,
    ensures
        mask == 0 ==> r@ == x@,
        mask == 255 ==> r@ == y@,
{
    let n = x.len();
    let mut r: Vec<u8> = Vec::new();
    let mut i: usize = 0;
    while i < n
        invariant
            n == x@.len(),
            x@.len() == y@.len(),
            mask == 0 || mask == 255,
            i <= n,
            r@.len() == i,
            forall|t: int|
                0 <= t < i ==> r@[t] == (if mask == 0 {
                    x@[t]
                } else {
                    y@[t]
                }),
        decreases n - i,
    {
        let xv = x[i];
        let yv = y[i];
        let sel = (xv & !mask) | (yv & mask);
        proof {
            let m = mask;
            assert(m == 0 ==> ((xv & !m) | (yv & m)) == xv) by (bit_vector);
            assert(m == 255 ==> ((xv & !m) | (yv & m)) == yv) by (bit_vector);
        }
        r.push(sel);
        i = i + 1;
    }
    proof {
        if mask == 0 {
            assert(r@ =~= x@);
        } else {
            assert(r@ =~= y@);
        }
    }
    r
}

/// `ML-KEM.Encaps` from an explicit 32-byte message randomness `m`.
///
/// Fails with `LengthMismatch` on a key of the wrong length and with
/// `InvalidEncapsKey` when the 12-bit modulus check finds a coefficient of
/// `q` or more; on every other input it returns the shared secret and the
/// ciphertext.
pub fn ml_kem_encaps(p: Params, ek: &Vec<u8>, m: &Vec<u8>) -> (r: Result<
    (Vec<u8>, Vec<u8>),
    MlKemError,
>)
    requires
        wf_params(p),
        m@.len() == 32,
    ensures
        r is Ok <==> (ek@.len() == spec_ek_len(p) && spec_modulus_ok(p.k as int, ek@)),
        r is Ok ==> r.unwrap().0@ == spec_encaps_ssk(p, ek@, m@) && r.unwrap().1@
            == spec_encaps_ct(p, ek@, m@) && r.unwrap().0@.len() == 32 && r.unwrap().1@.len()
            == spec_ct_len(p),
        r is Err ==> (ek@.len() != spec_ek_len(p) ==> r == Result::<(Vec<u8>, Vec<u8>),
        MlKemError>::Err(MlKemError::LengthMismatch)),
        r is Err ==> (ek@.len() == spec_ek_len(p) ==> r == Result::<(Vec<u8>, Vec<u8>),
        MlKemError>::Err(MlKemError::InvalidEncapsKey)),
{
    let ek_len = 384 * p.k + 32;
    if ek.len() != ek_len {
        return Err(MlKemError::LengthMismatch);
    }
    if !modulus_check(p, ek) {
        return Err(MlKemError::InvalidEncapsKey);
    }
    let h_ek = h(ek);
    let mut g_input = copy_bytes(m);
    append_bytes(&mut g_input, &h_ek);
    proof {
        assert(g_input@ =~= m@ + sha3_256_bytes(ek@));
    }
    let (ssk, rr) = g(&g_input);
    let ct = k_pke_encrypt(p, ek, m, &rr);
    Ok((ssk, ct))
}

/// `ML-KEM.Decaps`: never fails on inputs of the right length; a
/// ciphertext that does not survive re-encryption yields the
/// implicit-rejection key `J(z || c)`.
pub fn ml_kem_decaps(p: Params, dk: &Vec<u8>, ct: &Vec<u8>) -> (r: Result<Vec<u8>, MlKemError>)
    requires
        wf_params(p),
    ensures
        r is Ok <==> (dk@.len() == spec_dk_len(p) && ct@.len() == spec_ct_len(p)),
        r is Ok ==> r.unwrap()@ == spec_decaps(p, dk@, ct@) && r.unwrap()@.len() == 32,
        r is Err ==> r == Result::<Vec<u8>, MlKemError>::Err(MlKemError::LengthMismatch),
{
    let k = p.k;
    if dk.len() != 768 * k + 96 {
        return Err(MlKemError::LengthMismatch);
    }
    let ct_len = 32 * (p.du * k + p.dv);
    if ct.len() != ct_len {
        return Err(MlKemError::LengthMismatch);
    }
    let dk_pke = sub_bytes(dk, 0, 384 * k);
    let ek_pke = sub_bytes(dk, 384 * k, 768 * k + 32);
    let hh = sub_bytes(dk, 768 * k + 32, 768 * k + 64);
    let z = sub_bytes(dk, 768 * k + 64, 768 * k + 96);
    let m_prime = k_pke_decrypt(p, &dk_pke, ct);
    let mut g_input = copy_bytes(&m_prime);
    append_bytes(&mut g_input, &hh);
    proof {
        assert(g_input@ =~= m_prime@ + hh@);
    }
    let (k_prime, r_prime) = g(&g_input);
    let mut j_input = copy_bytes(&z);
    append_bytes(&mut j_input, ct);
    proof {
        assert(j_input@ =~= z@ + ct@);
    }
    let k_bar = j(&j_input);
    let c_prime = k_pke_encrypt(p, &ek_pke, &m_prime, &r_prime);
    let mask = ct_neq_mask(ct, &c_prime);
    let ssk = ct_select(&k_prime, &k_bar, mask);
    proof {
        lemma_p2_unfold();
        if mask == 0 {
            assert(ssk@ == spec_decaps(p, dk@, ct@));
        } else {
            assert(ct@ != c_prime@);
            assert(ssk@ == spec_decaps(p, dk@, ct@));
        }
    }
    Ok(ssk)
}

} // verus!
