//! The inner public-key encryption scheme (IND-CPA): key generation,
//! encryption and decryption, each a deterministic function of its seeds.
//!
//! Every hash and XOF output is named by the trusted wrappers, so the byte
//! strings these functions return are pinned exactly by the specification
//! functions in this file.

use vstd::prelude::*;

use crate::byte_fns::{byte_decode, byte_encode, spec_byte_decode, spec_byte_encode};
use crate::helpers::{
    append_bytes, compress, decompress, dot_t_prod, g, lemma_deep_view_mat_index,
    lemma_deep_view_vec_index, mat_t_vec_mul, mat_vec_mul, poly_add, poly_sub, prf, spec_compress,
    spec_decompress, spec_dot_sum, spec_g, spec_mat_t_vec_mul, spec_mat_vec_mul, spec_poly_add,
    spec_poly_sub, spec_prf, spec_vec_add, sub_bytes, vec_add, wf_mat, wf_vec,
};
use crate::ntt::{coeffs_below, ntt, ntt_inv, spec_ntt, spec_ntt_inv};
use crate::params::{spec_ek_len, wf_params, Params};
use crate::sampling::{sample_ntt, sample_ntt_spec, sample_poly_cbd, spec_cbd, xof_msg};
use crate::MlKemError;

verus! {

/// The matrix `A_hat` derived from the seed `rho`:
/// `A_hat[i][j] = SampleNTT(XOF(rho, i, j))`.
pub open spec fn spec_matrix(rho: Seq<u8>, k: int) -> Seq<Seq<Seq<u16>>> {
    Seq::new(
        k as nat,
        |i: int| Seq::new(k as nat, |j: int| sample_ntt_spec(xof_msg(rho, i as u8, j as u8))),
    )
}

/// `k` centered-binomial polynomials drawn with nonces `n0, n0+1, ...`.
pub open spec fn spec_cbd_vec(seed: Seq<u8>, eta: int, n0: int, k: int) -> Seq<Seq<u16>> {
    Seq::new(k as nat, |i: int| spec_cbd(eta, spec_prf(eta, seed, (n0 + i) as u8)))
}

/// The NTT of each entry of a vector.
pub open spec fn spec_ntt_vec(v: Seq<Seq<u16>>) -> Seq<Seq<u16>> {
    Seq::new(v.len(), |i: int| spec_ntt(v[i]))
}

/// The inverse NTT of each entry of a vector.
pub open spec fn spec_ntt_inv_vec(v: Seq<Seq<u16>>) -> Seq<Seq<u16>> {
    Seq::new(v.len(), |i: int| spec_ntt_inv(v[i]))
}

/// `Compress_d` applied to every coefficient.
pub open spec fn spec_compress_poly(d: int, f: Seq<u16>) -> Seq<u16> {
    Seq::new(f.len(), |t: int| spec_compress(d, f[t] as int) as u16)
}

/// `Decompress_d` applied to every coefficient.
pub open spec fn spec_decompress_poly(d: int, f: Seq<u16>) -> Seq<u16> {
    Seq::new(f.len(), |t: int| spec_decompress(d, f[t] as int) as u16)
}

/// `ByteEncode_d` of the first `cnt` entries of a vector, concatenated.
pub open spec fn spec_encode_vec(d: int, v: Seq<Seq<u16>>, cnt: int) -> Seq<u8>
    decreases cnt,
{
    if cnt <= 0 {
        Seq::empty()
    } else {
        spec_encode_vec(d, v, cnt - 1) + spec_byte_encode(d, v[cnt - 1])
    }
}

/// `ByteDecode_d` of `k` consecutive `32 d`-byte chunks of `b`.
pub open spec fn spec_decode_vec(d: int, b: Seq<u8>, k: int) -> Seq<Seq<u16>> {
    Seq::new(k as nat, |i: int| spec_byte_decode(d, b.subrange(32 * d * i, 32 * d * (i + 1))))
}

/// The key pair of `K-PKE.KeyGen` on the 32-byte seed `d`:
/// `ek = ByteEncode_12(t_hat) || rho` and `dk = ByteEncode_12(s_hat)`, with
/// `(rho, sigma) = G(d)`, `s` and `e` drawn by nonces `0..2k`, and
/// `t_hat = A_hat * NTT(s) + NTT(e)`.
pub open spec fn spec_kpke_keygen(p: Params, d: Seq<u8>) -> (Seq<u8>, Seq<u8>) {
    let rho = spec_g(d).0;
    let sigma = spec_g(d).1;
    let k = p.k as int;
    let a_hat = spec_matrix(rho, k);
    let s_hat = spec_ntt_vec(spec_cbd_vec(sigma, p.eta1 as int, 0, k));
    let e_hat = spec_ntt_vec(spec_cbd_vec(sigma, p.eta1 as int, k, k));
    let t_hat = spec_vec_add(spec_mat_vec_mul(a_hat, s_hat, k), e_hat);
    (spec_encode_vec(12, t_hat, k) + rho, spec_encode_vec(12, s_hat, k))
}

/// Draws the matrix `A_hat` from `rho`.
fn gen_matrix(rho: &Vec<u8>, k: usize) -> (a: Vec<Vec<Vec<u16>>>)
    requires
        rho@.len() == 32,
        k <= 4,
    ensures
        a.deep_view() == spec_matrix(rho@, k as int),
        wf_mat(a.deep_view(), k as int, 3329),
{
    let mut a: Vec<Vec<Vec<u16>>> = Vec::new();
    let mut i: usize = 0;
    while i < k
        invariant
            rho@.len() == 32,
            k <= 4,
            i <= k,
            a@.len() == i,
            forall|t: int|
                0 <= t < i ==> (#[trigger] a@[t]).deep_view() == spec_matrix(rho@, k as int)[t]
                    && wf_vec(a@[t].deep_view(), k as int, 3329),
        decreases k - i,
    {
        let mut row: Vec<Vec<u16>> = Vec::new();
        let mut j: usize = 0;
        while j < k
            invariant
                rho@.len() == 32,
                k <= 4,
                i < k,
                j <= k,
                row@.len() == j,
                forall|t: int|
                    0 <= t < j ==> (#[trigger] row@[t])@ == sample_ntt_spec(
                        xof_msg(rho@, i as u8, t as u8),
                    ) && row@[t]@.len() == 256 && coeffs_below(row@[t]@, 3329),
            decreases k - j,
        {
            let poly = sample_ntt(rho, i as u8, j as u8);
            row.push(poly);
            j = j + 1;
        }
        proof {
            assert forall|t: int|
                0 <= t < k implies #[trigger] row.deep_view()[t] == spec_matrix(rho@, k as int)[
            i as int][t] && row.deep_view()[t].len() == 256 && coeffs_below(
                row.deep_view()[t],
                3329,
            ) by {
                lemma_deep_view_vec_index(row, t);
            }
            assert(row.deep_view() =~~= spec_matrix(rho@, k as int)[i as int]);
            assert(wf_vec(row.deep_view(), k as int, 3329));
        }
        a.push(row);
        i = i + 1;
        proof {
            assert(a@[i - 1].deep_view() == spec_matrix(rho@, k as int)[i - 1]);
        }
    }
    proof {
        assert forall|t: int| 0 <= t < k implies #[trigger] a.deep_view()[t] == spec_matrix(
            rho@,
            k as int,
        )[t] by {
            lemma_deep_view_mat_index(a, t);
        }
        assert(a.deep_view() =~~= spec_matrix(rho@, k as int));
        assert forall|t: int| 0 <= t < k implies wf_vec(#[trigger] a.deep_view()[t], k as int, 3329) by {
            lemma_deep_view_mat_index(a, t);
        }
    }
    a
}

/// Draws `k` centered-binomial polynomials with nonces `n0, n0+1, ...`.
fn gen_cbd_vec(seed: &Vec<u8>, eta: usize, n0: u8, k: usize) -> (v: Vec<Vec<u16>>)
    requires
        seed@.len() == 32,
        eta == 2 || eta == 3,
        k <= 4,
        n0 <= 8,
    ensures
        v.deep_view() == spec_cbd_vec(seed@, eta as int, n0 as int, k as int),
        wf_vec(v.deep_view(), k as int, 3329),
{
    let mut v: Vec<Vec<u16>> = Vec::new();
    let mut i: usize = 0;
    while i < k
        invariant
            seed@.len() == 32,
            eta == 2 || eta == 3,
            k <= 4,
            n0 <= 8,
            i <= k,
            v@.len() == i,
            forall|t: int|
                0 <= t < i ==> (#[trigger] v@[t])@ == spec_cbd(
                    eta as int,
                    spec_prf(eta as int, seed@, (n0 + t) as u8),
                ) && v@[t]@.len() == 256 && coeffs_below(v@[t]@, 3329),
        decreases k - i,
    {
        let pr = prf(eta, seed, n0 + (i as u8));
        let poly = sample_poly_cbd(eta, &pr);
        v.push(poly);
        i = i + 1;
        proof {
            assert(v@[i - 1]@ == spec_cbd(eta as int, spec_prf(eta as int, seed@, (n0 + (i - 1))
                as u8)));
        }
    }
    proof {
        assert forall|t: int| 0 <= t < k implies #[trigger] v.deep_view()[t] == spec_cbd_vec(
            seed@,
            eta as int,
            n0 as int,
            k as int,
        )[t] && v.deep_view()[t].len() == 256 && coeffs_below(v.deep_view()[t], 3329) by {
            lemma_deep_view_vec_index(v, t);
        }
        assert(v.deep_view() =~~= spec_cbd_vec(seed@, eta as int, n0 as int, k as int));
    }
    v
}

/// The NTT of each entry of a vector.
fn ntt_vec(v: &Vec<Vec<u16>>) -> (r: Vec<Vec<u16>>)
    requires
        wf_vec(v.deep_view(), v@.len() as int, 3329),
    ensures
        r.deep_view() == spec_ntt_vec(v.deep_view()),
        wf_vec(r.deep_view(), v@.len() as int, 3329),
{
    let k = v.len();
    let mut r: Vec<Vec<u16>> = Vec::new();
    let mut i: usize = 0;
    while i < k
        invariant
            k == v@.len(),
            wf_vec(v.deep_view(), k as int, 3329),
            i <= k,
            r@.len() == i,
            forall|t: int|
                0 <= t < i ==> (#[trigger] r@[t])@ == spec_ntt(v@[t]@) && r@[t]@.len() == 256
                    && coeffs_below(r@[t]@, 3329),
        decreases k - i,
    {
        proof {
            lemma_deep_view_vec_index(*v, i as int);
        }
        let poly = ntt(&v[i]);
        r.push(poly);
        i = i + 1;
    }
    proof {
        assert forall|t: int| 0 <= t < k implies #[trigger] r.deep_view()[t] == spec_ntt_vec(
            v.deep_view(),
        )[t] && r.deep_view()[t].len() == 256 && coeffs_below(r.deep_view()[t], 3329) by {
            lemma_deep_view_vec_index(r, t);
            lemma_deep_view_vec_index(*v, t);
        }
        assert(r.deep_view() =~~= spec_ntt_vec(v.deep_view()));
    }
    r
}

/// The inverse NTT of each entry of a vector.
fn ntt_inv_vec(v: &Vec<Vec<u16>>) -> (r: Vec<Vec<u16>>)
    requires
        wf_vec(v.deep_view(), v@.len() as int, 3329),
    ensures
        r.deep_view() == spec_ntt_inv_vec(v.deep_view()),
        wf_vec(r.deep_view(), v@.len() as int, 3329),
{
    let k = v.len();
    let mut r: Vec<Vec<u16>> = Vec::new();
    let mut i: usize = 0;
    while i < k
        invariant
            k == v@.len(),
            wf_vec(v.deep_view(), k as int, 3329),
            i <= k,
            r@.len() == i,
            forall|t: int|
                0 <= t < i ==> (#[trigger] r@[t])@ == spec_ntt_inv(v@[t]@) && r@[t]@.len() == 256
                    && coeffs_below(r@[t]@, 3329),
        decreases k - i,
    {
        proof {
            lemma_deep_view_vec_index(*v, i as int);
        }
        let poly = ntt_inv(&v[i]);
        r.push(poly);
        i = i + 1;
    }
    proof {
        assert forall|t: int| 0 <= t < k implies #[trigger] r.deep_view()[t] == spec_ntt_inv_vec(
            v.deep_view(),
        )[t] && r.deep_view()[t].len() == 256 && coeffs_below(r.deep_view()[t], 3329) by {
            lemma_deep_view_vec_index(r, t);
            lemma_deep_view_vec_index(*v, t);
        }
        assert(r.deep_view() =~~= spec_ntt_inv_vec(v.deep_view()));
    }
    r
}

/// `ByteEncode_12` of each entry of a vector, appended to `out`.
fn encode_vec_into(out: &mut Vec<u8>, d: usize, v: &Vec<Vec<u16>>)
    requires
        1 <= d <= 12,
        forall|t: int| 0 <= t < v@.len() ==> (#[trigger] v@[t])@.len() == 256,
    ensures
        final(out)@ == old(out)@ + spec_encode_vec(d as int, v.deep_view(), v@.len() as int),
{
    let k = v.len();
    let mut i: usize = 0;
    while i < k
        invariant
            1 <= d <= 12,
            k == v@.len(),
            forall|t: int| 0 <= t < v@.len() ==> (#[trigger] v@[t])@.len() == 256,
            i <= k,
            out@ == old(out)@ + spec_encode_vec(d as int, v.deep_view(), i as int),
        decreases k - i,
    {
        proof {
            lemma_deep_view_vec_index(*v, i as int);
        }
        match byte_encode(d, &v[i]) {
            Ok(enc) => {
                append_bytes(out, &enc);
            },
            Err(_) => {
                proof {
                    assert(false);
                }
            },
        }
        i = i + 1;
        proof {
            lemma_deep_view_vec_index(*v, i - 1);
            assert(out@ =~= old(out)@ + spec_encode_vec(d as int, v.deep_view(), i as int));
        }
    }
}

/// `K-PKE.KeyGen`: derives `(ek_pke, dk_pke)` from the 32-byte seed `d`.
pub fn k_pke_key_gen(p: Params, d: &Vec<u8>) -> (r: (Vec<u8>, Vec<u8>))
    requires
        wf_params(p),
        d@.len() == 32,
    ensures
        r.0@ == spec_kpke_keygen(p, d@).0,
        r.1@ == spec_kpke_keygen(p, d@).1,
        r.0@.len() == spec_ek_len(p),
        r.1@.len() == 384 * p.k,
{
    let k = p.k;
    let (rho, sigma) = g(d);
    let a_hat = gen_matrix(&rho, k);
    let s = gen_cbd_vec(&sigma, p.eta1, 0, k);
    let e = gen_cbd_vec(&sigma, p.eta1, k as u8, k);
    let s_hat = ntt_vec(&s);
    let e_hat = ntt_vec(&e);
    proof {
        assert forall|t: int| 0 <= t < k implies wf_vec(
            #[trigger] a_hat.deep_view()[t],
            k as int,
            4096,
        ) by {
            assert(wf_vec(a_hat.deep_view()[t], k as int, 3329));
        }
        assert(wf_mat(a_hat.deep_view(), k as int, 4096));
        assert(wf_vec(s_hat.deep_view(), k as int, 4096));
        assert(wf_vec(e_hat.deep_view(), k as int, 4096));
    }
    let prod = mat_vec_mul(&a_hat, &s_hat);
    proof {
        assert forall|t: int| 0 <= t < k implies (#[trigger] prod@[t])@.len() == 256 by {
            lemma_deep_view_vec_index(prod, t);
        }
        assert forall|t: int| 0 <= t < k implies (#[trigger] e_hat@[t])@.len() == 256 by {
            lemma_deep_view_vec_index(e_hat, t);
        }
        assert forall|t: int| 0 <= t < k implies (#[trigger] s_hat@[t])@.len() == 256 by {
            lemma_deep_view_vec_index(s_hat, t);
        }
    }
    let t_hat = vec_add(&prod, &e_hat);
    proof {
        assert forall|t: int| 0 <= t < k implies (#[trigger] t_hat@[t])@.len() == 256 by {
            lemma_deep_view_vec_index(t_hat, t);
        }
    }
    let mut ek: Vec<u8> = Vec::new();
    encode_vec_into(&mut ek, 12, &t_hat);
    append_bytes(&mut ek, &rho);
    let mut dk: Vec<u8> = Vec::new();
    encode_vec_into(&mut dk, 12, &s_hat);
    proof {
        let kk = k as int;
        let spec = spec_kpke_keygen(p, d@);
        assert(t_hat.deep_view() == spec_vec_add(
            spec_mat_vec_mul(spec_matrix(rho@, kk), spec_ntt_vec(s.deep_view()), kk),
            spec_ntt_vec(e.deep_view()),
        ));
        assert(ek@ =~= spec.0);
        assert(dk@ =~= spec.1);
        lemma_encode_vec_len(12, t_hat.deep_view(), kk);
        lemma_encode_vec_len(12, s_hat.deep_view(), kk);
    }
    (ek, dk)
}

/// `Compress_d` applied to every entry of a vector.
pub open spec fn spec_compress_vec(d: int, v: Seq<Seq<u16>>, k: int) -> Seq<Seq<u16>> {
    Seq::new(k as nat, |i: int| spec_compress_poly(d, v[i]))
}

/// The ciphertext of `K-PKE.Encrypt` on a well-formed encryption key, a
/// 32-byte message and 32 bytes of encryption randomness:
/// `c1 = ByteEncode_du(Compress_du(u))` for
/// `u = NTT^-1(A_hat^T * r_hat) + e1`, and
/// `c2 = ByteEncode_dv(Compress_dv(v))` for
/// `v = NTT^-1(t_hat^T * r_hat) + e2 + Decompress_1(ByteDecode_1(m))`,
/// with the noise drawn by nonces `0..2k+1` from `rnd`.
pub open spec fn spec_kpke_encrypt(p: Params, ek: Seq<u8>, msg: Seq<u8>, rnd: Seq<u8>) -> Seq<u8> {
    let k = p.k as int;
    let du = p.du as int;
    let dv = p.dv as int;
    let t_hat = spec_decode_vec(12, ek, k);
    let rho = ek.subrange(384 * k, 384 * k + 32);
    let a_hat = spec_matrix(rho, k);
    let r_hat = spec_ntt_vec(spec_cbd_vec(rnd, p.eta1 as int, 0, k));
    let e1 = spec_cbd_vec(rnd, p.eta2 as int, k, k);
    let e2 = spec_cbd(p.eta2 as int, spec_prf(p.eta2 as int, rnd, (2 * k) as u8));
    let u = spec_vec_add(spec_ntt_inv_vec(spec_mat_t_vec_mul(a_hat, r_hat, k)), e1);
    let mu = spec_decompress_poly(1, spec_byte_decode(1, msg));
    let v = spec_poly_add(spec_poly_add(spec_ntt_inv(spec_dot_sum(t_hat, r_hat, k)), e2), mu);
    spec_encode_vec(du, spec_compress_vec(du, u, k), k) + spec_byte_encode(
        dv,
        spec_compress_poly(dv, v),
    )
}

/// The message recovered by `K-PKE.Decrypt`:
/// `m = ByteEncode_1(Compress_1(v - NTT^-1(s_hat^T * NTT(u))))` with `u`
/// and `v` decompressed out of the two ciphertext halves.
pub open spec fn spec_kpke_decrypt(p: Params, dk: Seq<u8>, ct: Seq<u8>) -> Seq<u8> {
    let k = p.k as int;
    let du = p.du as int;
    let dv = p.dv as int;
    let u = Seq::new(
        k as nat,
        |i: int|
            spec_decompress_poly(
                du,
                spec_byte_decode(du, ct.subrange(32 * du * i, 32 * du * (i + 1))),
            ),
    );
    let v = spec_decompress_poly(
        dv,
        spec_byte_decode(dv, ct.subrange(32 * du * k, 32 * du * k + 32 * dv)),
    );
    let s_hat = spec_decode_vec(12, dk, k);
    let w = spec_poly_sub(v, spec_ntt_inv(spec_dot_sum(s_hat, spec_ntt_vec(u), k)));
    spec_byte_encode(1, spec_compress_poly(1, w))
}

/// Unpacks `k` consecutive `32 d`-byte chunks of `b`, each into 256
/// unreduced `d`-bit integers.
fn decode_vec(d: usize, b: &Vec<u8>, off: usize, k: usize) -> (r: Vec<Vec<u16>>)
    requires
        1 <= d <= 12,
        k <= 4,
        off + 32 * d * k <= b@.len(),
        off == 0,
    ensures
        r.deep_view() == spec_decode_vec(d as int, b@, k as int),
        wf_vec(r.deep_view(), k as int, 4096),
{
    let n = b.len();
    let mut r: Vec<Vec<u16>> = Vec::new();
    let mut i: usize = 0;
    while i < k
        invariant
            1 <= d <= 12,
            k <= 4,
            n == b@.len(),
            32 * d * k <= n,
            off == 0,
            i <= k,
            r@.len() == i,
            forall|t: int|
                0 <= t < i ==> (#[trigger] r@[t])@ == spec_byte_decode(
                    d as int,
                    b@.subrange(32 * d as int * t, 32 * d as int * (t + 1)),
                ) && r@[t]@.len() == 256 && coeffs_below(r@[t]@, 4096),
        decreases k - i,
    {
        proof {
            assert(32 * (d as int) * (i as int) + 32 * (d as int) <= 32 * (d as int) * (k as int))
                by (nonlinear_arith)
                requires
                    0 <= i < k,
                    1 <= d,
            ;
            assert(32 * (d as int) * (i as int + 1) == 32 * (d as int) * (i as int) + 32 * (
            d as int)) by (nonlinear_arith);
        }
        let chunk = sub_bytes(b, 32 * d * i, 32 * d * (i + 1));
        match byte_decode(d, &chunk) {
            Ok(f) => {
                proof {
                    crate::byte_fns::lemma_p2_unfold();
                    crate::byte_fns::lemma_p2_monotone(d as nat, 12);
                }
                r.push(f);
            },
            Err(_) => {
                proof {
                    assert(false);
                }
            },
        }
        i = i + 1;
    }
    proof {
        assert forall|t: int| 0 <= t < k implies #[trigger] r.deep_view()[t] == spec_decode_vec(
            d as int,
            b@,
            k as int,
        )[t] && r.deep_view()[t].len() == 256 && coeffs_below(r.deep_view()[t], 4096) by {
            lemma_deep_view_vec_index(r, t);
        }
        assert(r.deep_view() =~~= spec_decode_vec(d as int, b@, k as int));
    }
    r
}

/// `K-PKE.Encrypt`: encrypts the 32-byte message `m` under `ek_pke` with
/// the 32-byte randomness `rnd`.
pub fn k_pke_encrypt(p: Params, ek: &Vec<u8>, m: &Vec<u8>, rnd: &Vec<u8>) -> (ct: Vec<u8>)
    requires
        wf_params(p),
        ek@.len() == 384 * p.k + 32,
        m@.len() == 32,
        rnd@.len() == 32,
    ensures
        ct@ == spec_kpke_encrypt(p, ek@, m@, rnd@),
        ct@.len() == 32 * (p.du * p.k + p.dv),
{
    let k = p.k;
    let t_hat = decode_vec(12, ek, 0, k);
    let rho = sub_bytes(ek, 384 * k, 384 * k + 32);
    let a_hat = gen_matrix(&rho, k);
    let rv = gen_cbd_vec(rnd, p.eta1, 0, k);
    let r_hat = ntt_vec(&rv);
    let e1 = gen_cbd_vec(rnd, p.eta2, k as u8, k);
    let pr2 = prf(p.eta2, rnd, 2 * (k as u8));
    let e2 = sample_poly_cbd(p.eta2, &pr2);
    proof {
        assert forall|t: int| 0 <= t < k implies wf_vec(
            #[trigger] a_hat.deep_view()[t],
            k as int,
            4096,
        ) by {
            assert(wf_vec(a_hat.deep_view()[t], k as int, 3329));
        }
        assert(wf_mat(a_hat.deep_view(), k as int, 4096));
        assert(wf_vec(r_hat.deep_view(), k as int, 4096));
    }
    let y = mat_t_vec_mul(&a_hat, &r_hat);
    let u0 = ntt_inv_vec(&y);
    proof {
        assert forall|t: int| 0 <= t < k implies (#[trigger] u0@[t])@.len() == 256 by {
            lemma_deep_view_vec_index(u0, t);
        }
        assert forall|t: int| 0 <= t < k implies (#[trigger] e1@[t])@.len() == 256 by {
            lemma_deep_view_vec_index(e1, t);
        }
    }
    let u = vec_add(&u0, &e1);
    let mut mu = match byte_decode(1, m) {
        Ok(f) => f,
        Err(_) => {
            proof {
                assert(false);
            }
            Vec::new()
        },
    };
    proof {
        crate::byte_fns::lemma_p2_unfold();
    }
    decompress(1, &mut mu);
    proof {
        assert(mu@ =~= spec_decompress_poly(1, spec_byte_decode(1, m@)));
    }
    let w_hat = dot_t_prod(&t_hat, &r_hat);
    let v0 = ntt_inv(&w_hat);
    let v1 = poly_add(&v0, &e2);
    let v = poly_add(&v1, &mu);
    let ghost u_spec = spec_vec_add(
        spec_ntt_inv_vec(
            spec_mat_t_vec_mul(
                spec_matrix(rho@, k as int),
                spec_ntt_vec(rv.deep_view()),
                k as int,
            ),
        ),
        e1.deep_view(),
    );
    let mut ct: Vec<u8> = Vec::new();
    let mut i: usize = 0;
    while i < k
        invariant
            wf_params(p),
            k == p.k,
            u@.len() == k,
            u.deep_view() == u_spec,
            wf_vec(u.deep_view(), k as int, 3329),
            i <= k,
            ct@ == spec_encode_vec(
                p.du as int,
                spec_compress_vec(p.du as int, u_spec, k as int),
                i as int,
            ),
        decreases k - i,
    {
        proof {
            lemma_deep_view_vec_index(u, i as int);
        }
        let mut ui = crate::ntt::copy_poly(&u[i]);
        compress(p.du, &mut ui);
        proof {
            assert(ui@ =~= spec_compress_poly(p.du as int, u@[i as int]@));
            crate::byte_fns::lemma_p2_unfold();
            crate::byte_fns::lemma_p2_monotone(p.du as nat, 12);
        }
        match byte_encode(p.du, &ui) {
            Ok(enc) => {
                append_bytes(&mut ct, &enc);
            },
            Err(_) => {
                proof {
                    assert(false);
                }
            },
        }
        i = i + 1;
        proof {
            assert(ct@ =~= spec_encode_vec(
                p.du as int,
                spec_compress_vec(p.du as int, u_spec, k as int),
                i as int,
            ));
        }
    }
    let mut vv = v;
    compress(p.dv, &mut vv);
    proof {
        assert(vv@ =~= spec_compress_poly(p.dv as int, v@));
        crate::byte_fns::lemma_p2_unfold();
        crate::byte_fns::lemma_p2_monotone(p.dv as nat, 12);
    }
    match byte_encode(p.dv, &vv) {
        Ok(enc) => {
            append_bytes(&mut ct, &enc);
        },
        Err(_) => {
            proof {
                assert(false);
            }
        },
    }
    proof {
        assert(ct@ =~= spec_kpke_encrypt(p, ek@, m@, rnd@));
        lemma_encode_vec_len(
            p.du as int,
            spec_compress_vec(p.du as int, u_spec, k as int),
            k as int,
        );
        lemma_spec_byte_encode_len(p.dv as int, spec_compress_poly(p.dv as int, v@));
        assert((k as int) * (32 * p.du as int) + 32 * p.dv == 32 * (p.du * p.k + p.dv))
            by (nonlinear_arith)
            requires
                k == p.k,
        ;
    }
    ct
}

/// `K-PKE.Decrypt`: recovers the 32-byte message from a ciphertext.
pub fn k_pke_decrypt(p: Params, dk: &Vec<u8>, ct: &Vec<u8>) -> (m: Vec<u8>)
    requires
        wf_params(p),
        dk@.len() == 384 * p.k,
        ct@.len() == 32 * (p.du * p.k + p.dv),
    ensures
        m@ == spec_kpke_decrypt(p, dk@, ct@),
        m@.len() == 32,
{
    let k = p.k;
    let du = p.du;
    let dv = p.dv;
    let ghost u_spec = Seq::new(
        k as nat,
        |i: int|
            spec_decompress_poly(
                du as int,
                spec_byte_decode(
                    du as int,
                    ct@.subrange(32 * du as int * i, 32 * du as int * (i + 1)),
                ),
            ),
    );
    let mut u: Vec<Vec<u16>> = Vec::new();
    let mut i: usize = 0;
    proof {
        assert(32 * (du as int) * (k as int) + 32 * (dv as int) == 32 * (p.du * p.k + p.dv))
            by (nonlinear_arith)
            requires
                k == p.k && du == p.du && dv == p.dv,
        ;
    }
    while i < k
        invariant
            wf_params(p),
            k == p.k,
            du == p.du,
            ct@.len() == 32 * (p.du * p.k + p.dv),
            32 * (du as int) * (k as int) <= ct@.len(),
            u_spec == Seq::new(
                k as nat,
                |t: int|
                    spec_decompress_poly(
                        du as int,
                        spec_byte_decode(
                            du as int,
                            ct@.subrange(32 * du as int * t, 32 * du as int * (t + 1)),
                        ),
                    ),
            ),
            i <= k,
            u@.len() == i,
            forall|t: int|
                0 <= t < i ==> (#[trigger] u@[t])@ == u_spec[t] && u@[t]@.len() == 256
                    && coeffs_below(u@[t]@, 3329),
        decreases k - i,
    {
        proof {
            assert(32 * (du as int) * (i as int) + 32 * (du as int) <= 32 * (du as int) * (
            k as int)) by (nonlinear_arith)
                requires
                    0 <= i < k,
                    1 <= du,
            ;
            assert(32 * (du as int) * (i as int + 1) == 32 * (du as int) * (i as int) + 32 * (
            du as int)) by (nonlinear_arith);
        }
        let chunk = sub_bytes(ct, 32 * du * i, 32 * du * (i + 1));
        let mut f = match byte_decode(du, &chunk) {
            Ok(f) => f,
            Err(_) => {
                proof {
                    assert(false);
                }
                Vec::new()
            },
        };
        let ghost dec0 = f@;
        decompress(du, &mut f);
        proof {
            assert(dec0 == spec_byte_decode(du as int, chunk@));
            assert(u_spec[i as int] == spec_decompress_poly(du as int, dec0));
            assert forall|t: int| 0 <= t < 256 implies f@[t] == u_spec[i as int][t] by {
                assert(f@[t] == spec_decompress(du as int, dec0[t] as int));
            }
            assert(f@ =~= u_spec[i as int]);
        }
        u.push(f);
        i = i + 1;
    }
    let c2 = sub_bytes(ct, 32 * du * k, 32 * du * k + 32 * dv);
    let mut v = match byte_decode(dv, &c2) {
        Ok(f) => f,
        Err(_) => {
            proof {
                assert(false);
            }
            Vec::new()
        },
    };
    decompress(dv, &mut v);
    proof {
        assert(v@ =~= spec_decompress_poly(
            dv as int,
            spec_byte_decode(dv as int, ct@.subrange(32 * du as int * k as int, 32 * du as int
                * k as int + 32 * dv as int)),
        ));
    }
    let s_hat = decode_vec(12, dk, 0, k);
    proof {
        assert forall|t: int| 0 <= t < k implies #[trigger] u.deep_view()[t] == u_spec[t]
            && u.deep_view()[t].len() == 256 && coeffs_below(u.deep_view()[t], 3329) by {
            lemma_deep_view_vec_index(u, t);
        }
        assert(u.deep_view() =~~= u_spec);
        assert(wf_vec(u.deep_view(), k as int, 3329));
    }
    let u_hat = ntt_vec(&u);
    proof {
        assert(wf_vec(u_hat.deep_view(), k as int, 4096));
    }
    let wq = dot_t_prod(&s_hat, &u_hat);
    let y = ntt_inv(&wq);
    let mut w = poly_sub(&v, &y);
    compress(1, &mut w);
    proof {
        crate::byte_fns::lemma_p2_unfold();
        assert(w@ =~= spec_compress_poly(
            1,
            spec_poly_sub(
                v@,
                spec_ntt_inv(spec_dot_sum(s_hat.deep_view(), spec_ntt_vec(u_spec), k as int)),
            ),
        ));
    }
    match byte_encode(1, &w) {
        Ok(m) => {
            proof {
                assert(m@ =~= spec_kpke_decrypt(p, dk@, ct@));
            }
            m
        },
        Err(_) => {
            proof {
                assert(false);
            }
            Vec::new()
        },
    }
}

/// The length of the concatenated encodings: `cnt` chunks of `32 d` bytes.
pub proof fn lemma_encode_vec_len(d: int, v: Seq<Seq<u16>>, cnt: int)
    requires
        1 <= d <= 12,
        0 <= cnt,
        forall|t: int| 0 <= t < cnt ==> (#[trigger] v[t]).len() == 256,
    ensures
        spec_encode_vec(d, v, cnt).len() == cnt * (32 * d),
    decreases cnt,
{
    if cnt > 0 {
        lemma_encode_vec_len(d, v, cnt - 1);
        assert(spec_byte_encode(d, v[cnt - 1]).len() == 32 * d) by {
            lemma_spec_byte_encode_len(d, v[cnt - 1]);
        }
        assert(cnt * (32 * d) == (cnt - 1) * (32 * d) + 32 * d) by (nonlinear_arith);
    } else {
        assert(cnt * (32 * d) == 0) by (nonlinear_arith)
            requires
                cnt == 0,
        ;
    }
}

/// The length of one encoding: `32 d` bytes.
pub proof fn lemma_spec_byte_encode_len(d: int, f: Seq<u16>)
    requires
        1 <= d <= 12,
        f.len() == 256,
    ensures
        spec_byte_encode(d, f).len() == 32 * d,
{
    assert(spec_byte_encode(d, f).len() == 256 * d / 8);
    assert(256 * d / 8 == 32 * d) by {
        vstd::arithmetic::div_mod::lemma_div_multiples_vanish_fancy(32 * d, 0, 8);
        assert(8 * (32 * d) == 256 * d);
    }
}

} // verus!
