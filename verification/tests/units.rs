//! Unit tests: field arithmetic, bit reversal, modular powers, the NTT
//! round trip, compression values, samplers, hashes and key handling.

use ml_kem_rs::byte_fns::bytes_to_bits;
use ml_kem_rs::helpers::{
    bit_rev_7, compress, decompress, h, j, pow_mod_q, prf, vec_add,
};
use ml_kem_rs::k_pke::k_pke_key_gen;
use ml_kem_rs::ml_kem_512;
use ml_kem_rs::ntt::{base_case_multiply, multiply_ntts, ntt, ntt_inv};
use ml_kem_rs::params::params_512;
use ml_kem_rs::sampling::{sample_ntt, sample_poly_cbd};
use ml_kem_rs::types::Z256;

#[test]
fn test_k_pke_keygen() {
    let d = vec![0u8; 32];
    let x = k_pke_key_gen(params_512(), &d);
    assert_eq!(x.0.len(), 800);
    assert_eq!(x.1.len(), 768);
}

#[test]
fn test_key_deser() {
    let x = ml_kem_512::key_gen().unwrap();
    let buf = x.0.to_bytes();
    assert_eq!(buf.len(), 800);
    let rebuilt = ml_kem_512::new_ek(buf.clone()).unwrap();
    assert_eq!(rebuilt.to_bytes(), buf);
}

#[test]
fn test_z256_arithmetic() {
    assert_eq!(Z256(3328).add(Z256(3328)).get_u16(), 3327);
    assert_eq!(Z256(0).add(Z256(0)).get_u16(), 0);
    assert_eq!(Z256(1).sub(Z256(2)).get_u16(), 3328);
    assert_eq!(Z256(3000).sub(Z256(1000)).get_u16(), 2000);
    assert_eq!(Z256(3328).mul(Z256(3328)).get_u16(), 1);
    assert_eq!(Z256(17).mul(Z256(0)).get_u16(), 0);
    assert_eq!(Z256(2).mul(Z256(1700)).get_u16(), 71);
}

#[test]
fn test_bit_rev_7() {
    assert_eq!(bit_rev_7(1), 64);
    assert_eq!(bit_rev_7(64), 1);
    assert_eq!(bit_rev_7(0), 0);
    assert_eq!(bit_rev_7(127), 127);
    assert_eq!(bit_rev_7(2), 32);
}

#[test]
fn test_pow_mod_q() {
    assert_eq!(pow_mod_q(17, 0), 1);
    assert_eq!(pow_mod_q(17, 1), 17);
    assert_eq!(pow_mod_q(17, 2), 289);
    // zeta has order 256: zeta^128 = -1 mod q
    let mut acc: u32 = 1;
    for _ in 0..128 {
        acc = acc * 17 % 3329;
    }
    assert_eq!(acc, 3328);
    assert_eq!(pow_mod_q(17, 128), 3328);
    // 128 * 3303 = 1 mod q, the inverse used by the inverse transform
    assert_eq!(128u32 * 3303 % 3329, 1);
}

#[test]
fn test_compress_decompress_values() {
    // Compress_1(x) = round(2x/q) mod 2
    let mut v = vec![0u16, 832, 833, 1664, 1665, 2496, 2497, 3328];
    compress(1, &mut v);
    assert_eq!(v, vec![0, 0, 1, 1, 1, 1, 0, 0]);
    // Decompress_10(1) = round(3329/1024) = 3
    let mut w = vec![0u16, 1, 1023];
    decompress(10, &mut w);
    assert_eq!(w, vec![0, 3, 3326]);
    // compress after decompress is the identity on 10-bit values
    let mut x: Vec<u16> = (0..1024).collect();
    decompress(10, &mut x);
    compress(10, &mut x);
    assert_eq!(x, (0..1024).collect::<Vec<u16>>());
}

#[test]
fn test_ntt_round_trip() {
    let mut f: Vec<u16> = Vec::new();
    for i in 0..256u16 {
        f.push((i * 13 + 7) % 3329);
    }
    let f_hat = ntt(&f);
    assert_ne!(f_hat, f);
    let back = ntt_inv(&f_hat);
    assert_eq!(back, f);
}

#[test]
fn test_ntt_is_additive() {
    let f: Vec<u16> = (0..256).map(|i| (i * 31) % 3329).collect();
    let g: Vec<u16> = (0..256).map(|i| (i * i + 5) % 3329).collect();
    let sum = vec_add(&vec![f.clone()], &vec![g.clone()]);
    let lhs = ntt(&sum[0]);
    let rhs = vec_add(&vec![ntt(&f)], &vec![ntt(&g)]);
    assert_eq!(lhs, rhs[0]);
}

#[test]
fn test_multiply_ntts_identity() {
    // the constant polynomial 1 maps to the pair (1, 0) in every slot of
    // the NTT domain and is the multiplicative identity there
    let mut one = vec![0u16; 256];
    one[0] = 1;
    let one_hat = ntt(&one);
    for (i, &c) in one_hat.iter().enumerate() {
        assert_eq!(c, if i % 2 == 0 { 1 } else { 0 });
    }
    let g: Vec<u16> = (0..256).map(|i| (7 * i + 11) % 3329).collect();
    let g_hat = ntt(&g);
    let prod = multiply_ntts(&one_hat, &g_hat);
    assert_eq!(prod, g_hat);
    assert_eq!(ntt_inv(&prod), g);
}

#[test]
fn test_multiply_ntts_is_ring_product() {
    // the NTT-domain pairwise product agrees with the schoolbook product
    // in Z_q[X]/(X^256 + 1)
    let f: Vec<u16> = (0..256u32).map(|i| ((3 * i + 1) % 3329) as u16).collect();
    let g: Vec<u16> = (0..256u32).map(|i| ((5 * i * i + 2) % 3329) as u16).collect();
    let mut c = vec![0i64; 256];
    for i in 0..256 {
        for j in 0..256 {
            let p = f[i] as i64 * g[j] as i64 % 3329;
            let idx = i + j;
            if idx < 256 {
                c[idx] = (c[idx] + p) % 3329;
            } else {
                c[idx - 256] = (c[idx - 256] - p).rem_euclid(3329);
            }
        }
    }
    let cpoly: Vec<u16> = c.iter().map(|&x| x.rem_euclid(3329) as u16).collect();
    assert_eq!(ntt(&cpoly), multiply_ntts(&ntt(&f), &ntt(&g)));
}

#[test]
fn test_base_case_multiply() {
    // (1 + 2X)(3 + 4X) mod (X^2 - 5) = 3 + 40 + (4 + 6)X
    let (c0, c1) = base_case_multiply(1, 2, 3, 4, 5);
    assert_eq!((c0, c1), (43, 10));
}

#[test]
fn test_sample_poly_cbd_counts_bits() {
    // all-zero input gives the zero polynomial; a single set bit in the
    // second group of eta bits gives q - 1
    let zeros = vec![0u8; 128];
    let f = sample_poly_cbd(2, &zeros);
    assert!(f.iter().all(|&c| c == 0));
    let mut b = vec![0u8; 128];
    b[0] = 0b0000_0100;  // bit 2 = first bit of the y-sum for coefficient 0
    let g = sample_poly_cbd(2, &b);
    assert_eq!(g[0], 3328);
    b[0] = 0b0000_0001;  // bit 0 = first bit of the x-sum
    let e = sample_poly_cbd(2, &b);
    assert_eq!(e[0], 1);
}

#[test]
fn test_sample_ntt_draws_from_stream() {
    let rho = vec![0u8; 32];
    let a = sample_ntt(&rho, 0, 0);
    assert_eq!(a.len(), 256);
    assert!(a.iter().all(|&c| c < 3329));
    // the stream is not the identity on its seed: a degenerate wrapper
    // returning zeros would fail here
    assert!(a.iter().any(|&c| c != 0));
    // different indices give different polynomials
    let b = sample_ntt(&rho, 0, 1);
    assert_ne!(a, b);
    // and the sampler is deterministic
    assert_eq!(a, sample_ntt(&rho, 0, 0));
}

#[test]
fn test_hashes_are_not_identity() {
    let zeros = vec![0u8; 32];
    let hh = h(&zeros);
    assert_eq!(hh.len(), 32);
    assert_ne!(hh, zeros);
    assert_eq!(hh, h(&zeros));
    let jj = j(&zeros);
    assert_eq!(jj.len(), 32);
    assert_ne!(jj, zeros);
    assert_ne!(jj, hh);
    let pr = prf(2, &zeros, 0);
    assert_eq!(pr.len(), 128);
    assert_ne!(pr[0..32], zeros[..]);
    assert_ne!(prf(2, &zeros, 1), pr);
    // the bit expansion of the PRF output is consistent with the bytes
    let bits = bytes_to_bits(&pr);
    assert_eq!(bits.len(), 1024);
}

#[test]
fn test_shared_secret_handling() {
    let (ek, dk) = ml_kem_512::key_gen().unwrap();
    let (ssk, ct) = ek.encaps().unwrap();
    let ssk2 = dk.decaps(&ct);
    assert!(ssk == ssk2);
    let copy = ssk.get_bytes();
    assert_eq!(copy.len(), 32);
    let mut owned = ssk2;
    owned.zeroize();
    assert_eq!(owned.get_bytes().len(), 0);
    assert_eq!(ssk.into_bytes(), copy);
}
