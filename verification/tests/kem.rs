//! End-to-end scenarios over the seed-based core: deterministic all-zero
//! seed flows for the three parameter sets, the key layout, the modulus
//! check, implicit rejection, and repeatability.

use ml_kem_rs::helpers::{g, h, j};
use ml_kem_rs::ml_kem::{ml_kem_decaps, ml_kem_encaps, ml_kem_key_gen};
use ml_kem_rs::params::{params_1024, params_512, params_768, Params};
use ml_kem_rs::MlKemError;

fn zero_seed_flow(
    p: Params,
    ek_len: usize,
    dk_len: usize,
    ct_len: usize,
) -> (Vec<u8>, Vec<u8>, Vec<u8>, Vec<u8>) {
    let z = vec![0u8; 32];
    let d = vec![0u8; 32];
    let m = vec![0u8; 32];
    let k = p.k;

    let (ek, dk) = ml_kem_key_gen(p, &z, &d);
    assert_eq!(ek.len(), ek_len);
    assert_eq!(dk.len(), dk_len);

    // dk = dkPKE || ek || H(ek) || z
    assert_eq!(&dk[384 * k..768 * k + 32], ek.as_slice());
    assert_eq!(&dk[768 * k + 32..768 * k + 64], h(&ek).as_slice());
    assert_eq!(&dk[768 * k + 64..768 * k + 96], z.as_slice());

    let (ssk, ct) = ml_kem_encaps(p, &ek, &m).unwrap();
    assert_eq!(ssk.len(), 32);
    assert_eq!(ct.len(), ct_len);

    // the shared secret is the first half of G(m || H(ek))
    let mut g_input = m.clone();
    g_input.extend_from_slice(&h(&ek));
    assert_eq!(ssk, g(&g_input).0);

    // decapsulation of an honest ciphertext returns the encapsulated key
    let ssk2 = ml_kem_decaps(p, &dk, &ct).unwrap();
    assert_eq!(ssk, ssk2);

    // the whole flow is a deterministic function of the seeds
    let (ek_b, dk_b) = ml_kem_key_gen(p, &z, &d);
    assert_eq!(ek, ek_b);
    assert_eq!(dk, dk_b);
    let (ssk_b, ct_b) = ml_kem_encaps(p, &ek, &m).unwrap();
    assert_eq!(ssk, ssk_b);
    assert_eq!(ct, ct_b);

    // a tampered ciphertext is implicitly rejected: the result differs from
    // the honest key but is still deterministic
    let mut bad_ct = ct.clone();
    let last = bad_ct.len() - 1;
    bad_ct[last] ^= 0x01;
    let rej = ml_kem_decaps(p, &dk, &bad_ct).unwrap();
    assert_ne!(rej, ssk);
    let rej2 = ml_kem_decaps(p, &dk, &bad_ct).unwrap();
    assert_eq!(rej, rej2);

    // the rejected value is exactly the implicit-rejection key J(z || c)
    let mut j_input = z.clone();
    j_input.extend_from_slice(&bad_ct);
    assert_eq!(rej, j(&j_input));

    (ek, dk, ct, ssk)
}

#[test]
fn test_zero_seed_flow_512() {
    let (ek, dk, ct, ssk) = zero_seed_flow(params_512(), 800, 1632, 768);
    // the first bytes of each output on all-zero seeds, pinned so that any
    // change to the pipeline is caught
    assert_eq!(ek[0..4], [18, 186, 141, 234]);
    assert_eq!(dk[0..4], [50, 193, 136, 186]);
    assert_eq!(ct[0..4], [102, 228, 6, 214]);
    assert_eq!(
        ssk,
        vec![
            243, 35, 168, 119, 147, 149, 240, 206, 77, 37, 194, 151, 151, 118, 144, 68, 167, 130,
            132, 205, 46, 191, 185, 206, 216, 22, 210, 208, 28, 235, 224, 36,
        ]
    );
}

#[test]
fn test_zero_seed_flow_768() {
    let (ek, dk, ct, ssk) = zero_seed_flow(params_768(), 1184, 2400, 1088);
    assert_eq!(ek[0..4], [64, 200, 33, 150]);
    // dkPKE packs polynomials drawn from G(d).1 with eta1 = 2, which does
    // not depend on k, so the 768 and 1024 prefixes agree
    assert_eq!(dk[0..4], [137, 24, 101, 174]);
    assert_eq!(ct[0..4], [117, 167, 27, 210]);
    assert_eq!(
        ssk,
        vec![
            189, 246, 175, 148, 65, 26, 88, 112, 183, 174, 4, 196, 77, 212, 150, 113, 27, 252,
            241, 4, 37, 209, 96, 196, 49, 161, 26, 244, 58, 23, 217, 102,
        ]
    );
}

#[test]
fn test_zero_seed_flow_1024() {
    let (ek, dk, ct, ssk) = zero_seed_flow(params_1024(), 1568, 3168, 1568);
    assert_eq!(ek[0..4], [225, 105, 109, 228]);
    assert_eq!(dk[0..4], [137, 24, 101, 174]);
    assert_eq!(ct[0..4], [240, 3, 194, 242]);
    assert_eq!(
        ssk,
        vec![
            109, 143, 20, 128, 105, 125, 135, 212, 71, 180, 209, 247, 221, 127, 24, 156, 145, 32,
            156, 74, 148, 21, 39, 55, 202, 248, 21, 112, 49, 175, 18, 227,
        ]
    );
}

#[test]
fn test_encaps_rejects_unreduced_coefficient() {
    // an encapsulation key whose first 12-bit coefficient is exactly q
    // (bytes 0x01, 0x0D encode 0x01 + 256*0x0D = 3329) fails the check
    let p = params_512();
    let mut ek = vec![0u8; 800];
    ek[0] = 0x01;
    ek[1] = 0x0D;
    let m = vec![0u8; 32];
    let r = ml_kem_encaps(p, &ek, &m);
    assert_eq!(r.unwrap_err(), MlKemError::InvalidEncapsKey);

    // the same coefficient one lower (q - 1) passes the check
    let mut ek2 = vec![0u8; 800];
    ek2[0] = 0x00;
    ek2[1] = 0x0D;
    let r2 = ml_kem_encaps(p, &ek2, &m);
    assert!(r2.is_ok());
}

#[test]
fn test_typed_encaps_validates_key_first() {
    // through the typed facade the invalid-key error is owed if and only
    // if the check fails, whatever the random source does
    let mut bytes = vec![0u8; 800];
    bytes[0] = 0x01;
    bytes[1] = 0x0D;
    let ek = ml_kem_rs::ml_kem_512::new_ek(bytes).unwrap();
    match ek.encaps() {
        Err(e) => assert_eq!(e, MlKemError::InvalidEncapsKey),
        Ok(_) => panic!("an invalid encapsulation key was accepted"),
    }
}

#[test]
fn test_encaps_rejects_wrong_length() {
    let p = params_512();
    let ek = vec![0u8; 799];
    let m = vec![0u8; 32];
    assert_eq!(ml_kem_encaps(p, &ek, &m).unwrap_err(), MlKemError::LengthMismatch);
}

#[test]
fn test_decaps_rejects_wrong_lengths() {
    let p = params_512();
    let z = vec![0u8; 32];
    let d = vec![0u8; 32];
    let (_, dk) = ml_kem_key_gen(p, &z, &d);
    let short_ct = vec![0u8; 767];
    assert_eq!(ml_kem_decaps(p, &dk, &short_ct).unwrap_err(), MlKemError::LengthMismatch);
    let short_dk = vec![0u8; 1631];
    let ct = vec![0u8; 768];
    assert_eq!(ml_kem_decaps(p, &short_dk, &ct).unwrap_err(), MlKemError::LengthMismatch);
}

#[test]
fn test_distinct_seeds_give_distinct_keys() {
    let p = params_512();
    let z = vec![0u8; 32];
    let d0 = vec![0u8; 32];
    let mut d1 = vec![0u8; 32];
    d1[0] = 1;
    let (ek0, _) = ml_kem_key_gen(p, &z, &d0);
    let (ek1, _) = ml_kem_key_gen(p, &z, &d1);
    assert_ne!(ek0, ek1);
}
