//! The number-theoretic transform over `Z_q[X]/(X^256 + 1)`, `q = 3329`,
//! with `zeta = 17` as the primitive 256-th root of unity.
//!
//! The forward transform runs seven levels of Cooley-Tukey butterflies
//! (`len = 128, 64, ..., 2`); the inverse runs the Gentleman-Sande schedule
//! in reverse and scales by `128^-1 = 3303`.  Products in the NTT domain are
//! computed pairwise modulo `X^2 - gamma_i`.
//!
//! The specification functions mirror the per-butterfly schedule exactly;
//! the block twiddle index `k` is expressed in closed form as
//! `128/len + start/(2*len)` for the forward transform and
//! `256/len - 1 - start/(2*len)` for the inverse.

use vstd::prelude::*;

use vstd::arithmetic::div_mod::{
    lemma_add_mod_noop, lemma_div_by_multiple, lemma_mod_add_multiples_vanish,
    lemma_mul_mod_noop_left, lemma_mul_mod_noop_right, lemma_sub_mod_noop,
};
use vstd::arithmetic::mul::lemma_mul_is_distributive_add;

use crate::helpers::{bit_rev_7, pow_mod_q, pow_q, spec_bit_rev7, spec_poly_add};

verus! {

/// All 256 entries below the bound `m`.
pub open spec fn coeffs_below(f: Seq<u16>, m: int) -> bool {
    forall|t: int| 0 <= t < f.len() ==> f[t] < m
}

/// One Cooley-Tukey butterfly on positions `j` and `j + len` with twiddle `z`.
pub open spec fn bfly_ct(f: Seq<u16>, z: int, j: int, len: int) -> Seq<u16> {
    let t = (z * f[j + len]) % 3329;
    f.update(j + len, ((3329 + f[j] - t) % 3329) as u16).update(j, ((f[j] + t) % 3329) as u16)
}

/// One Gentleman-Sande butterfly on positions `j` and `j + len` with twiddle `z`.
pub open spec fn bfly_gs(f: Seq<u16>, z: int, j: int, len: int) -> Seq<u16> {
    let t = f[j] as int;
    f.update(j, ((t + f[j + len]) % 3329) as u16).update(
        j + len,
        ((z * (3329 + f[j + len] - t)) % 3329) as u16,
    )
}

/// The first `cnt` butterflies of the block at `start`, in loop order.
pub open spec fn ntt_inner(f: Seq<u16>, z: int, start: int, cnt: int, len: int) -> Seq<u16>
    decreases cnt,
{
    if cnt <= 0 {
        f
    } else {
        bfly_ct(ntt_inner(f, z, start, cnt - 1, len), z, start + (cnt - 1), len)
    }
}

pub open spec fn inv_inner(f: Seq<u16>, z: int, start: int, cnt: int, len: int) -> Seq<u16>
    decreases cnt,
{
    if cnt <= 0 {
        f
    } else {
        bfly_gs(inv_inner(f, z, start, cnt - 1, len), z, start + (cnt - 1), len)
    }
}

/// The twiddle of the forward block at `start` on level `len`:
/// `zeta^BitRev7(k)` with `k = 128/len + start/(2*len)`.
pub open spec fn zeta_ct(len: int, start: int) -> int {
    pow_q(17, spec_bit_rev7(128int / len + start / (2 * len)) as nat) as int
}

/// The twiddle of the inverse block at `start` on level `len`:
/// `zeta^BitRev7(k)` with `k = 256/len - 1 - start/(2*len)`.
pub open spec fn zeta_gs(len: int, start: int) -> int {
    pow_q(17, spec_bit_rev7(256int / len - 1 - start / (2 * len)) as nat) as int
}

/// The first `nblocks` blocks of the forward level `len`.
pub open spec fn ntt_blocks(f: Seq<u16>, len: int, nblocks: int) -> Seq<u16>
    decreases nblocks,
{
    if nblocks <= 0 {
        f
    } else {
        let start = 2 * len * (nblocks - 1);
        ntt_inner(ntt_blocks(f, len, nblocks - 1), zeta_ct(len, start), start, len, len)
    }
}

pub open spec fn inv_blocks(f: Seq<u16>, len: int, nblocks: int) -> Seq<u16>
    decreases nblocks,
{
    if nblocks <= 0 {
        f
    } else {
        let start = 2 * len * (nblocks - 1);
        inv_inner(inv_blocks(f, len, nblocks - 1), zeta_gs(len, start), start, len, len)
    }
}

/// One whole level of the forward transform.
pub open spec fn ntt_level(f: Seq<u16>, len: int) -> Seq<u16> {
    ntt_blocks(f, len, 128int / len)
}

pub open spec fn inv_level(f: Seq<u16>, len: int) -> Seq<u16> {
    inv_blocks(f, len, 128int / len)
}

/// The forward NTT: seven Cooley-Tukey levels, `len = 128` down to `2`.
pub open spec fn spec_ntt(f: Seq<u16>) -> Seq<u16> {
    ntt_level(
        ntt_level(
            ntt_level(ntt_level(ntt_level(ntt_level(ntt_level(f, 128), 64), 32), 16), 8), 4,
        ),
        2,
    )
}

/// The inverse NTT: seven Gentleman-Sande levels, `len = 2` up to `128`,
/// then every coefficient scaled by `128^-1 = 3303`.
pub open spec fn spec_ntt_inv(f: Seq<u16>) -> Seq<u16> {
    let g = inv_level(
        inv_level(inv_level(inv_level(inv_level(inv_level(inv_level(f, 2), 4), 8), 16), 32), 64),
        128,
    );
    Seq::new(256, |i: int| ((g[i] * 3303) % 3329) as u16)
}

/// Runs one forward level in place.
fn ntt_level_exec(f: &mut Vec<u16>, len: usize)
    requires
        len == 2 || len == 4 || len == 8 || len == 16 || len == 32 || len == 64 || len == 128,
        old(f)@.len() == 256,
        coeffs_below(old(f)@, 3329),
    ensures
        final(f)@.len() == 256,
        final(f)@ == ntt_level(old(f)@, len as int),
        coeffs_below(final(f)@, 3329),
{
    let nblocks = 128 / len;
    proof {
        assert(2 * (len as int) * (nblocks as int) == 256 && nblocks as int == 128int / (
        len as int));
    }
    let mut b: usize = 0;
    while b < nblocks
        invariant
            len == 2 || len == 4 || len == 8 || len == 16 || len == 32 || len == 64 || len
                == 128,
            nblocks == 128int / (len as int),
            2 * (len as int) * (nblocks as int) == 256,
            b <= nblocks,
            f@.len() == 256,
            f@ == ntt_blocks(old(f)@, len as int, b as int),
            coeffs_below(f@, 3329),
        decreases nblocks - b,
    {
        proof {
            assert(2 * (len as int) * (b as int) + 2 * (len as int) <= 256) by (nonlinear_arith)
                requires
                    0 <= b < nblocks,
                    2 <= len,
                    2 * (len as int) * (nblocks as int) == 256,
            ;
        }
        let start = 2 * len * b;
        let k = nblocks + b;
        proof {
            lemma_div_by_multiple(b as int, 2 * len as int);
            assert((b as int * (2 * len as int)) / (2 * len as int) == b as int);
            assert(b as int * (2 * len as int) == 2 * len as int * b as int) by (nonlinear_arith);
            assert(start as int / (2 * len as int) == b as int);
        }
        let zeta = pow_mod_q(17, bit_rev_7(k as u8));
        proof {
            assert(zeta as int == zeta_ct(len as int, start as int));
        }
        let ghost f_b = f@;
        let mut j: usize = 0;
        while j < len
            invariant
                len == 2 || len == 4 || len == 8 || len == 16 || len == 32 || len == 64 || len
                    == 128,
                start + 2 * len <= 256,
                j <= len,
                f@.len() == 256,
                zeta < 3329,
                f@ == ntt_inner(f_b, zeta as int, start as int, j as int, len as int),
                coeffs_below(f_b, 3329),
                coeffs_below(f@, 3329),
            decreases len - j,
        {
            let x = f[start + j];
            let y = f[start + j + len];
            proof {
                assert(x == f@[start + j as int] && y == f@[start + j + len as int]);
                assert(x < 3329 && y < 3329);
                assert((zeta as int) * (y as int) < 11082241) by (nonlinear_arith)
                    requires
                        zeta < 3329,
                        y < 3329,
                ;
            }
            let t = ((zeta as u32) * (y as u32)) % 3329;
            f[start + j + len] = ((3329 + x as u32 - t) % 3329) as u16;
            f[start + j] = ((x as u32 + t) % 3329) as u16;
            j = j + 1;
            proof {
                assert(f@ =~= ntt_inner(f_b, zeta as int, start as int, j as int, len as int));
            }
        }
        b = b + 1;
        proof {
            assert(f@ == ntt_blocks(old(f)@, len as int, b as int));
        }
    }
}

/// Runs one inverse level in place.
fn inv_level_exec(f: &mut Vec<u16>, len: usize)
    requires
        len == 2 || len == 4 || len == 8 || len == 16 || len == 32 || len == 64 || len == 128,
        old(f)@.len() == 256,
        coeffs_below(old(f)@, 3329),
    ensures
        final(f)@.len() == 256,
        final(f)@ == inv_level(old(f)@, len as int),
        coeffs_below(final(f)@, 3329),
{
    let nblocks = 128 / len;
    proof {
        assert(2 * (len as int) * (nblocks as int) == 256 && nblocks as int == 128int / (
        len as int) && 256int / (len as int) == 2 * nblocks as int);
    }
    let mut b: usize = 0;
    while b < nblocks
        invariant
            len == 2 || len == 4 || len == 8 || len == 16 || len == 32 || len == 64 || len
                == 128,
            nblocks == 128int / (len as int),
            2 * (len as int) * (nblocks as int) == 256,
            256int / (len as int) == 2 * nblocks as int,
            b <= nblocks,
            f@.len() == 256,
            f@ == inv_blocks(old(f)@, len as int, b as int),
            coeffs_below(f@, 3329),
        decreases nblocks - b,
    {
        proof {
            assert(2 * (len as int) * (b as int) + 2 * (len as int) <= 256) by (nonlinear_arith)
                requires
                    0 <= b < nblocks,
                    2 <= len,
                    2 * (len as int) * (nblocks as int) == 256,
            ;
        }
        let start = 2 * len * b;
        let k = 2 * nblocks - 1 - b;
        proof {
            lemma_div_by_multiple(b as int, 2 * len as int);
            assert(b as int * (2 * len as int) == 2 * len as int * b as int) by (nonlinear_arith);
            assert(start as int / (2 * len as int) == b as int);
        }
        let zeta = pow_mod_q(17, bit_rev_7(k as u8));
        proof {
            assert(zeta as int == zeta_gs(len as int, start as int));
        }
        let ghost f_b = f@;
        let mut j: usize = 0;
        while j < len
            invariant
                len == 2 || len == 4 || len == 8 || len == 16 || len == 32 || len == 64 || len
                    == 128,
                start + 2 * len <= 256,
                j <= len,
                f@.len() == 256,
                zeta < 3329,
                f@ == inv_inner(f_b, zeta as int, start as int, j as int, len as int),
                coeffs_below(f_b, 3329),
                coeffs_below(f@, 3329),
            decreases len - j,
        {
            let x = f[start + j];
            let y = f[start + j + len];
            proof {
                assert(x == f@[start + j as int] && y == f@[start + j + len as int]);
                assert(x < 3329 && y < 3329);
                assert((zeta as int) * (3329 + y - x) < 22164482) by (nonlinear_arith)
                    requires
                        zeta < 3329,
                        y < 3329,
                        x < 3329,
                ;
            }
            f[start + j] = ((x as u32 + y as u32) % 3329) as u16;
            f[start + j + len] = (((zeta as u32) * (3329 + y as u32 - x as u32)) % 3329) as u16;
            j = j + 1;
            proof {
                assert(f@ =~= inv_inner(f_b, zeta as int, start as int, j as int, len as int));
            }
        }
        b = b + 1;
        proof {
            assert(f@ == inv_blocks(old(f)@, len as int, b as int));
        }
    }
}

/// The NTT of a polynomial in coefficient form.
pub fn ntt(array_f: &Vec<u16>) -> (f_hat: Vec<u16>)
    requires
        array_f@.len() == 256,
        coeffs_below(array_f@, 3329),
    ensures
        f_hat@ == spec_ntt(array_f@),
        f_hat@.len() == 256,
        coeffs_below(f_hat@, 3329),
{
    let mut f = copy_poly(array_f);
    ntt_level_exec(&mut f, 128);
    ntt_level_exec(&mut f, 64);
    ntt_level_exec(&mut f, 32);
    ntt_level_exec(&mut f, 16);
    ntt_level_exec(&mut f, 8);
    ntt_level_exec(&mut f, 4);
    ntt_level_exec(&mut f, 2);
    f
}

/// The polynomial in coefficient form whose NTT is `f_hat`.
pub fn ntt_inv(f_hat: &Vec<u16>) -> (f: Vec<u16>)
    requires
        f_hat@.len() == 256,
        coeffs_below(f_hat@, 3329),
    ensures
        f@ == spec_ntt_inv(f_hat@),
        f@.len() == 256,
        coeffs_below(f@, 3329),
{
    let mut f = copy_poly(f_hat);
    inv_level_exec(&mut f, 2);
    inv_level_exec(&mut f, 4);
    inv_level_exec(&mut f, 8);
    inv_level_exec(&mut f, 16);
    inv_level_exec(&mut f, 32);
    inv_level_exec(&mut f, 64);
    inv_level_exec(&mut f, 128);
    let ghost g = f@;
    let mut i: usize = 0;
    while i < 256
        invariant
            f@.len() == 256,
            g.len() == 256,
            i <= 256,
            coeffs_below(g, 3329),
            forall|t: int| i <= t < 256 ==> f@[t] == g[t],
            forall|t: int| 0 <= t < i ==> f@[t] == ((g[t] * 3303) % 3329) as u16,
        decreases 256 - i,
    {
        let x = f[i];
        proof {
            assert(x == g[i as int]);
            assert(x < 3329);
            assert((x as int) * 3303 < 11082241) by (nonlinear_arith)
                requires
                    x < 3329,
            ;
        }
        f[i] = (((x as u32) * 3303) % 3329) as u16;
        i = i + 1;
    }
    proof {
        assert(f@ =~= spec_ntt_inv(f_hat@));
    }
    f
}

/// A copy of a polynomial's coefficient vector.
pub fn copy_poly(src: &Vec<u16>) -> (r: Vec<u16>)
    ensures
        r@ == src@,
{
    let mut r: Vec<u16> = Vec::new();
    let mut i: usize = 0;
    let n = src.len();
    while i < n
        invariant
            n == src@.len(),
            i <= n,
            r@ == src@.subrange(0, i as int),
        decreases n - i,
    {
        r.push(src[i]);
        i = i + 1;
        proof {
            assert(r@ =~= src@.subrange(0, i as int));
        }
    }
    proof {
        assert(r@ =~= src@);
    }
    r
}

pub proof fn lemma_ntt_inner_len(f: Seq<u16>, z: int, start: int, cnt: int, len: int)
    requires
        f.len() == 256,
        0 <= start,
        0 < len,
        cnt <= len,
        start + 2 * len <= 256,
    ensures
        ntt_inner(f, z, start, cnt, len).len() == 256,
    decreases cnt,
{
    if cnt > 0 {
        lemma_ntt_inner_len(f, z, start, cnt - 1, len);
    }
}

pub proof fn lemma_ntt_blocks_len(f: Seq<u16>, len: int, nblocks: int)
    requires
        f.len() == 256,
        0 < len,
        0 <= nblocks,
        2 * len * nblocks <= 256,
    ensures
        ntt_blocks(f, len, nblocks).len() == 256,
    decreases nblocks,
{
    if nblocks > 0 {
        assert(2 * len * (nblocks - 1) + 2 * len == 2 * len * nblocks) by (nonlinear_arith);
        assert(2 * len * (nblocks - 1) >= 0) by (nonlinear_arith)
            requires
                0 < len,
                1 <= nblocks,
        ;
        lemma_ntt_blocks_len(f, len, nblocks - 1);
        let start = 2 * len * (nblocks - 1);
        lemma_ntt_inner_len(ntt_blocks(f, len, nblocks - 1), zeta_ct(len, start), start, len, len);
    }
}

/// One Cooley-Tukey butterfly commutes with coefficient-wise addition.
proof fn lemma_bfly_ct_add(f: Seq<u16>, g: Seq<u16>, z: int, jj: int, len: int)
    requires
        f.len() == 256,
        g.len() == 256,
        0 <= jj,
        0 < len,
        jj + len < 256,
    ensures
        bfly_ct(spec_poly_add(f, g), z, jj, len) == spec_poly_add(
            bfly_ct(f, z, jj, len),
            bfly_ct(g, z, jj, len),
        ),
{
    let q = 3329;
    let s = spec_poly_add(f, g);
    let a = f[jj + len] as int;
    let b = g[jj + len] as int;
    let fj = f[jj] as int;
    let gj = g[jj] as int;
    let tf = (z * a) % q;
    let tg = (z * b) % q;
    let ts = (z * (s[jj + len] as int)) % q;
    assert(s[jj + len] as int == (a + b) % q);
    assert(s[jj] as int == (fj + gj) % q);
    // the twiddled term of the sum is the sum of the twiddled terms, mod q
    assert(ts == (tf + tg) % q) by {
        lemma_mul_mod_noop_right(z, a + b, q);
        lemma_mul_is_distributive_add(z, a, b);
        lemma_add_mod_noop(z * a, z * b, q);
    }
    // position jj of the butterfly of the sum
    assert(((s[jj] + ts) % q) == ((bfly_ct(f, z, jj, len)[jj] + bfly_ct(g, z, jj, len)[jj]) % q))
        by {
        lemma_add_mod_noop(fj + gj, tf + tg, q);
        lemma_add_mod_noop(fj + tf, gj + tg, q);
    }
    // position jj + len of the butterfly of the sum
    assert(((q + s[jj] - ts) % q) == ((bfly_ct(f, z, jj, len)[jj + len] + bfly_ct(
        g,
        z,
        jj,
        len,
    )[jj + len]) % q)) by {
        lemma_mod_add_multiples_vanish(s[jj] - ts, q);
        lemma_sub_mod_noop(fj + gj, tf + tg, q);
        lemma_mod_add_multiples_vanish(fj - tf, q);
        lemma_mod_add_multiples_vanish(gj - tg, q);
        lemma_add_mod_noop(fj - tf, gj - tg, q);
    }
    assert(bfly_ct(s, z, jj, len) =~= spec_poly_add(bfly_ct(f, z, jj, len), bfly_ct(g, z, jj, len)));
}

/// The butterflies of one block commute with coefficient-wise addition.
proof fn lemma_ntt_inner_add(f: Seq<u16>, g: Seq<u16>, z: int, start: int, cnt: int, len: int)
    requires
        f.len() == 256,
        g.len() == 256,
        0 <= start,
        0 < len,
        0 <= cnt <= len,
        start + 2 * len <= 256,
    ensures
        ntt_inner(spec_poly_add(f, g), z, start, cnt, len) == spec_poly_add(
            ntt_inner(f, z, start, cnt, len),
            ntt_inner(g, z, start, cnt, len),
        ),
    decreases cnt,
{
    if cnt > 0 {
        lemma_ntt_inner_add(f, g, z, start, cnt - 1, len);
        lemma_ntt_inner_len(f, z, start, cnt - 1, len);
        lemma_ntt_inner_len(g, z, start, cnt - 1, len);
        lemma_bfly_ct_add(
            ntt_inner(f, z, start, cnt - 1, len),
            ntt_inner(g, z, start, cnt - 1, len),
            z,
            start + (cnt - 1),
            len,
        );
    } else {
        assert(ntt_inner(spec_poly_add(f, g), z, start, 0, len) == spec_poly_add(f, g));
    }
}

/// The blocks of one level commute with coefficient-wise addition.
proof fn lemma_ntt_blocks_add(f: Seq<u16>, g: Seq<u16>, len: int, nblocks: int)
    requires
        f.len() == 256,
        g.len() == 256,
        0 < len,
        0 <= nblocks,
        2 * len * nblocks <= 256,
    ensures
        ntt_blocks(spec_poly_add(f, g), len, nblocks) == spec_poly_add(
            ntt_blocks(f, len, nblocks),
            ntt_blocks(g, len, nblocks),
        ),
    decreases nblocks,
{
    if nblocks > 0 {
        assert(2 * len * (nblocks - 1) + 2 * len == 2 * len * nblocks) by (nonlinear_arith);
        assert(2 * len * (nblocks - 1) >= 0) by (nonlinear_arith)
            requires
                0 < len,
                1 <= nblocks,
        ;
        lemma_ntt_blocks_add(f, g, len, nblocks - 1);
        lemma_ntt_blocks_len(f, len, nblocks - 1);
        lemma_ntt_blocks_len(g, len, nblocks - 1);
        let start = 2 * len * (nblocks - 1);
        lemma_ntt_inner_add(
            ntt_blocks(f, len, nblocks - 1),
            ntt_blocks(g, len, nblocks - 1),
            zeta_ct(len, start),
            start,
            len,
            len,
        );
    }
}

/// Law: the transform is additive.  For any two polynomials,
/// `NTT(f + g) == NTT(f) + NTT(g)`, addition taken coefficient-wise
/// modulo `q`.
pub proof fn lemma_ntt_additive(f: Seq<u16>, g: Seq<u16>)
    requires
        f.len() == 256,
        g.len() == 256,
    ensures
        spec_ntt(spec_poly_add(f, g)) == spec_poly_add(spec_ntt(f), spec_ntt(g)),
{
    lemma_ntt_level_add(f, g, 128);
    lemma_ntt_level_len(f, 128);
    lemma_ntt_level_len(g, 128);
    lemma_ntt_level_add(ntt_level(f, 128), ntt_level(g, 128), 64);
    lemma_ntt_level_len(ntt_level(f, 128), 64);
    lemma_ntt_level_len(ntt_level(g, 128), 64);
    let f2 = ntt_level(ntt_level(f, 128), 64);
    let g2 = ntt_level(ntt_level(g, 128), 64);
    lemma_ntt_level_add(f2, g2, 32);
    lemma_ntt_level_len(f2, 32);
    lemma_ntt_level_len(g2, 32);
    let f3 = ntt_level(f2, 32);
    let g3 = ntt_level(g2, 32);
    lemma_ntt_level_add(f3, g3, 16);
    lemma_ntt_level_len(f3, 16);
    lemma_ntt_level_len(g3, 16);
    let f4 = ntt_level(f3, 16);
    let g4 = ntt_level(g3, 16);
    lemma_ntt_level_add(f4, g4, 8);
    lemma_ntt_level_len(f4, 8);
    lemma_ntt_level_len(g4, 8);
    let f5 = ntt_level(f4, 8);
    let g5 = ntt_level(g4, 8);
    lemma_ntt_level_add(f5, g5, 4);
    lemma_ntt_level_len(f5, 4);
    lemma_ntt_level_len(g5, 4);
    let f6 = ntt_level(f5, 4);
    let g6 = ntt_level(g5, 4);
    lemma_ntt_level_add(f6, g6, 2);
}


proof fn lemma_level_block_count(len: int)
    requires
        len == 2 || len == 4 || len == 8 || len == 16 || len == 32 || len == 64 || len == 128,
    ensures
        0 < 128int / len,
        2 * len * (128int / len) == 256,
{
    if len == 2 {
        assert(128int / len == 64);
        assert(2 * len * 64 == 256);
    } else if len == 4 {
        assert(128int / len == 32);
        assert(2 * len * 32 == 256);
    } else if len == 8 {
        assert(128int / len == 16);
        assert(2 * len * 16 == 256);
    } else if len == 16 {
        assert(128int / len == 8);
        assert(2 * len * 8 == 256);
    } else if len == 32 {
        assert(128int / len == 4);
        assert(2 * len * 4 == 256);
    } else if len == 64 {
        assert(128int / len == 2);
        assert(2 * len * 2 == 256);
    } else {
        assert(128int / len == 1);
        assert(2 * len * 1 == 256);
    }
}

/// One level commutes with coefficient-wise addition.
proof fn lemma_ntt_level_add(f: Seq<u16>, g: Seq<u16>, len: int)
    requires
        f.len() == 256,
        g.len() == 256,
        len == 2 || len == 4 || len == 8 || len == 16 || len == 32 || len == 64 || len == 128,
    ensures
        ntt_level(spec_poly_add(f, g), len) == spec_poly_add(ntt_level(f, len), ntt_level(g, len)),
{
    lemma_level_block_count(len);
    lemma_ntt_blocks_add(f, g, len, 128int / len);
}

proof fn lemma_ntt_level_len(f: Seq<u16>, len: int)
    requires
        f.len() == 256,
        len == 2 || len == 4 || len == 8 || len == 16 || len == 32 || len == 64 || len == 128,
    ensures
        ntt_level(f, len).len() == 256,
{
    lemma_level_block_count(len);
    lemma_ntt_blocks_len(f, len, 128int / len);
}

/// `gamma_i = zeta^(2*BitRev7(i) + 1)`, the modulus constant of pair `i`.
pub open spec fn spec_gamma(i: int) -> int {
    pow_q(17, (2 * spec_bit_rev7(i) + 1) as nat) as int
}

/// The even member of a base-case product:
/// `c0 = a0*b0 + a1*b1*gamma mod q`.
pub open spec fn spec_base_c0(a0: int, a1: int, b0: int, b1: int, gamma: int) -> int {
    (a0 * b0 + a1 * b1 * gamma) % 3329
}

/// The odd member of a base-case product: `c1 = a0*b1 + a1*b0 mod q`.
pub open spec fn spec_base_c1(a0: int, a1: int, b0: int, b1: int) -> int {
    (a0 * b1 + a1 * b0) % 3329
}

/// The pairwise product of two NTT-domain polynomials.
pub open spec fn spec_mul_ntts(f: Seq<u16>, g: Seq<u16>) -> Seq<u16> {
    Seq::new(
        256,
        |t: int|
            if t % 2 == 0 {
                spec_base_c0(
                    f[t] as int,
                    f[t + 1] as int,
                    g[t] as int,
                    g[t + 1] as int,
                    spec_gamma(t / 2),
                ) as u16
            } else {
                spec_base_c1(f[t - 1] as int, f[t] as int, g[t - 1] as int, g[t] as int) as u16
            },
    )
}

/// The product of two degree-one polynomials modulo `X^2 - gamma`.
///
/// The inputs may be any 12-bit values; the result is reduced.
pub fn base_case_multiply(a0: u16, a1: u16, b0: u16, b1: u16, gamma: u16) -> (r: (u16, u16))
    requires
        a0 < 4096,
        a1 < 4096,
        b0 < 4096,
        b1 < 4096,
        gamma < 3329,
    ensures
        r.0 as int == spec_base_c0(a0 as int, a1 as int, b0 as int, b1 as int, gamma as int),
        r.1 as int == spec_base_c1(a0 as int, a1 as int, b0 as int, b1 as int),
        r.0 < 3329,
        r.1 < 3329,
{
    proof {
        assert((a0 as int) * (b0 as int) < 16777216 && (a1 as int) * (b1 as int) < 16777216 && (
        a0 as int) * (b1 as int) < 16777216 && (a1 as int) * (b0 as int) < 16777216)
            by (nonlinear_arith)
            requires
                a0 < 4096,
                a1 < 4096,
                b0 < 4096,
                b1 < 4096,
        ;
        assert(((a1 as int) * (b1 as int) % 3329) * (gamma as int) < 11082241) by (nonlinear_arith)
            requires
                gamma < 3329,
        ;
    }
    let c0 = ((a0 as u32) * (b0 as u32) + ((a1 as u32) * (b1 as u32) % 3329) * (gamma as u32))
        % 3329;
    let c1 = ((a0 as u32) * (b1 as u32) + (a1 as u32) * (b0 as u32)) % 3329;
    proof {
        let p = (a1 as int) * (b1 as int);
        lemma_mul_mod_noop_left(p, gamma as int, 3329);
        lemma_add_mod_noop((a0 as int) * (b0 as int), (p % 3329) * (gamma as int), 3329);
        lemma_add_mod_noop((a0 as int) * (b0 as int), p * (gamma as int), 3329);
        assert(p * (gamma as int) == (a1 as int) * (b1 as int) * (gamma as int));
    }
    (c0 as u16, c1 as u16)
}

/// The product in the NTT domain, pair by pair.
///
/// The inputs may hold any 12-bit values (an unpacked `t_hat` or `s_hat` is
/// used without reduction); the result is reduced.
pub fn multiply_ntts(f_hat: &Vec<u16>, g_hat: &Vec<u16>) -> (h_hat: Vec<u16>)
    requires
        f_hat@.len() == 256,
        g_hat@.len() == 256,
        coeffs_below(f_hat@, 4096),
        coeffs_below(g_hat@, 4096),
    ensures
        h_hat@ == spec_mul_ntts(f_hat@, g_hat@),
        h_hat@.len() == 256,
        coeffs_below(h_hat@, 3329),
{
    let mut h: Vec<u16> = Vec::new();
    let mut i: usize = 0;
    while i < 128
        invariant
            f_hat@.len() == 256,
            g_hat@.len() == 256,
            coeffs_below(f_hat@, 4096),
            coeffs_below(g_hat@, 4096),
            i <= 128,
            h@.len() == 2 * i,
            forall|t: int| 0 <= t < 2 * i ==> h@[t] == spec_mul_ntts(f_hat@, g_hat@)[t],
        decreases 128 - i,
    {
        let gamma = pow_mod_q(17, 2 * bit_rev_7(i as u8) + 1);
        let (c0, c1) = base_case_multiply(
            f_hat[2 * i],
            f_hat[2 * i + 1],
            g_hat[2 * i],
            g_hat[2 * i + 1],
            gamma as u16,
        );
        h.push(c0);
        h.push(c1);
        i = i + 1;
        proof {
            let t0 = 2 * (i as int - 1);
            assert(h@[t0] == spec_mul_ntts(f_hat@, g_hat@)[t0]) by {
                assert(t0 % 2 == 0 && t0 / 2 == i as int - 1);
            }
            assert(h@[t0 + 1] == spec_mul_ntts(f_hat@, g_hat@)[t0 + 1]) by {
                assert((t0 + 1) % 2 == 1);
            }
        }
    }
    proof {
        assert(h@ =~= spec_mul_ntts(f_hat@, g_hat@));
    }
    h
}

} // verus!
