//! Samplers: uniform rejection sampling of an NTT-domain polynomial from a
//! SHAKE-128 stream, and the centered binomial sampler over a PRF output.
//!
//! `sample_ntt` reads the stream three bytes at a time; each group yields up
//! to two 12-bit candidates, and candidates below `q` are kept until 256
//! coefficients stand.  The stream is squeezed in one block of `3 * 1120`
//! bytes; a uniform stream exhausts it with probability far below `2^-128`,
//! and if it ever were exhausted the remaining coefficients would be zero,
//! which the contract states exactly.

use vstd::prelude::*;

use crate::byte_fns::{bytes_to_bits, is_bit_range, spec_bytes_to_bits};
use crate::hashes::{shake128_byte, shake128_squeeze};

verus! {

/// The number of 3-byte groups squeezed out of the stream in one call.
pub const XOF_GROUPS: usize = 1120;

/// The message that seeds the XOF stream for matrix entry `(i, j)`.
pub open spec fn xof_msg(rho: Seq<u8>, i: u8, j: u8) -> Seq<u8> {
    rho.push(i).push(j)
}

/// The candidates of group `g` of the stream that fall below `q`, in order.
pub open spec fn group_vals(m: Seq<u8>, g: int) -> Seq<u16> {
    let b0 = shake128_byte(m, 3 * g) as int;
    let b1 = shake128_byte(m, 3 * g + 1) as int;
    let b2 = shake128_byte(m, 3 * g + 2) as int;
    let d1 = b0 + 256 * (b1 % 16);
    let d2 = b1 / 16 + 16 * b2;
    if d1 < 3329 && d2 < 3329 {
        seq![d1 as u16, d2 as u16]
    } else if d1 < 3329 {
        seq![d1 as u16]
    } else if d2 < 3329 {
        seq![d2 as u16]
    } else {
        Seq::empty()
    }
}

/// All accepted candidates of the first `g` groups.
pub open spec fn accepted(m: Seq<u8>, g: int) -> Seq<u16>
    decreases g,
{
    if g <= 0 {
        Seq::empty()
    } else {
        accepted(m, g - 1) + group_vals(m, g - 1)
    }
}

/// Whether the first `g` groups yield at least 256 coefficients.
pub open spec fn filled(m: Seq<u8>, g: int) -> bool {
    accepted(m, g).len() >= 256
}

/// `g` is the first group count that fills the polynomial.
pub open spec fn is_min_fill(m: Seq<u8>, g: int) -> bool {
    0 <= g && filled(m, g) && forall|h: int| 0 <= h < g ==> !filled(m, h)
}

/// The polynomial that rejection sampling draws from the stream seeded by
/// `m`: the first 256 accepted candidates, zero-padded in the (statistically
/// unreachable) case that `3 * 1120` stream bytes do not yield 256.
pub open spec fn sample_ntt_spec(m: Seq<u8>) -> Seq<u16> {
    if filled(m, 1120) {
        accepted(m, choose|g: int| is_min_fill(m, g)).take(256)
    } else {
        accepted(m, 1120) + Seq::new((256 - accepted(m, 1120).len()) as nat, |t: int| 0u16)
    }
}

pub proof fn lemma_accepted_monotone(m: Seq<u8>, g1: int, g2: int)
    requires
        0 <= g1 <= g2,
    ensures
        accepted(m, g1).len() <= accepted(m, g2).len(),
    decreases g2 - g1,
{
    if g1 < g2 {
        lemma_accepted_monotone(m, g1, g2 - 1);
    }
}

pub proof fn lemma_min_fill_unique(m: Seq<u8>, g1: int, g2: int)
    requires
        is_min_fill(m, g1),
        is_min_fill(m, g2),
    ensures
        g1 == g2,
{
    if g1 < g2 {
        assert(!filled(m, g1));
    } else if g2 < g1 {
        assert(!filled(m, g2));
    }
}

/// The first `n` bytes of the XOF stream `SHAKE-128(rho || i || j)`.
pub fn xof(rho: &Vec<u8>, i: u8, j: u8, n: usize) -> (r: Vec<u8>)
    requires
        rho@.len() == 32,
    ensures
        r@.len() == n,
        forall|t: int| 0 <= t < n ==> r@[t] == shake128_byte(xof_msg(rho@, i, j), t),
{
    let mut msg: Vec<u8> = Vec::new();
    let mut c: usize = 0;
    while c < 32
        invariant
            rho@.len() == 32,
            c <= 32,
            msg@ == rho@.subrange(0, c as int),
        decreases 32 - c,
    {
        msg.push(rho[c]);
        c = c + 1;
        proof {
            assert(msg@ =~= rho@.subrange(0, c as int));
        }
    }
    proof {
        assert(msg@ =~= rho@);
    }
    msg.push(i);
    msg.push(j);
    proof {
        assert(msg@ =~= xof_msg(rho@, i, j));
    }
    shake128_squeeze(&msg, n)
}

/// Uniform sampling of an NTT-domain polynomial from the XOF stream seeded
/// by `rho || i || j`.
pub fn sample_ntt(rho: &Vec<u8>, i: u8, j: u8) -> (r: Vec<u16>)
    requires
        rho@.len() == 32,
    ensures
        r@ == sample_ntt_spec(xof_msg(rho@, i, j)),
        r@.len() == 256,
        forall|t: int| 0 <= t < 256 ==> r@[t] < 3329,
{
    let ghost m = xof_msg(rho@, i, j);
    let stream = xof(rho, i, j, 3 * XOF_GROUPS);
    let mut acc: Vec<u16> = Vec::new();
    let mut g: usize = 0;
    while g < XOF_GROUPS && acc.len() < 256
        invariant
            stream@.len() == 3 * XOF_GROUPS,
            forall|t: int| 0 <= t < 3 * XOF_GROUPS ==> stream@[t] == shake128_byte(m, t),
            g <= XOF_GROUPS,
            acc@ == accepted(m, g as int),
            acc@.len() <= 257,
            forall|h: int| 0 <= h < g ==> !filled(m, h),
            forall|t: int| 0 <= t < acc@.len() ==> acc@[t] < 3329,
        decreases XOF_GROUPS - g,
    {
        let b0 = stream[3 * g];
        let b1 = stream[3 * g + 1];
        let b2 = stream[3 * g + 2];
        let d1: u16 = b0 as u16 + 256 * (b1 as u16 % 16);
        let d2: u16 = b1 as u16 / 16 + 16 * b2 as u16;
        proof {
            assert(!filled(m, g as int));
        }
        if d1 < 3329 {
            acc.push(d1);
        }
        if d2 < 3329 {
            acc.push(d2);
        }
        g = g + 1;
        proof {
            assert(acc@ =~= accepted(m, g as int));
        }
    }
    if acc.len() >= 256 {
        let ghost gfin = g as int;
        proof {
            assert(is_min_fill(m, gfin));
            lemma_accepted_monotone(m, gfin, 1120);
            assert(filled(m, 1120));
            let gc = choose|h: int| is_min_fill(m, h);
            assert(is_min_fill(m, gc));
            lemma_min_fill_unique(m, gfin, gc);
        }
        acc.truncate(256);
        proof {
            assert(acc@ =~= sample_ntt_spec(m));
        }
        acc
    } else {
        proof {
            assert(g == XOF_GROUPS);
            assert(!filled(m, 1120));
        }
        while acc.len() < 256
            invariant
                acc@.len() <= 256,
                accepted(m, 1120).len() < 256,
                acc@.len() >= accepted(m, 1120).len(),
                acc@.subrange(0, accepted(m, 1120).len() as int) == accepted(m, 1120),
                forall|t: int| accepted(m, 1120).len() <= t < acc@.len() ==> acc@[t] == 0,
                forall|t: int| 0 <= t < acc@.len() ==> acc@[t] < 3329,
            decreases 256 - acc@.len(),
        {
            acc.push(0);
            proof {
                assert(acc@.subrange(0, accepted(m, 1120).len() as int) =~= accepted(m, 1120));
            }
        }
        proof {
            assert(acc@ =~= sample_ntt_spec(m));
        }
        acc
    }
}

/// The sum of `cnt` bits starting at `start`.
pub open spec fn bit_sum(bits: Seq<u8>, start: int, cnt: nat) -> int
    decreases cnt,
{
    if cnt == 0 {
        0
    } else {
        bits[start] + bit_sum(bits, start + 1, (cnt - 1) as nat)
    }
}

pub proof fn lemma_bit_sum_snoc(bits: Seq<u8>, start: int, cnt: nat)
    ensures
        bit_sum(bits, start, cnt + 1) == bit_sum(bits, start, cnt) + bits[start + cnt],
    decreases cnt,
{
    if cnt == 0 {
        assert(bit_sum(bits, start + 1, 0) == 0);
        assert(bit_sum(bits, start, 0) == 0);
    } else {
        lemma_bit_sum_snoc(bits, start + 1, (cnt - 1) as nat);
    }
}

pub proof fn lemma_bit_sum_bound(bits: Seq<u8>, start: int, cnt: nat)
    requires
        forall|t: int| start <= t < start + cnt ==> bits[t] <= 1,
    ensures
        0 <= bit_sum(bits, start, cnt) <= cnt,
    decreases cnt,
{
    if cnt > 0 {
        lemma_bit_sum_bound(bits, start + 1, (cnt - 1) as nat);
        assert(bits[start] <= 1);
    }
}

/// The centered binomial polynomial drawn from `64*eta` bytes: coefficient
/// `i` is the difference of two sums of `eta` bits, reduced modulo `q`.
pub open spec fn spec_cbd(eta: int, b: Seq<u8>) -> Seq<u16> {
    Seq::new(
        256,
        |i: int|
            (((bit_sum(spec_bytes_to_bits(b), 2 * i * eta, eta as nat) - bit_sum(
                spec_bytes_to_bits(b),
                2 * i * eta + eta,
                eta as nat,
            )) % 3329) as u16),
    )
}

/// Samples a polynomial from the centered binomial distribution with
/// parameter `eta` out of `64*eta` bytes.
pub fn sample_poly_cbd(eta: usize, byte_array_b: &Vec<u8>) -> (r: Vec<u16>)
    requires
        eta == 2 || eta == 3,
        byte_array_b@.len() == 64 * eta,
    ensures
        r@ == spec_cbd(eta as int, byte_array_b@),
        r@.len() == 256,
        forall|t: int| 0 <= t < 256 ==> r@[t] < 3329,
{
    let bits = bytes_to_bits(byte_array_b);
    proof {
        assert(bits@.len() == 8 * (64 * eta as int));
        assert(8 * (64 * eta as int) == 512 * eta as int);
    }
    let mut r: Vec<u16> = Vec::new();
    let mut idx: usize = 0;
    while idx < 256
        invariant
            eta == 2 || eta == 3,
            byte_array_b@.len() == 64 * eta,
            bits@ == spec_bytes_to_bits(byte_array_b@),
            is_bit_range(bits@, 0, bits@.len() as nat),
            bits@.len() == 512 * eta,
            idx <= 256,
            r@.len() == idx,
            forall|t: int| 0 <= t < idx ==> r@[t] == spec_cbd(eta as int, byte_array_b@)[t],
            forall|t: int| 0 <= t < idx ==> r@[t] < 3329,
        decreases 256 - idx,
    {
        let base = 2 * idx * eta;
        proof {
            assert(2 * (idx as int) * (eta as int) + 2 * (eta as int) <= 512 * (eta as int))
                by (nonlinear_arith)
                requires
                    0 <= idx < 256,
                    2 <= eta,
            ;
        }
        let mut x: u16 = 0;
        let mut jj: usize = 0;
        while jj < eta
            invariant
                eta == 2 || eta == 3,
                jj <= eta,
                base == 2 * (idx as int) * (eta as int),
                base + 2 * eta <= 512 * eta,
                is_bit_range(bits@, 0, bits@.len() as nat),
                bits@.len() == 512 * eta,
                x == bit_sum(bits@, base as int, jj as nat),
                x <= jj,
            decreases eta - jj,
        {
            proof {
                lemma_bit_sum_snoc(bits@, base as int, jj as nat);
                assert(bits@[base + jj as int] <= 1);
            }
            x = x + bits[base + jj] as u16;
            jj = jj + 1;
        }
        let mut y: u16 = 0;
        let mut kk: usize = 0;
        while kk < eta
            invariant
                eta == 2 || eta == 3,
                kk <= eta,
                base == 2 * (idx as int) * (eta as int),
                base + 2 * eta <= 512 * eta,
                is_bit_range(bits@, 0, bits@.len() as nat),
                bits@.len() == 512 * eta,
                y == bit_sum(bits@, base + eta as int, kk as nat),
                y <= kk,
            decreases eta - kk,
        {
            proof {
                lemma_bit_sum_snoc(bits@, base + eta as int, kk as nat);
                assert(bits@[base + eta + kk as int] <= 1);
            }
            y = y + bits[base + eta + kk] as u16;
            kk = kk + 1;
        }
        let v = (3329 + x - y) % 3329;
        proof {
            vstd::arithmetic::div_mod::lemma_mod_add_multiples_vanish(x as int - y as int, 3329);
            assert(v as int == (x as int - y as int) % 3329);
        }
        r.push(v);
        idx = idx + 1;
        proof {
            assert(r@[idx - 1] == spec_cbd(eta as int, byte_array_b@)[idx - 1]);
        }
    }
    proof {
        assert(r@ =~= spec_cbd(eta as int, byte_array_b@));
    }
    r
}

} // verus!
