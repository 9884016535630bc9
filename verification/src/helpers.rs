//! Scalar helpers and the hash facade: bit reversal, modular powers,
//! lossy compression, the module arithmetic over the NTT domain, and the
//! functions `H`, `G`, `J` and `PRF` built over the trusted SHA-3 wrappers.

use vstd::prelude::*;

use crate::byte_fns::{lemma_p2_monotone, lemma_p2_unfold, p2, pow2_u16};
use crate::hashes::{
    sha3_256_bytes, sha3_256_hash, sha3_512_bytes, sha3_512_hash, shake256_byte, shake256_squeeze,
};
use crate::ntt::{coeffs_below, spec_mul_ntts};

verus! {

/// The integer whose low seven bits are those of `a` in reverse order.
pub open spec fn spec_bit_rev7(a: int) -> int {
    (a / 64) % 2 + 2 * ((a / 32) % 2) + 4 * ((a / 16) % 2) + 8 * ((a / 8) % 2) + 16 * ((a / 4) % 2)
        + 32 * ((a / 2) % 2) + 64 * (a % 2)
}

/// Reverses the low seven bits of `a`.
pub fn bit_rev_7(a: u8) -> (r: u8)
    requires
        a < 128,
    ensures
        r == spec_bit_rev7(a as int),
        r < 128,
{
    (a / 64) % 2 + 2 * ((a / 32) % 2) + 4 * ((a / 16) % 2) + 8 * ((a / 8) % 2) + 16 * ((a / 4) % 2)
        + 32 * ((a / 2) % 2) + 64 * (a % 2)
}

/// `g^e mod q`, with `g` already reduced.
pub open spec fn pow_q(g: nat, e: nat) -> nat
    decreases e,
{
    if e == 0 {
        1
    } else {
        (g * pow_q(g, (e - 1) as nat)) % 3329
    }
}

pub proof fn lemma_pow_q_bound(g: nat, e: nat)
    ensures
        pow_q(g, e) < 3329,
    decreases e,
{
    if e == 0 {
    } else {
        lemma_pow_q_bound(g, (e - 1) as nat);
    }
}

/// Modular exponentiation: `g^e mod q`.
pub fn pow_mod_q(g: u32, e: u8) -> (r: u32)
    requires
        g < 3329,
    ensures
        r == pow_q(g as nat, e as nat),
        r < 3329,
{
    let mut result: u32 = 1;
    let mut i: u8 = 0;
    while i < e
        invariant
            g < 3329,
            i <= e,
            result == pow_q(g as nat, i as nat),
            result < 3329,
        decreases e - i,
    {
        proof {
            assert((g as int) * (result as int) < 11082241) by (nonlinear_arith)
                requires
                    g < 3329,
                    result < 3329,
            ;
        }
        result = (g * result) % 3329;
        i = i + 1;
    }
    proof {
        lemma_pow_q_bound(g as nat, e as nat);
    }
    result
}

/// `Compress_d(x) = round((2^d / q) * x) mod 2^d`, rounding half up.
pub open spec fn spec_compress(d: int, x: int) -> int {
    ((2 * p2(d as nat) * x + 3329) / 6658) % p2(d as nat) as int
}

/// `Decompress_d(y) = round((q / 2^d) * y)`, rounding half up.
pub open spec fn spec_decompress(d: int, y: int) -> int {
    (2 * 3329 * y + p2(d as nat)) / (2 * p2(d as nat) as int)
}

/// Compresses every residue in place to `d` bits.
pub fn compress(d: usize, inout: &mut Vec<u16>)
    requires
        1 <= d <= 12,
        forall|t: int| 0 <= t < old(inout)@.len() ==> old(inout)@[t] < 3329,
    ensures
        final(inout)@.len() == old(inout)@.len(),
        forall|t: int|
            0 <= t < old(inout)@.len() ==> final(inout)@[t] == spec_compress(
                d as int,
                old(inout)@[t] as int,
            ),
        forall|t: int| 0 <= t < old(inout)@.len() ==> final(inout)@[t] < p2(d as nat),
{
    let pd = pow2_u16(d) as u32;
    proof {
        lemma_p2_unfold();
        lemma_p2_monotone(d as nat, 12);
    }
    let n = inout.len();
    let mut i: usize = 0;
    while i < n
        invariant
            1 <= d <= 12,
            pd == p2(d as nat),
            2 <= pd <= 4096,
            n == old(inout)@.len(),
            inout@.len() == n,
            i <= n,
            forall|t: int| i <= t < n ==> inout@[t] == old(inout)@[t],
            forall|t: int| 0 <= t < n ==> old(inout)@[t] < 3329,
            forall|t: int|
                0 <= t < i ==> inout@[t] == spec_compress(d as int, old(inout)@[t] as int)
                    && inout@[t] < p2(d as nat),
        decreases n - i,
    {
        let x = inout[i] as u32;
        proof {
            assert(2 * pd * x + 3329 < 4294967296) by (nonlinear_arith)
                requires
                    pd <= 4096,
                    x < 3329,
            ;
        }
        let y = ((2 * pd * x + 3329) / 6658) % pd;
        inout[i] = y as u16;
        i = i + 1;
    }
}

/// Decompresses every `d`-bit value in place to a residue.
pub fn decompress(d: usize, inout: &mut Vec<u16>)
    requires
        1 <= d <= 12,
        forall|t: int| 0 <= t < old(inout)@.len() ==> old(inout)@[t] < p2(d as nat),
    ensures
        final(inout)@.len() == old(inout)@.len(),
        forall|t: int|
            0 <= t < old(inout)@.len() ==> final(inout)@[t] == spec_decompress(
                d as int,
                old(inout)@[t] as int,
            ),
        forall|t: int| 0 <= t < old(inout)@.len() ==> final(inout)@[t] < 3329,
{
    let pd = pow2_u16(d) as u32;
    proof {
        lemma_p2_unfold();
        lemma_p2_monotone(d as nat, 12);
    }
    let n = inout.len();
    let mut i: usize = 0;
    while i < n
        invariant
            1 <= d <= 12,
            pd == p2(d as nat),
            2 <= pd <= 4096,
            n == old(inout)@.len(),
            inout@.len() == n,
            i <= n,
            forall|t: int| i <= t < n ==> inout@[t] == old(inout)@[t],
            forall|t: int| 0 <= t < n ==> old(inout)@[t] < p2(d as nat),
            forall|t: int|
                0 <= t < i ==> inout@[t] == spec_decompress(d as int, old(inout)@[t] as int)
                    && inout@[t] < 3329,
        decreases n - i,
    {
        let y = inout[i] as u32;
        proof {
            assert(2 * 3329 * y + pd < 4294967296) by (nonlinear_arith)
                requires
                    pd <= 4096,
                    y < 4096,
            ;
        }
        let z = (2 * 3329 * y + pd) / (2 * pd);
        proof {
            assert(2 * 3329 * y + pd < (2 * pd) * 3329) by (nonlinear_arith)
                requires
                    0 <= y < pd,
                    2 <= pd <= 4096,
            ;
            vstd::arithmetic::div_mod::lemma_multiply_divide_lt(
                2 * 3329 * y as int + pd,
                2 * pd as int,
                3329,
            );
        }
        inout[i] = z as u16;
        i = i + 1;
    }
}

/// Coefficient-wise difference modulo `q` of two polynomials.
pub open spec fn spec_poly_sub(f: Seq<u16>, g: Seq<u16>) -> Seq<u16> {
    Seq::new(256, |t: int| ((f[t] - g[t]) % 3329) as u16)
}

/// Coefficient-wise difference modulo `q` of two polynomials.
pub fn poly_sub(f: &Vec<u16>, g: &Vec<u16>) -> (r: Vec<u16>)
    requires
        f@.len() == 256,
        g@.len() == 256,
        coeffs_below(f@, 3329),
        coeffs_below(g@, 3329),
    ensures
        r@ == spec_poly_sub(f@, g@),
        wf_poly(r@),
{
    let mut r: Vec<u16> = Vec::new();
    let mut i: usize = 0;
    while i < 256
        invariant
            f@.len() == 256,
            g@.len() == 256,
            coeffs_below(f@, 3329),
            coeffs_below(g@, 3329),
            i <= 256,
            r@.len() == i,
            forall|t: int| 0 <= t < i ==> r@[t] == spec_poly_sub(f@, g@)[t] && r@[t] < 3329,
        decreases 256 - i,
    {
        let x = f[i];
        let y = g[i];
        proof {
            assert(x == f@[i as int] && y == g@[i as int]);
            assert(x < 3329 && y < 3329);
            vstd::arithmetic::div_mod::lemma_mod_add_multiples_vanish(x as int - y as int, 3329);
        }
        let v = ((3329 + x as u32 - y as u32) % 3329) as u16;
        r.push(v);
        i = i + 1;
    }
    proof {
        assert(r@ =~= spec_poly_sub(f@, g@));
    }
    r
}

/// The bytes of `b` from `from` (inclusive) to `to` (exclusive).
pub fn sub_bytes(b: &Vec<u8>, from: usize, to: usize) -> (r: Vec<u8>)
    requires
        from <= to <= b@.len(),
    ensures
        r@ == b@.subrange(from as int, to as int),
{
    let mut r: Vec<u8> = Vec::new();
    let mut i: usize = from;
    while i < to
        invariant
            from <= i <= to <= b@.len(),
            r@ == b@.subrange(from as int, i as int),
        decreases to - i,
    {
        r.push(b[i]);
        i = i + 1;
        proof {
            assert(r@ =~= b@.subrange(from as int, i as int));
        }
    }
    r
}

/// Appends every byte of `src` to `dst`.
pub fn append_bytes(dst: &mut Vec<u8>, src: &Vec<u8>)
    ensures
        final(dst)@ == old(dst)@ + src@,
{
    let n = src.len();
    let mut i: usize = 0;
    while i < n
        invariant
            n == src@.len(),
            i <= n,
            dst@ == old(dst)@ + src@.subrange(0, i as int),
        decreases n - i,
    {
        dst.push(src[i]);
        i = i + 1;
        proof {
            assert(dst@ =~= old(dst)@ + src@.subrange(0, i as int));
        }
    }
    proof {
        assert(dst@ =~= old(dst)@ + src@);
    }
}

/// A copy of a byte string.
pub fn copy_bytes(src: &Vec<u8>) -> (r: Vec<u8>)
    ensures
        r@ == src@,
{
    let mut r: Vec<u8> = Vec::new();
    append_bytes(&mut r, src);
    proof {
        assert(r@ =~= src@);
    }
    r
}

/// `H(x) = SHA3-256(x)`.
pub fn h(bytes: &Vec<u8>) -> (r: Vec<u8>)
    ensures
        r@ == sha3_256_bytes(bytes@),
        r@.len() == 32,
{
    sha3_256_hash(bytes)
}

/// The two 32-byte halves of `G(x) = SHA3-512(x)`.
pub open spec fn spec_g(m: Seq<u8>) -> (Seq<u8>, Seq<u8>) {
    (sha3_512_bytes(m).subrange(0, 32), sha3_512_bytes(m).subrange(32, 64))
}

/// `G(x) = SHA3-512(x)`, split into two 32-byte halves.
pub fn g(bytes: &Vec<u8>) -> (r: (Vec<u8>, Vec<u8>))
    ensures
        r.0@ == spec_g(bytes@).0,
        r.1@ == spec_g(bytes@).1,
        r.0@.len() == 32,
        r.1@.len() == 32,
{
    let digest = sha3_512_hash(bytes);
    let mut a: Vec<u8> = Vec::new();
    let mut b: Vec<u8> = Vec::new();
    let mut i: usize = 0;
    while i < 32
        invariant
            digest@.len() == 64,
            digest@ == sha3_512_bytes(bytes@),
            i <= 32,
            a@ == digest@.subrange(0, i as int),
        decreases 32 - i,
    {
        a.push(digest[i]);
        i = i + 1;
        proof {
            assert(a@ =~= digest@.subrange(0, i as int));
        }
    }
    let mut j: usize = 32;
    while j < 64
        invariant
            digest@.len() == 64,
            digest@ == sha3_512_bytes(bytes@),
            32 <= j <= 64,
            b@ == digest@.subrange(32, j as int),
        decreases 64 - j,
    {
        b.push(digest[j]);
        j = j + 1;
        proof {
            assert(b@ =~= digest@.subrange(32, j as int));
        }
    }
    (a, b)
}

/// `J(x)`: SHAKE-256 of `x` truncated to 32 bytes.
pub open spec fn spec_j(m: Seq<u8>) -> Seq<u8> {
    Seq::new(32, |t: int| shake256_byte(m, t))
}

/// `J(x) = SHAKE-256(x)` truncated to 32 bytes.
pub fn j(bytes: &Vec<u8>) -> (r: Vec<u8>)
    ensures
        r@ == spec_j(bytes@),
        r@.len() == 32,
{
    let r = shake256_squeeze(bytes, 32);
    proof {
        assert(r@ =~= spec_j(bytes@));
    }
    r
}

/// `PRF_eta(s, b)`: SHAKE-256 of `s || b` truncated to `64*eta` bytes.
pub open spec fn spec_prf(eta: int, s: Seq<u8>, b: u8) -> Seq<u8> {
    Seq::new((64 * eta) as nat, |t: int| shake256_byte(s.push(b), t))
}

/// The deep view of a coefficient vector is its view.
pub broadcast proof fn lemma_deep_view_poly(v: Vec<u16>)
    ensures
        #[trigger] v.deep_view() == v@,
{
    assert(v.deep_view() =~= v@);
}

/// Indexing the deep view of a vector of polynomials.
pub broadcast proof fn lemma_deep_view_vec_index(v: Vec<Vec<u16>>, i: int)
    requires
        0 <= i < v@.len(),
    ensures
        #[trigger] v.deep_view()[i] == v@[i]@,
{
    assert(v.deep_view()[i] =~= v@[i]@);
}

/// Indexing the deep view of a matrix of polynomials.
pub broadcast proof fn lemma_deep_view_mat_index(v: Vec<Vec<Vec<u16>>>, i: int)
    requires
        0 <= i < v@.len(),
    ensures
        #[trigger] v.deep_view()[i] == v@[i].deep_view(),
{
    assert(v.deep_view()[i] =~= v@[i].deep_view());
}

/// A polynomial: 256 reduced residues.
pub open spec fn wf_poly(p: Seq<u16>) -> bool {
    p.len() == 256 && coeffs_below(p, 3329)
}

/// A polynomial whose entries are only known to be 12-bit values (as
/// unpacked, without reduction, from a byte string).
pub open spec fn wf_poly_up(p: Seq<u16>) -> bool {
    p.len() == 256 && coeffs_below(p, 4096)
}

/// A vector of `k` polynomials with entries below `m`.
pub open spec fn wf_vec(v: Seq<Seq<u16>>, k: int, m: int) -> bool {
    v.len() == k && forall|i: int|
        0 <= i < k ==> (#[trigger] v[i]).len() == 256 && coeffs_below(v[i], m)
}

/// A `k` by `k` matrix of polynomials with entries below `m`.
pub open spec fn wf_mat(a: Seq<Seq<Seq<u16>>>, k: int, m: int) -> bool {
    a.len() == k && forall|i: int| 0 <= i < k ==> wf_vec(#[trigger] a[i], k, m)
}

/// Coefficient-wise sum modulo `q` of two polynomials.
pub open spec fn spec_poly_add(f: Seq<u16>, g: Seq<u16>) -> Seq<u16> {
    Seq::new(256, |t: int| ((f[t] + g[t]) % 3329) as u16)
}

/// Entry-wise sum of two vectors of polynomials.
pub open spec fn spec_vec_add(a: Seq<Seq<u16>>, b: Seq<Seq<u16>>) -> Seq<Seq<u16>> {
    Seq::new(a.len(), |i: int| spec_poly_add(a[i], b[i]))
}

/// The all-zero polynomial.
pub open spec fn zero_poly() -> Seq<u16> {
    Seq::new(256, |t: int| 0u16)
}

/// `sum over j < cnt of MultiplyNTTs(a[j], b[j])`, coefficient-wise mod `q`.
pub open spec fn spec_dot_sum(a: Seq<Seq<u16>>, b: Seq<Seq<u16>>, cnt: int) -> Seq<u16>
    decreases cnt,
{
    if cnt <= 0 {
        zero_poly()
    } else {
        spec_poly_add(spec_dot_sum(a, b, cnt - 1), spec_mul_ntts(a[cnt - 1], b[cnt - 1]))
    }
}

/// Column `i` of a matrix of polynomials.
pub open spec fn spec_col(a: Seq<Seq<Seq<u16>>>, i: int) -> Seq<Seq<u16>> {
    Seq::new(a.len(), |jj: int| a[jj][i])
}

/// `w[i] = sum over j of A[i][j] * v[j]` in the NTT domain.
pub open spec fn spec_mat_vec_mul(a: Seq<Seq<Seq<u16>>>, v: Seq<Seq<u16>>, k: int) -> Seq<
    Seq<u16>,
> {
    Seq::new(k as nat, |i: int| spec_dot_sum(a[i], v, k))
}

/// `y[i] = sum over j of A[j][i] * v[j]` in the NTT domain.
pub open spec fn spec_mat_t_vec_mul(a: Seq<Seq<Seq<u16>>>, v: Seq<Seq<u16>>, k: int) -> Seq<
    Seq<u16>,
> {
    Seq::new(k as nat, |i: int| spec_dot_sum(spec_col(a, i), v, k))
}

/// Coefficient-wise sum modulo `q` of two polynomials.
pub fn poly_add(f: &Vec<u16>, g: &Vec<u16>) -> (r: Vec<u16>)
    requires
        f@.len() == 256,
        g@.len() == 256,
    ensures
        r@ == spec_poly_add(f@, g@),
        wf_poly(r@),
{
    let mut r: Vec<u16> = Vec::new();
    let mut i: usize = 0;
    while i < 256
        invariant
            f@.len() == 256,
            g@.len() == 256,
            i <= 256,
            r@.len() == i,
            forall|t: int| 0 <= t < i ==> r@[t] == spec_poly_add(f@, g@)[t] && r@[t] < 3329,
        decreases 256 - i,
    {
        let v = ((f[i] as u32 + g[i] as u32) % 3329) as u16;
        r.push(v);
        i = i + 1;
    }
    proof {
        assert(r@ =~= spec_poly_add(f@, g@));
    }
    r
}

/// Entry-wise vector addition in `(Z_q^256)^k`.
pub fn vec_add(vec_a: &Vec<Vec<u16>>, vec_b: &Vec<Vec<u16>>) -> (r: Vec<Vec<u16>>)
    requires
        vec_a@.len() == vec_b@.len(),
        forall|i: int| 0 <= i < vec_a@.len() ==> (#[trigger] vec_a@[i])@.len() == 256,
        forall|i: int| 0 <= i < vec_b@.len() ==> (#[trigger] vec_b@[i])@.len() == 256,
    ensures
        r.deep_view() == spec_vec_add(vec_a.deep_view(), vec_b.deep_view()),
        wf_vec(r.deep_view(), vec_a@.len() as int, 3329),
{
    let k = vec_a.len();
    let mut r: Vec<Vec<u16>> = Vec::new();
    let mut i: usize = 0;
    while i < k
        invariant
            k == vec_a@.len(),
            vec_a@.len() == vec_b@.len(),
            forall|t: int| 0 <= t < vec_a@.len() ==> (#[trigger] vec_a@[t])@.len() == 256,
            forall|t: int| 0 <= t < vec_b@.len() ==> (#[trigger] vec_b@[t])@.len() == 256,
            i <= k,
            r@.len() == i,
            forall|t: int|
                0 <= t < i ==> (#[trigger] r@[t])@ == spec_poly_add(vec_a@[t]@, vec_b@[t]@),
        decreases k - i,
    {
        let s = poly_add(&vec_a[i], &vec_b[i]);
        r.push(s);
        i = i + 1;
    }
    proof {
        assert forall|t: int|
            0 <= t < k implies #[trigger] r.deep_view()[t] == spec_vec_add(
            vec_a.deep_view(),
            vec_b.deep_view(),
        )[t] && r.deep_view()[t].len() == 256 && coeffs_below(r.deep_view()[t], 3329) by {
            lemma_deep_view_vec_index(*vec_a, t);
            lemma_deep_view_vec_index(*vec_b, t);
            lemma_deep_view_vec_index(r, t);
            assert(r@[t]@ == spec_poly_add(vec_a@[t]@, vec_b@[t]@));
        }
        assert(r.deep_view() =~~= spec_vec_add(vec_a.deep_view(), vec_b.deep_view()));
    }
    r
}

/// The dot product `sum over j of a[j] * b[j]` in the NTT domain.
///
/// The inputs may hold unreduced 12-bit entries; the result is reduced.
pub fn dot_t_prod(vec_a: &Vec<Vec<u16>>, vec_b: &Vec<Vec<u16>>) -> (r: Vec<u16>)
    requires
        vec_a@.len() == vec_b@.len(),
        wf_vec(vec_a.deep_view(), vec_a@.len() as int, 4096),
        wf_vec(vec_b.deep_view(), vec_b@.len() as int, 4096),
    ensures
        r@ == spec_dot_sum(vec_a.deep_view(), vec_b.deep_view(), vec_a@.len() as int),
        wf_poly(r@),
{
    let k = vec_a.len();
    let mut acc: Vec<u16> = Vec::new();
    let mut c: usize = 0;
    while c < 256
        invariant
            c <= 256,
            acc@.len() == c,
            forall|t: int| 0 <= t < c ==> acc@[t] == 0,
        decreases 256 - c,
    {
        acc.push(0);
        c = c + 1;
    }
    proof {
        assert(acc@ =~= zero_poly());
        assert(acc@ == spec_dot_sum(vec_a.deep_view(), vec_b.deep_view(), 0));
    }
    let mut jj: usize = 0;
    while jj < k
        invariant
            k == vec_a@.len(),
            vec_a@.len() == vec_b@.len(),
            wf_vec(vec_a.deep_view(), k as int, 4096),
            wf_vec(vec_b.deep_view(), k as int, 4096),
            jj <= k,
            acc@ == spec_dot_sum(vec_a.deep_view(), vec_b.deep_view(), jj as int),
            acc@.len() == 256,
        decreases k - jj,
    {
        proof {
            lemma_deep_view_vec_index(*vec_a, jj as int);
            lemma_deep_view_vec_index(*vec_b, jj as int);
        }
        let t = crate::ntt::multiply_ntts(&vec_a[jj], &vec_b[jj]);
        let acc2 = poly_add(&acc, &t);
        acc = acc2;
        jj = jj + 1;
        proof {
            lemma_deep_view_vec_index(*vec_a, jj - 1);
            lemma_deep_view_vec_index(*vec_b, jj - 1);
        }
    }
    proof {
        if k == 0 {
            assert(wf_poly(acc@));
        } else {
            assert(wf_poly(acc@));
        }
    }
    acc
}

/// `w = A * v`: matrix times vector in the NTT domain.
pub fn mat_vec_mul(mat_a: &Vec<Vec<Vec<u16>>>, vec_b: &Vec<Vec<u16>>) -> (r: Vec<Vec<u16>>)
    requires
        mat_a@.len() == vec_b@.len(),
        wf_mat(mat_a.deep_view(), mat_a@.len() as int, 4096),
        wf_vec(vec_b.deep_view(), vec_b@.len() as int, 4096),
    ensures
        r.deep_view() == spec_mat_vec_mul(mat_a.deep_view(), vec_b.deep_view(), mat_a@.len() as int),
        wf_vec(r.deep_view(), mat_a@.len() as int, 3329),
{
    let k = mat_a.len();
    let mut r: Vec<Vec<u16>> = Vec::new();
    let mut i: usize = 0;
    while i < k
        invariant
            k == mat_a@.len(),
            mat_a@.len() == vec_b@.len(),
            wf_mat(mat_a.deep_view(), k as int, 4096),
            wf_vec(vec_b.deep_view(), k as int, 4096),
            i <= k,
            r@.len() == i,
            forall|t: int|
                0 <= t < i ==> (#[trigger] r@[t])@ == spec_dot_sum(
                    mat_a@[t].deep_view(),
                    vec_b.deep_view(),
                    k as int,
                ) && wf_poly(r@[t]@),
        decreases k - i,
    {
        proof {
            lemma_deep_view_mat_index(*mat_a, i as int);
            assert(wf_vec(mat_a@[i as int].deep_view(), k as int, 4096));
        }
        let row = dot_t_prod(&mat_a[i], vec_b);
        r.push(row);
        i = i + 1;
    }
    proof {
        assert forall|t: int|
            0 <= t < k implies #[trigger] r.deep_view()[t] == spec_mat_vec_mul(
            mat_a.deep_view(),
            vec_b.deep_view(),
            k as int,
        )[t] && r.deep_view()[t].len() == 256 && coeffs_below(r.deep_view()[t], 3329) by {
            lemma_deep_view_vec_index(r, t);
            lemma_deep_view_mat_index(*mat_a, t);
        }
        assert(r.deep_view() =~~= spec_mat_vec_mul(
            mat_a.deep_view(),
            vec_b.deep_view(),
            k as int,
        ));
    }
    r
}

/// `y = A^T * v`: matrix transpose times vector in the NTT domain.
pub fn mat_t_vec_mul(mat_a: &Vec<Vec<Vec<u16>>>, vec_b: &Vec<Vec<u16>>) -> (r: Vec<Vec<u16>>)
    requires
        mat_a@.len() == vec_b@.len(),
        wf_mat(mat_a.deep_view(), mat_a@.len() as int, 4096),
        wf_vec(vec_b.deep_view(), vec_b@.len() as int, 4096),
    ensures
        r.deep_view() == spec_mat_t_vec_mul(
            mat_a.deep_view(),
            vec_b.deep_view(),
            mat_a@.len() as int,
        ),
        wf_vec(r.deep_view(), mat_a@.len() as int, 3329),
{
    let k = mat_a.len();
    let mut r: Vec<Vec<u16>> = Vec::new();
    let mut i: usize = 0;
    while i < k
        invariant
            k == mat_a@.len(),
            mat_a@.len() == vec_b@.len(),
            wf_mat(mat_a.deep_view(), k as int, 4096),
            wf_vec(vec_b.deep_view(), k as int, 4096),
            i <= k,
            r@.len() == i,
            forall|t: int|
                0 <= t < i ==> (#[trigger] r@[t])@ == spec_dot_sum(
                    spec_col(mat_a.deep_view(), t),
                    vec_b.deep_view(),
                    k as int,
                ) && wf_poly(r@[t]@),
        decreases k - i,
    {
        let mut col: Vec<Vec<u16>> = Vec::new();
        let mut jj: usize = 0;
        while jj < k
            invariant
                k == mat_a@.len(),
                wf_mat(mat_a.deep_view(), k as int, 4096),
                i < k,
                jj <= k,
                col@.len() == jj,
                forall|t: int|
                    0 <= t < jj ==> (#[trigger] col@[t])@ == mat_a@[t]@[i as int]@,
            decreases k - jj,
        {
            proof {
                lemma_deep_view_mat_index(*mat_a, jj as int);
                assert(wf_vec(mat_a@[jj as int].deep_view(), k as int, 4096));
                lemma_deep_view_vec_index(mat_a@[jj as int], i as int);
            }
            let p = crate::ntt::copy_poly(&mat_a[jj][i]);
            col.push(p);
            jj = jj + 1;
        }
        proof {
            assert forall|t: int|
                0 <= t < k implies #[trigger] col.deep_view()[t] == spec_col(
                mat_a.deep_view(),
                i as int,
            )[t] && col.deep_view()[t].len() == 256 && coeffs_below(col.deep_view()[t], 4096) by {
                lemma_deep_view_vec_index(col, t);
                lemma_deep_view_mat_index(*mat_a, t);
                lemma_deep_view_vec_index(mat_a@[t], i as int);
                assert(wf_vec(mat_a@[t].deep_view(), k as int, 4096));
            }
            assert(col.deep_view() =~~= spec_col(mat_a.deep_view(), i as int));
            assert(wf_vec(col.deep_view(), k as int, 4096));
        }
        let row = dot_t_prod(&col, vec_b);
        r.push(row);
        i = i + 1;
    }
    proof {
        assert forall|t: int|
            0 <= t < k implies #[trigger] r.deep_view()[t] == spec_mat_t_vec_mul(
            mat_a.deep_view(),
            vec_b.deep_view(),
            k as int,
        )[t] && r.deep_view()[t].len() == 256 && coeffs_below(r.deep_view()[t], 3329) by {
            lemma_deep_view_vec_index(r, t);
        }
        assert(r.deep_view() =~~= spec_mat_t_vec_mul(
            mat_a.deep_view(),
            vec_b.deep_view(),
            k as int,
        ));
    }
    r
}

/// `PRF_eta(s, b) = SHAKE-256(s || b)` truncated to `64*eta` bytes.
pub fn prf(eta: usize, s: &Vec<u8>, b: u8) -> (r: Vec<u8>)
    requires
        eta == 2 || eta == 3,
    ensures
        r@ == spec_prf(eta as int, s@, b),
        r@.len() == 64 * eta,
{
    let mut input: Vec<u8> = Vec::new();
    let mut i: usize = 0;
    let n = s.len();
    while i < n
        invariant
            n == s@.len(),
            i <= n,
            input@ == s@.subrange(0, i as int),
        decreases n - i,
    {
        input.push(s[i]);
        i = i + 1;
        proof {
            assert(input@ =~= s@.subrange(0, i as int));
        }
    }
    proof {
        assert(input@ =~= s@);
    }
    input.push(b);
    proof {
        assert(input@ =~= s@.push(b));
    }
    let r = shake256_squeeze(&input, 64 * eta);
    proof {
        assert(r@ =~= spec_prf(eta as int, s@, b));
    }
    r
}

} // verus!
