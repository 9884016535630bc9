//! Bit strings and the d-bit integer codecs.
//!
//! A bit string is a sequence of bytes each of which is 0 or 1, least
//! significant bit first.  `bits_to_bytes` and `bytes_to_bits` convert
//! between bit strings and byte arrays; `byte_encode` and `byte_decode`
//! pack and unpack arrays of 256 d-bit integers, `1 <= d <= 12`.
//!
//! Decoding is pure bit unpacking and never reduces a 12-bit value modulo
//! `q`; encoding reduces each integer modulo `m`, where `m = 2^d` for
//! `d < 12` and `m = q` for `d = 12`.  The round-trip laws are proved at
//! the end of the file.

use vstd::prelude::*;

use vstd::arithmetic::div_mod::{
    lemma_div_by_multiple_is_strongly_ordered, lemma_div_denominator,
    lemma_div_multiples_vanish_fancy, lemma_div_pos_is_pos, lemma_fundamental_div_mod,
    lemma_mod_division_less_than_divisor, lemma_mod_multiples_basic, lemma_mod_multiples_vanish,
    lemma_small_mod,
};
use vstd::arithmetic::mul::{
    lemma_mul_basics, lemma_mul_inequality, lemma_mul_is_commutative,
    lemma_mul_is_distributive_add_other_way,
};

use crate::MlKemError;

verus! {

/// `2^e` as a mathematical integer.
pub open spec fn p2(e: nat) -> nat
    decreases e,
{
    if e == 0 {
        1
    } else {
        2 * p2((e - 1) as nat)
    }
}

pub proof fn lemma_p2_pos(e: nat)
    ensures
        p2(e) >= 1,
    decreases e,
{
    if e > 0 {
        lemma_p2_pos((e - 1) as nat);
    }
}

pub proof fn lemma_p2_unfold()
    ensures
        p2(0) == 1,
        p2(1) == 2,
        p2(2) == 4,
        p2(3) == 8,
        p2(4) == 16,
        p2(5) == 32,
        p2(6) == 64,
        p2(7) == 128,
        p2(8) == 256,
        p2(9) == 512,
        p2(10) == 1024,
        p2(11) == 2048,
        p2(12) == 4096,
{
    reveal_with_fuel(p2, 13);
}

pub proof fn lemma_p2_monotone(a: nat, b: nat)
    requires
        a <= b,
    ensures
        p2(a) <= p2(b),
    decreases b,
{
    if a < b {
        lemma_p2_monotone(a, (b - 1) as nat);
        lemma_p2_pos((b - 1) as nat);
    }
}

/// Splitting the flat bit index `i*d + j` back into `(i, j)`.
pub proof fn lemma_index_mul(i: int, j: int, d: int)
    requires
        0 <= i,
        0 <= j < d,
    ensures
        i * d == d * i,
        (i * d + j) / d == i,
        (i * d + j) % d == j,
        (i + 1) * d == i * d + d,
{
    lemma_mul_is_commutative(i, d);
    lemma_div_multiples_vanish_fancy(i, j, d);
    lemma_mod_multiples_vanish(i, j, d);
    lemma_small_mod(j as nat, d as nat);
    lemma_mul_is_distributive_add_other_way(d, i, 1);
    lemma_mul_basics(d);
}

/// The value of the `count` bits of `bits` starting at `start`, least
/// significant bit first.
pub open spec fn bits_val(bits: Seq<u8>, start: int, count: nat) -> int
    decreases count,
{
    if count == 0 {
        0
    } else {
        bits[start] + 2 * bits_val(bits, start + 1, (count - 1) as nat)
    }
}

/// Whether every entry of `bits` in `[start, start + count)` is 0 or 1.
pub open spec fn is_bit_range(bits: Seq<u8>, start: int, count: nat) -> bool {
    forall|t: int| start <= t < start + count ==> bits[t] <= 1
}

pub proof fn lemma_bits_val_bound(bits: Seq<u8>, start: int, count: nat)
    requires
        is_bit_range(bits, start, count),
    ensures
        0 <= bits_val(bits, start, count) < p2(count),
    decreases count,
{
    if count > 0 {
        lemma_bits_val_bound(bits, start + 1, (count - 1) as nat);
        assert(bits[start] <= 1);
    }
}

/// Extending a bit range by one bit adds that bit at weight `2^count`.
pub proof fn lemma_bits_val_snoc(bits: Seq<u8>, start: int, count: nat)
    ensures
        bits_val(bits, start, count + 1) == bits_val(bits, start, count) + bits[start + count]
            * p2(count),
    decreases count,
{
    if count == 0 {
        assert(bits_val(bits, start + 1, 0) == 0);
        assert(bits_val(bits, start, 0) == 0);
        assert(bits_val(bits, start, 1) == bits[start] + 2 * bits_val(bits, start + 1, 0));
        assert(p2(0) == 1) by {
            lemma_p2_unfold();
        }
    } else {
        let c1 = (count - 1) as nat;
        lemma_bits_val_snoc(bits, start + 1, c1);
        assert(bits_val(bits, start + 1, count) == bits_val(bits, start + 1, c1) + bits[start
            + count] * p2(c1));
        assert(bits_val(bits, start, count + 1) == bits[start] + 2 * bits_val(
            bits,
            start + 1,
            count,
        ));
        assert(bits_val(bits, start, count) == bits[start] + 2 * bits_val(bits, start + 1, c1));
        assert(2 * (bits[start + count] * p2(c1)) == bits[start + count] * (2 * p2(c1)))
            by (nonlinear_arith);
        assert(p2(count) == 2 * p2(c1));
        assert(bits[start + count] * p2(count) == bits[start + count] * (2 * p2(c1)));
        assert(bits_val(bits, start, count + 1) == bits_val(bits, start, count) + bits[start
            + count] * p2(count));
    }
}

/// Bit `j` of a value read back out of `bits_val`.
pub proof fn lemma_bits_val_digit(bits: Seq<u8>, start: int, count: nat, j: int)
    requires
        is_bit_range(bits, start, count),
        0 <= j < count,
    ensures
        (bits_val(bits, start, count) / p2(j as nat) as int) % 2 == bits[start + j],
    decreases count,
{
    let v = bits_val(bits, start, count);
    lemma_bits_val_bound(bits, start, count);
    if j == 0 {
        lemma_p2_unfold();
        assert(v == bits[start] + 2 * bits_val(bits, start + 1, (count - 1) as nat));
        lemma_mod_multiples_vanish(
            bits_val(bits, start + 1, (count - 1) as nat),
            bits[start] as int,
            2,
        );
        lemma_bits_val_bound(bits, start + 1, (count - 1) as nat);
        lemma_small_mod(bits[start] as nat, 2);
        assert(v / 1 == v);
    } else {
        let rest = bits_val(bits, start + 1, (count - 1) as nat);
        lemma_bits_val_bound(bits, start + 1, (count - 1) as nat);
        // v / 2 == rest, because v == 2 * rest + bits[start] with bits[start] < 2
        lemma_div_multiples_vanish_fancy(rest, bits[start] as int, 2);
        assert(v / 2 == rest);
        // v / p2(j) == (v / 2) / p2(j - 1)
        lemma_p2_pos((j - 1) as nat);
        lemma_div_denominator(v, 2, p2((j - 1) as nat) as int);
        assert(p2(j as nat) == 2 * p2((j - 1) as nat));
        lemma_bits_val_digit(bits, start + 1, (count - 1) as nat, j - 1);
    }
}

/// A value below `2^count` whose binary digits fill a bit range is the value
/// of that range.
pub proof fn lemma_digits_to_val(bits: Seq<u8>, start: int, count: nat, v: int)
    requires
        0 <= v < p2(count),
        forall|t: int|
            0 <= t < count ==> #[trigger] bits[start + t] == (v / p2(t as nat) as int) % 2,
    ensures
        bits_val(bits, start, count) == v,
    decreases count,
{
    if count == 0 {
    } else {
        assert(bits[start + 0] == (v / p2(0) as int) % 2);
        assert(v / 1 == v);
        assert(bits[start] == v % 2);
        let v2 = v / 2;
        assert forall|t: int| 0 <= t < count - 1 implies #[trigger] bits[start + 1 + t] == (v2 / p2(
            t as nat,
        ) as int) % 2 by {
            assert(bits[start + (t + 1)] == (v / p2((t + 1) as nat) as int) % 2);
            lemma_p2_pos(t as nat);
            lemma_div_denominator(v, 2, p2(t as nat) as int);
            assert(p2((t + 1) as nat) == 2 * p2(t as nat));
        }
        assert(0 <= v2 < p2((count - 1) as nat)) by {
            assert(p2(count) == 2 * p2((count - 1) as nat));
        }
        lemma_digits_to_val(bits, start + 1, (count - 1) as nat, v2);
        lemma_fundamental_div_mod(v, 2);
    }
}

/// Bit `j` (weight `2^j`) of a byte.
pub open spec fn bit_of_byte(b: u8, j: int) -> u8 {
    (((b as int) / (p2(j as nat) as int)) % 2) as u8
}

/// The bit string of a byte array, least significant bit of each byte first.
pub open spec fn spec_bytes_to_bits(bytes: Seq<u8>) -> Seq<u8> {
    Seq::new(bytes.len() * 8, |i: int| bit_of_byte(bytes[i / 8], i % 8))
}

/// The byte array of a bit string whose length is a multiple of 8.
pub open spec fn spec_bits_to_bytes(bits: Seq<u8>) -> Seq<u8> {
    Seq::new((bits.len() as int / 8) as nat, |i: int| bits_val(bits, 8 * i, 8) as u8)
}

pub proof fn lemma_bytes_to_bits_are_bits(bytes: Seq<u8>)
    ensures
        is_bit_range(spec_bytes_to_bits(bytes), 0, spec_bytes_to_bits(bytes).len() as nat),
{
    assert forall|t: int| 0 <= t < bytes.len() * 8 implies spec_bytes_to_bits(bytes)[t] <= 1 by {
        let b = bytes[t / 8];
        lemma_p2_pos((t % 8) as nat);
        lemma_div_pos_is_pos(b as int, p2((t % 8) as nat) as int);
        assert(((b as int) / (p2((t % 8) as nat) as int)) % 2 < 2);
    }
}

/// Reading eight bits of the bit string of a byte array gives the byte back.
pub proof fn lemma_byte_recovery(bytes: Seq<u8>, i: int)
    requires
        0 <= i < bytes.len(),
    ensures
        bits_val(spec_bytes_to_bits(bytes), 8 * i, 8) == bytes[i],
{
    let bits = spec_bytes_to_bits(bytes);
    lemma_p2_unfold();
    assert forall|t: int| 0 <= t < 8 implies #[trigger] bits[8 * i + t] == ((bytes[i] as int / p2(
        t as nat,
    ) as int) % 2) by {
        lemma_index_mul(i, t, 8);
        assert((8 * i + t) / 8 == i);
        assert((8 * i + t) % 8 == t);
        assert(bits[8 * i + t] == bit_of_byte(bytes[i], t));
        lemma_p2_pos(t as nat);
        lemma_div_pos_is_pos(bytes[i] as int, p2(t as nat) as int);
    }
    lemma_digits_to_val(bits, 8 * i, 8, bytes[i] as int);
}

/// Converts a bit string whose length is a multiple of 8 into bytes; bit
/// `8i + j` lands in byte `i` with weight `2^j`.
pub fn bits_to_bytes(bits: &Vec<u8>) -> (r: Result<Vec<u8>, MlKemError>)
    requires
        is_bit_range(bits@, 0, bits@.len() as nat),
    ensures
        r is Ok <==> bits@.len() % 8 == 0,
        r is Ok ==> r.unwrap()@ == spec_bits_to_bytes(bits@),
{
    if bits.len() % 8 != 0 {
        return Err(MlKemError::LengthMismatch);
    }
    let n = bits.len();
    let ell = n / 8;
    proof {
        lemma_fundamental_div_mod(n as int, 8);
    }
    let mut bytes: Vec<u8> = Vec::new();
    let mut i: usize = 0;
    while i < ell
        invariant
            is_bit_range(bits@, 0, bits@.len() as nat),
            bits@.len() == n,
            n == 8 * ell,
            i <= ell,
            bytes@.len() == i,
            forall|t: int| 0 <= t < i ==> bytes@[t] == bits_val(bits@, 8 * t, 8) as u8,
        decreases ell - i,
    {
        let mut acc: u16 = 0;
        let mut pw: u16 = 1;
        let mut j: usize = 0;
        proof {
            lemma_p2_unfold();
        }
        while j < 8
            invariant
                is_bit_range(bits@, 0, bits@.len() as nat),
                bits@.len() == n,
                n == 8 * ell,
                i < ell,
                j <= 8,
                pw == p2(j as nat),
                acc == bits_val(bits@, 8 * i as int, j as nat),
            decreases 8 - j,
        {
            proof {
                lemma_p2_unfold();
                lemma_p2_monotone(j as nat, 8);
                lemma_bits_val_bound(bits@, 8 * i as int, j as nat);
                lemma_bits_val_snoc(bits@, 8 * i as int, j as nat);
            }
            let bit = bits[8 * i + j];
            proof {
                assert(bits@[8 * i as int + j as int] <= 1);
                if bit == 0 {
                    assert((bit as u16) * pw == 0);
                } else {
                    assert(bit == 1);
                    assert((bit as u16) * pw == pw);
                }
            }
            acc = acc + (bit as u16) * pw;
            pw = pw * 2;
            j = j + 1;
        }
        proof {
            lemma_p2_unfold();
            lemma_bits_val_bound(bits@, 8 * i as int, 8);
        }
        bytes.push(acc as u8);
        i = i + 1;
    }
    proof {
        assert(bytes@ =~= spec_bits_to_bytes(bits@));
    }
    Ok(bytes)
}

/// Converts a byte array into its bit string: bit `8i + j` of the result is
/// bit `j` of byte `i`.
pub fn bytes_to_bits(bytes: &Vec<u8>) -> (bits: Vec<u8>)
    ensures
        bits@ == spec_bytes_to_bits(bytes@),
        is_bit_range(bits@, 0, bits@.len() as nat),
{
    let ell = bytes.len();
    let mut bits: Vec<u8> = Vec::new();
    let mut i: usize = 0;
    while i < ell
        invariant
            i <= ell,
            ell == bytes@.len(),
            bits@.len() == 8 * i,
            forall|t: int| 0 <= t < 8 * i ==> bits@[t] == bit_of_byte(bytes@[t / 8], t % 8),
        decreases ell - i,
    {
        let mut byte = bytes[i];
        let mut j: usize = 0;
        proof {
            lemma_p2_unfold();
            assert(byte as int / 1 == byte as int);
        }
        while j < 8
            invariant
                i < ell,
                ell == bytes@.len(),
                j <= 8,
                bits@.len() == 8 * i + j,
                byte as int == bytes@[i as int] as int / p2(j as nat) as int,
                forall|t: int| 0 <= t < 8 * i + j ==> bits@[t] == bit_of_byte(bytes@[t / 8], t % 8),
            decreases 8 - j,
        {
            bits.push(byte % 2);
            proof {
                let t = 8 * (i as int) + j;
                lemma_index_mul(i as int, j as int, 8);
                assert(t / 8 == i as int && t % 8 == j as int);
                assert(bits@[t] == bit_of_byte(bytes@[i as int], j as int));
                // byte / 2 takes us to the next power of two
                lemma_p2_pos(j as nat);
                lemma_div_denominator(bytes@[i as int] as int, p2(j as nat) as int, 2);
                assert(p2((j + 1) as nat) == 2 * p2(j as nat));
            }
            byte = byte / 2;
            j = j + 1;
        }
        i = i + 1;
    }
    proof {
        assert(bits@ =~= spec_bytes_to_bits(bytes@));
        lemma_bytes_to_bits_are_bits(bytes@);
    }
    bits
}

/// The modulus `m` of the d-bit codec: `2^d` for `d < 12`, `q` for `d = 12`.
pub open spec fn enc_m(d: int) -> int {
    if d < 12 {
        p2(d as nat) as int
    } else {
        3329
    }
}

/// The 256·d-bit string that encodes `f`: bit `i·d + j` is binary digit `j`
/// of `f[i] mod m`.
pub open spec fn enc_bits(d: int, f: Seq<u16>) -> Seq<u8> {
    Seq::new(
        (256 * d) as nat,
        |t: int| ((((f[t / d] as int) % enc_m(d)) / (p2((t % d) as nat) as int)) % 2) as u8,
    )
}

/// The 32·d bytes that encode 256 d-bit integers.
pub open spec fn spec_byte_encode(d: int, f: Seq<u16>) -> Seq<u8> {
    spec_bits_to_bytes(enc_bits(d, f))
}

/// The 256 d-bit integers unpacked from 32·d bytes; pure bit unpacking, with
/// no reduction modulo `q`.
pub open spec fn spec_byte_decode(d: int, b: Seq<u8>) -> Seq<u16> {
    Seq::new(256, |i: int| bits_val(spec_bytes_to_bits(b), i * d, d as nat) as u16)
}

/// `2^e` as a `u16`, for `e <= 12`.
pub fn pow2_u16(e: usize) -> (r: u16)
    requires
        e <= 12,
    ensures
        r == p2(e as nat),
{
    let mut r: u16 = 1;
    let mut j: usize = 0;
    proof {
        lemma_p2_unfold();
    }
    while j < e
        invariant
            j <= e,
            e <= 12,
            r == p2(j as nat),
            r <= 4096,
        decreases e - j,
    {
        proof {
            lemma_p2_unfold();
            lemma_p2_monotone(j as nat, 11);
        }
        r = r * 2;
        j = j + 1;
        proof {
            lemma_p2_monotone(j as nat, 12);
        }
    }
    r
}

/// Packs 256 integers, each taken modulo `m`, into `32·d` bytes, `d` bits
/// per integer, least significant bit first.
pub fn byte_encode(d: usize, f: &Vec<u16>) -> (r: Result<Vec<u8>, MlKemError>)
    ensures
        r is Ok <==> (1 <= d <= 12 && f@.len() == 256),
        r is Ok ==> r.unwrap()@ == spec_byte_encode(d as int, f@),
        r is Ok ==> r.unwrap()@.len() == 32 * d,
{
    if !(1 <= d && d <= 12) || f.len() != 256 {
        return Err(MlKemError::LengthMismatch);
    }
    let m_mod: u16 = if d < 12 {
        pow2_u16(d)
    } else {
        3329
    };
    proof {
        lemma_p2_unfold();
        assert(m_mod as int == enc_m(d as int));
    }
    let mut bit_array: Vec<u8> = Vec::new();
    let mut i: usize = 0;
    while i < 256
        invariant
            1 <= d <= 12,
            f@.len() == 256,
            m_mod as int == enc_m(d as int),
            m_mod >= 2,
            i <= 256,
            bit_array@.len() == i as int * d as int,
            forall|t: int|
                0 <= t < i as int * d as int ==> bit_array@[t] == enc_bits(d as int, f@)[t],
        decreases 256 - i,
    {
        let mut a: u16 = f[i] % m_mod;
        let ghost a0 = a as int;
        let mut j: usize = 0;
        proof {
            lemma_p2_unfold();
            assert(a0 / 1 == a0);
            lemma_index_mul(i as int, 0, d as int);
        }
        while j < d
            invariant
                1 <= d <= 12,
                f@.len() == 256,
                i < 256,
                j <= d,
                a as int == a0 / p2(j as nat) as int,
                a0 == (f@[i as int] as int) % enc_m(d as int),
                0 <= a0 < enc_m(d as int),
                bit_array@.len() == i as int * d as int + j,
                forall|t: int|
                    0 <= t < i as int * d as int + j ==> bit_array@[t] == enc_bits(d as int, f@)[t],
            decreases d - j,
        {
            bit_array.push((a % 2) as u8);
            proof {
                let t = i as int * d as int + j;
                lemma_index_mul(i as int, j as int, d as int);
                assert(t / d as int == i as int && t % d as int == j as int);
                assert(0 <= t < 256 * d as int) by {
                    lemma_mul_inequality(i as int + 1, 256, d as int);
                }
                assert(enc_bits(d as int, f@)[t] == ((((f@[i as int] as int) % enc_m(d as int)) / (
                p2(j as nat) as int)) % 2) as u8);
                lemma_p2_pos(j as nat);
                lemma_div_denominator(a0, p2(j as nat) as int, 2);
                assert(p2((j + 1) as nat) == 2 * p2(j as nat));
            }
            a = a / 2;
            j = j + 1;
        }
        i = i + 1;
        proof {
            lemma_index_mul(i as int - 1, d as int - 1, d as int);
            assert(bit_array@.len() == i as int * d as int);
        }
    }
    proof {
        assert(bit_array@.len() == 256 * d as int);
        assert(bit_array@ =~= enc_bits(d as int, f@));
        assert forall|t: int| 0 <= t < bit_array@.len() implies bit_array@[t] <= 1 by {
            assert(bit_array@[t] == enc_bits(d as int, f@)[t]);
        }
        assert(bit_array@.len() % 8 == 0) by {
            assert(256 * d as int == 8 * (32 * d as int));
            lemma_mod_multiples_basic(32 * d as int, 8);
        }
    }
    match bits_to_bytes(&bit_array) {
        Ok(bytes) => {
            proof {
                assert(bytes@.len() == 256 * d as int / 8);
                assert(256 * d as int / 8 == 32 * d as int) by {
                    lemma_div_multiples_vanish_fancy(32 * d as int, 0, 8);
                    assert(8 * (32 * d as int) == 256 * d as int);
                }
            }
            Ok(bytes)
        },
        Err(_) => {
            proof {
                assert(false);
            }
            Err(MlKemError::LengthMismatch)
        },
    }
}

/// Unpacks `32·d` bytes into 256 d-bit integers; pure bit unpacking, with no
/// reduction modulo `q`.
pub fn byte_decode(d: usize, b: &Vec<u8>) -> (r: Result<Vec<u16>, MlKemError>)
    ensures
        r is Ok <==> (1 <= d <= 12 && b@.len() == 32 * d),
        r is Ok ==> r.unwrap()@ == spec_byte_decode(d as int, b@),
        r is Ok ==> r.unwrap()@.len() == 256 && forall|i: int|
            0 <= i < 256 ==> r.unwrap()@[i] < p2(d as nat),
{
    if !(1 <= d && d <= 12) || b.len() != 32 * d {
        return Err(MlKemError::LengthMismatch);
    }
    let bits = bytes_to_bits(b);
    let n = bits.len();
    proof {
        assert(bits@.len() == 8 * (32 * d as int));
        assert(8 * (32 * d as int) == 256 * d as int);
    }
    let mut f: Vec<u16> = Vec::new();
    let mut i: usize = 0;
    while i < 256
        invariant
            1 <= d <= 12,
            b@.len() == 32 * d,
            bits@ == spec_bytes_to_bits(b@),
            is_bit_range(bits@, 0, bits@.len() as nat),
            bits@.len() == n,
            n == 256 * d,
            i <= 256,
            f@.len() == i,
            forall|t: int| 0 <= t < i ==> f@[t] == spec_byte_decode(d as int, b@)[t],
            forall|t: int| 0 <= t < i ==> f@[t] < p2(d as nat),
        decreases 256 - i,
    {
        let mut acc: u16 = 0;
        let mut pw: u16 = 1;
        let mut j: usize = 0;
        proof {
            lemma_p2_unfold();
            lemma_mul_inequality(i as int + 1, 256, d as int);
            lemma_index_mul(i as int, d as int - 1, d as int);
        }
        while j < d
            invariant
                1 <= d <= 12,
                i < 256,
                j <= d,
                is_bit_range(bits@, 0, bits@.len() as nat),
                bits@.len() == n,
                n == 256 * d,
                i as int * d as int + d as int <= 256 * d as int,
                pw == p2(j as nat),
                pw <= 4096,
                acc == bits_val(bits@, i as int * d as int, j as nat),
            decreases d - j,
        {
            proof {
                lemma_p2_unfold();
                lemma_p2_monotone(j as nat, 12);
                lemma_bits_val_bound(bits@, i as int * d as int, j as nat);
                lemma_bits_val_snoc(bits@, i as int * d as int, j as nat);
            }
            let bit = bits[i * d + j];
            proof {
                assert(bits@[i as int * d as int + j as int] <= 1);
                if bit == 0 {
                    assert((bit as u16) * pw == 0);
                } else {
                    assert(bit == 1);
                    assert((bit as u16) * pw == pw);
                }
                lemma_p2_monotone(j as nat + 1, 12);
            }
            acc = acc + (bit as u16) * pw;
            pw = pw * 2;
            j = j + 1;
        }
        proof {
            lemma_bits_val_bound(bits@, i as int * d as int, d as nat);
        }
        f.push(acc);
        i = i + 1;
        proof {
            assert(f@[i - 1] == spec_byte_decode(d as int, b@)[i - 1]);
        }
    }
    proof {
        assert(f@ =~= spec_byte_decode(d as int, b@));
    }
    Ok(f)
}

/// Law: converting a bit string to bytes and back returns the bit string.
///
/// For every bit string of length `8·ell`, `bytes == BitsToBytes(bits)`
/// and `bits2 == BytesToBits(bytes)` imply `bits2 == bits`.
pub proof fn lemma_bits_bytes_round_trip(bits: Seq<u8>, bytes: Seq<u8>, bits2: Seq<u8>)
    requires
        is_bit_range(bits, 0, bits.len() as nat),
        bits.len() % 8 == 0,
        bytes == spec_bits_to_bytes(bits),
        bits2 == spec_bytes_to_bits(bytes),
    ensures
        bits2 == bits,
{
    assert(bytes.len() == bits.len() / 8);
    assert(bits.len() == 8 * (bits.len() / 8)) by {
        lemma_fundamental_div_mod(bits.len() as int, 8);
    }
    assert(bits2.len() == bits.len());
    assert forall|t: int| 0 <= t < bits.len() implies bits2[t] == bits[t] by {
        let i = t / 8;
        let j = t % 8;
        lemma_mod_division_less_than_divisor(t, 8);
        lemma_div_pos_is_pos(t, 8);
        assert(0 <= j < 8);
        assert(0 <= i < bytes.len()) by {
            lemma_div_by_multiple_is_strongly_ordered(t, bits.len() as int, bits.len() as int / 8, 8);
        }
        assert(bits2[t] == bit_of_byte(bytes[i], j));
        assert(bytes[i] == bits_val(bits, 8 * i, 8) as u8);
        lemma_p2_unfold();
        lemma_bits_val_bound(bits, 8 * i, 8);
        lemma_bits_val_digit(bits, 8 * i, 8, j);
        lemma_fundamental_div_mod(t, 8);
        assert(8 * i + j == t);
    }
    assert(bits2 =~= bits);
}

/// Law: encoding the decoding of any `32·d`-byte array returns the array,
/// for `d < 12` unconditionally and for `d = 12` whenever every unpacked
/// 12-bit value is below `q` (a value of `q` or more is changed by the
/// reduction modulo `q` that encoding performs).
pub proof fn lemma_encode_decode_round_trip(d: int, b: Seq<u8>, f: Seq<u16>, r: Seq<u8>)
    requires
        1 <= d <= 12,
        b.len() == 32 * d,
        f == spec_byte_decode(d, b),
        r == spec_byte_encode(d, f),
        d == 12 ==> forall|i: int| 0 <= i < 256 ==> f[i] < 3329,
    ensures
        r == b,
{
    let bits = spec_bytes_to_bits(b);
    lemma_bytes_to_bits_are_bits(b);
    assert(bits.len() == 8 * (32 * d));
    assert(8 * (32 * d) == 256 * d);
    // every coefficient is the value of its bit range, below both 2^d and m
    assert forall|i: int| 0 <= i < 256 implies (#[trigger] f[i] as int) % enc_m(d) == bits_val(
        bits,
        i * d,
        d as nat,
    ) by {
        lemma_mul_inequality(i + 1, 256, d);
        lemma_index_mul(i, d - 1, d);
        lemma_bits_val_bound(bits, i * d, d as nat);
        lemma_p2_unfold();
        lemma_p2_monotone(d as nat, 12);
        assert(f[i] as int == bits_val(bits, i * d, d as nat));
        if d < 12 {
            lemma_small_mod(f[i] as nat, p2(d as nat));
        } else {
            lemma_small_mod(f[i] as nat, 3329);
        }
    }
    // hence the encoding bits are exactly the bits of the input bytes
    assert forall|t: int| 0 <= t < 256 * d implies enc_bits(d, f)[t] == bits[t] by {
        let i = t / d;
        let j = t % d;
        lemma_mod_division_less_than_divisor(t, d);
        lemma_div_pos_is_pos(t, d);
        assert(0 <= j < d);
        assert(0 <= i < 256) by {
            lemma_div_by_multiple_is_strongly_ordered(t, 256 * d, 256, d);
            vstd::arithmetic::div_mod::lemma_div_by_multiple(256, d);
        }
        lemma_fundamental_div_mod(t, d);
        lemma_mul_is_commutative(d, i);
        assert(i * d + j == t);
        lemma_mul_inequality(i + 1, 256, d);
        lemma_index_mul(i, d - 1, d);
        lemma_bits_val_digit(bits, i * d, d as nat, j);
        assert((bits_val(bits, i * d, d as nat) / p2(j as nat) as int) % 2 == bits[i * d + j]);
        assert(enc_bits(d, f)[t] == ((((f[i] as int) % enc_m(d)) / (p2(j as nat) as int))
            % 2) as u8);
    }
    assert(enc_bits(d, f) =~= bits);
    // and turning the bits back into bytes recovers each byte
    assert(r == spec_bits_to_bytes(bits));
    assert(r.len() == 256 * d / 8);
    assert(256 * d / 8 == 32 * d) by {
        lemma_div_multiples_vanish_fancy(32 * d, 0, 8);
        assert(8 * (32 * d) == 256 * d);
    }
    assert forall|i: int| 0 <= i < 32 * d implies r[i] == b[i] by {
        lemma_byte_recovery(b, i);
        assert(r[i] == bits_val(bits, 8 * i, 8) as u8);
    }
    assert(r =~= b);
}


/// Law: decoding the encoding of any array of 256 integers returns each
/// integer reduced modulo `m`; on integers already below `m` the round
/// trip is the identity.
pub proof fn lemma_decode_encode_round_trip(d: int, f: Seq<u16>, b: Seq<u8>, f2: Seq<u16>)
    requires
        1 <= d <= 12,
        f.len() == 256,
        b == spec_byte_encode(d, f),
        f2 == spec_byte_decode(d, b),
    ensures
        forall|i: int| 0 <= i < 256 ==> f2[i] == (f[i] as int) % enc_m(d),
{
    let bits = enc_bits(d, f);
    assert(bits.len() == 256 * d);
    assert forall|t: int| 0 <= t < bits.len() implies bits[t] <= 1 by {}
    assert(bits.len() % 8 == 0) by {
        assert(256 * d == 8 * (32 * d));
        lemma_mod_multiples_basic(32 * d, 8);
    }
    let bits2 = spec_bytes_to_bits(b);
    lemma_bits_bytes_round_trip(bits, b, bits2);
    assert(b.len() == 256 * d / 8);
    assert(256 * d / 8 == 32 * d) by {
        lemma_div_multiples_vanish_fancy(32 * d, 0, 8);
        assert(8 * (32 * d) == 256 * d);
    }
    assert forall|i: int| 0 <= i < 256 implies #[trigger] f2[i] == (f[i] as int) % enc_m(d) by {
        let v = (f[i] as int) % enc_m(d);
        lemma_p2_unfold();
        lemma_p2_monotone(d as nat, 12);
        assert(0 <= v < enc_m(d)) by {
            if d < 12 {
                lemma_p2_pos(d as nat);
            }
        }
        assert(enc_m(d) <= p2(d as nat));
        assert forall|t: int| 0 <= t < d implies #[trigger] bits[i * d + t] == (v / p2(
            t as nat,
        ) as int) % 2 by {
            lemma_index_mul(i, t, d);
            lemma_mul_inequality(i + 1, 256, d);
            assert(bits[i * d + t] == ((((f[(i * d + t) / d] as int) % enc_m(d)) / (p2(
                ((i * d + t) % d) as nat,
            ) as int)) % 2) as u8);
            lemma_p2_pos(t as nat);
            vstd::arithmetic::div_mod::lemma_div_pos_is_pos(v, p2(t as nat) as int);
        }
        lemma_digits_to_val(bits, i * d, d as nat, v);
        assert(bits_val(bits, i * d, d as nat) == v);
        assert(f2[i] == bits_val(bits2, i * d, d as nat) as u16);
    }
}

} // verus!
