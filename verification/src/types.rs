//! The field element `Z256`: a residue modulo `q = 3329` stored in 16 bits.
//!
//! Arithmetic widens before reducing; multiplication reduces by Barrett's
//! method with the precomputed reciprocal `M = floor(2^32 / q)`.  The final
//! conditional subtraction of every operation is a mask computed by a
//! shift, so no operation branches on the value it handles.

use vstd::prelude::*;

use vstd::arithmetic::div_mod::{
    lemma_fundamental_div_mod, lemma_fundamental_div_mod_converse, lemma_mod_add_multiples_vanish,
    lemma_mod_multiples_vanish, lemma_mod_sub_multiples_vanish, lemma_small_mod,
};

verus! {

/// Reduces a value below `2q` to a residue without branching: the
/// quotient `(x + 2^16 - q) / 2^16` is 1 exactly when `x >= q`, and the
/// division by a power of two compiles to a shift.
fn reduce_once(x: u32) -> (r: u32)
    requires
        x < 6658,
    ensures
        r == (x as int) % 3329,
        r < 3329,
{
    let ge = (x + 62207) / 65536;
    proof {
        let s = x as int + 62207;
        if x >= 3329 {
            lemma_fundamental_div_mod_converse(s, 65536, 1, s - 65536);
            assert(ge == 1);
            lemma_mod_sub_multiples_vanish(x as int, 3329);
            lemma_small_mod((x - 3329) as nat, 3329);
        } else {
            lemma_fundamental_div_mod_converse(s, 65536, 0, s);
            assert(ge == 0);
            lemma_small_mod(x as nat, 3329);
        }
    }
    x - 3329 * ge
}

/// A residue modulo `q`, stored as a `u16`; fully reduced values satisfy
/// `self.0 < 3329`.
#[derive(Clone, Copy, Debug, PartialEq, Eq, Structural)]
pub struct Z256(pub u16);

impl Z256 {
    /// The raw 16-bit representative.
    pub fn get_u16(self) -> (r: u16)
        ensures
            r == self.0,
    {
        self.0
    }

    /// Sum modulo `q` of two reduced residues.
    pub fn add(self, other: Self) -> (r: Self)
        requires
            self.0 < 3329,
            other.0 < 3329,
        ensures
            r.0 == (self.0 + other.0) % 3329,
    {
        Z256(reduce_once(self.0 as u32 + other.0 as u32) as u16)
    }

    /// Difference modulo `q` of two reduced residues.
    pub fn sub(self, other: Self) -> (r: Self)
        requires
            self.0 < 3329,
            other.0 < 3329,
        ensures
            r.0 as int == (self.0 - other.0) % 3329,
    {
        let r = reduce_once(self.0 as u32 + 3329 - other.0 as u32);
        proof {
            lemma_mod_add_multiples_vanish(self.0 - other.0, 3329);
        }
        Z256(r as u16)
    }

    /// Product modulo `q` of two reduced residues, by Barrett reduction.
    pub fn mul(self, other: Self) -> (r: Self)
        requires
            self.0 < 3329,
            other.0 < 3329,
        ensures
            r.0 == (self.0 * other.0) % 3329,
    {
        proof {
            assert((self.0 as int) * (other.0 as int) < 11082241) by (nonlinear_arith)
                requires
                    self.0 < 3329,
                    other.0 < 3329,
            ;
        }
        let prod = (self.0 as u64) * (other.0 as u64);
        proof {
            assert((prod as int) * 1290167 < 14298119724647) by (nonlinear_arith)
                requires
                    0 <= prod < 11082241,
            ;
        }
        let quot = (prod * 1290167) / 4294967296;
        proof {
            let p = prod as int;
            let qt = (p * 1290167) / 4294967296;
            lemma_fundamental_div_mod(p * 1290167, 4294967296);
            // 3329 * 1290167 == 4294965943 == 2^32 - 1353
            assert(qt * 3329 <= p) by (nonlinear_arith)
                requires
                    0 <= p < 11082241,
                    qt >= 0,
                    4294967296 * qt <= p * 1290167,
            ;
            assert(qt < 3329) by (nonlinear_arith)
                requires
                    0 <= p < 11082241,
                    qt * 3329 <= p,
            ;
            assert(p - qt * 3329 < 2 * 3329) by (nonlinear_arith)
                requires
                    0 <= p < 11082241,
                    0 <= qt <= 3329,
                    p * 1290167 < 4294967296 * qt + 4294967296,
            ;
        }
        let rem = prod - quot * 3329;
        let r = reduce_once(rem as u32);
        proof {
            lemma_mod_multiples_vanish(-(quot as int), prod as int, 3329);
            assert((prod - quot * 3329) % 3329 == prod as int % 3329);
        }
        Z256(r as u16)
    }
}

} // verus!
