//! The three parameter sets and the byte lengths they induce.

use vstd::prelude::*;

verus! {

/// The compile-time constants of one ML-KEM parameter set.
#[derive(Clone, Copy, Debug, PartialEq, Eq, Structural)]
pub struct Params {
    /// The module rank `k`.
    pub k: usize,
    /// The centered-binomial parameter for key and encryption noise.
    pub eta1: usize,
    /// The centered-binomial parameter for ciphertext noise.
    pub eta2: usize,
    /// The compression width of the `u` ciphertext half.
    pub du: usize,
    /// The compression width of the `v` ciphertext half.
    pub dv: usize,
}

/// The parameter sets of the three security levels.
pub open spec fn wf_params(p: Params) -> bool {
    (p.k == 2 && p.eta1 == 3 && p.eta2 == 2 && p.du == 10 && p.dv == 4) || (p.k == 3 && p.eta1
        == 2 && p.eta2 == 2 && p.du == 10 && p.dv == 4) || (p.k == 4 && p.eta1 == 2 && p.eta2 == 2
        && p.du == 11 && p.dv == 5)
}

/// Encapsulation key length: `384k + 32`.
pub open spec fn spec_ek_len(p: Params) -> int {
    384 * p.k + 32
}

/// Decapsulation key length: `768k + 96`.
pub open spec fn spec_dk_len(p: Params) -> int {
    768 * p.k + 96
}

/// Ciphertext length: `32(du*k + dv)`.
pub open spec fn spec_ct_len(p: Params) -> int {
    32 * (p.du * p.k + p.dv)
}

/// The ML-KEM-512 parameter set.
pub fn params_512() -> (p: Params)
    ensures
        wf_params(p),
        p.k == 2,
{
    Params { k: 2, eta1: 3, eta2: 2, du: 10, dv: 4 }
}

/// The ML-KEM-768 parameter set.
pub fn params_768() -> (p: Params)
    ensures
        wf_params(p),
        p.k == 3,
{
    Params { k: 3, eta1: 2, eta2: 2, du: 10, dv: 4 }
}

/// The ML-KEM-1024 parameter set.
pub fn params_1024() -> (p: Params)
    ensures
        wf_params(p),
        p.k == 4,
{
    Params { k: 4, eta1: 2, eta2: 2, du: 11, dv: 5 }
}

/// Encapsulation key length in bytes.
pub fn ek_len(p: Params) -> (r: usize)
    requires
        wf_params(p),
    ensures
        r == spec_ek_len(p),
{
    384 * p.k + 32
}

/// Decapsulation key length in bytes.
pub fn dk_len(p: Params) -> (r: usize)
    requires
        wf_params(p),
    ensures
        r == spec_dk_len(p),
{
    768 * p.k + 96
}

/// Ciphertext length in bytes.
pub fn ct_len(p: Params) -> (r: usize)
    requires
        wf_params(p),
    ensures
        r == spec_ct_len(p),
{
    32 * (p.du * p.k + p.dv)
}

} // verus!
