//! Arithmetic in the prime field `Z/pZ`, with elements held as `u64` and the
//! modulus chosen by the caller.
use vstd::prelude::*;

verus! {

/// Sum of two residues modulo `p`.
pub open spec fn fadd(p: int, a: int, b: int) -> int {
    (a + b) % p
}

/// Product of two residues modulo `p`.
pub open spec fn fmul(p: int, a: int, b: int) -> int {
    (a * b) % p
}

/// Additive inverse of a residue modulo `p`.
pub open spec fn fneg(p: int, a: int) -> int {
    (p - a % p) % p
}

/// The canonical representative of `a` modulo `p`.
pub open spec fn fred(p: int, a: int) -> int {
    a % p
}

/// A prime field given by its modulus. Any `u64` stands for its residue.
#[derive(Clone, Copy, Debug, PartialEq, Eq)]
pub struct PrimeField {
    pub modulus: u64,
}

impl PrimeField {
    pub open spec fn wf(&self) -> bool {
        self.modulus >= 2
    }

    pub open spec fn p(&self) -> int {
        self.modulus as int
    }

    /// The additive identity.
    pub fn zero(&self) -> (r: u64)
        requires
            self.wf(),
        ensures
            r == 0,
    {
        0
    }

    /// The multiplicative identity.
    pub fn one(&self) -> (r: u64)
        requires
            self.wf(),
        ensures
            r == 1,
            r < self.p(),
    {
        1
    }

    /// The canonical representative of `a`.
    pub fn reduce(&self, a: u64) -> (r: u64)
        requires
            self.wf(),
        ensures
            r == fred(self.p(), a as int),
            r < self.p(),
    {
        a % self.modulus
    }

    pub fn add(&self, a: u64, b: u64) -> (r: u64)
        requires
            self.wf(),
        ensures
            r == fadd(self.p(), a as int, b as int),
            r < self.p(),
    {
        let s: u128 = a as u128 + b as u128;
        let m: u128 = s % (self.modulus as u128);
        m as u64
    }

    pub fn mul(&self, a: u64, b: u64) -> (r: u64)
        requires
            self.wf(),
        ensures
            r == fmul(self.p(), a as int, b as int),
            r < self.p(),
    {
        let x: u128 = a as u128;
        let y: u128 = b as u128;
        assert(x * y <= 0xffff_ffff_ffff_ffffu128 * 0xffff_ffff_ffff_ffffu128) by (nonlinear_arith)
            requires
                x <= 0xffff_ffff_ffff_ffffu128,
                y <= 0xffff_ffff_ffff_ffffu128,
        ;
        let s: u128 = x * y;
        let m: u128 = s % (self.modulus as u128);
        m as u64
    }

    pub fn neg(&self, a: u64) -> (r: u64)
        requires
            self.wf(),
        ensures
            r == fneg(self.p(), a as int),
            r < self.p(),
    {
        let red: u64 = a % self.modulus;
        (self.modulus - red) % self.modulus
    }

    /// Whether `a` and `b` are the same field element.
    pub fn eq(&self, a: u64, b: u64) -> (r: bool)
        requires
            self.wf(),
        ensures
            r == (fred(self.p(), a as int) == fred(self.p(), b as int)),
    {
        a % self.modulus == b % self.modulus
    }
}

} // verus!
