//! Scalar elements, held canonically.
//!
//! A scalar is a natural number below the scalar group order, a 251-bit
//! prime. As with field elements, the scalar arithmetic itself is the
//! business of the external curve libraries; the model holds the
//! canonical value and its decompositions.
use vstd::prelude::*;

use crate::field::Field;
use crate::limbs::{U256, bits_val, bytes_val, dec_val, lemma_pow2_large};

verus! {

/// The scalar group order: a 251-bit prime.
pub open spec fn scalar_modulus() -> nat {
    0x4aad957a68b2955982d1347970dec005293a3afc43c8afeb95aee9ac33fd9ffnat
}

/// The number of bits of the scalar modulus.
pub const SCALAR_SIZE_BITS: usize = 251;

/// A canonical scalar: a value below the scalar group order.
#[derive(Clone, Copy, Debug, PartialEq, Eq, Structural)]
pub struct Scalar {
    pub repr: U256,
}

/// The limbs of the scalar modulus.
pub fn scalar_modulus_repr() -> (r: U256)
    ensures
        r.value() == scalar_modulus(),
{
    U256 {
        l0: 0xb95a_ee9a_c33f_d9ff,
        l1: 0x5293_a3af_c43c_8afe,
        l2: 0x982d_1347_970d_ec00,
        l3: 0x04aa_d957_a68b_2955,
    }
}

impl Scalar {
    /// The natural number this scalar stands for.
    pub open spec fn value(&self) -> nat {
        self.repr.value()
    }

    /// Canonical: the value is below the scalar group order.
    pub open spec fn wf(&self) -> bool {
        self.repr.value() < scalar_modulus()
    }

    /// The scalar with a small value.
    pub fn from_u128(x: u128) -> (r: Scalar)
        ensures
            r.value() == x && r.wf(),
    {
        Scalar { repr: U256::from_u128(x) }
    }

    /// The scalar with the given limbs, when they are canonical.
    pub fn from_repr(repr: U256) -> (r: Option<Scalar>)
        ensures
            match r {
                Some(s) => repr.value() < scalar_modulus() && s.value() == repr.value() && s.wf(),
                None => repr.value() >= scalar_modulus(),
            },
    {
        let m = scalar_modulus_repr();
        if repr.lt(&m) {
            Some(Scalar { repr })
        } else {
            None
        }
    }

    /// The canonical 251 bits of this scalar, little endian.
    pub fn to_bits_le(&self) -> (r: Vec<bool>)
        requires
            self.wf(),
        ensures
            r@.len() == 251,
            bits_val(r@) == self.value(),
    {
        let (bits, left) = self.repr.to_bits_le(SCALAR_SIZE_BITS);
        proof {
            lemma_pow2_large();
            if left.value() > 0 {
                assert(left.value() * vstd::arithmetic::power2::pow2(251)
                    >= 0x800_0000_0000_0000_0000_0000_0000_0000_0000_0000_0000_0000_0000_0000_0000_0000)
                    by (nonlinear_arith)
                    requires
                        left.value() >= 1,
                        vstd::arithmetic::power2::pow2(251)
                            == 0x800_0000_0000_0000_0000_0000_0000_0000_0000_0000_0000_0000_0000_0000_0000_0000,
                ;
                assert(false);
            }
            assert(left.value() * vstd::arithmetic::power2::pow2(251) == 0) by (nonlinear_arith)
                requires
                    left.value() == 0,
            ;
        }
        bits
    }

    /// The canonical 32 little-endian bytes of this scalar.
    pub fn to_bytes_le(&self) -> (r: Vec<u8>)
        ensures
            r@.len() == 32,
            bytes_val(r@) == self.value(),
    {
        self.repr.to_bytes_le()
    }

    /// The scalar whose canonical bytes these are; `None` unless the
    /// bytes read back canonically, below the group order.
    pub fn from_bytes_le(s: &[u8]) -> (r: Option<Scalar>)
        requires
            s@.len() == 32,
        ensures
            match r {
                Some(sc) => bytes_val(s@) < scalar_modulus() && sc.value() == bytes_val(s@)
                    && sc.wf(),
                None => bytes_val(s@) >= scalar_modulus(),
            },
    {
        Self::from_repr(U256::from_bytes_le(s))
    }

    /// The decimal digits of this scalar, most significant first; empty
    /// for zero.
    pub fn to_digits(&self) -> (r: Vec<u8>)
        ensures
            dec_val(r@) == self.value(),
            forall|i: int| 0 <= i < r@.len() ==> r@[i] < 10,
            r@.len() > 0 ==> r@[0] != 0,
            self.value() == 0 ==> r@.len() == 0,
    {
        self.repr.to_digits()
    }

    /// The canonical field decomposition of this scalar: its value as one
    /// field element, which the group order always admits.
    pub fn to_field(&self) -> (r: Field)
        requires
            self.wf(),
        ensures
            r.value() == self.value() && r.wf(),
    {
        match Field::from_repr(self.repr) {
            Some(f) => f,
            None => vstd::pervasive::unreached(),
        }
    }
}

} // verus!
