//! Field elements, held canonically.
//!
//! A field element is a natural number below the field modulus, kept in
//! four limbs. The arithmetic of the field itself (modular multiplication
//! and inversion) belongs to the external curve libraries; this model
//! holds what the instruction core reads of an element — its canonical
//! value, bits, bytes and decimal digits — and verifies those exactly.
use vstd::prelude::*;

use crate::errors::Halt;
use crate::limbs::{U256, bits_val, bytes_val, dec_val, lemma_bits_val_bound, lemma_pow2_large};
use crate::mode::{Count, Mode};

verus! {

/// The field modulus: a 253-bit prime.
pub open spec fn field_modulus() -> nat {
    0x12ab655e9a2ca55660b44d1e5c37b00159aa76fed00000010a11800000000001nat
}

/// The number of bits of the field modulus.
pub const FIELD_SIZE_BITS: usize = 253;

/// The data capacity of a field element in whole bits: one less than its
/// size, so every value of that many bits fits.
pub const FIELD_DATA_BITS: usize = 252;

/// A canonical field element: a value below the field modulus.
#[derive(Clone, Copy, Debug, PartialEq, Eq, Structural)]
pub struct Field {
    pub repr: U256,
}

/// The limbs of the field modulus.
pub fn field_modulus_repr() -> (r: U256)
    ensures
        r.value() == field_modulus(),
{
    U256 {
        l0: 0x0a11_8000_0000_0001,
        l1: 0x59aa_76fe_d000_0001,
        l2: 0x60b4_4d1e_5c37_b001,
        l3: 0x12ab_655e_9a2c_a556,
    }
}

impl Field {
    /// The natural number this element stands for.
    pub open spec fn value(&self) -> nat {
        self.repr.value()
    }

    /// Canonical: the value is below the modulus.
    pub open spec fn wf(&self) -> bool {
        self.repr.value() < field_modulus()
    }

    /// The zero element.
    pub fn zero() -> (r: Field)
        ensures
            r.value() == 0 && r.wf(),
    {
        Field { repr: U256::zero() }
    }

    /// The element with a small value.
    pub fn from_u128(x: u128) -> (r: Field)
        ensures
            r.value() == x && r.wf(),
    {
        Field { repr: U256::from_u128(x) }
    }

    /// The element with the given limbs, when they are canonical.
    pub fn from_repr(repr: U256) -> (r: Option<Field>)
        ensures
            match r {
                Some(f) => repr.value() < field_modulus() && f.value() == repr.value() && f.wf(),
                None => repr.value() >= field_modulus(),
            },
    {
        let m = field_modulus_repr();
        if repr.lt(&m) {
            Some(Field { repr })
        } else {
            None
        }
    }

    /// Whether two elements are equal, as values.
    pub fn equals(&self, other: &Field) -> (r: bool)
        ensures
            r == (self.value() == other.value()),
    {
        proof {
            if self.repr.value() == other.repr.value() {
                U256::lemma_value_injective(self.repr, other.repr);
            }
        }
        self.repr == other.repr
    }

    /// The canonical 253 bits of this element, little endian.
    pub fn to_bits_le(&self) -> (r: Vec<bool>)
        requires
            self.wf(),
        ensures
            r@.len() == 253,
            bits_val(r@) == self.value(),
    {
        let (bits, left) = self.repr.to_bits_le(FIELD_SIZE_BITS);
        proof {
            lemma_pow2_large();
            if left.value() > 0 {
                assert(left.value() * vstd::arithmetic::power2::pow2(253)
                    >= 0x2000_0000_0000_0000_0000_0000_0000_0000_0000_0000_0000_0000_0000_0000_0000_0000)
                    by (nonlinear_arith)
                    requires
                        left.value() >= 1,
                        vstd::arithmetic::power2::pow2(253)
                            == 0x2000_0000_0000_0000_0000_0000_0000_0000_0000_0000_0000_0000_0000_0000_0000_0000,
                ;
                assert(false);
            }
            assert(left.value() * vstd::arithmetic::power2::pow2(253) == 0) by (nonlinear_arith)
                requires
                    left.value() == 0,
            ;
        }
        bits
    }

    /// The lower `k` bits of this element, little endian.
    ///
    /// Demanding more bits than the element has is a fatal width failure;
    /// an element whose upper bits are not zero is a fatal decomposition
    /// failure, since the lower bits alone must reconstruct it.
    pub fn to_lower_bits_le(&self, k: usize) -> (r: Result<Vec<bool>, Halt>)
        ensures
            match r {
                Ok(bits) => k <= 253 && bits@.len() == k && bits_val(bits@) == self.value()
                    && self.value() < vstd::arithmetic::power2::pow2(k as nat),
                Err(e) => if k > 253 {
                    e == (Halt::ExcessiveBitWidth { bits: k as u64 })
                } else {
                    self.value() >= vstd::arithmetic::power2::pow2(k as nat) && e == (
                    Halt::UpperBitsNonzero { bits: k as u64 })
                },
            },
    {
        if k > FIELD_SIZE_BITS {
            return Err(Halt::ExcessiveBitWidth { bits: k as u64 });
        }
        let (bits, left) = self.repr.to_bits_le(k);
        if left.is_zero() {
            proof {
                lemma_bits_val_bound(bits@);
                assert(left.value() * vstd::arithmetic::power2::pow2(k as nat) == 0)
                    by (nonlinear_arith)
                    requires
                        left.value() == 0,
                ;
            }
            Ok(bits)
        } else {
            proof {
                vstd::arithmetic::power2::lemma_pow2_pos(k as nat);
                assert(left.value() * vstd::arithmetic::power2::pow2(k as nat)
                    >= vstd::arithmetic::power2::pow2(k as nat)) by (nonlinear_arith)
                    requires
                        left.value() >= 1,
                        vstd::arithmetic::power2::pow2(k as nat) >= 1,
                ;
            }
            Err(Halt::UpperBitsNonzero { bits: k as u64 })
        }
    }

    /// The lower `k` bits of this element, in the reverse, big-endian
    /// order.
    pub fn to_lower_bits_be(&self, k: usize) -> (r: Result<Vec<bool>, Halt>)
        ensures
            match r {
                Ok(bits) => k <= 253 && bits@.len() == k && bits_val(bits@.reverse())
                    == self.value() && self.value() < vstd::arithmetic::power2::pow2(k as nat),
                Err(e) => if k > 253 {
                    e == (Halt::ExcessiveBitWidth { bits: k as u64 })
                } else {
                    self.value() >= vstd::arithmetic::power2::pow2(k as nat) && e == (
                    Halt::UpperBitsNonzero { bits: k as u64 })
                },
            },
    {
        match self.to_lower_bits_le(k) {
            Ok(bits) => {
                let r = crate::identifier::reverse_bits(bits.as_slice());
                proof {
                    assert(r@.reverse() =~= bits@);
                }
                Ok(r)
            },
            Err(e) => Err(e),
        }
    }

    /// The canonical 32 little-endian bytes of this element.
    pub fn to_bytes_le(&self) -> (r: Vec<u8>)
        ensures
            r@.len() == 32,
            bytes_val(r@) == self.value(),
    {
        self.repr.to_bytes_le()
    }

    /// The element whose canonical bytes these are; `None` unless the
    /// bytes read back canonically, below the modulus.
    pub fn from_bytes_le(s: &[u8]) -> (r: Option<Field>)
        requires
            s@.len() == 32,
        ensures
            match r {
                Some(f) => bytes_val(s@) < field_modulus() && f.value() == bytes_val(s@)
                    && f.wf(),
                None => bytes_val(s@) >= field_modulus(),
            },
    {
        Self::from_repr(U256::from_bytes_le(s))
    }

    /// The decimal digits of this element, most significant first; empty
    /// for zero.
    pub fn to_digits(&self) -> (r: Vec<u8>)
        ensures
            dec_val(r@) == self.value(),
            forall|i: int| 0 <= i < r@.len() ==> r@[i] < 10,
            r@.len() > 0 ==> r@[0] != 0,
            self.value() == 0 ==> r@.len() == 0,
    {
        self.repr.to_digits()
    }

    /// The circuit cost of extracting `k` lower bits in the given mode.
    pub fn count(case: &(Mode, u64)) -> (r: Count)
        requires
            case.1 < u64::MAX,
        ensures
            r == (match case.0 {
                Mode::Constant => Count {
                    constants: case.1,
                    public: 0,
                    private: 0,
                    constraints: 0,
                },
                _ => Count {
                    constants: 0,
                    public: 0,
                    private: case.1,
                    constraints: (case.1 + 1) as u64,
                },
            }),
    {
        match case.0 {
            Mode::Constant => Count::is(case.1, 0, 0, 0),
            _ => Count::is(0, 0, case.1, case.1 + 1),
        }
    }

    /// The mode of the extracted bits: constant inputs stay constant,
    /// anything else becomes private.
    pub fn output_mode(case: &Mode) -> (r: Mode)
        ensures
            r == (match case {
                Mode::Constant => Mode::Constant,
                _ => Mode::Private,
            }),
    {
        match case {
            Mode::Constant => Mode::Constant,
            _ => Mode::Private,
        }
    }
}

} // verus!
