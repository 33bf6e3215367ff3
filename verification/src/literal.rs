//! The literal value model: a closed tagged union of the value kinds.
//!
//! Every value an instruction reads or writes is a literal of exactly one
//! of these kinds: a boolean, a string, an address, a signed or unsigned
//! integer of one of five widths, or a field, group or scalar element.
//! There is no variant mixing and no implicit widening: a binary
//! operation either matches kinds exactly or fails. Every kind has a
//! canonical little-endian bit representation, which is what the hash
//! instructions absorb.
use vstd::prelude::*;

use crate::field::Field;
use crate::group::Group;
use crate::limbs::{
    bits_of_nat,
    bytes_to_bits,
    bytes_bits_le,
    uint_bits_le,
    lemma_bits_of_nat_val,
    lemma_bits_val_injective,
    lemma_pow2_large,
};
use crate::scalar::Scalar;

verus! {

/// The longest string literal, in bytes.
pub const MAX_STRING_BYTES: usize = 255;

/// The exact length of an address literal, in bytes.
pub const ADDRESS_BYTES: usize = 63;

/// Whether a byte may appear in a string literal: printable ASCII other
/// than the quote and the backslash.
pub open spec fn is_string_byte(b: u8) -> bool {
    32 <= b <= 126 && b != 34 && b != 92
}

/// Well-formed string literal bytes.
pub open spec fn wf_string_bytes(s: Seq<u8>) -> bool {
    s.len() <= 255 && forall|i: int| 0 <= i < s.len() ==> is_string_byte(#[trigger] s[i])
}

/// A string literal.
#[derive(Clone, Debug, PartialEq, Eq)]
pub struct StrLit {
    bytes: Vec<u8>,
}

impl View for StrLit {
    type V = Seq<u8>;

    closed spec fn view(&self) -> Seq<u8> {
        self.bytes@
    }
}

impl StrLit {
    pub open spec fn wf(&self) -> bool {
        wf_string_bytes(self@)
    }

    /// Takes string bytes; `None` unless they are well formed.
    pub fn new(bytes: Vec<u8>) -> (r: Option<StrLit>)
        ensures
            match r {
                Some(s) => s@ == bytes@ && wf_string_bytes(bytes@),
                None => !wf_string_bytes(bytes@),
            },
    {
        if bytes.len() > MAX_STRING_BYTES {
            return None;
        }
        let mut i: usize = 0;
        while i < bytes.len()
            invariant
                i <= bytes@.len(),
                forall|j: int| 0 <= j < i ==> is_string_byte(#[trigger] bytes@[j]),
            decreases bytes@.len() - i,
        {
            let b = bytes[i];
            if !(32 <= b && b <= 126 && b != 34 && b != 92) {
                return None;
            }
            i = i + 1;
        }
        Some(StrLit { bytes })
    }

    pub fn as_bytes(&self) -> (r: &Vec<u8>)
        ensures
            r@ == self@,
    {
        &self.bytes
    }
}

/// Whether a byte may appear in the data part of an address: the base-32
/// alphabet, which leaves out `1`, `b`, `i` and `o`.
pub open spec fn is_address_data_byte(b: u8) -> bool {
    (48 <= b <= 57 && b != 49) || (97 <= b <= 122 && b != 98 && b != 105 && b != 111)
}

/// Well-formed address bytes: `aleo1` and 58 data bytes.
pub open spec fn wf_address_bytes(s: Seq<u8>) -> bool {
    &&& s.len() == 63
    &&& s[0] == 97 && s[1] == 108 && s[2] == 101 && s[3] == 111 && s[4] == 49
    &&& forall|i: int| 5 <= i < 63 ==> is_address_data_byte(#[trigger] s[i])
}

/// An address literal.
#[derive(Clone, Debug, PartialEq, Eq)]
pub struct Address {
    bytes: Vec<u8>,
}

impl View for Address {
    type V = Seq<u8>;

    closed spec fn view(&self) -> Seq<u8> {
        self.bytes@
    }
}

impl Address {
    pub open spec fn wf(&self) -> bool {
        wf_address_bytes(self@)
    }

    /// Takes address bytes; `None` unless they are well formed.
    pub fn new(bytes: Vec<u8>) -> (r: Option<Address>)
        ensures
            match r {
                Some(a) => a@ == bytes@ && wf_address_bytes(bytes@),
                None => !wf_address_bytes(bytes@),
            },
    {
        if bytes.len() != ADDRESS_BYTES {
            return None;
        }
        if !(bytes[0] == 97 && bytes[1] == 108 && bytes[2] == 101 && bytes[3] == 111 && bytes[4]
            == 49) {
            return None;
        }
        let mut i: usize = 5;
        while i < bytes.len()
            invariant
                5 <= i <= bytes@.len() == 63,
                forall|j: int| 5 <= j < i ==> is_address_data_byte(#[trigger] bytes@[j]),
            decreases bytes@.len() - i,
        {
            let b = bytes[i];
            if !((48 <= b && b <= 57 && b != 49) || (97 <= b && b <= 122 && b != 98 && b != 105
                && b != 111)) {
                return None;
            }
            i = i + 1;
        }
        Some(Address { bytes })
    }

    pub fn as_bytes(&self) -> (r: &Vec<u8>)
        ensures
            r@ == self@,
    {
        &self.bytes
    }
}

/// A concrete value of exactly one kind.
#[derive(Clone, Debug, PartialEq, Eq)]
pub enum Literal {
    Boolean(bool),
    Str(StrLit),
    Address(Address),
    I8(i8),
    I16(i16),
    I32(i32),
    I64(i64),
    I128(i128),
    U8(u8),
    U16(u16),
    U32(u32),
    U64(u64),
    U128(u128),
    Field(Field),
    Group(Group),
    Scalar(Scalar),
}

/// The canonical little-endian bits of a literal: the bare boolean bit,
/// the two's-complement bits of an integer at its width, the canonical
/// bits of a field, group or scalar element, or the byte bits of a
/// string or address.
pub open spec fn literal_bits(l: Literal) -> Seq<bool> {
    match l {
        Literal::Boolean(b) => seq![b],
        Literal::Str(s) => bytes_to_bits(s@),
        Literal::Address(a) => bytes_to_bits(a@),
        Literal::I8(x) => bits_of_nat(((x as int) % 0x100) as nat, 8),
        Literal::I16(x) => bits_of_nat(((x as int) % 0x1_0000) as nat, 16),
        Literal::I32(x) => bits_of_nat(((x as int) % 0x1_0000_0000) as nat, 32),
        Literal::I64(x) => bits_of_nat(((x as int) % 0x1_0000_0000_0000_0000int) as nat, 64),
        Literal::I128(x) => bits_of_nat(
            ((x as int) % 0x1_0000_0000_0000_0000_0000_0000_0000_0000int) as nat,
            128,
        ),
        Literal::U8(x) => bits_of_nat(x as nat, 8),
        Literal::U16(x) => bits_of_nat(x as nat, 16),
        Literal::U32(x) => bits_of_nat(x as nat, 32),
        Literal::U64(x) => bits_of_nat(x as nat, 64),
        Literal::U128(x) => bits_of_nat(x as nat, 128),
        Literal::Field(f) => bits_of_nat(f.value(), 253),
        Literal::Group(g) => bits_of_nat(g.value(), 253),
        Literal::Scalar(s) => bits_of_nat(s.value(), 251),
    }
}

/// The euclidean remainder of a value in a symmetric range: the value
/// itself when nonnegative, the value shifted up by the modulus when
/// negative.
pub proof fn lemma_twos_complement(x: int, m: int)
    requires
        m > 0,
        -m <= x < m,
    ensures
        x >= 0 ==> x % m == x,
        x < 0 ==> x % m == x + m,
{
    if x >= 0 {
        vstd::arithmetic::div_mod::lemma_small_mod(x as nat, m as nat);
    } else {
        vstd::arithmetic::div_mod::lemma_mod_add_multiples_vanish(x, m);
        vstd::arithmetic::div_mod::lemma_small_mod((x + m) as nat, m as nat);
    }
}

impl Literal {
    /// A well-formed literal: its cryptographic elements are canonical
    /// and its text kinds hold well-formed bytes.
    pub open spec fn wf(&self) -> bool {
        match *self {
            Literal::Str(s) => s.wf(),
            Literal::Address(a) => a.wf(),
            Literal::Field(f) => f.wf(),
            Literal::Group(g) => g.wf(),
            Literal::Scalar(s) => s.wf(),
            _ => true,
        }
    }

    /// The canonical little-endian bits of this literal.
    pub fn to_bits_le(&self) -> (r: Vec<bool>)
        requires
            self.wf(),
        ensures
            r@ == literal_bits(*self),
    {
        match self {
            Literal::Boolean(b) => {
                let mut v: Vec<bool> = Vec::new();
                v.push(*b);
                proof {
                    assert(v@ =~= literal_bits(*self));
                }
                v
            },
            Literal::Str(s) => bytes_bits_le(s.as_bytes().as_slice()),
            Literal::Address(a) => bytes_bits_le(a.as_bytes().as_slice()),
            Literal::I8(x) => {
                let u: u8 = if *x >= 0 {
                    *x as u8
                } else {
                    ((*x - i8::MIN) as u8) + 0x80
                };
                proof {
                    lemma_twos_complement(*x as int, 0x100);
                }
                uint_bits_le(u as u128, 8)
            },
            Literal::I16(x) => {
                let u: u16 = if *x >= 0 {
                    *x as u16
                } else {
                    ((*x - i16::MIN) as u16) + 0x8000
                };
                proof {
                    lemma_twos_complement(*x as int, 0x1_0000);
                }
                uint_bits_le(u as u128, 16)
            },
            Literal::I32(x) => {
                let u: u32 = if *x >= 0 {
                    *x as u32
                } else {
                    ((*x - i32::MIN) as u32) + 0x8000_0000
                };
                proof {
                    lemma_twos_complement(*x as int, 0x1_0000_0000);
                }
                uint_bits_le(u as u128, 32)
            },
            Literal::I64(x) => {
                let u: u64 = if *x >= 0 {
                    *x as u64
                } else {
                    ((*x - i64::MIN) as u64) + 0x8000_0000_0000_0000
                };
                proof {
                    lemma_twos_complement(*x as int, 0x1_0000_0000_0000_0000int);
                }
                uint_bits_le(u as u128, 64)
            },
            Literal::I128(x) => {
                let u: u128 = if *x >= 0 {
                    *x as u128
                } else {
                    ((*x - i128::MIN) as u128) + 0x8000_0000_0000_0000_0000_0000_0000_0000
                };
                proof {
                    lemma_twos_complement(
                        *x as int,
                        0x1_0000_0000_0000_0000_0000_0000_0000_0000int,
                    );
                }
                uint_bits_le(u, 128)
            },
            Literal::U8(x) => uint_bits_le(*x as u128, 8),
            Literal::U16(x) => uint_bits_le(*x as u128, 16),
            Literal::U32(x) => uint_bits_le(*x as u128, 32),
            Literal::U64(x) => uint_bits_le(*x as u128, 64),
            Literal::U128(x) => uint_bits_le(*x, 128),
            Literal::Field(f) => {
                let bits = f.to_bits_le();
                proof {
                    lemma_pow2_large();
                    lemma_bits_of_nat_val(f.value(), 253);
                    lemma_bits_val_injective(bits@, bits_of_nat(f.value(), 253));
                }
                bits
            },
            Literal::Group(g) => {
                let bits = g.to_bits_le();
                proof {
                    lemma_pow2_large();
                    lemma_bits_of_nat_val(g.value(), 253);
                    lemma_bits_val_injective(bits@, bits_of_nat(g.value(), 253));
                }
                bits
            },
            Literal::Scalar(s) => {
                let bits = s.to_bits_le();
                proof {
                    lemma_pow2_large();
                    lemma_bits_of_nat_val(s.value(), 251);
                    lemma_bits_val_injective(bits@, bits_of_nat(s.value(), 251));
                }
                bits
            },
        }
    }
}

} // verus!
