//! Identifiers: the names of composites and of their members.
//!
//! An identifier is a short ASCII name — a lowercase letter followed by
//! lowercase letters, digits or underscores — of at most 31 bytes, the
//! data capacity of one field element. Identifiers travel through
//! circuits as bit patterns, so recovering one from little-endian or
//! big-endian bits, with the capacity and well-formedness checks that
//! recovery owes, is part of the model.
use vstd::prelude::*;

use crate::errors::Halt;
use crate::limbs::{bits_val, bytes_to_bits, bytes_bits_le, lemma_bits_val_bound};

verus! {

/// The greatest number of bytes an identifier may hold: the data capacity
/// of a field element, rounded down to whole bytes.
pub const MAX_IDENTIFIER_BYTES: usize = 31;

/// Whether a byte may begin an identifier: a lowercase ASCII letter.
pub open spec fn is_ident_start(b: u8) -> bool {
    97 <= b <= 122
}

/// Whether a byte may appear in an identifier: a lowercase ASCII letter,
/// a digit, or an underscore.
pub open spec fn is_ident_byte(b: u8) -> bool {
    is_ident_start(b) || (48 <= b <= 57) || b == 95
}

/// A well-formed identifier: nonempty, within capacity, and made of
/// identifier bytes starting with a letter.
pub open spec fn wf_ident_bytes(s: Seq<u8>) -> bool {
    &&& 1 <= s.len() <= 31
    &&& is_ident_start(s[0])
    &&& forall|i: int| 0 <= i < s.len() ==> is_ident_byte(#[trigger] s[i])
}

/// The bytes a little-endian bit pattern packs into, low byte first; a
/// final chunk shorter than eight bits fills the high byte positions
/// with zeros.
pub open spec fn packed_bytes(bits: Seq<bool>) -> Seq<u8>
    decreases bits.len(),
{
    if bits.len() == 0 {
        Seq::empty()
    } else {
        let k: int = if bits.len() < 8 {
            bits.len() as int
        } else {
            8
        };
        seq![bits_val(bits.take(k)) as u8] + packed_bytes(bits.skip(k))
    }
}

/// A byte sequence with its trailing zero bytes removed.
pub open spec fn strip_zero_bytes(s: Seq<u8>) -> Seq<u8>
    decreases s.len(),
{
    if s.len() > 0 && s.last() == 0 {
        strip_zero_bytes(s.drop_last())
    } else {
        s
    }
}

/// What recovering an identifier from little-endian bits yields: the
/// packed name bytes after zero padding is stripped, or the failure the
/// recovery owes — capacity exceeded, or no well-formed name.
pub open spec fn ident_of_bits(bits: Seq<bool>) -> Result<Seq<u8>, Halt> {
    if bits.len() > 253 {
        Err(Halt::IdentifierTooLarge)
    } else {
        let t = strip_zero_bytes(packed_bytes(bits));
        if t.len() > 31 {
            Err(Halt::IdentifierTooLarge)
        } else if !wf_ident_bytes(t) {
            Err(Halt::MalformedIdentifier)
        } else {
            Ok(t)
        }
    }
}

/// A name of a composite value or of one of its members.
#[derive(Debug, PartialEq, Eq)]
pub struct Identifier {
    bytes: Vec<u8>,
}

impl Clone for Identifier {
    /// A clone carries the same name.
    fn clone(&self) -> (r: Self)
        ensures
            r@ == self@,
    {
        let mut bytes: Vec<u8> = Vec::new();
        let mut i: usize = 0;
        while i < self.bytes.len()
            invariant
                i <= self.bytes@.len(),
                bytes@ == self.bytes@.take(i as int),
            decreases self.bytes@.len() - i,
        {
            bytes.push(self.bytes[i]);
            i = i + 1;
            proof {
                assert(bytes@ =~= self.bytes@.take(i as int));
            }
        }
        proof {
            assert(self.bytes@.take(self.bytes@.len() as int) =~= self.bytes@);
        }
        Identifier { bytes }
    }
}

impl View for Identifier {
    type V = Seq<u8>;

    closed spec fn view(&self) -> Seq<u8> {
        self.bytes@
    }
}

/// Whether a byte may begin an identifier.
pub fn ident_start(b: u8) -> (r: bool)
    ensures
        r == is_ident_start(b),
{
    97 <= b && b <= 122
}

/// Whether a byte may appear in an identifier.
pub fn ident_byte(b: u8) -> (r: bool)
    ensures
        r == is_ident_byte(b),
{
    ident_start(b) || (48 <= b && b <= 57) || b == 95
}

/// Whether a byte slice is a well-formed identifier name.
pub fn check_ident_bytes(s: &[u8]) -> (r: bool)
    ensures
        r == wf_ident_bytes(s@),
{
    if s.len() < 1 || s.len() > MAX_IDENTIFIER_BYTES {
        return false;
    }
    if !ident_start(s[0]) {
        return false;
    }
    let mut i: usize = 0;
    while i < s.len()
        invariant
            i <= s@.len(),
            forall|j: int| 0 <= j < i ==> is_ident_byte(#[trigger] s@[j]),
        decreases s@.len() - i,
    {
        if !ident_byte(s[i]) {
            return false;
        }
        i = i + 1;
    }
    true
}

impl Identifier {
    /// A well-formed identifier.
    pub open spec fn wf(&self) -> bool {
        wf_ident_bytes(self@)
    }

    /// Takes a name as bytes; `None` unless it is well formed.
    pub fn new(bytes: Vec<u8>) -> (r: Option<Identifier>)
        ensures
            match r {
                Some(id) => id@ == bytes@ && wf_ident_bytes(bytes@),
                None => !wf_ident_bytes(bytes@),
            },
    {
        if check_ident_bytes(bytes.as_slice()) {
            Some(Identifier { bytes })
        } else {
            None
        }
    }

    /// The name bytes.
    pub fn as_bytes(&self) -> (r: &Vec<u8>)
        ensures
            r@ == self@,
    {
        &self.bytes
    }

    /// Whether two identifiers carry one name.
    pub fn name_equals(&self, other: &Identifier) -> (r: bool)
        ensures
            r == (self@ == other@),
    {
        crate::limbs::bytes_eq(self.bytes.as_slice(), other.bytes.as_slice())
    }

    /// The name as little-endian bits, low byte first.
    pub fn to_bits_le(&self) -> (r: Vec<bool>)
        ensures
            r@ == bytes_to_bits(self@),
    {
        bytes_bits_le(self.bytes.as_slice())
    }

    /// The name as bits in the reverse, big-endian order.
    pub fn to_bits_be(&self) -> (r: Vec<bool>)
        ensures
            r@ == bytes_to_bits(self@).reverse(),
    {
        let bits = self.to_bits_le();
        reverse_bits(bits.as_slice())
    }

    /// Recovers an identifier from little-endian bits: packs them into
    /// bytes, strips the zero padding, and demands a well-formed name
    /// within the field capacity.
    pub fn from_bits_le(bits: &[bool]) -> (r: Result<Identifier, Halt>)
        ensures
            match (r, ident_of_bits(bits@)) {
                (Ok(id), Ok(t)) => id@ == t && id.wf(),
                (Err(e), Err(f)) => e == f,
                _ => false,
            },
    {
        if bits.len() > 253 {
            return Err(Halt::IdentifierTooLarge);
        }
        let mut bytes: Vec<u8> = Vec::new();
        let mut i: usize = 0;
        proof {
            assert(bits@.skip(0) =~= bits@);
            assert(Seq::<u8>::empty() + packed_bytes(bits@) =~= packed_bytes(bits@));
        }
        while i < bits.len()
            invariant
                i <= bits@.len() <= 253,
                packed_bytes(bits@) =~= bytes@ + packed_bytes(bits@.skip(i as int)),
            decreases bits@.len() - i,
        {
            let end: usize = if bits.len() - i < 8 {
                bits.len()
            } else {
                i + 8
            };
            let mut acc: u64 = 0;
            let mut j: usize = end;
            while j > i
                invariant
                    i <= j <= end,
                    end <= bits@.len(),
                    end - i <= 8,
                    acc == bits_val(bits@.subrange(j as int, end as int)),
                    acc < 256,
                decreases j,
            {
                j = j - 1;
                let b: u64 = if bits[j] {
                    1
                } else {
                    0
                };
                proof {
                    assert(bits@.subrange(j as int, end as int)[0] == bits@[j as int]);
                    assert(bits@.subrange(j as int, end as int).skip(1) =~= bits@.subrange(
                        j + 1,
                        end as int,
                    ));
                    lemma_bits_val_bound(bits@.subrange(j as int, end as int));
                    if end - j < 8 {
                        vstd::arithmetic::power2::lemma_pow2_strictly_increases(
                            (end - j) as nat,
                            8,
                        );
                    }
                    vstd::arithmetic::power2::lemma2_to64();
                }
                acc = acc * 2 + b;
            }
            let ghost pre = bytes@;
            bytes.push(acc as u8);
            proof {
                let k: int = if bits@.len() - i < 8 {
                    bits@.len() - i
                } else {
                    8
                };
                assert(bits@.skip(i as int).take(k) =~= bits@.subrange(i as int, end as int));
                assert(bits@.skip(i as int).skip(k) =~= bits@.skip(end as int));
                assert(packed_bytes(bits@.skip(i as int)) == seq![
                    bits_val(bits@.subrange(i as int, end as int)) as u8,
                ] + packed_bytes(bits@.skip(end as int)));
                assert(bytes@ =~= pre + seq![acc as u8]);
                assert((pre + seq![acc as u8]) + packed_bytes(bits@.skip(end as int)) =~= pre + (
                seq![acc as u8] + packed_bytes(bits@.skip(end as int))));
            }
            i = end;
        }
        proof {
            assert(bits@.skip(bits@.len() as int) =~= Seq::<bool>::empty());
            assert(bytes@ + Seq::<u8>::empty() =~= bytes@);
            assert(bytes@ =~= packed_bytes(bits@));
        }
        while bytes.len() > 0 && bytes[bytes.len() - 1] == 0
            invariant
                strip_zero_bytes(bytes@) == strip_zero_bytes(packed_bytes(bits@)),
            decreases bytes@.len(),
        {
            let ghost pre = bytes@;
            bytes.pop();
            proof {
                assert(bytes@ =~= pre.drop_last());
            }
        }
        if bytes.len() > MAX_IDENTIFIER_BYTES {
            return Err(Halt::IdentifierTooLarge);
        }
        if check_ident_bytes(bytes.as_slice()) {
            Ok(Identifier { bytes })
        } else {
            Err(Halt::MalformedIdentifier)
        }
    }

    /// Recovers an identifier from big-endian bits by reversing them
    /// first.
    pub fn from_bits_be(bits: &[bool]) -> (r: Result<Identifier, Halt>)
        ensures
            match (r, ident_of_bits(bits@.reverse())) {
                (Ok(id), Ok(t)) => id@ == t && id.wf(),
                (Err(e), Err(f)) => e == f,
                _ => false,
            },
    {
        let le = reverse_bits(bits);
        Self::from_bits_le(le.as_slice())
    }
}

/// The bits of a slice in reverse order.
pub fn reverse_bits(bits: &[bool]) -> (r: Vec<bool>)
    ensures
        r@ == bits@.reverse(),
{
    let mut v: Vec<bool> = Vec::new();
    let mut i: usize = bits.len();
    while i > 0
        invariant
            i <= bits@.len(),
            v@.len() == bits@.len() - i,
            forall|j: int| 0 <= j < v@.len() ==> v@[j] == bits@[bits@.len() - 1 - j],
        decreases i,
    {
        i = i - 1;
        v.push(bits[i]);
    }
    proof {
        assert(v@ =~= bits@.reverse());
    }
    v
}

} // verus!
