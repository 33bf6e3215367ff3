//! Fixed-width 256-bit natural numbers, kept as four 64-bit limbs.
//!
//! The cryptographic element kinds of the value model (field, group and
//! scalar elements) are wider than any machine integer, so their canonical
//! representations are held here. Every operation the instruction core
//! needs — comparison, radix conversion for the textual grammar, byte and
//! bit decomposition for the wire format and for hashing — is verified
//! against the mathematical value of the limbs.
use vstd::prelude::*;

verus! {

/// 2^64, the weight of one limb step.
pub const LIMB_BASE: u128 = 0x1_0000_0000_0000_0000;

/// The number a little-endian bit sequence stands for.
pub open spec fn bits_val(s: Seq<bool>) -> nat
    decreases s.len(),
{
    if s.len() == 0 {
        0
    } else {
        (if s[0] {
            1nat
        } else {
            0nat
        }) + 2 * bits_val(s.skip(1))
    }
}

/// The number a little-endian byte sequence stands for.
pub open spec fn bytes_val(s: Seq<u8>) -> nat
    decreases s.len(),
{
    if s.len() == 0 {
        0
    } else {
        (s[0] as nat) + 256 * bytes_val(s.skip(1))
    }
}

/// The lowest `k` bits of a number, little endian.
pub open spec fn bits_of_nat(x: nat, k: nat) -> Seq<bool>
    decreases k,
{
    if k == 0 {
        Seq::empty()
    } else {
        seq![x % 2 == 1] + bits_of_nat(x / 2, (k - 1) as nat)
    }
}

/// The bits of a byte sequence, each byte little endian, low byte first.
pub open spec fn bytes_to_bits(s: Seq<u8>) -> Seq<bool>
    decreases s.len(),
{
    if s.len() == 0 {
        Seq::empty()
    } else {
        bits_of_nat(s[0] as nat, 8) + bytes_to_bits(s.skip(1))
    }
}

/// `bits_of_nat` has the stated length and stands for its argument when the
/// argument fits.
pub proof fn lemma_bits_of_nat_val(x: nat, k: nat)
    ensures
        bits_of_nat(x, k).len() == k,
        x < vstd::arithmetic::power2::pow2(k) ==> bits_val(bits_of_nat(x, k)) == x,
    decreases k,
{
    if k > 0 {
        lemma_bits_of_nat_val(x / 2, (k - 1) as nat);
        vstd::arithmetic::power2::lemma_pow2_unfold(k);
        assert(bits_of_nat(x, k).skip(1) =~= bits_of_nat(x / 2, (k - 1) as nat));
        if x < vstd::arithmetic::power2::pow2(k) {
            vstd::arithmetic::div_mod::lemma_fundamental_div_mod(x as int, 2);
        }
    } else {
        vstd::arithmetic::power2::lemma2_to64();
    }
}

/// Appending a byte appends its eight bits.
pub proof fn lemma_bytes_to_bits_push(s: Seq<u8>, b: u8)
    ensures
        bytes_to_bits(s.push(b)) =~= bytes_to_bits(s) + bits_of_nat(b as nat, 8),
    decreases s.len(),
{
    lemma_bits_of_nat_val(b as nat, 8);
    if s.len() == 0 {
        assert(s.push(b)[0] == b);
        assert(s =~= Seq::<u8>::empty());
        assert(s.push(b).skip(1) =~= s);
        assert(bytes_to_bits(s.push(b)) == bits_of_nat(b as nat, 8) + bytes_to_bits(s));
        assert(bits_of_nat(b as nat, 8) + bytes_to_bits(s) =~= bytes_to_bits(s) + bits_of_nat(
            b as nat,
            8,
        ));
    } else {
        assert(s.push(b)[0] == s[0]);
        assert(s.push(b).skip(1) =~= s.skip(1).push(b));
        lemma_bytes_to_bits_push(s.skip(1), b);
        lemma_bits_of_nat_val(s[0] as nat, 8);
        assert(bytes_to_bits(s.push(b)) == bits_of_nat(s[0] as nat, 8) + bytes_to_bits(
            s.skip(1).push(b),
        ));
        assert(bits_of_nat(s[0] as nat, 8) + (bytes_to_bits(s.skip(1)) + bits_of_nat(b as nat, 8))
            =~= (bits_of_nat(s[0] as nat, 8) + bytes_to_bits(s.skip(1))) + bits_of_nat(
            b as nat,
            8,
        ));
    }
}

/// The eight bits of one byte, little endian.
pub fn byte_bits_le(b: u8) -> (r: Vec<bool>)
    ensures
        r@ == bits_of_nat(b as nat, 8),
{
    let mut v: Vec<bool> = Vec::new();
    let mut x: u8 = b;
    let mut j: usize = 0;
    while j < 8
        invariant
            j <= 8,
            v@.len() == j,
            v@ + bits_of_nat(x as nat, (8 - j) as nat) =~= bits_of_nat(b as nat, 8),
        decreases 8 - j,
    {
        let ghost pre = v@;
        let ghost xpre = x as nat;
        v.push(x % 2 == 1);
        x = x / 2;
        j = j + 1;
        proof {
            assert(bits_of_nat(xpre, (8 - (j - 1)) as nat) == seq![xpre % 2 == 1]
                + bits_of_nat(xpre / 2, (8 - j) as nat));
            assert(v@ + bits_of_nat(x as nat, (8 - j) as nat) =~= (pre + seq![xpre % 2 == 1])
                + bits_of_nat(xpre / 2, (8 - j) as nat));
            assert((pre + seq![xpre % 2 == 1]) + bits_of_nat(xpre / 2, (8 - j) as nat) =~= pre
                + (seq![xpre % 2 == 1] + bits_of_nat(xpre / 2, (8 - j) as nat)));
        }
    }
    proof {
        lemma_bits_of_nat_val(x as nat, 0);
        assert(v@ + Seq::<bool>::empty() =~= v@);
    }
    v
}

/// The bits of a byte slice, each byte little endian, low byte first.
pub fn bytes_bits_le(s: &[u8]) -> (r: Vec<bool>)
    ensures
        r@ == bytes_to_bits(s@),
        r@.len() == 8 * s@.len(),
{
    let mut v: Vec<bool> = Vec::new();
    let mut i: usize = 0;
    while i < s.len()
        invariant
            i <= s@.len(),
            v@ == bytes_to_bits(s@.take(i as int)),
            v@.len() == 8 * i,
        decreases s@.len() - i,
    {
        let ghost pre = v@;
        let mut bits = byte_bits_le(s[i]);
        let ghost bview = bits@;
        v.append(&mut bits);
        i = i + 1;
        proof {
            lemma_bits_of_nat_val(s@[i - 1] as nat, 8);
            lemma_bytes_to_bits_push(s@.take(i - 1), s@[i - 1]);
            assert(s@.take(i as int) =~= s@.take(i - 1).push(s@[i - 1]));
            assert(v@ =~= bytes_to_bits(s@.take(i as int)));
        }
    }
    proof {
        assert(s@.take(s@.len() as int) =~= s@);
    }
    v
}

/// Bit sequences of one length with one value are the same sequence.
pub proof fn lemma_bits_val_injective(a: Seq<bool>, b: Seq<bool>)
    requires
        a.len() == b.len(),
        bits_val(a) == bits_val(b),
    ensures
        a =~= b,
    decreases a.len(),
{
    if a.len() > 0 {
        vstd::arithmetic::div_mod::lemma_fundamental_div_mod_converse(
            bits_val(a) as int,
            2,
            bits_val(a.skip(1)) as int,
            if a[0] {
                1
            } else {
                0
            },
        );
        vstd::arithmetic::div_mod::lemma_fundamental_div_mod_converse(
            bits_val(b) as int,
            2,
            bits_val(b.skip(1)) as int,
            if b[0] {
                1
            } else {
                0
            },
        );
        lemma_bits_val_injective(a.skip(1), b.skip(1));
        assert forall|i: int| 0 <= i < a.len() implies a[i] == b[i] by {
            if i > 0 {
                assert(a.skip(1)[i - 1] == a[i]);
                assert(b.skip(1)[i - 1] == b[i]);
            }
        }
    }
}

/// The lowest `k` bits of a machine integer, little endian.
pub fn uint_bits_le(x: u128, k: usize) -> (r: Vec<bool>)
    ensures
        r@ == bits_of_nat(x as nat, k as nat),
{
    let mut v: Vec<bool> = Vec::new();
    let mut y: u128 = x;
    let mut j: usize = 0;
    while j < k
        invariant
            j <= k,
            v@.len() == j,
            v@ + bits_of_nat(y as nat, (k - j) as nat) =~= bits_of_nat(x as nat, k as nat),
        decreases k - j,
    {
        let ghost pre = v@;
        let ghost ypre = y as nat;
        v.push(y % 2 == 1);
        y = y / 2;
        j = j + 1;
        proof {
            assert(bits_of_nat(ypre, (k - (j - 1)) as nat) == seq![ypre % 2 == 1]
                + bits_of_nat(ypre / 2, (k - j) as nat));
            assert(v@ + bits_of_nat(y as nat, (k - j) as nat) =~= (pre + seq![ypre % 2 == 1])
                + bits_of_nat(ypre / 2, (k - j) as nat));
            assert((pre + seq![ypre % 2 == 1]) + bits_of_nat(ypre / 2, (k - j) as nat) =~= pre
                + (seq![ypre % 2 == 1] + bits_of_nat(ypre / 2, (k - j) as nat)));
        }
    }
    proof {
        assert(bits_of_nat(y as nat, 0) =~= Seq::<bool>::empty());
        assert(v@ + Seq::<bool>::empty() =~= v@);
    }
    v
}

/// The lowest `k` bytes of a machine integer, little endian.
pub fn uint_bytes_le(x: u128, k: usize) -> (r: Vec<u8>)
    ensures
        r@ == bytes_of_nat(x as nat, k as nat),
{
    let mut v: Vec<u8> = Vec::new();
    let mut y: u128 = x;
    let mut j: usize = 0;
    while j < k
        invariant
            j <= k,
            v@.len() == j,
            v@ + bytes_of_nat(y as nat, (k - j) as nat) =~= bytes_of_nat(x as nat, k as nat),
        decreases k - j,
    {
        let ghost pre = v@;
        let ghost ypre = y as nat;
        v.push((y % 256) as u8);
        y = y / 256;
        j = j + 1;
        proof {
            assert(bytes_of_nat(ypre, (k - (j - 1)) as nat) == seq![(ypre % 256) as u8]
                + bytes_of_nat(ypre / 256, (k - j) as nat));
            assert(v@ + bytes_of_nat(y as nat, (k - j) as nat) =~= (pre + seq![
                (ypre % 256) as u8,
            ]) + bytes_of_nat(ypre / 256, (k - j) as nat));
            assert((pre + seq![(ypre % 256) as u8]) + bytes_of_nat(ypre / 256, (k - j) as nat)
                =~= pre + (seq![(ypre % 256) as u8] + bytes_of_nat(ypre / 256, (k - j) as nat)));
        }
    }
    proof {
        assert(bytes_of_nat(y as nat, 0) =~= Seq::<u8>::empty());
        assert(v@ + Seq::<u8>::empty() =~= v@);
    }
    v
}

/// The little-endian number held in `k` bytes of a slice.
pub fn read_uint_le(s: &[u8], pos: usize, k: usize) -> (r: u128)
    requires
        pos + k <= s@.len(),
        k <= 16,
    ensures
        r as nat == bytes_val(s@.subrange(pos as int, pos + k)),
{
    let total: usize = s.len();
    let mut acc: u128 = 0;
    let mut j: usize = k;
    while j > 0
        invariant
            j <= k,
            pos + k <= total == s@.len(),
            k <= 16,
            acc as nat == bytes_val(s@.subrange(pos + j, pos + k)),
        decreases j,
    {
        j = j - 1;
        proof {
            assert(s@.subrange(pos + j, pos + k)[0] == s@[pos + j]);
            assert(s@.subrange(pos + j, pos + k).skip(1) =~= s@.subrange(pos + j + 1, pos + k));
            lemma_bytes_val_bound(s@.subrange(pos + j + 1, pos + k));
            vstd::arithmetic::power2::lemma2_to64();
            vstd::arithmetic::power2::lemma2_to64_rest();
            vstd::arithmetic::power2::lemma_pow2_adds(64, 56);
            if 8 * (k - j - 1) < 120 {
                vstd::arithmetic::power2::lemma_pow2_strictly_increases(
                    (8 * (k - j - 1)) as nat,
                    120,
                );
            }
        }
        acc = acc * 256 + (s[pos + j] as u128);
    }
    proof {
        assert(s@.subrange(pos + k, pos + k) =~= Seq::<u8>::empty());
    }
    acc
}

/// Whether two byte slices hold the same bytes.
pub fn bytes_eq(a: &[u8], b: &[u8]) -> (r: bool)
    ensures
        r == (a@ == b@),
{
    if a.len() != b.len() {
        proof {
            assert(a@.len() != b@.len());
        }
        return false;
    }
    let mut i: usize = 0;
    while i < a.len()
        invariant
            i <= a@.len(),
            a@.len() == b@.len(),
            forall|j: int| 0 <= j < i ==> a@[j] == b@[j],
        decreases a@.len() - i,
    {
        if a[i] != b[i] {
            return false;
        }
        i = i + 1;
    }
    proof {
        assert(a@ =~= b@);
    }
    true
}

/// The lowest `k` bytes of a number, little endian.
pub open spec fn bytes_of_nat(x: nat, k: nat) -> Seq<u8>
    decreases k,
{
    if k == 0 {
        Seq::empty()
    } else {
        seq![(x % 256) as u8] + bytes_of_nat(x / 256, (k - 1) as nat)
    }
}

/// `bytes_of_nat` has the stated length and stands for its argument when
/// the argument fits.
pub proof fn lemma_bytes_of_nat_val(x: nat, k: nat)
    ensures
        bytes_of_nat(x, k).len() == k,
        x < vstd::arithmetic::power2::pow2(8 * k) ==> bytes_val(bytes_of_nat(x, k)) == x,
    decreases k,
{
    if k > 0 {
        lemma_bytes_of_nat_val(x / 256, (k - 1) as nat);
        vstd::arithmetic::power2::lemma_pow2_adds(8, 8 * (k - 1) as nat);
        vstd::arithmetic::power2::lemma2_to64();
        assert(bytes_of_nat(x, k).skip(1) =~= bytes_of_nat(x / 256, (k - 1) as nat));
        if x < vstd::arithmetic::power2::pow2(8 * k) {
            vstd::arithmetic::div_mod::lemma_fundamental_div_mod(x as int, 256);
            let p1: nat = vstd::arithmetic::power2::pow2(8 * (k - 1) as nat);
            assert(x / 256 < p1) by (nonlinear_arith)
                requires
                    x < 256 * p1,
            ;
        }
    } else {
        vstd::arithmetic::power2::lemma2_to64();
    }
}

/// The number a decimal digit sequence stands for, most significant first.
pub open spec fn dec_val(s: Seq<u8>) -> nat
    decreases s.len(),
{
    if s.len() == 0 {
        0
    } else {
        dec_val(s.drop_last()) * 10 + (s.last() as nat)
    }
}

/// The concrete values of the large powers of two that the limb proofs use.
pub proof fn lemma_pow2_large()
    ensures
        vstd::arithmetic::power2::pow2(8) == 0x100,
        vstd::arithmetic::power2::pow2(64) == 0x1_0000_0000_0000_0000,
        vstd::arithmetic::power2::pow2(128) == 0x1_0000_0000_0000_0000_0000_0000_0000_0000,
        vstd::arithmetic::power2::pow2(192)
            == 0x1_0000_0000_0000_0000_0000_0000_0000_0000_0000_0000_0000_0000,
        vstd::arithmetic::power2::pow2(248)
            == 0x100_0000_0000_0000_0000_0000_0000_0000_0000_0000_0000_0000_0000_0000_0000_0000,
        vstd::arithmetic::power2::pow2(251)
            == 0x800_0000_0000_0000_0000_0000_0000_0000_0000_0000_0000_0000_0000_0000_0000_0000,
        vstd::arithmetic::power2::pow2(252)
            == 0x1000_0000_0000_0000_0000_0000_0000_0000_0000_0000_0000_0000_0000_0000_0000_0000,
        vstd::arithmetic::power2::pow2(253)
            == 0x2000_0000_0000_0000_0000_0000_0000_0000_0000_0000_0000_0000_0000_0000_0000_0000,
        vstd::arithmetic::power2::pow2(256)
            == 0x1_0000_0000_0000_0000_0000_0000_0000_0000_0000_0000_0000_0000_0000_0000_0000_0000,
{
    vstd::arithmetic::power2::lemma2_to64();
    vstd::arithmetic::power2::lemma2_to64_rest();
    vstd::arithmetic::power2::lemma_pow2_adds(64, 64);
    vstd::arithmetic::power2::lemma_pow2_adds(128, 64);
    vstd::arithmetic::power2::lemma_pow2_adds(192, 56);
    vstd::arithmetic::power2::lemma_pow2_adds(192, 59);
    vstd::arithmetic::power2::lemma_pow2_adds(192, 60);
    vstd::arithmetic::power2::lemma_pow2_adds(192, 61);
    vstd::arithmetic::power2::lemma_pow2_adds(192, 64);
}

/// A bit sequence is below two to its length.
pub proof fn lemma_bits_val_bound(s: Seq<bool>)
    ensures
        bits_val(s) < vstd::arithmetic::power2::pow2(s.len()),
    decreases s.len(),
{
    vstd::arithmetic::power2::lemma_pow2_pos(s.len());
    if s.len() > 0 {
        lemma_bits_val_bound(s.skip(1));
        vstd::arithmetic::power2::lemma_pow2_unfold(s.len());
    }
}

/// A byte sequence is below 2^(8 n) for its length n.
pub proof fn lemma_bytes_val_bound(s: Seq<u8>)
    ensures
        bytes_val(s) < vstd::arithmetic::power2::pow2(8 * s.len()),
    decreases s.len(),
{
    vstd::arithmetic::power2::lemma_pow2_pos(8 * s.len());
    if s.len() > 0 {
        lemma_bytes_val_bound(s.skip(1));
        vstd::arithmetic::power2::lemma_pow2_adds(8, 8 * (s.len() - 1) as nat);
        lemma_pow2_large();
        let p: nat = vstd::arithmetic::power2::pow2(8 * (s.len() - 1) as nat);
        assert((s[0] as nat) + 256 * bytes_val(s.skip(1)) < 256 * p) by (nonlinear_arith)
            requires
                bytes_val(s.skip(1)) < p,
                s[0] < 256,
        ;
    }
}

/// Byte sequences of one length with one value are the same sequence.
pub proof fn lemma_bytes_val_injective(a: Seq<u8>, b: Seq<u8>)
    requires
        a.len() == b.len(),
        bytes_val(a) == bytes_val(b),
    ensures
        a =~= b,
    decreases a.len(),
{
    if a.len() > 0 {
        vstd::arithmetic::div_mod::lemma_fundamental_div_mod_converse(
            bytes_val(a) as int,
            256,
            bytes_val(a.skip(1)) as int,
            a[0] as int,
        );
        vstd::arithmetic::div_mod::lemma_fundamental_div_mod_converse(
            bytes_val(b) as int,
            256,
            bytes_val(b.skip(1)) as int,
            b[0] as int,
        );
        lemma_bytes_val_injective(a.skip(1), b.skip(1));
        assert forall|i: int| 0 <= i < a.len() implies a[i] == b[i] by {
            if i > 0 {
                assert(a.skip(1)[i - 1] == a[i]);
                assert(b.skip(1)[i - 1] == b[i]);
            }
        }
    }
}

/// The four limbs of a number below 2^256.
pub open spec fn u256_of_nat(v: nat) -> U256 {
    U256 {
        l0: (v % 0x1_0000_0000_0000_0000) as u64,
        l1: ((v / 0x1_0000_0000_0000_0000) % 0x1_0000_0000_0000_0000) as u64,
        l2: ((v / 0x1_0000_0000_0000_0000_0000_0000_0000_0000nat) % 0x1_0000_0000_0000_0000)
            as u64,
        l3: ((v / 0x1_0000_0000_0000_0000_0000_0000_0000_0000_0000_0000_0000_0000nat)
            % 0x1_0000_0000_0000_0000) as u64,
    }
}

/// `u256_of_nat` stands for its argument when the argument fits, so each
/// value below 2^256 has exactly one limb quadruple.
pub proof fn lemma_u256_of_nat(v: nat)
    requires
        v < 0x1_0000_0000_0000_0000_0000_0000_0000_0000_0000_0000_0000_0000_0000_0000_0000_0000,
    ensures
        u256_of_nat(v).value() == v,
{
    let k: int = 0x1_0000_0000_0000_0000;
    vstd::arithmetic::div_mod::lemma_fundamental_div_mod(v as int, k);
    vstd::arithmetic::div_mod::lemma_fundamental_div_mod(v as int / k, k);
    vstd::arithmetic::div_mod::lemma_fundamental_div_mod(v as int / k / k, k);
    vstd::arithmetic::div_mod::lemma_mod_division_less_than_divisor(v as int, k);
    vstd::arithmetic::div_mod::lemma_mod_division_less_than_divisor(v as int / k, k);
    vstd::arithmetic::div_mod::lemma_mod_division_less_than_divisor(v as int / k / k, k);
    vstd::arithmetic::div_mod::lemma_mod_division_less_than_divisor(v as int / k / k / k, k);
    vstd::arithmetic::div_mod::lemma_div_denominator(v as int, k, k);
    vstd::arithmetic::div_mod::lemma_div_denominator(v as int, k * k, k);
    assert(v as int / k / k / k < k) by (nonlinear_arith)
        requires
            v < k * k * k * k,
            k > 0,
            v as int / k / k / k == v as int / (k * k * k),
    ;
    vstd::arithmetic::div_mod::lemma_small_mod(
        (v as int / k / k / k) as nat,
        k as nat,
    );
}

/// A 256-bit natural number in four little-endian 64-bit limbs.
#[derive(Clone, Copy, PartialEq, Eq, Structural, Debug)]
pub struct U256 {
    pub l0: u64,
    pub l1: u64,
    pub l2: u64,
    pub l3: u64,
}

impl U256 {
    /// The natural number these limbs stand for.
    pub open spec fn value(&self) -> nat {
        (self.l0 as nat) + (self.l1 as nat) * 0x1_0000_0000_0000_0000 + (self.l2 as nat)
            * 0x1_0000_0000_0000_0000_0000_0000_0000_0000 + (self.l3 as nat)
            * 0x1_0000_0000_0000_0000_0000_0000_0000_0000_0000_0000_0000_0000
    }

    pub fn zero() -> (r: U256)
        ensures
            r.value() == 0,
    {
        U256 { l0: 0, l1: 0, l2: 0, l3: 0 }
    }

    pub fn from_u128(x: u128) -> (r: U256)
        ensures
            r.value() == x,
    {
        proof {
            vstd::arithmetic::div_mod::lemma_fundamental_div_mod(
                x as int,
                0x1_0000_0000_0000_0000,
            );
        }
        let lo: u64 = (x % LIMB_BASE) as u64;
        let hi: u64 = (x / LIMB_BASE) as u64;
        U256 { l0: lo, l1: hi, l2: 0, l3: 0 }
    }

    /// Whether this value is zero.
    pub fn is_zero(&self) -> (r: bool)
        ensures
            r == (self.value() == 0),
    {
        self.l0 == 0 && self.l1 == 0 && self.l2 == 0 && self.l3 == 0
    }

    /// Strict comparison by value.
    pub fn lt(&self, other: &U256) -> (r: bool)
        ensures
            r == (self.value() < other.value()),
    {
        if self.l3 != other.l3 {
            self.l3 < other.l3
        } else if self.l2 != other.l2 {
            self.l2 < other.l2
        } else if self.l1 != other.l1 {
            self.l1 < other.l1
        } else {
            self.l0 < other.l0
        }
    }

    /// Multiplies by a small radix and adds one digit: the step that reads a
    /// number whose digits arrive most significant first.
    /// `None` when the result does not fit in 256 bits.
    pub fn mul_small_add(&self, m: u64, d: u64) -> (r: Option<U256>)
        requires
            2 <= m <= 256,
            d < m,
        ensures
            match r {
                Some(v) => v.value() == self.value() * m + d,
                None => self.value() * m + d
                    >= 0x1_0000_0000_0000_0000_0000_0000_0000_0000_0000_0000_0000_0000_0000_0000_0000_0000,
            },
    {
        proof {
            vstd::arithmetic::mul::lemma_mul_upper_bound(
                self.l0 as int,
                0xffff_ffff_ffff_ffff,
                m as int,
                256,
            );
            vstd::arithmetic::mul::lemma_mul_upper_bound(
                self.l1 as int,
                0xffff_ffff_ffff_ffff,
                m as int,
                256,
            );
            vstd::arithmetic::mul::lemma_mul_upper_bound(
                self.l2 as int,
                0xffff_ffff_ffff_ffff,
                m as int,
                256,
            );
            vstd::arithmetic::mul::lemma_mul_upper_bound(
                self.l3 as int,
                0xffff_ffff_ffff_ffff,
                m as int,
                256,
            );
        }
        let t0: u128 = (self.l0 as u128) * (m as u128) + (d as u128);
        proof {
            vstd::arithmetic::div_mod::lemma_mod_division_less_than_divisor(
                t0 as int,
                0x1_0000_0000_0000_0000,
            );
            vstd::arithmetic::div_mod::lemma_multiply_divide_lt(
                t0 as int,
                0x200,
                0x1_0000_0000_0000_0000,
            );
        }
        let n0: u64 = (t0 % LIMB_BASE) as u64;
        let c0: u64 = (t0 / LIMB_BASE) as u64;
        let t1: u128 = (self.l1 as u128) * (m as u128) + (c0 as u128);
        proof {
            vstd::arithmetic::div_mod::lemma_mod_division_less_than_divisor(
                t1 as int,
                0x1_0000_0000_0000_0000,
            );
            vstd::arithmetic::div_mod::lemma_multiply_divide_lt(
                t1 as int,
                0x200,
                0x1_0000_0000_0000_0000,
            );
        }
        let n1: u64 = (t1 % LIMB_BASE) as u64;
        let c1: u64 = (t1 / LIMB_BASE) as u64;
        let t2: u128 = (self.l2 as u128) * (m as u128) + (c1 as u128);
        proof {
            vstd::arithmetic::div_mod::lemma_mod_division_less_than_divisor(
                t2 as int,
                0x1_0000_0000_0000_0000,
            );
            vstd::arithmetic::div_mod::lemma_multiply_divide_lt(
                t2 as int,
                0x200,
                0x1_0000_0000_0000_0000,
            );
        }
        let n2: u64 = (t2 % LIMB_BASE) as u64;
        let c2: u64 = (t2 / LIMB_BASE) as u64;
        let t3: u128 = (self.l3 as u128) * (m as u128) + (c2 as u128);
        proof {
            vstd::arithmetic::div_mod::lemma_mod_division_less_than_divisor(
                t3 as int,
                0x1_0000_0000_0000_0000,
            );
            vstd::arithmetic::div_mod::lemma_multiply_divide_lt(
                t3 as int,
                0x200,
                0x1_0000_0000_0000_0000,
            );
        }
        let n3: u64 = (t3 % LIMB_BASE) as u64;
        let c3: u64 = (t3 / LIMB_BASE) as u64;
        let out = U256 { l0: n0, l1: n1, l2: n2, l3: n3 };
        proof {
            vstd::arithmetic::div_mod::lemma_fundamental_div_mod(
                t0 as int,
                0x1_0000_0000_0000_0000,
            );
            vstd::arithmetic::div_mod::lemma_fundamental_div_mod(
                t1 as int,
                0x1_0000_0000_0000_0000,
            );
            vstd::arithmetic::div_mod::lemma_fundamental_div_mod(
                t2 as int,
                0x1_0000_0000_0000_0000,
            );
            vstd::arithmetic::div_mod::lemma_fundamental_div_mod(
                t3 as int,
                0x1_0000_0000_0000_0000,
            );
            assert(out.value() + (c3 as int)
                * 0x1_0000_0000_0000_0000_0000_0000_0000_0000_0000_0000_0000_0000_0000_0000_0000_0000
                == self.value() * m + d) by (nonlinear_arith)
                requires
                    t0 == (self.l0 as int) * (m as int) + d,
                    t1 == (self.l1 as int) * (m as int) + c0,
                    t2 == (self.l2 as int) * (m as int) + c1,
                    t3 == (self.l3 as int) * (m as int) + c2,
                    t0 == (c0 as int) * 0x1_0000_0000_0000_0000 + n0,
                    t1 == (c1 as int) * 0x1_0000_0000_0000_0000 + n1,
                    t2 == (c2 as int) * 0x1_0000_0000_0000_0000 + n2,
                    t3 == (c3 as int) * 0x1_0000_0000_0000_0000 + n3,
                    out.value() == (n0 as nat) + (n1 as nat) * 0x1_0000_0000_0000_0000 + (n2
                        as nat) * 0x1_0000_0000_0000_0000_0000_0000_0000_0000 + (n3 as nat)
                        * 0x1_0000_0000_0000_0000_0000_0000_0000_0000_0000_0000_0000_0000,
                    self.value() == (self.l0 as nat) + (self.l1 as nat) * 0x1_0000_0000_0000_0000
                        + (self.l2 as nat) * 0x1_0000_0000_0000_0000_0000_0000_0000_0000 + (self.l3
                        as nat)
                        * 0x1_0000_0000_0000_0000_0000_0000_0000_0000_0000_0000_0000_0000,
            ;
        }
        if c3 != 0 {
            None
        } else {
            Some(out)
        }
    }

    /// Divides by a small radix: the step that writes a number out digit by
    /// digit, least significant first.
    pub fn divmod_small(&self, m: u64) -> (r: (U256, u64))
        requires
            2 <= m <= 256,
        ensures
            r.0.value() * m + r.1 == self.value(),
            r.1 < m,
            self.value() > 0 ==> r.0.value() < self.value(),
    {
        let t3: u128 = self.l3 as u128;
        proof {
            vstd::arithmetic::div_mod::lemma_mod_division_less_than_divisor(t3 as int, m as int);
            vstd::arithmetic::div_mod::lemma_multiply_divide_lt(
                t3 as int,
                m as int,
                0x1_0000_0000_0000_0000,
            );
            vstd::arithmetic::div_mod::lemma_fundamental_div_mod(t3 as int, m as int);
        }
        let q3: u64 = (t3 / (m as u128)) as u64;
        let r3: u64 = (t3 % (m as u128)) as u64;
        let t2: u128 = (r3 as u128) * LIMB_BASE + (self.l2 as u128);
        proof {
            vstd::arithmetic::div_mod::lemma_mod_division_less_than_divisor(t2 as int, m as int);
            vstd::arithmetic::div_mod::lemma_multiply_divide_lt(
                t2 as int,
                m as int,
                0x1_0000_0000_0000_0000,
            );
            vstd::arithmetic::div_mod::lemma_fundamental_div_mod(t2 as int, m as int);
        }
        let q2: u64 = (t2 / (m as u128)) as u64;
        let r2: u64 = (t2 % (m as u128)) as u64;
        let t1: u128 = (r2 as u128) * LIMB_BASE + (self.l1 as u128);
        proof {
            vstd::arithmetic::div_mod::lemma_mod_division_less_than_divisor(t1 as int, m as int);
            vstd::arithmetic::div_mod::lemma_multiply_divide_lt(
                t1 as int,
                m as int,
                0x1_0000_0000_0000_0000,
            );
            vstd::arithmetic::div_mod::lemma_fundamental_div_mod(t1 as int, m as int);
        }
        let q1: u64 = (t1 / (m as u128)) as u64;
        let r1: u64 = (t1 % (m as u128)) as u64;
        let t0: u128 = (r1 as u128) * LIMB_BASE + (self.l0 as u128);
        proof {
            vstd::arithmetic::div_mod::lemma_mod_division_less_than_divisor(t0 as int, m as int);
            vstd::arithmetic::div_mod::lemma_multiply_divide_lt(
                t0 as int,
                m as int,
                0x1_0000_0000_0000_0000,
            );
            vstd::arithmetic::div_mod::lemma_fundamental_div_mod(t0 as int, m as int);
        }
        let q0: u64 = (t0 / (m as u128)) as u64;
        let r0: u64 = (t0 % (m as u128)) as u64;
        let out = U256 { l0: q0, l1: q1, l2: q2, l3: q3 };
        proof {
            assert(out.value() * m + r0 == self.value()) by (nonlinear_arith)
                requires
                    t3 == self.l3 as int,
                    t2 == (r3 as int) * 0x1_0000_0000_0000_0000 + self.l2,
                    t1 == (r2 as int) * 0x1_0000_0000_0000_0000 + self.l1,
                    t0 == (r1 as int) * 0x1_0000_0000_0000_0000 + self.l0,
                    t3 == (m as int) * q3 + r3,
                    t2 == (m as int) * q2 + r2,
                    t1 == (m as int) * q1 + r1,
                    t0 == (m as int) * q0 + r0,
                    out.value() == (q0 as nat) + (q1 as nat) * 0x1_0000_0000_0000_0000 + (q2
                        as nat) * 0x1_0000_0000_0000_0000_0000_0000_0000_0000 + (q3 as nat)
                        * 0x1_0000_0000_0000_0000_0000_0000_0000_0000_0000_0000_0000_0000,
                    self.value() == (self.l0 as nat) + (self.l1 as nat) * 0x1_0000_0000_0000_0000
                        + (self.l2 as nat) * 0x1_0000_0000_0000_0000_0000_0000_0000_0000 + (self.l3
                        as nat)
                        * 0x1_0000_0000_0000_0000_0000_0000_0000_0000_0000_0000_0000_0000,
            ;
            assert(self.value() > 0 ==> out.value() < self.value()) by (nonlinear_arith)
                requires
                    out.value() * m + r0 == self.value(),
                    m >= 2,
                    r0 >= 0,
            ;
        }
        (out, r0)
    }

    /// The lowest `k` bits, little endian, together with what is left above
    /// them.
    pub fn to_bits_le(&self, k: usize) -> (r: (Vec<bool>, U256))
        ensures
            r.0@.len() == k,
            self.value() == bits_val(r.0@) + r.1.value() * vstd::arithmetic::power2::pow2(
                k as nat,
            ),
        decreases k,
    {
        if k == 0 {
            proof {
                vstd::arithmetic::power2::lemma2_to64();
                assert(self.value() * 1 == self.value()) by (nonlinear_arith);
            }
            (Vec::new(), *self)
        } else {
            let (q, d) = self.divmod_small(2);
            let (mut rest, left) = q.to_bits_le(k - 1);
            let ghost rest_view = rest@;
            let mut v: Vec<bool> = Vec::new();
            v.push(d == 1);
            v.append(&mut rest);
            proof {
                vstd::arithmetic::power2::lemma_pow2_unfold(k as nat);
                let p1: nat = vstd::arithmetic::power2::pow2((k - 1) as nat);
                assert(left.value() * vstd::arithmetic::power2::pow2(k as nat) == 2 * (
                left.value() * p1)) by (nonlinear_arith)
                    requires
                        vstd::arithmetic::power2::pow2(k as nat) == 2 * p1,
                ;
                assert(v@.skip(1) =~= rest_view);
                assert(bits_val(v@) == (if d == 1 { 1nat } else { 0nat }) + 2 * bits_val(
                    rest_view));
            }
            (v, left)
        }
    }

    /// Rebuilds a value from little-endian bits.
    pub fn from_bits_le(s: &[bool]) -> (r: U256)
        requires
            s@.len() <= 256,
        ensures
            r.value() == bits_val(s@),
    {
        let mut acc = U256::zero();
        let mut i: usize = s.len();
        while i > 0
            invariant
                i <= s@.len() <= 256,
                acc.value() == bits_val(s@.skip(i as int)),
            decreases i,
        {
            i = i - 1;
            let d: u64 = if s[i] {
                1
            } else {
                0
            };
            proof {
                lemma_bits_val_bound(s@.skip(i as int));
                if s@.len() - i < 256 {
                    vstd::arithmetic::power2::lemma_pow2_strictly_increases(
                        (s@.len() - i) as nat,
                        256,
                    );
                }
                lemma_pow2_large();
                assert(s@.skip(i as int)[0] == s@[i as int]);
                assert(s@.skip(i as int).skip(1) =~= s@.skip(i + 1));
            }
            match acc.mul_small_add(2, d) {
                Some(v) => {
                    acc = v;
                },
                None => {
                    return vstd::pervasive::unreached();
                },
            }
        }
        proof {
            assert(s@.skip(0) =~= s@);
        }
        acc
    }

    /// The 32 canonical little-endian bytes of this value.
    pub fn to_bytes_le(&self) -> (r: Vec<u8>)
        ensures
            r@.len() == 32,
            bytes_val(r@) == self.value(),
    {
        let (v, left) = self.to_bytes_rec(32);
        proof {
            lemma_pow2_large();
            if left.value() > 0 {
                assert(left.value() * vstd::arithmetic::power2::pow2(256)
                    >= 0x1_0000_0000_0000_0000_0000_0000_0000_0000_0000_0000_0000_0000_0000_0000_0000_0000)
                    by (nonlinear_arith)
                    requires
                        left.value() >= 1,
                        vstd::arithmetic::power2::pow2(256)
                            == 0x1_0000_0000_0000_0000_0000_0000_0000_0000_0000_0000_0000_0000_0000_0000_0000_0000,
                ;
                assert(false);
            }
            assert(left.value() * vstd::arithmetic::power2::pow2(256) == 0) by (nonlinear_arith)
                requires
                    left.value() == 0,
            ;
        }
        v
    }

    /// The lowest `k` bytes, little endian, with what is left above them.
    fn to_bytes_rec(&self, k: usize) -> (r: (Vec<u8>, U256))
        ensures
            r.0@.len() == k,
            self.value() == bytes_val(r.0@) + r.1.value() * vstd::arithmetic::power2::pow2(
                8 * k as nat,
            ),
        decreases k,
    {
        if k == 0 {
            proof {
                vstd::arithmetic::power2::lemma2_to64();
                assert(self.value() * 1 == self.value()) by (nonlinear_arith);
            }
            (Vec::new(), *self)
        } else {
            let (q, d) = self.divmod_small(256);
            let (mut rest, left) = q.to_bytes_rec(k - 1);
            let ghost rest_view = rest@;
            let mut v: Vec<u8> = Vec::new();
            v.push(d as u8);
            v.append(&mut rest);
            proof {
                vstd::arithmetic::power2::lemma_pow2_adds(8, 8 * (k - 1) as nat);
                lemma_pow2_large();
                let p1: nat = vstd::arithmetic::power2::pow2(8 * (k - 1) as nat);
                assert(left.value() * vstd::arithmetic::power2::pow2(8 * k as nat) == 256 * (
                left.value() * p1)) by (nonlinear_arith)
                    requires
                        vstd::arithmetic::power2::pow2(8 * k as nat) == 256 * p1,
                ;
                assert(v@.skip(1) =~= rest_view);
                assert(bytes_val(v@) == (d as nat) + 256 * bytes_val(rest_view));
            }
            (v, left)
        }
    }

    /// Rebuilds a value from little-endian bytes.
    pub fn from_bytes_le(s: &[u8]) -> (r: U256)
        requires
            s@.len() <= 32,
        ensures
            r.value() == bytes_val(s@),
    {
        let mut acc = U256::zero();
        let mut i: usize = s.len();
        while i > 0
            invariant
                i <= s@.len() <= 32,
                acc.value() == bytes_val(s@.skip(i as int)),
            decreases i,
        {
            i = i - 1;
            let d: u64 = s[i] as u64;
            proof {
                lemma_bytes_val_bound(s@.skip(i as int));
                if 8 * (s@.len() - i) < 256 {
                    vstd::arithmetic::power2::lemma_pow2_strictly_increases(
                        (8 * (s@.len() - i)) as nat,
                        256,
                    );
                }
                lemma_pow2_large();
                assert(s@.skip(i as int)[0] == s@[i as int]);
                assert(s@.skip(i as int).skip(1) =~= s@.skip(i + 1));
            }
            match acc.mul_small_add(256, d) {
                Some(v) => {
                    acc = v;
                },
                None => {
                    return vstd::pervasive::unreached();
                },
            }
        }
        proof {
            assert(s@.skip(0) =~= s@);
        }
        acc
    }

    /// The decimal digits of this value, most significant first; empty for
    /// zero.
    pub fn to_digits(&self) -> (r: Vec<u8>)
        ensures
            dec_val(r@) == self.value(),
            forall|i: int| 0 <= i < r@.len() ==> r@[i] < 10,
            r@.len() > 0 ==> r@[0] != 0,
            self.value() == 0 ==> r@.len() == 0,
        decreases self.value(),
    {
        if self.is_zero() {
            Vec::new()
        } else {
            let (q, d) = self.divmod_small(10);
            let mut v = q.to_digits();
            let ghost pre = v@;
            v.push(d as u8);
            proof {
                assert(v@.drop_last() =~= pre);
            }
            v
        }
    }

    /// The limbs above the lowest, read as one number.
    pub open spec fn upper(&self) -> int {
        (self.l1 as int) + (self.l2 as int) * 0x1_0000_0000_0000_0000 + (self.l3 as int)
            * 0x1_0000_0000_0000_0000_0000_0000_0000_0000
    }

    /// Splits a value into its lowest limb and the rest, by one division.
    proof fn lemma_split_low(x: U256)
        ensures
            x.l0 as int == x.value() as int % 0x1_0000_0000_0000_0000,
            x.upper() == x.value() as int / 0x1_0000_0000_0000_0000,
    {
        assert(x.upper() * 0x1_0000_0000_0000_0000 + (x.l0 as int) == x.value() as int);
        vstd::arithmetic::div_mod::lemma_fundamental_div_mod_converse(
            x.value() as int,
            0x1_0000_0000_0000_0000,
            x.upper(),
            x.l0 as int,
        );
    }

    /// Two limb quadruples with one value are the same quadruple.
    pub proof fn lemma_value_injective(a: U256, b: U256)
        requires
            a.value() == b.value(),
        ensures
            a == b,
    {
        Self::lemma_split_low(a);
        Self::lemma_split_low(b);
        assert(a.l0 == b.l0);
        assert(a.upper() == b.upper());
        vstd::arithmetic::div_mod::lemma_fundamental_div_mod_converse(
            a.upper(),
            0x1_0000_0000_0000_0000,
            (a.l2 as int) + (a.l3 as int) * 0x1_0000_0000_0000_0000,
            a.l1 as int,
        );
        vstd::arithmetic::div_mod::lemma_fundamental_div_mod_converse(
            b.upper(),
            0x1_0000_0000_0000_0000,
            (b.l2 as int) + (b.l3 as int) * 0x1_0000_0000_0000_0000,
            b.l1 as int,
        );
        assert(a.l1 == b.l1);
        vstd::arithmetic::div_mod::lemma_fundamental_div_mod_converse(
            (a.l2 as int) + (a.l3 as int) * 0x1_0000_0000_0000_0000,
            0x1_0000_0000_0000_0000,
            a.l3 as int,
            a.l2 as int,
        );
        vstd::arithmetic::div_mod::lemma_fundamental_div_mod_converse(
            (b.l2 as int) + (b.l3 as int) * 0x1_0000_0000_0000_0000,
            0x1_0000_0000_0000_0000,
            b.l3 as int,
            b.l2 as int,
        );
    }
}

} // verus!
