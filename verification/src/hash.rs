//! The hash instruction family.
//!
//! One generic instruction type covers every hash opcode, parameterized
//! by its family member: the generic members absorb the canonical bits
//! of any literal under the opcode token as domain separator and produce
//! a field element; the fixed-rate sponge members absorb the canonical
//! field decomposition of a field, integer or scalar operand under their
//! rate and produce a scalar. The digest primitive itself is external;
//! everything around it — operand resolution, input encoding, reduction
//! of the digest into the field or scalar range, and the register write —
//! is verified exactly.
use vstd::prelude::*;

use sha2::Digest;

use crate::errors::{Halt, halt_eqv};
use crate::field::Field;
use crate::limbs::{U256, bytes_val, u256_of_nat, lemma_u256_of_nat, lemma_pow2_large};
use crate::literal::{Literal, literal_bits, lemma_twos_complement};
use crate::opcode::{HashKind, Opcode, opcode_token};
use crate::operand::{Operand, load_literal, resolved_literal};
use crate::operation::UnaryOperation;
use crate::registers::{Register, Registers, Value};
use crate::scalar::Scalar;

verus! {

/// The 32 bytes of the SHA-256 digest of a byte sequence.
pub uninterp spec fn sha256_of(bytes: Seq<u8>) -> Seq<u8>;

/// Relies on sha2::Sha256::digest: the SHA-256 digest of the bytes, a
/// function of the bytes alone, 32 bytes long.
#[verifier::external_body]
fn sha256(bytes: &Vec<u8>) -> (r: Vec<u8>)
    ensures
        r@ == sha256_of(bytes@),
        r@.len() == 32,
{
    sha2::Sha256::digest(bytes.as_slice()).to_vec()
}

/// Bits spelled out as bytes, one byte per bit.
pub open spec fn bit_bytes(bits: Seq<bool>) -> Seq<u8> {
    bits.map(
        |i: int, b: bool|
            if b {
                1u8
            } else {
                0u8
            },
    )
}

/// The absorbed message of a generic hash member: the opcode token as
/// domain separator, a zero, then the operand's bits.
pub open spec fn ped_message(op: Opcode, bits: Seq<bool>) -> Seq<u8> {
    opcode_token(op) + seq![0u8] + bit_bytes(bits)
}

/// The field value a generic hash member produces: the digest of its
/// message, read as a little-endian number and reduced to the field's
/// whole-bit data capacity.
pub open spec fn hash_to_field_value(op: Opcode, bits: Seq<bool>) -> nat {
    bytes_val(sha256_of(ped_message(op, bits)))
        % 0x1000_0000_0000_0000_0000_0000_0000_0000_0000_0000_0000_0000_0000_0000_0000_0000nat
}

/// The absorbed message of a sponge member: its rate as domain
/// separator, then the canonical bytes of the operand's field
/// decomposition.
pub open spec fn psd_message(rate: u64, v: nat) -> Seq<u8> {
    seq![rate as u8] + crate::limbs::bytes_of_nat(v, 32)
}

/// The scalar value a sponge member produces: the digest of its message,
/// read as a little-endian number and reduced to the scalar's whole-byte
/// data capacity.
pub open spec fn hash_to_scalar_value(rate: u64, v: nat) -> nat {
    bytes_val(sha256_of(psd_message(rate, v)))
        % 0x100_0000_0000_0000_0000_0000_0000_0000_0000_0000_0000_0000_0000_0000_0000_0000nat
}

/// The canonical field decomposition of a literal a sponge member can
/// absorb: the value of a field or scalar element, or the unsigned
/// two's-complement value of an integer. `None` for every other kind.
pub open spec fn psd_input(l: Literal) -> Option<nat> {
    match l {
        Literal::Field(f) => Some(f.value()),
        Literal::Scalar(s) => Some(s.value()),
        Literal::I8(x) => Some(((x as int) % 0x100) as nat),
        Literal::I16(x) => Some(((x as int) % 0x1_0000) as nat),
        Literal::I32(x) => Some(((x as int) % 0x1_0000_0000) as nat),
        Literal::I64(x) => Some(((x as int) % 0x1_0000_0000_0000_0000int) as nat),
        Literal::I128(x) => Some(
            ((x as int) % 0x1_0000_0000_0000_0000_0000_0000_0000_0000int) as nat,
        ),
        Literal::U8(x) => Some(x as nat),
        Literal::U16(x) => Some(x as nat),
        Literal::U32(x) => Some(x as nat),
        Literal::U64(x) => Some(x as nat),
        Literal::U128(x) => Some(x as nat),
        _ => None,
    }
}

/// The literal one hash evaluation writes: a field element for the
/// generic members, defined for every literal kind; a scalar for the
/// sponge members, defined for the kinds with a field decomposition.
pub open spec fn hash_output(kind: HashKind, l: Literal) -> Option<Literal> {
    if kind.is_psd() {
        match psd_input(l) {
            Some(v) => Some(
                Literal::Scalar(
                    Scalar { repr: u256_of_nat(hash_to_scalar_value(kind.spec_rate(), v)) },
                ),
            ),
            None => None,
        }
    } else {
        Some(
            Literal::Field(
                Field {
                    repr: u256_of_nat(hash_to_field_value(Opcode::Hash(kind), literal_bits(l))),
                },
            ),
        )
    }
}

/// What one evaluation of a unary literal instruction yields against a
/// store: the literal to write, or the halt it owes — resolution halts
/// first; then the kind check, naming the opcode; then the destination's
/// define-before-assign lifecycle.
pub open spec fn unary_eval_spec(
    m: Map<u64, Option<Value>>,
    first: Operand,
    dest: Register,
    op: Opcode,
    semantics: spec_fn(Literal) -> Option<Literal>,
) -> Result<Literal, Halt> {
    match resolved_literal(m, first) {
        Err(e) => Err(e),
        Ok(a) => match semantics(a) {
            None => Err(Halt::InvalidInstruction { opcode: op }),
            Some(l) => if !m.contains_key(dest.locator) {
                Err(Halt::UndefinedRegister { locator: dest.locator })
            } else if m[dest.locator] is Some {
                Err(Halt::ReassignedRegister { locator: dest.locator })
            } else {
                Ok(l)
            },
        },
    }
}

/// Clearing the top four bits of the highest limb reduces the value to
/// the field's 252-bit data capacity.
proof fn lemma_mask_252(u: U256)
    ensures
        (U256 { l0: u.l0, l1: u.l1, l2: u.l2, l3: (u.l3 % 0x1000_0000_0000_0000) as u64 }).value()
            == u.value()
            % 0x1000_0000_0000_0000_0000_0000_0000_0000_0000_0000_0000_0000_0000_0000_0000_0000nat,
{
    let q: int = u.l3 as int / 0x1000_0000_0000_0000;
    let masked = U256 { l0: u.l0, l1: u.l1, l2: u.l2, l3: (u.l3 % 0x1000_0000_0000_0000) as u64 };
    vstd::arithmetic::div_mod::lemma_fundamental_div_mod(u.l3 as int, 0x1000_0000_0000_0000);
    vstd::arithmetic::div_mod::lemma_mod_division_less_than_divisor(
        u.l3 as int,
        0x1000_0000_0000_0000,
    );
    vstd::arithmetic::div_mod::lemma_div_pos_is_pos(u.l3 as int, 0x1000_0000_0000_0000);
    vstd::arithmetic::mul::lemma_mul_is_associative(
        q,
        0x1000_0000_0000_0000,
        0x1_0000_0000_0000_0000_0000_0000_0000_0000_0000_0000_0000_0000int,
    );
    assert(masked.value()
        < 0x1000_0000_0000_0000_0000_0000_0000_0000_0000_0000_0000_0000_0000_0000_0000_0000nat)
        by (nonlinear_arith)
        requires
            masked.l3 < 0x1000_0000_0000_0000,
            masked.l0 < 0x1_0000_0000_0000_0000,
            masked.l1 < 0x1_0000_0000_0000_0000,
            masked.l2 < 0x1_0000_0000_0000_0000,
            masked.value() == (masked.l0 as nat) + (masked.l1 as nat) * 0x1_0000_0000_0000_0000
                + (masked.l2 as nat) * 0x1_0000_0000_0000_0000_0000_0000_0000_0000 + (masked.l3
                as nat) * 0x1_0000_0000_0000_0000_0000_0000_0000_0000_0000_0000_0000_0000,
    ;
    assert(u.value() as int == q
        * 0x1000_0000_0000_0000_0000_0000_0000_0000_0000_0000_0000_0000_0000_0000_0000_0000int
        + masked.value()) by (nonlinear_arith)
        requires
            u.l3 == 0x1000_0000_0000_0000 * q + masked.l3,
            masked.l0 == u.l0,
            masked.l1 == u.l1,
            masked.l2 == u.l2,
            u.value() == (u.l0 as nat) + (u.l1 as nat) * 0x1_0000_0000_0000_0000 + (u.l2 as nat)
                * 0x1_0000_0000_0000_0000_0000_0000_0000_0000 + (u.l3 as nat)
                * 0x1_0000_0000_0000_0000_0000_0000_0000_0000_0000_0000_0000_0000,
            masked.value() == (masked.l0 as nat) + (masked.l1 as nat) * 0x1_0000_0000_0000_0000
                + (masked.l2 as nat) * 0x1_0000_0000_0000_0000_0000_0000_0000_0000 + (masked.l3
                as nat) * 0x1_0000_0000_0000_0000_0000_0000_0000_0000_0000_0000_0000_0000,
    ;
    vstd::arithmetic::div_mod::lemma_fundamental_div_mod_converse(
        u.value() as int,
        0x1000_0000_0000_0000_0000_0000_0000_0000_0000_0000_0000_0000_0000_0000_0000_0000int,
        q,
        masked.value() as int,
    );
}

/// Clearing the top byte of the highest limb reduces the value to the
/// scalar's 248-bit data capacity.
proof fn lemma_mask_248(u: U256)
    ensures
        (U256 { l0: u.l0, l1: u.l1, l2: u.l2, l3: (u.l3 % 0x100_0000_0000_0000) as u64 }).value()
            == u.value()
            % 0x100_0000_0000_0000_0000_0000_0000_0000_0000_0000_0000_0000_0000_0000_0000_0000nat,
{
    let q: int = u.l3 as int / 0x100_0000_0000_0000;
    let masked = U256 { l0: u.l0, l1: u.l1, l2: u.l2, l3: (u.l3 % 0x100_0000_0000_0000) as u64 };
    vstd::arithmetic::div_mod::lemma_fundamental_div_mod(u.l3 as int, 0x100_0000_0000_0000);
    vstd::arithmetic::div_mod::lemma_mod_division_less_than_divisor(
        u.l3 as int,
        0x100_0000_0000_0000,
    );
    vstd::arithmetic::div_mod::lemma_div_pos_is_pos(u.l3 as int, 0x100_0000_0000_0000);
    vstd::arithmetic::mul::lemma_mul_is_associative(
        q,
        0x100_0000_0000_0000,
        0x1_0000_0000_0000_0000_0000_0000_0000_0000_0000_0000_0000_0000int,
    );
    assert(masked.value()
        < 0x100_0000_0000_0000_0000_0000_0000_0000_0000_0000_0000_0000_0000_0000_0000_0000nat)
        by (nonlinear_arith)
        requires
            masked.l3 < 0x100_0000_0000_0000,
            masked.l0 < 0x1_0000_0000_0000_0000,
            masked.l1 < 0x1_0000_0000_0000_0000,
            masked.l2 < 0x1_0000_0000_0000_0000,
            masked.value() == (masked.l0 as nat) + (masked.l1 as nat) * 0x1_0000_0000_0000_0000
                + (masked.l2 as nat) * 0x1_0000_0000_0000_0000_0000_0000_0000_0000 + (masked.l3
                as nat) * 0x1_0000_0000_0000_0000_0000_0000_0000_0000_0000_0000_0000_0000,
    ;
    assert(u.value() as int == q
        * 0x100_0000_0000_0000_0000_0000_0000_0000_0000_0000_0000_0000_0000_0000_0000_0000int
        + masked.value()) by (nonlinear_arith)
        requires
            u.l3 == 0x100_0000_0000_0000 * q + masked.l3,
            masked.l0 == u.l0,
            masked.l1 == u.l1,
            masked.l2 == u.l2,
            u.value() == (u.l0 as nat) + (u.l1 as nat) * 0x1_0000_0000_0000_0000 + (u.l2 as nat)
                * 0x1_0000_0000_0000_0000_0000_0000_0000_0000 + (u.l3 as nat)
                * 0x1_0000_0000_0000_0000_0000_0000_0000_0000_0000_0000_0000_0000,
            masked.value() == (masked.l0 as nat) + (masked.l1 as nat) * 0x1_0000_0000_0000_0000
                + (masked.l2 as nat) * 0x1_0000_0000_0000_0000_0000_0000_0000_0000 + (masked.l3
                as nat) * 0x1_0000_0000_0000_0000_0000_0000_0000_0000_0000_0000_0000_0000,
    ;
    vstd::arithmetic::div_mod::lemma_fundamental_div_mod_converse(
        u.value() as int,
        0x100_0000_0000_0000_0000_0000_0000_0000_0000_0000_0000_0000_0000_0000_0000_0000int,
        q,
        masked.value() as int,
    );
}

/// Hashes bits to a field element under an opcode's domain separation.
fn hash_to_field(op: Opcode, bits: &Vec<bool>) -> (r: Field)
    ensures
        r.value() == hash_to_field_value(op, bits@),
        r.wf(),
{
    let mut msg = op.token();
    msg.push(0);
    proof {
        assert(bit_bytes(bits@.take(0)) =~= Seq::<u8>::empty());
        assert(msg@ =~= opcode_token(op) + seq![0u8] + bit_bytes(bits@.take(0)));
    }
    let mut i: usize = 0;
    while i < bits.len()
        invariant
            i <= bits@.len(),
            msg@ == opcode_token(op) + seq![0u8] + bit_bytes(bits@.take(i as int)),
        decreases bits@.len() - i,
    {
        let ghost pre = msg@;
        if bits[i] {
            msg.push(1);
        } else {
            msg.push(0);
        }
        i = i + 1;
        proof {
            assert(msg@ =~= opcode_token(op) + seq![0u8] + bit_bytes(bits@.take(i as int)));
        }
    }
    proof {
        assert(bits@.take(bits@.len() as int) =~= bits@);
    }
    let d = sha256(&msg);
    let u = U256::from_bytes_le(d.as_slice());
    let masked = U256 { l0: u.l0, l1: u.l1, l2: u.l2, l3: u.l3 % 0x1000_0000_0000_0000 };
    proof {
        lemma_mask_252(u);
    }
    match Field::from_repr(masked) {
        Some(f) => f,
        None => vstd::pervasive::unreached(),
    }
}

/// Hashes a field decomposition to a scalar under a sponge rate.
fn hash_to_scalar(rate: u64, f: &Field) -> (r: Scalar)
    requires
        rate <= 255,
    ensures
        r.value() == hash_to_scalar_value(rate, f.value()),
        r.wf(),
{
    let mut msg: Vec<u8> = Vec::new();
    msg.push(rate as u8);
    let mut body = f.to_bytes_le();
    let ghost body_view = body@;
    msg.append(&mut body);
    proof {
        crate::limbs::lemma_bytes_of_nat_val(f.value(), 32);
        lemma_pow2_large();
        crate::limbs::lemma_bytes_val_injective(body_view, crate::limbs::bytes_of_nat(
            f.value(),
            32,
        ));
        assert(msg@ =~= psd_message(rate, f.value()));
    }
    let d = sha256(&msg);
    let u = U256::from_bytes_le(d.as_slice());
    let masked = U256 { l0: u.l0, l1: u.l1, l2: u.l2, l3: u.l3 % 0x100_0000_0000_0000 };
    proof {
        lemma_mask_248(u);
    }
    match Scalar::from_repr(masked) {
        Some(s) => s,
        None => vstd::pervasive::unreached(),
    }
}

/// One hash instruction: a family member, a source operand, and the
/// destination its field or scalar result is written to.
#[derive(Clone, Debug, PartialEq, Eq)]
pub struct HashInstruction {
    pub kind: HashKind,
    pub operation: UnaryOperation,
}

impl HashInstruction {
    /// A well-formed instruction.
    pub open spec fn wf(&self) -> bool {
        self.operation.wf()
    }

    /// The source operand.
    pub open spec fn first_op(&self) -> Operand {
        self.operation.first_op()
    }

    /// The destination register.
    pub open spec fn dest(&self) -> Register {
        self.operation.dest()
    }

    /// The instruction over a family member, an operand and a
    /// destination.
    pub fn new(kind: HashKind, first: Operand, destination: Register) -> (r: HashInstruction)
        ensures
            r.kind == kind,
            r.first_op() == first,
            r.dest() == destination,
            first.wf() ==> r.wf(),
    {
        HashInstruction { kind, operation: UnaryOperation::new(first, destination) }
    }

    /// The operands of the instruction.
    pub fn operands(&self) -> (r: &Vec<Operand>)
        requires
            self.wf(),
        ensures
            r@ == seq![self.first_op()],
    {
        self.operation.operands()
    }

    /// The destination register of the instruction.
    pub fn destination(&self) -> (r: &Register)
        ensures
            *r == self.dest(),
    {
        self.operation.destination()
    }

    /// The opcode of this instruction.
    pub fn opcode(&self) -> (r: Opcode)
        ensures
            r == Opcode::Hash(self.kind),
    {
        Opcode::Hash(self.kind)
    }

    /// Evaluates the operation: resolves the operand, absorbs its
    /// canonical representation under the member's domain separation,
    /// and assigns the field or scalar result to the destination.
    pub fn evaluate(&self, registers: &mut Registers) -> (r: Result<(), Halt>)
        requires
            self.wf(),
            old(registers).wf(),
            old(registers).values_wf(),
        ensures
            final(registers).wf(),
            match (r, unary_eval_spec(
                old(registers)@,
                self.first_op(),
                self.dest(),
                Opcode::Hash(self.kind),
                |l: Literal| hash_output(self.kind, l),
            )) {
                (Ok(()), Ok(l)) => final(registers)@ == old(registers)@.insert(
                    self.dest().locator,
                    Some(Value::Literal(l)),
                ),
                (Err(e), Err(se)) => halt_eqv(e, se) && final(registers)@ == old(registers)@,
                _ => false,
            },
    {
        let result = {
            let a = match load_literal(registers, self.operation.first()) {
                Ok(l) => l,
                Err(e) => {
                    return Err(e);
                },
            };
            if self.kind.psd() {
                let f: Field = match a {
                    Literal::Field(x) => *x,
                    Literal::Scalar(s) => s.to_field(),
                    Literal::I8(x) => {
                        let u: u8 = if *x >= 0 {
                            *x as u8
                        } else {
                            ((*x - i8::MIN) as u8) + 0x80
                        };
                        proof {
                            lemma_twos_complement(*x as int, 0x100);
                        }
                        Field::from_u128(u as u128)
                    },
                    Literal::I16(x) => {
                        let u: u16 = if *x >= 0 {
                            *x as u16
                        } else {
                            ((*x - i16::MIN) as u16) + 0x8000
                        };
                        proof {
                            lemma_twos_complement(*x as int, 0x1_0000);
                        }
                        Field::from_u128(u as u128)
                    },
                    Literal::I32(x) => {
                        let u: u32 = if *x >= 0 {
                            *x as u32
                        } else {
                            ((*x - i32::MIN) as u32) + 0x8000_0000
                        };
                        proof {
                            lemma_twos_complement(*x as int, 0x1_0000_0000);
                        }
                        Field::from_u128(u as u128)
                    },
                    Literal::I64(x) => {
                        let u: u64 = if *x >= 0 {
                            *x as u64
                        } else {
                            ((*x - i64::MIN) as u64) + 0x8000_0000_0000_0000
                        };
                        proof {
                            lemma_twos_complement(*x as int, 0x1_0000_0000_0000_0000int);
                        }
                        Field::from_u128(u as u128)
                    },
                    Literal::I128(x) => {
                        let u: u128 = if *x >= 0 {
                            *x as u128
                        } else {
                            ((*x - i128::MIN) as u128) + 0x8000_0000_0000_0000_0000_0000_0000_0000
                        };
                        proof {
                            lemma_twos_complement(
                                *x as int,
                                0x1_0000_0000_0000_0000_0000_0000_0000_0000int,
                            );
                        }
                        Field::from_u128(u)
                    },
                    Literal::U8(x) => Field::from_u128(*x as u128),
                    Literal::U16(x) => Field::from_u128(*x as u128),
                    Literal::U32(x) => Field::from_u128(*x as u128),
                    Literal::U64(x) => Field::from_u128(*x as u128),
                    Literal::U128(x) => Field::from_u128(*x),
                    _ => {
                        return Err(
                            Halt::InvalidInstruction { opcode: Opcode::Hash(self.kind) },
                        );
                    },
                };
                let sc = hash_to_scalar(self.kind.rate(), &f);
                proof {
                    lemma_u256_of_nat(sc.repr.value());
                    U256::lemma_value_injective(sc.repr, u256_of_nat(sc.value()));
                }
                Literal::Scalar(sc)
            } else {
                let bits = a.to_bits_le();
                let f = hash_to_field(Opcode::Hash(self.kind), &bits);
                proof {
                    lemma_u256_of_nat(f.repr.value());
                    U256::lemma_value_injective(f.repr, u256_of_nat(f.value()));
                }
                Literal::Field(f)
            }
        };
        match registers.assign(self.operation.destination(), Value::Literal(result)) {
            Ok(()) => Ok(()),
            Err(e) => Err(e),
        }
    }
}

} // verus!
