//! The binary wire format.
//!
//! Each instruction serializes as a fixed-order encoding: one opcode
//! tag, its operand sequence, then its destination register, with every
//! embedded number little endian. Decoding accepts canonical encodings
//! only — a value that reads back must re-serialize to the same bytes —
//! and both directions are specified against the instruction model, so
//! the round trip is a theorem, not a convention.
use vstd::prelude::*;

use crate::field::{Field, field_modulus};
use crate::identifier::{Identifier, wf_ident_bytes};
use crate::limbs::{
    U256,
    bytes_of_nat,
    bytes_val,
    lemma_bytes_of_nat_val,
    lemma_bytes_val_bound,
    lemma_bytes_val_injective,
    lemma_pow2_large,
};
use crate::literal::{Literal, StrLit, Address, wf_string_bytes, wf_address_bytes};
use crate::model::{LitModel, lit_model, lit_model_wf, OperandModel, operand_model,
    operand_model_wf, InstrModel, instr_model_wf};
use crate::mode::Mode;
use crate::opcode::{HashKind, Opcode};
use crate::operand::Operand;
use crate::registers::Register;
use crate::scalar::{Scalar, scalar_modulus};

verus! {

/// The wire tag of a literal kind.
pub open spec fn lit_tag(m: LitModel) -> u8 {
    match m {
        LitModel::Boolean(_) => 0,
        LitModel::Str(_) => 1,
        LitModel::Address(_) => 2,
        LitModel::I8(_) => 3,
        LitModel::I16(_) => 4,
        LitModel::I32(_) => 5,
        LitModel::I64(_) => 6,
        LitModel::I128(_) => 7,
        LitModel::U8(_) => 8,
        LitModel::U16(_) => 9,
        LitModel::U32(_) => 10,
        LitModel::U64(_) => 11,
        LitModel::U128(_) => 12,
        LitModel::Field(_) => 13,
        LitModel::Group(_) => 14,
        LitModel::Scalar(_) => 15,
    }
}

/// The payload width in bytes of a numeric literal kind.
pub open spec fn lit_width(m: LitModel) -> nat {
    match m {
        LitModel::I8(_) | LitModel::U8(_) => 1,
        LitModel::I16(_) | LitModel::U16(_) => 2,
        LitModel::I32(_) | LitModel::U32(_) => 4,
        LitModel::I64(_) | LitModel::U64(_) => 8,
        LitModel::I128(_) | LitModel::U128(_) => 16,
        LitModel::Field(_) | LitModel::Group(_) | LitModel::Scalar(_) => 32,
        _ => 0,
    }
}

/// The unsigned payload value of a numeric literal kind: the euclidean
/// two's-complement value of an integer, or the canonical value of an
/// element kind.
pub open spec fn lit_uval(m: LitModel) -> nat {
    match m {
        LitModel::I8(x) => ((x as int) % 0x100) as nat,
        LitModel::I16(x) => ((x as int) % 0x1_0000) as nat,
        LitModel::I32(x) => ((x as int) % 0x1_0000_0000) as nat,
        LitModel::I64(x) => ((x as int) % 0x1_0000_0000_0000_0000int) as nat,
        LitModel::I128(x) => ((x as int) % 0x1_0000_0000_0000_0000_0000_0000_0000_0000int) as nat,
        LitModel::U8(x) => x as nat,
        LitModel::U16(x) => x as nat,
        LitModel::U32(x) => x as nat,
        LitModel::U64(x) => x as nat,
        LitModel::U128(x) => x as nat,
        LitModel::Field(v) => v,
        LitModel::Group(v) => v,
        LitModel::Scalar(v) => v,
        _ => 0,
    }
}

/// The wire bytes of a literal: its tag, then its payload.
pub open spec fn lit_bytes(m: LitModel) -> Seq<u8> {
    match m {
        LitModel::Boolean(b) => seq![
            0u8,
            if b {
                1u8
            } else {
                0u8
            },
        ],
        LitModel::Str(s) => seq![1u8, s.len() as u8] + s,
        LitModel::Address(a) => seq![2u8] + a,
        _ => seq![lit_tag(m)] + bytes_of_nat(lit_uval(m), lit_width(m)),
    }
}

/// The numeric literal a tag and an unsigned payload value stand for;
/// `None` when the value is not canonical for the kind.
pub open spec fn lit_of_tag(t: u8, v: nat) -> Option<LitModel> {
    if t == 3 {
        Some(
            LitModel::I8(
                if v < 0x80 {
                    v as i8
                } else {
                    (v - 0x100) as i8
                },
            ),
        )
    } else if t == 4 {
        Some(
            LitModel::I16(
                if v < 0x8000 {
                    v as i16
                } else {
                    (v - 0x1_0000) as i16
                },
            ),
        )
    } else if t == 5 {
        Some(
            LitModel::I32(
                if v < 0x8000_0000 {
                    v as i32
                } else {
                    (v - 0x1_0000_0000) as i32
                },
            ),
        )
    } else if t == 6 {
        Some(
            LitModel::I64(
                if v < 0x8000_0000_0000_0000 {
                    v as i64
                } else {
                    (v - 0x1_0000_0000_0000_0000int) as i64
                },
            ),
        )
    } else if t == 7 {
        Some(
            LitModel::I128(
                if v < 0x8000_0000_0000_0000_0000_0000_0000_0000 {
                    v as i128
                } else {
                    (v - 0x1_0000_0000_0000_0000_0000_0000_0000_0000int) as i128
                },
            ),
        )
    } else if t == 8 {
        Some(LitModel::U8(v as u8))
    } else if t == 9 {
        Some(LitModel::U16(v as u16))
    } else if t == 10 {
        Some(LitModel::U32(v as u32))
    } else if t == 11 {
        Some(LitModel::U64(v as u64))
    } else if t == 12 {
        Some(LitModel::U128(v as u128))
    } else if t == 13 {
        if v < field_modulus() {
            Some(LitModel::Field(v))
        } else {
            None
        }
    } else if t == 14 {
        if v < field_modulus() {
            Some(LitModel::Group(v))
        } else {
            None
        }
    } else if t == 15 {
        if v < scalar_modulus() {
            Some(LitModel::Scalar(v))
        } else {
            None
        }
    } else {
        None
    }
}

/// The payload width in bytes of a numeric wire tag.
pub open spec fn width_of_tag(t: u8) -> nat {
    if t == 3 || t == 8 {
        1
    } else if t == 4 || t == 9 {
        2
    } else if t == 5 || t == 10 {
        4
    } else if t == 6 || t == 11 {
        8
    } else if t == 7 || t == 12 {
        16
    } else {
        32
    }
}

/// What decoding a literal from the head of a byte sequence yields: the
/// literal and the number of bytes consumed, or nothing where no
/// canonical literal encoding starts the sequence.
pub open spec fn dec_lit(s: Seq<u8>) -> Option<(LitModel, int)> {
    if s.len() < 1 {
        None
    } else {
        let t = s[0];
        if t == 0 {
            if s.len() >= 2 && s[1] <= 1 {
                Some((LitModel::Boolean(s[1] == 1), 2))
            } else {
                None
            }
        } else if t == 1 {
            if s.len() >= 2 + s[1] && wf_string_bytes(s.subrange(2, 2 + s[1])) {
                Some((LitModel::Str(s.subrange(2, 2 + s[1])), 2 + s[1]))
            } else {
                None
            }
        } else if t == 2 {
            if s.len() >= 64 && wf_address_bytes(s.subrange(1, 64)) {
                Some((LitModel::Address(s.subrange(1, 64)), 64))
            } else {
                None
            }
        } else if t <= 15 {
            let w = width_of_tag(t) as int;
            if s.len() >= 1 + w {
                match lit_of_tag(t, bytes_val(s.subrange(1, 1 + w))) {
                    Some(m) => Some((m, 1 + w)),
                    None => None,
                }
            } else {
                None
            }
        } else {
            None
        }
    }
}

/// The wire byte of an operand visibility.
pub open spec fn vis_byte(v: Option<Mode>) -> u8 {
    match v {
        None => 0,
        Some(Mode::Constant) => 1,
        Some(Mode::Public) => 2,
        Some(Mode::Private) => 3,
    }
}

/// The wire bytes of an operand.
pub open spec fn operand_bytes(m: OperandModel) -> Seq<u8> {
    match m {
        OperandModel::Literal(l, vis) => seq![0u8, vis_byte(vis)] + lit_bytes(l),
        OperandModel::Register(loc, member) => seq![1u8] + bytes_of_nat(loc as nat, 8) + (
        match member {
            None => seq![0u8],
            Some(name) => seq![1u8, name.len() as u8] + name,
        }),
    }
}

/// What decoding an operand from the head of a byte sequence yields.
pub open spec fn dec_operand(s: Seq<u8>) -> Option<(OperandModel, int)> {
    if s.len() < 1 {
        None
    } else if s[0] == 0 {
        if s.len() >= 2 && s[1] <= 3 {
            let vis: Option<Mode> = if s[1] == 0 {
                None
            } else if s[1] == 1 {
                Some(Mode::Constant)
            } else if s[1] == 2 {
                Some(Mode::Public)
            } else {
                Some(Mode::Private)
            };
            match dec_lit(s.skip(2)) {
                Some((l, n)) => Some((OperandModel::Literal(l, vis), 2 + n)),
                None => None,
            }
        } else {
            None
        }
    } else if s[0] == 1 {
        if s.len() >= 10 {
            let loc = bytes_val(s.subrange(1, 9));
            if s[9] == 0 {
                Some((OperandModel::Register(loc as u64, None), 10))
            } else if s[9] == 1 {
                if s.len() >= 11 && s.len() >= 11 + s[10] && wf_ident_bytes(
                    s.subrange(11, 11 + s[10]),
                ) {
                    Some(
                        (
                            OperandModel::Register(loc as u64, Some(s.subrange(11, 11 + s[10]))),
                            11 + s[10],
                        ),
                    )
                } else {
                    None
                }
            } else {
                None
            }
        } else {
            None
        }
    } else {
        None
    }
}

/// The wire tag of an opcode.
pub open spec fn opcode_tag(op: Opcode) -> u8 {
    match op {
        Opcode::AddWrapped => 0,
        Opcode::NotEqual => 1,
        Opcode::Hash(HashKind::Ped64) => 2,
        Opcode::Hash(HashKind::Ped128) => 3,
        Opcode::Hash(HashKind::Ped256) => 4,
        Opcode::Hash(HashKind::Ped512) => 5,
        Opcode::Hash(HashKind::Ped1024) => 6,
        Opcode::Hash(HashKind::Psd2) => 7,
        Opcode::Hash(HashKind::Psd4) => 8,
        Opcode::Hash(HashKind::Psd8) => 9,
    }
}

/// The hash family member of a wire tag.
pub open spec fn hash_kind_of_tag(t: u8) -> HashKind {
    if t == 2 {
        HashKind::Ped64
    } else if t == 3 {
        HashKind::Ped128
    } else if t == 4 {
        HashKind::Ped256
    } else if t == 5 {
        HashKind::Ped512
    } else if t == 6 {
        HashKind::Ped1024
    } else if t == 7 {
        HashKind::Psd2
    } else if t == 8 {
        HashKind::Psd4
    } else {
        HashKind::Psd8
    }
}

/// The wire bytes of an instruction: its opcode tag, its operands, then
/// its destination.
pub open spec fn instr_bytes(m: InstrModel) -> Seq<u8> {
    match m {
        InstrModel::AddWrapped(a, b, d) => seq![0u8] + operand_bytes(a) + operand_bytes(b)
            + bytes_of_nat(d as nat, 8),
        InstrModel::NotEqual(a, b, d) => seq![1u8] + operand_bytes(a) + operand_bytes(b)
            + bytes_of_nat(d as nat, 8),
        InstrModel::Hash(k, a, d) => seq![opcode_tag(Opcode::Hash(k))] + operand_bytes(a)
            + bytes_of_nat(d as nat, 8),
    }
}

/// What decoding an instruction from the head of a byte sequence
/// yields.
pub open spec fn dec_instr(s: Seq<u8>) -> Option<(InstrModel, int)> {
    if s.len() < 1 {
        None
    } else {
        let t = s[0];
        if t <= 1 {
            match dec_operand(s.skip(1)) {
                None => None,
                Some((a, na)) => match dec_operand(s.skip(1 + na)) {
                    None => None,
                    Some((b, nb)) => if s.len() >= 1 + na + nb + 8 {
                        let d = bytes_val(s.subrange(1 + na + nb, 1 + na + nb + 8)) as u64;
                        if t == 0 {
                            Some((InstrModel::AddWrapped(a, b, d), 1 + na + nb + 8))
                        } else {
                            Some((InstrModel::NotEqual(a, b, d), 1 + na + nb + 8))
                        }
                    } else {
                        None
                    },
                },
            }
        } else if t <= 9 {
            match dec_operand(s.skip(1)) {
                None => None,
                Some((a, na)) => if s.len() >= 1 + na + 8 {
                    let d = bytes_val(s.subrange(1 + na, 1 + na + 8)) as u64;
                    Some((InstrModel::Hash(hash_kind_of_tag(t), a, d), 1 + na + 8))
                } else {
                    None
                },
            }
        } else {
            None
        }
    }
}

/// Decoding an encoded literal yields the literal back and consumes
/// exactly its bytes, whatever follows.
pub proof fn lemma_dec_lit_roundtrip(m: LitModel, rest: Seq<u8>)
    requires
        lit_model_wf(m),
    ensures
        dec_lit(lit_bytes(m) + rest) == Some((m, lit_bytes(m).len() as int)),
{
    let s = lit_bytes(m) + rest;
    lemma_pow2_large();
    match m {
        LitModel::Boolean(b) => {
            assert(s[0] == 0 && s.len() >= 2);
        },
        LitModel::Str(t) => {
            assert(s[0] == 1 && s[1] == t.len() as u8);
            assert(s.subrange(2, 2 + t.len() as int) =~= t);
        },
        LitModel::Address(a) => {
            assert(s[0] == 2 && s.len() >= 64);
            assert(s.subrange(1, 64) =~= a);
        },
        LitModel::Boolean(_) => {
        },
        _ => {
            let w = lit_width(m);
            let v = lit_uval(m);
            lemma_bytes_of_nat_val(v, w);
            vstd::arithmetic::power2::lemma2_to64();
            assert(s[0] == lit_tag(m));
            assert(s.subrange(1, 1 + w as int) =~= bytes_of_nat(v, w));
            match m {
                LitModel::I8(x) => {
                    crate::literal::lemma_twos_complement(x as int, 0x100);
                },
                LitModel::I16(x) => {
                    crate::literal::lemma_twos_complement(x as int, 0x1_0000);
                },
                LitModel::I32(x) => {
                    crate::literal::lemma_twos_complement(x as int, 0x1_0000_0000);
                },
                LitModel::I64(x) => {
                    crate::literal::lemma_twos_complement(x as int, 0x1_0000_0000_0000_0000int);
                },
                LitModel::I128(x) => {
                    crate::literal::lemma_twos_complement(
                        x as int,
                        0x1_0000_0000_0000_0000_0000_0000_0000_0000int,
                    );
                },
                _ => {
                },
            }
            assert(v < vstd::arithmetic::power2::pow2(8 * w));
            assert(bytes_val(s.subrange(1, 1 + w as int)) == v);
            assert(lit_of_tag(lit_tag(m), v) == Some(m));
        },
    }
}

/// Decoding an encoded operand yields the operand back and consumes
/// exactly its bytes, whatever follows.
pub proof fn lemma_dec_operand_roundtrip(m: OperandModel, rest: Seq<u8>)
    requires
        operand_model_wf(m),
    ensures
        dec_operand(operand_bytes(m) + rest) == Some((m, operand_bytes(m).len() as int)),
{
    let s = operand_bytes(m) + rest;
    match m {
        OperandModel::Literal(l, vis) => {
            assert(s[0] == 0 && s[1] == vis_byte(vis) && s[1] <= 3);
            assert(s.skip(2) =~= lit_bytes(l) + rest);
            lemma_dec_lit_roundtrip(l, rest);
        },
        OperandModel::Register(loc, member) => {
            lemma_bytes_of_nat_val(loc as nat, 8);
            lemma_pow2_large();
            assert(s[0] == 1);
            assert(s.subrange(1, 9) =~= bytes_of_nat(loc as nat, 8));
            assert(bytes_val(s.subrange(1, 9)) == loc as nat);
            match member {
                None => {
                    assert(s[9] == 0);
                },
                Some(name) => {
                    assert(s[9] == 1 && s[10] == name.len() as u8);
                    assert(s.subrange(11, 11 + name.len() as int) =~= name);
                },
            }
        },
    }
}

/// Decoding an encoded binary-layout instruction body.
proof fn lemma_dec_instr_binary(t: u8, a: OperandModel, b: OperandModel, d: u64, rest: Seq<u8>)
    requires
        operand_model_wf(a),
        operand_model_wf(b),
        t <= 1,
    ensures
        ({
            let s = seq![t] + operand_bytes(a) + operand_bytes(b) + bytes_of_nat(d as nat, 8)
                + rest;
            let na = operand_bytes(a).len() as int;
            let nb = operand_bytes(b).len() as int;
            dec_operand(s.skip(1)) == Some((a, na)) && dec_operand(s.skip(1 + na)) == Some(
                (b, nb),
            ) && s.len() >= 1 + na + nb + 8 && bytes_val(
                s.subrange(1 + na + nb, 1 + na + nb + 8),
            ) == d as nat
        }),
{
    let s = seq![t] + operand_bytes(a) + operand_bytes(b) + bytes_of_nat(d as nat, 8) + rest;
    let na = operand_bytes(a).len() as int;
    let nb = operand_bytes(b).len() as int;
    lemma_bytes_of_nat_val(d as nat, 8);
    lemma_pow2_large();
    assert(s.skip(1) =~= operand_bytes(a) + (operand_bytes(b) + bytes_of_nat(d as nat, 8)
        + rest));
    lemma_dec_operand_roundtrip(a, operand_bytes(b) + bytes_of_nat(d as nat, 8) + rest);
    assert(s.skip(1 + na) =~= operand_bytes(b) + (bytes_of_nat(d as nat, 8) + rest));
    lemma_dec_operand_roundtrip(b, bytes_of_nat(d as nat, 8) + rest);
    assert(s.subrange(1 + na + nb, 1 + na + nb + 8) =~= bytes_of_nat(d as nat, 8));
}

/// Decoding an encoded unary-layout instruction body.
proof fn lemma_dec_instr_unary(t: u8, a: OperandModel, d: u64, rest: Seq<u8>)
    requires
        operand_model_wf(a),
    ensures
        ({
            let s = seq![t] + operand_bytes(a) + bytes_of_nat(d as nat, 8) + rest;
            let na = operand_bytes(a).len() as int;
            dec_operand(s.skip(1)) == Some((a, na)) && s.len() >= 1 + na + 8 && bytes_val(
                s.subrange(1 + na, 1 + na + 8),
            ) == d as nat
        }),
{
    let s = seq![t] + operand_bytes(a) + bytes_of_nat(d as nat, 8) + rest;
    let na = operand_bytes(a).len() as int;
    lemma_bytes_of_nat_val(d as nat, 8);
    lemma_pow2_large();
    assert(s.skip(1) =~= operand_bytes(a) + (bytes_of_nat(d as nat, 8) + rest));
    lemma_dec_operand_roundtrip(a, bytes_of_nat(d as nat, 8) + rest);
    assert(s.subrange(1 + na, 1 + na + 8) =~= bytes_of_nat(d as nat, 8));
}

/// Decoding an encoded instruction yields the instruction back and
/// consumes exactly its bytes, whatever follows: the wire format round
/// trips.
pub proof fn lemma_dec_instr_roundtrip(m: InstrModel, rest: Seq<u8>)
    requires
        instr_model_wf(m),
    ensures
        dec_instr(instr_bytes(m) + rest) == Some((m, instr_bytes(m).len() as int)),
{
    match m {
        InstrModel::AddWrapped(a, b, d) => {
            lemma_dec_instr_binary(0, a, b, d, rest);
            assert(instr_bytes(m) + rest =~= seq![0u8] + operand_bytes(a) + operand_bytes(b)
                + bytes_of_nat(d as nat, 8) + rest);
            lemma_bytes_of_nat_val(d as nat, 8);
        },
        InstrModel::NotEqual(a, b, d) => {
            lemma_dec_instr_binary(1, a, b, d, rest);
            assert(instr_bytes(m) + rest =~= seq![1u8] + operand_bytes(a) + operand_bytes(b)
                + bytes_of_nat(d as nat, 8) + rest);
            lemma_bytes_of_nat_val(d as nat, 8);
        },
        InstrModel::Hash(k, a, d) => {
            lemma_dec_instr_unary(opcode_tag(Opcode::Hash(k)), a, d, rest);
            assert(instr_bytes(m) + rest =~= seq![opcode_tag(Opcode::Hash(k))] + operand_bytes(a)
                + bytes_of_nat(d as nat, 8) + rest);
            lemma_bytes_of_nat_val(d as nat, 8);
            assert(hash_kind_of_tag(opcode_tag(Opcode::Hash(k))) == k);
        },
    }
}

/// Appends a vector's bytes to another.
pub(crate) fn append_bytes(out: &mut Vec<u8>, bytes: &Vec<u8>)
    ensures
        final(out)@ == old(out)@ + bytes@,
{
    let mut i: usize = 0;
    while i < bytes.len()
        invariant
            i <= bytes@.len(),
            out@ == old(out)@ + bytes@.take(i as int),

        decreases bytes@.len() - i,
    {
        let ghost pre = out@;
        out.push(bytes[i]);
        i = i + 1;
        proof {
            assert(old(out)@ + bytes@.take(i as int) =~= pre.push(bytes@[i - 1]));
        }
    }
    proof {
        assert(bytes@.take(bytes@.len() as int) =~= bytes@);
    }
}

/// Encodes a literal as its wire bytes.
pub fn encode_literal(l: &Literal) -> (r: Vec<u8>)
    requires
        l.wf(),
    ensures
        r@ == lit_bytes(lit_model(*l)),
{
    let mut out: Vec<u8> = Vec::new();
    match l {
        Literal::Boolean(b) => {
            out.push(0);
            out.push(
                if *b {
                    1
                } else {
                    0
                },
            );
            proof {
                assert(out@ =~= lit_bytes(lit_model(*l)));
            }
        },
        Literal::Str(st) => {
            out.push(1);
            out.push(st.as_bytes().len() as u8);
            append_bytes(&mut out, st.as_bytes());
            proof {
                assert(out@ =~= lit_bytes(lit_model(*l)));
            }
        },
        Literal::Address(a) => {
            out.push(2);
            append_bytes(&mut out, a.as_bytes());
            proof {
                assert(out@ =~= lit_bytes(lit_model(*l)));
            }
        },
        Literal::I8(x) => {
            out.push(3);
            let u: u8 = if *x >= 0 {
                *x as u8
            } else {
                ((*x - i8::MIN) as u8) + 0x80
            };
            proof {
                crate::literal::lemma_twos_complement(*x as int, 0x100);
            }
            let mut body = crate::limbs::uint_bytes_le(u as u128, 1);
            let ghost bv = body@;
            append_bytes(&mut out, &body);
            proof {
                assert(out@ =~= lit_bytes(lit_model(*l)));
            }
        },
        Literal::I16(x) => {
            out.push(4);
            let u: u16 = if *x >= 0 {
                *x as u16
            } else {
                ((*x - i16::MIN) as u16) + 0x8000
            };
            proof {
                crate::literal::lemma_twos_complement(*x as int, 0x1_0000);
            }
            let body = crate::limbs::uint_bytes_le(u as u128, 2);
            append_bytes(&mut out, &body);
            proof {
                assert(out@ =~= lit_bytes(lit_model(*l)));
            }
        },
        Literal::I32(x) => {
            out.push(5);
            let u: u32 = if *x >= 0 {
                *x as u32
            } else {
                ((*x - i32::MIN) as u32) + 0x8000_0000
            };
            proof {
                crate::literal::lemma_twos_complement(*x as int, 0x1_0000_0000);
            }
            let body = crate::limbs::uint_bytes_le(u as u128, 4);
            append_bytes(&mut out, &body);
            proof {
                assert(out@ =~= lit_bytes(lit_model(*l)));
            }
        },
        Literal::I64(x) => {
            out.push(6);
            let u: u64 = if *x >= 0 {
                *x as u64
            } else {
                ((*x - i64::MIN) as u64) + 0x8000_0000_0000_0000
            };
            proof {
                crate::literal::lemma_twos_complement(*x as int, 0x1_0000_0000_0000_0000int);
            }
            let body = crate::limbs::uint_bytes_le(u as u128, 8);
            append_bytes(&mut out, &body);
            proof {
                assert(out@ =~= lit_bytes(lit_model(*l)));
            }
        },
        Literal::I128(x) => {
            out.push(7);
            let u: u128 = if *x >= 0 {
                *x as u128
            } else {
                ((*x - i128::MIN) as u128) + 0x8000_0000_0000_0000_0000_0000_0000_0000
            };
            proof {
                crate::literal::lemma_twos_complement(
                    *x as int,
                    0x1_0000_0000_0000_0000_0000_0000_0000_0000int,
                );
            }
            let body = crate::limbs::uint_bytes_le(u, 16);
            append_bytes(&mut out, &body);
            proof {
                assert(out@ =~= lit_bytes(lit_model(*l)));
            }
        },
        Literal::U8(x) => {
            out.push(8);
            let body = crate::limbs::uint_bytes_le(*x as u128, 1);
            append_bytes(&mut out, &body);
            proof {
                assert(out@ =~= lit_bytes(lit_model(*l)));
            }
        },
        Literal::U16(x) => {
            out.push(9);
            let body = crate::limbs::uint_bytes_le(*x as u128, 2);
            append_bytes(&mut out, &body);
            proof {
                assert(out@ =~= lit_bytes(lit_model(*l)));
            }
        },
        Literal::U32(x) => {
            out.push(10);
            let body = crate::limbs::uint_bytes_le(*x as u128, 4);
            append_bytes(&mut out, &body);
            proof {
                assert(out@ =~= lit_bytes(lit_model(*l)));
            }
        },
        Literal::U64(x) => {
            out.push(11);
            let body = crate::limbs::uint_bytes_le(*x as u128, 8);
            append_bytes(&mut out, &body);
            proof {
                assert(out@ =~= lit_bytes(lit_model(*l)));
            }
        },
        Literal::U128(x) => {
            out.push(12);
            let body = crate::limbs::uint_bytes_le(*x, 16);
            append_bytes(&mut out, &body);
            proof {
                assert(out@ =~= lit_bytes(lit_model(*l)));
            }
        },
        Literal::Field(f) => {
            out.push(13);
            let body = f.to_bytes_le();
            proof {
                lemma_bytes_of_nat_val(f.value(), 32);
                lemma_pow2_large();
                lemma_bytes_val_injective(body@, bytes_of_nat(f.value(), 32));
            }
            append_bytes(&mut out, &body);
            proof {
                assert(out@ =~= lit_bytes(lit_model(*l)));
            }
        },
        Literal::Group(g) => {
            out.push(14);
            let body = g.x.to_bytes_le();
            proof {
                lemma_bytes_of_nat_val(g.value(), 32);
                lemma_pow2_large();
                lemma_bytes_val_injective(body@, bytes_of_nat(g.value(), 32));
            }
            append_bytes(&mut out, &body);
            proof {
                assert(out@ =~= lit_bytes(lit_model(*l)));
            }
        },
        Literal::Scalar(sc) => {
            out.push(15);
            let body = sc.to_bytes_le();
            proof {
                lemma_bytes_of_nat_val(sc.value(), 32);
                lemma_pow2_large();
                lemma_bytes_val_injective(body@, bytes_of_nat(sc.value(), 32));
            }
            append_bytes(&mut out, &body);
            proof {
                assert(out@ =~= lit_bytes(lit_model(*l)));
            }
        },
    }
    out
}

/// Decodes a literal from the head of a byte slice: the literal and the
/// count of bytes consumed, or `None` where no canonical literal
/// encoding starts the slice.
pub fn decode_literal(s: &[u8]) -> (r: Option<(Literal, usize)>)
    ensures
        match r {
            Some((l, n)) => dec_lit(s@) == Some((lit_model(l), n as int)) && l.wf() && n
                <= s@.len(),
            None => dec_lit(s@) is None,
        },
{
    let n = s.len();
    if n < 1 {
        return None;
    }
    let t = s[0];
    if t == 0 {
        if n >= 2 && s[1] <= 1 {
            Some((Literal::Boolean(s[1] == 1), 2))
        } else {
            None
        }
    } else if t == 1 {
        if n >= 2 && n - 2 >= s[1] as usize {
            let len = s[1] as usize;
            let mut v: Vec<u8> = Vec::new();
            let mut i: usize = 0;
            while i < len
                invariant
                    i <= len <= 255,
                    len + 2 <= s@.len(),
                    v@ == s@.subrange(2, 2 + i as int),
                decreases len - i,
            {
                v.push(s[2 + i]);
                i = i + 1;
                proof {
                    assert(v@ =~= s@.subrange(2, 2 + i as int));
                }
            }
            match StrLit::new(v) {
                Some(st) => Some((Literal::Str(st), 2 + len)),
                None => None,
            }
        } else {
            None
        }
    } else if t == 2 {
        if n >= 64 {
            let mut v: Vec<u8> = Vec::new();
            let mut i: usize = 0;
            while i < 63
                invariant
                    i <= 63,
                    64 <= s@.len(),
                    v@ == s@.subrange(1, 1 + i as int),
                decreases 63 - i,
            {
                v.push(s[1 + i]);
                i = i + 1;
                proof {
                    assert(v@ =~= s@.subrange(1, 1 + i as int));
                }
            }
            match Address::new(v) {
                Some(a) => Some((Literal::Address(a), 64)),
                None => None,
            }
        } else {
            None
        }
    } else if t >= 13 && t <= 15 {
        if n >= 33 {
            let u = U256::from_bytes_le(vstd::slice::slice_subrange(s, 1, 33));
            proof {
                assert(s@.subrange(1, 33) == s@.subrange(1int, 33int));
            }
            if t == 13 {
                match Field::from_repr(u) {
                    Some(f) => Some((Literal::Field(f), 33)),
                    None => None,
                }
            } else if t == 14 {
                match Field::from_repr(u) {
                    Some(f) => Some((Literal::Group(crate::group::Group::from_field(f)), 33)),
                    None => None,
                }
            } else {
                match Scalar::from_repr(u) {
                    Some(sc) => Some((Literal::Scalar(sc), 33)),
                    None => None,
                }
            }
        } else {
            None
        }
    } else if t <= 12 {
        let w: usize = if t == 3 || t == 8 {
            1
        } else if t == 4 || t == 9 {
            2
        } else if t == 5 || t == 10 {
            4
        } else if t == 6 || t == 11 {
            8
        } else {
            16
        };
        if n >= 1 && n - 1 >= w {
            let v = crate::limbs::read_uint_le(s, 1, w);
            proof {
                crate::limbs::lemma_bytes_val_bound(s@.subrange(1, 1 + w as int));
                vstd::arithmetic::power2::lemma2_to64();
                lemma_pow2_large();
            }
            let lit: Literal = if t == 3 {
                if v < 0x80 {
                    Literal::I8(v as i8)
                } else {
                    Literal::I8(((v - 0x80) as i8) + i8::MIN)
                }
            } else if t == 4 {
                if v < 0x8000 {
                    Literal::I16(v as i16)
                } else {
                    Literal::I16(((v - 0x8000) as i16) + i16::MIN)
                }
            } else if t == 5 {
                if v < 0x8000_0000 {
                    Literal::I32(v as i32)
                } else {
                    Literal::I32(((v - 0x8000_0000) as i32) + i32::MIN)
                }
            } else if t == 6 {
                if v < 0x8000_0000_0000_0000 {
                    Literal::I64(v as i64)
                } else {
                    Literal::I64(((v - 0x8000_0000_0000_0000) as i64) + i64::MIN)
                }
            } else if t == 7 {
                if v < 0x8000_0000_0000_0000_0000_0000_0000_0000 {
                    Literal::I128(v as i128)
                } else {
                    Literal::I128(((v - 0x8000_0000_0000_0000_0000_0000_0000_0000) as i128)
                        + i128::MIN)
                }
            } else if t == 8 {
                Literal::U8(v as u8)
            } else if t == 9 {
                Literal::U16(v as u16)
            } else if t == 10 {
                Literal::U32(v as u32)
            } else if t == 11 {
                Literal::U64(v as u64)
            } else {
                Literal::U128(v)
            };
            Some((lit, 1 + w))
        } else {
            None
        }
    } else {
        None
    }
}

/// Encodes an operand as its wire bytes.
pub fn encode_operand(o: &Operand) -> (r: Vec<u8>)
    requires
        o.wf(),
    ensures
        r@ == operand_bytes(operand_model(*o)),
{
    let mut out: Vec<u8> = Vec::new();
    match o {
        Operand::Literal(l, vis) => {
            out.push(0);
            out.push(
                match vis {
                    None => 0,
                    Some(Mode::Constant) => 1,
                    Some(Mode::Public) => 2,
                    Some(Mode::Private) => 3,
                },
            );
            let body = encode_literal(l);
            append_bytes(&mut out, &body);
            proof {
                assert(out@ =~= operand_bytes(operand_model(*o)));
            }
        },
        Operand::Register(reg, member) => {
            out.push(1);
            let body = crate::limbs::uint_bytes_le(reg.locator as u128, 8);
            append_bytes(&mut out, &body);
            match member {
                None => {
                    out.push(0);
                },
                Some(id) => {
                    out.push(1);
                    out.push(id.as_bytes().len() as u8);
                    append_bytes(&mut out, id.as_bytes());
                },
            }
            proof {
                assert(out@ =~= operand_bytes(operand_model(*o)));
            }
        },
    }
    out
}

/// Decodes an operand from the head of a byte slice.
pub fn decode_operand(s: &[u8]) -> (r: Option<(Operand, usize)>)
    ensures
        match r {
            Some((o, n)) => dec_operand(s@) == Some((operand_model(o), n as int)) && o.wf() && n
                <= s@.len(),
            None => dec_operand(s@) is None,
        },
{
    let n = s.len();
    if n < 1 {
        return None;
    }
    let t = s[0];
    if t == 0 {
        if n >= 2 && s[1] <= 3 {
            let vis: Option<Mode> = if s[1] == 0 {
                None
            } else if s[1] == 1 {
                Some(Mode::Constant)
            } else if s[1] == 2 {
                Some(Mode::Public)
            } else {
                Some(Mode::Private)
            };
            proof {
                assert(s@.subrange(2, s@.len() as int) =~= s@.skip(2));
            }
            match decode_literal(vstd::slice::slice_subrange(s, 2, n)) {
                Some((l, m)) => Some((Operand::Literal(l, vis), 2 + m)),
                None => None,
            }
        } else {
            None
        }
    } else if t == 1 {
        if n >= 10 {
            let loc128 = crate::limbs::read_uint_le(s, 1, 8);
            proof {
                crate::limbs::lemma_bytes_val_bound(s@.subrange(1, 9));
                lemma_pow2_large();
            }
            let loc: u64 = loc128 as u64;
            if s[9] == 0 {
                Some((Operand::Register(Register::new(loc), None), 10))
            } else if s[9] == 1 {
                if n >= 11 && n - 11 >= s[10] as usize {
                    let mlen = s[10] as usize;
                    let mut v: Vec<u8> = Vec::new();
                    let mut i: usize = 0;
                    while i < mlen
                        invariant
                            i <= mlen <= 255,
                            mlen + 11 <= s@.len(),
                            v@ == s@.subrange(11, 11 + i as int),
                        decreases mlen - i,
                    {
                        v.push(s[11 + i]);
                        i = i + 1;
                        proof {
                            assert(v@ =~= s@.subrange(11, 11 + i as int));
                        }
                    }
                    match Identifier::new(v) {
                        Some(id) => Some((Operand::Register(Register::new(loc), Some(id)), 11
                            + mlen)),
                        None => None,
                    }
                } else {
                    None
                }
            } else {
                None
            }
        } else {
            None
        }
    } else {
        None
    }
}

impl crate::instruction::Instruction {
    /// Serializes this instruction as its wire bytes: opcode tag, then
    /// operands, then destination, all little endian.
    pub fn write_le(&self) -> (r: Vec<u8>)
        requires
            self.wf(),
        ensures
            r@ == instr_bytes(self.model()),
    {
        let mut out: Vec<u8> = Vec::new();
        match self {
            crate::instruction::Instruction::AddWrapped(i) => {
                out.push(0);
                let a = encode_operand(i.operation.first());
                append_bytes(&mut out, &a);
                let b = encode_operand(i.operation.second());
                append_bytes(&mut out, &b);
                let d = crate::limbs::uint_bytes_le(
                    i.operation.destination().locator as u128,
                    8,
                );
                append_bytes(&mut out, &d);
                proof {
                    assert(out@ =~= instr_bytes(self.model()));
                }
            },
            crate::instruction::Instruction::NotEqual(i) => {
                out.push(1);
                let a = encode_operand(i.operation.first());
                append_bytes(&mut out, &a);
                let b = encode_operand(i.operation.second());
                append_bytes(&mut out, &b);
                let d = crate::limbs::uint_bytes_le(
                    i.operation.destination().locator as u128,
                    8,
                );
                append_bytes(&mut out, &d);
                proof {
                    assert(out@ =~= instr_bytes(self.model()));
                }
            },
            crate::instruction::Instruction::Hash(i) => {
                out.push(
                    match i.kind {
                        HashKind::Ped64 => 2,
                        HashKind::Ped128 => 3,
                        HashKind::Ped256 => 4,
                        HashKind::Ped512 => 5,
                        HashKind::Ped1024 => 6,
                        HashKind::Psd2 => 7,
                        HashKind::Psd4 => 8,
                        HashKind::Psd8 => 9,
                    },
                );
                let a = encode_operand(i.operation.first());
                append_bytes(&mut out, &a);
                let d = crate::limbs::uint_bytes_le(
                    i.operation.destination().locator as u128,
                    8,
                );
                append_bytes(&mut out, &d);
                proof {
                    assert(out@ =~= instr_bytes(self.model()));
                }
            },
        }
        out
    }

    /// Deserializes an instruction from the head of a byte slice: the
    /// instruction and the count of bytes consumed, or `None` where no
    /// canonical instruction encoding starts the slice.
    pub fn read_le(s: &[u8]) -> (r: Option<(crate::instruction::Instruction, usize)>)
        ensures
            match r {
                Some((i, n)) => dec_instr(s@) == Some((i.model(), n as int)) && i.wf() && n
                    <= s@.len(),
                None => dec_instr(s@) is None,
            },
    {
        let n = s.len();
        if n < 1 {
            return None;
        }
        let t = s[0];
        if t <= 1 {
            proof {
                assert(s@.subrange(1, s@.len() as int) =~= s@.skip(1));
            }
            let (a, na) = match decode_operand(vstd::slice::slice_subrange(s, 1, n)) {
                Some(x) => x,
                None => {
                    return None;
                },
            };
            proof {
                assert(s@.subrange(1 + na as int, s@.len() as int) =~= s@.skip(1 + na as int));
            }
            let (b, nb) = match decode_operand(vstd::slice::slice_subrange(s, 1 + na, n)) {
                Some(x) => x,
                None => {
                    return None;
                },
            };
            if n - 1 - na - nb >= 8 {
                let d128 = crate::limbs::read_uint_le(s, 1 + na + nb, 8);
                proof {
                    crate::limbs::lemma_bytes_val_bound(
                        s@.subrange(1 + na as int + nb as int, 9 + na as int + nb as int),
                    );
                    lemma_pow2_large();
                }
                let d: u64 = d128 as u64;
                if t == 0 {
                    let i = crate::add_wrapped::AddWrapped::new(a, b, Register::new(d));
                    Some((crate::instruction::Instruction::AddWrapped(i), 9 + na + nb))
                } else {
                    let i = crate::not_equal::NotEqual::new(a, b, Register::new(d));
                    Some((crate::instruction::Instruction::NotEqual(i), 9 + na + nb))
                }
            } else {
                None
            }
        } else if t <= 9 {
            let kind = if t == 2 {
                HashKind::Ped64
            } else if t == 3 {
                HashKind::Ped128
            } else if t == 4 {
                HashKind::Ped256
            } else if t == 5 {
                HashKind::Ped512
            } else if t == 6 {
                HashKind::Ped1024
            } else if t == 7 {
                HashKind::Psd2
            } else if t == 8 {
                HashKind::Psd4
            } else {
                HashKind::Psd8
            };
            proof {
                assert(s@.subrange(1, s@.len() as int) =~= s@.skip(1));
            }
            let (a, na) = match decode_operand(vstd::slice::slice_subrange(s, 1, n)) {
                Some(x) => x,
                None => {
                    return None;
                },
            };
            if n - 1 - na >= 8 {
                let d128 = crate::limbs::read_uint_le(s, 1 + na, 8);
                proof {
                    crate::limbs::lemma_bytes_val_bound(
                        s@.subrange(1 + na as int, 9 + na as int),
                    );
                    lemma_pow2_large();
                }
                let d: u64 = d128 as u64;
                let i = crate::hash::HashInstruction::new(kind, a, Register::new(d));
                Some((crate::instruction::Instruction::Hash(i), 9 + na))
            } else {
                None
            }
        } else {
            None
        }
    }
}

} // verus!
