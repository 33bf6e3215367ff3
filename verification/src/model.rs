//! The mathematical model of instructions.
//!
//! Executable literals carry vectors and fixed-width limbs; their model
//! carries sequences and natural numbers. Two executable values stand
//! for one instruction exactly when their models are equal, and the
//! encoding and grammar round-trip laws are stated and proved over the
//! models.
use vstd::prelude::*;

use crate::field::field_modulus;
use crate::identifier::wf_ident_bytes;
use crate::literal::{Literal, wf_address_bytes, wf_string_bytes};
use crate::mode::Mode;
use crate::opcode::HashKind;
use crate::operand::Operand;
use crate::registers::Register;
use crate::scalar::scalar_modulus;

verus! {

/// A literal, as mathematics: text kinds as byte sequences, element
/// kinds as their canonical values.
pub enum LitModel {
    Boolean(bool),
    Str(Seq<u8>),
    Address(Seq<u8>),
    I8(i8),
    I16(i16),
    I32(i32),
    I64(i64),
    I128(i128),
    U8(u8),
    U16(u16),
    U32(u32),
    U64(u64),
    U128(u128),
    Field(nat),
    Group(nat),
    Scalar(nat),
}

/// The model of an executable literal.
pub open spec fn lit_model(l: Literal) -> LitModel {
    match l {
        Literal::Boolean(b) => LitModel::Boolean(b),
        Literal::Str(s) => LitModel::Str(s@),
        Literal::Address(a) => LitModel::Address(a@),
        Literal::I8(x) => LitModel::I8(x),
        Literal::I16(x) => LitModel::I16(x),
        Literal::I32(x) => LitModel::I32(x),
        Literal::I64(x) => LitModel::I64(x),
        Literal::I128(x) => LitModel::I128(x),
        Literal::U8(x) => LitModel::U8(x),
        Literal::U16(x) => LitModel::U16(x),
        Literal::U32(x) => LitModel::U32(x),
        Literal::U64(x) => LitModel::U64(x),
        Literal::U128(x) => LitModel::U128(x),
        Literal::Field(f) => LitModel::Field(f.value()),
        Literal::Group(g) => LitModel::Group(g.value()),
        Literal::Scalar(s) => LitModel::Scalar(s.value()),
    }
}

/// A well-formed literal model.
pub open spec fn lit_model_wf(m: LitModel) -> bool {
    match m {
        LitModel::Str(s) => wf_string_bytes(s),
        LitModel::Address(a) => wf_address_bytes(a),
        LitModel::Field(v) => v < field_modulus(),
        LitModel::Group(v) => v < field_modulus(),
        LitModel::Scalar(v) => v < scalar_modulus(),
        _ => true,
    }
}

/// A well-formed executable literal has a well-formed model.
pub proof fn lemma_lit_model_wf(l: Literal)
    requires
        l.wf(),
    ensures
        lit_model_wf(lit_model(l)),
{
}

/// An operand, as mathematics.
pub enum OperandModel {
    Literal(LitModel, Option<Mode>),
    Register(u64, Option<Seq<u8>>),
}

/// The model of an executable operand.
pub open spec fn operand_model(o: Operand) -> OperandModel {
    match o {
        Operand::Literal(l, vis) => OperandModel::Literal(lit_model(l), vis),
        Operand::Register(reg, member) => OperandModel::Register(
            reg.locator,
            match member {
                Some(id) => Some(id@),
                None => None,
            },
        ),
    }
}

/// A well-formed operand model.
pub open spec fn operand_model_wf(m: OperandModel) -> bool {
    match m {
        OperandModel::Literal(l, _) => lit_model_wf(l),
        OperandModel::Register(_, member) => match member {
            Some(name) => wf_ident_bytes(name),
            None => true,
        },
    }
}

/// An instruction, as mathematics: its kind, its source operands, and
/// its destination locator.
pub enum InstrModel {
    AddWrapped(OperandModel, OperandModel, u64),
    NotEqual(OperandModel, OperandModel, u64),
    Hash(HashKind, OperandModel, u64),
}

/// A well-formed instruction model.
pub open spec fn instr_model_wf(m: InstrModel) -> bool {
    match m {
        InstrModel::AddWrapped(a, b, _) => operand_model_wf(a) && operand_model_wf(b),
        InstrModel::NotEqual(a, b, _) => operand_model_wf(a) && operand_model_wf(b),
        InstrModel::Hash(_, a, _) => operand_model_wf(a),
    }
}

} // verus!
