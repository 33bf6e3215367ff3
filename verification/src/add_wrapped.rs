//! Wrapping addition.
//!
//! Adds `first` with `second`, wrapping around at the boundary of the
//! type, and storing the outcome in `destination`. Both operands must be
//! literals of one integer kind, of any of the ten widths; the result is
//! that same kind, reduced modulo the width. Any other kind, a kind
//! mismatch, or a composite operand is a fatal halt.
use vstd::prelude::*;

use crate::errors::{Halt, halt_eqv};
use crate::literal::Literal;
use crate::opcode::Opcode;
use crate::operand::{Operand, load_literal, resolved_literal};
use crate::operation::BinaryOperation;
use crate::registers::{Register, Registers, Value};

verus! {

/// The wrap-around sum of two literals of one integer kind; `None` for
/// every other pair of kinds.
pub open spec fn add_wrapped_literals(a: Literal, b: Literal) -> Option<Literal> {
    match (a, b) {
        (Literal::I8(x), Literal::I8(y)) => Some(
            Literal::I8(vstd::wrapping::i8_specs::wrapping_add(x, y)),
        ),
        (Literal::I16(x), Literal::I16(y)) => Some(
            Literal::I16(vstd::wrapping::i16_specs::wrapping_add(x, y)),
        ),
        (Literal::I32(x), Literal::I32(y)) => Some(
            Literal::I32(vstd::wrapping::i32_specs::wrapping_add(x, y)),
        ),
        (Literal::I64(x), Literal::I64(y)) => Some(
            Literal::I64(vstd::wrapping::i64_specs::wrapping_add(x, y)),
        ),
        (Literal::I128(x), Literal::I128(y)) => Some(
            Literal::I128(vstd::wrapping::i128_specs::wrapping_add(x, y)),
        ),
        (Literal::U8(x), Literal::U8(y)) => Some(
            Literal::U8(vstd::wrapping::u8_specs::wrapping_add(x, y)),
        ),
        (Literal::U16(x), Literal::U16(y)) => Some(
            Literal::U16(vstd::wrapping::u16_specs::wrapping_add(x, y)),
        ),
        (Literal::U32(x), Literal::U32(y)) => Some(
            Literal::U32(vstd::wrapping::u32_specs::wrapping_add(x, y)),
        ),
        (Literal::U64(x), Literal::U64(y)) => Some(
            Literal::U64(vstd::wrapping::u64_specs::wrapping_add(x, y)),
        ),
        (Literal::U128(x), Literal::U128(y)) => Some(
            Literal::U128(vstd::wrapping::u128_specs::wrapping_add(x, y)),
        ),
        _ => None,
    }
}

/// What one evaluation of a binary literal instruction yields against a
/// store: the literal to write, or the halt it owes — resolution halts
/// first, for the first operand then the second; then the kind check,
/// naming the opcode; then the destination's define-before-assign
/// lifecycle.
pub open spec fn binary_eval_spec(
    m: Map<u64, Option<Value>>,
    first: Operand,
    second: Operand,
    dest: Register,
    op: Opcode,
    semantics: spec_fn(Literal, Literal) -> Option<Literal>,
) -> Result<Literal, Halt> {
    match resolved_literal(m, first) {
        Err(e) => Err(e),
        Ok(a) => match resolved_literal(m, second) {
            Err(e) => Err(e),
            Ok(b) => match semantics(a, b) {
                None => Err(Halt::InvalidInstruction { opcode: op }),
                Some(l) => if !m.contains_key(dest.locator) {
                    Err(Halt::UndefinedRegister { locator: dest.locator })
                } else if m[dest.locator] is Some {
                    Err(Halt::ReassignedRegister { locator: dest.locator })
                } else {
                    Ok(l)
                },
            },
        },
    }
}

/// Adds `first` with `second`, wrapping around at the boundary of the
/// type, and storing the outcome in `destination`.
#[derive(Clone, Debug, PartialEq, Eq)]
pub struct AddWrapped {
    pub operation: BinaryOperation,
}

impl AddWrapped {
    /// A well-formed instruction.
    pub open spec fn wf(&self) -> bool {
        self.operation.wf()
    }

    /// The first source operand.
    pub open spec fn first_op(&self) -> Operand {
        self.operation.first_op()
    }

    /// The second source operand.
    pub open spec fn second_op(&self) -> Operand {
        self.operation.second_op()
    }

    /// The destination register.
    pub open spec fn dest(&self) -> Register {
        self.operation.dest()
    }

    /// The instruction over two operands and a destination.
    pub fn new(first: Operand, second: Operand, destination: Register) -> (r: AddWrapped)
        ensures
            r.first_op() == first,
            r.second_op() == second,
            r.dest() == destination,
            first.wf() && second.wf() ==> r.wf(),
    {
        AddWrapped { operation: BinaryOperation::new(first, second, destination) }
    }

    /// The operands of the instruction.
    pub fn operands(&self) -> (r: &Vec<Operand>)
        requires
            self.wf(),
        ensures
            r@ == seq![self.first_op(), self.second_op()],
    {
        self.operation.operands()
    }

    /// The destination register of the instruction.
    pub fn destination(&self) -> (r: &Register)
        ensures
            *r == self.dest(),
    {
        self.operation.destination()
    }

    /// The opcode of this instruction kind.
    pub fn opcode() -> (r: Opcode)
        ensures
            r == Opcode::AddWrapped,
    {
        Opcode::AddWrapped
    }

    /// Evaluates the operation: resolves both operands, wraps their sum
    /// at the kind's width, and assigns the result to the destination.
    pub fn evaluate(&self, registers: &mut Registers) -> (r: Result<(), Halt>)
        requires
            self.wf(),
            old(registers).wf(),
        ensures
            final(registers).wf(),
            match (r, binary_eval_spec(
                old(registers)@,
                self.first_op(),
                self.second_op(),
                self.dest(),
                Opcode::AddWrapped,
                |a: Literal, b: Literal| add_wrapped_literals(a, b),
            )) {
                (Ok(()), Ok(l)) => final(registers)@ == old(registers)@.insert(
                    self.dest().locator,
                    Some(Value::Literal(l)),
                ),
                (Err(e), Err(se)) => halt_eqv(e, se) && final(registers)@ == old(registers)@,
                _ => false,
            },
    {
        let result = {
            let a = match load_literal(registers, self.operation.first()) {
                Ok(l) => l,
                Err(e) => {
                    return Err(e);
                },
            };
            let b = match load_literal(registers, self.operation.second()) {
                Ok(l) => l,
                Err(e) => {
                    return Err(e);
                },
            };
            match (a, b) {
                (Literal::I8(x), Literal::I8(y)) => Literal::I8(x.wrapping_add(*y)),
                (Literal::I16(x), Literal::I16(y)) => Literal::I16(x.wrapping_add(*y)),
                (Literal::I32(x), Literal::I32(y)) => Literal::I32(x.wrapping_add(*y)),
                (Literal::I64(x), Literal::I64(y)) => Literal::I64(x.wrapping_add(*y)),
                (Literal::I128(x), Literal::I128(y)) => Literal::I128(x.wrapping_add(*y)),
                (Literal::U8(x), Literal::U8(y)) => Literal::U8(x.wrapping_add(*y)),
                (Literal::U16(x), Literal::U16(y)) => Literal::U16(x.wrapping_add(*y)),
                (Literal::U32(x), Literal::U32(y)) => Literal::U32(x.wrapping_add(*y)),
                (Literal::U64(x), Literal::U64(y)) => Literal::U64(x.wrapping_add(*y)),
                (Literal::U128(x), Literal::U128(y)) => Literal::U128(x.wrapping_add(*y)),
                _ => {
                    return Err(Halt::InvalidInstruction { opcode: Opcode::AddWrapped });
                },
            }
        };
        match registers.assign(self.operation.destination(), Value::Literal(result)) {
            Ok(()) => Ok(()),
            Err(e) => Err(e),
        }
    }
}

} // verus!
