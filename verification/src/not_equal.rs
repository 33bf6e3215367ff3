//! Inequality.
//!
//! Checks that `first` is not equal to `second`, storing the outcome in
//! `destination`. The equality relation is defined for field elements;
//! the result is always a boolean. Every other kind combination is a
//! fatal halt.
use vstd::prelude::*;

use crate::add_wrapped::binary_eval_spec;
use crate::errors::{Halt, halt_eqv};
use crate::literal::Literal;
use crate::opcode::Opcode;
use crate::operand::{Operand, load_literal};
use crate::operation::BinaryOperation;
use crate::registers::{Register, Registers, Value};

verus! {

/// Whether two literals of a kind with an equality relation differ;
/// `None` for every pair of kinds outside that relation.
pub open spec fn not_equal_literals(a: Literal, b: Literal) -> Option<Literal> {
    match (a, b) {
        (Literal::Field(x), Literal::Field(y)) => Some(Literal::Boolean(x.value() != y.value())),
        _ => None,
    }
}

/// Checks that `first` is not equal to `second`, storing the outcome in
/// `destination`.
#[derive(Clone, Debug, PartialEq, Eq)]
pub struct NotEqual {
    pub operation: BinaryOperation,
}

impl NotEqual {
    /// A well-formed instruction.
    pub open spec fn wf(&self) -> bool {
        self.operation.wf()
    }

    /// The first source operand.
    pub open spec fn first_op(&self) -> Operand {
        self.operation.first_op()
    }

    /// The second source operand.
    pub open spec fn second_op(&self) -> Operand {
        self.operation.second_op()
    }

    /// The destination register.
    pub open spec fn dest(&self) -> Register {
        self.operation.dest()
    }

    /// The instruction over two operands and a destination.
    pub fn new(first: Operand, second: Operand, destination: Register) -> (r: NotEqual)
        ensures
            r.first_op() == first,
            r.second_op() == second,
            r.dest() == destination,
            first.wf() && second.wf() ==> r.wf(),
    {
        NotEqual { operation: BinaryOperation::new(first, second, destination) }
    }

    /// The operands of the instruction.
    pub fn operands(&self) -> (r: &Vec<Operand>)
        requires
            self.wf(),
        ensures
            r@ == seq![self.first_op(), self.second_op()],
    {
        self.operation.operands()
    }

    /// The destination register of the instruction.
    pub fn destination(&self) -> (r: &Register)
        ensures
            *r == self.dest(),
    {
        self.operation.destination()
    }

    /// The opcode of this instruction kind.
    pub fn opcode() -> (r: Opcode)
        ensures
            r == Opcode::NotEqual,
    {
        Opcode::NotEqual
    }

    /// Evaluates the operation: resolves both operands, compares them
    /// under the field equality relation, and assigns the boolean outcome
    /// to the destination.
    pub fn evaluate(&self, registers: &mut Registers) -> (r: Result<(), Halt>)
        requires
            self.wf(),
            old(registers).wf(),
        ensures
            final(registers).wf(),
            match (r, binary_eval_spec(
                old(registers)@,
                self.first_op(),
                self.second_op(),
                self.dest(),
                Opcode::NotEqual,
                |a: Literal, b: Literal| not_equal_literals(a, b),
            )) {
                (Ok(()), Ok(l)) => final(registers)@ == old(registers)@.insert(
                    self.dest().locator,
                    Some(Value::Literal(l)),
                ),
                (Err(e), Err(se)) => halt_eqv(e, se) && final(registers)@ == old(registers)@,
                _ => false,
            },
    {
        let result = {
            let a = match load_literal(registers, self.operation.first()) {
                Ok(l) => l,
                Err(e) => {
                    return Err(e);
                },
            };
            let b = match load_literal(registers, self.operation.second()) {
                Ok(l) => l,
                Err(e) => {
                    return Err(e);
                },
            };
            match (a, b) {
                (Literal::Field(x), Literal::Field(y)) => Literal::Boolean(!x.equals(y)),
                _ => {
                    return Err(Halt::InvalidInstruction { opcode: Opcode::NotEqual });
                },
            }
        };
        match registers.assign(self.operation.destination(), Value::Literal(result)) {
            Ok(()) => Ok(()),
            Err(e) => Err(e),
        }
    }
}

} // verus!
