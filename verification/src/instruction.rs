//! The closed set of instructions.
//!
//! One variant per supported opcode; each bundles its operand list and
//! destination register and is the unit of parsing, evaluation and
//! serialization.
use vstd::prelude::*;

use crate::add_wrapped::{AddWrapped, add_wrapped_literals, binary_eval_spec};
use crate::errors::{Halt, halt_eqv};
use crate::hash::{HashInstruction, hash_output, unary_eval_spec};
use crate::literal::Literal;
use crate::model::{InstrModel, instr_model_wf, operand_model};
use crate::not_equal::{NotEqual, not_equal_literals};
use crate::opcode::Opcode;
use crate::registers::{Registers, Value};

verus! {

/// An instruction: one variant per opcode.
#[derive(Clone, Debug, PartialEq, Eq)]
pub enum Instruction {
    AddWrapped(AddWrapped),
    NotEqual(NotEqual),
    Hash(HashInstruction),
}

impl Instruction {
    /// A well-formed instruction.
    pub open spec fn wf(&self) -> bool {
        match *self {
            Instruction::AddWrapped(i) => i.wf(),
            Instruction::NotEqual(i) => i.wf(),
            Instruction::Hash(i) => i.wf(),
        }
    }

    /// The model of this instruction.
    pub open spec fn model(&self) -> InstrModel {
        match *self {
            Instruction::AddWrapped(i) => InstrModel::AddWrapped(
                operand_model(i.first_op()),
                operand_model(i.second_op()),
                i.dest().locator,
            ),
            Instruction::NotEqual(i) => InstrModel::NotEqual(
                operand_model(i.first_op()),
                operand_model(i.second_op()),
                i.dest().locator,
            ),
            Instruction::Hash(i) => InstrModel::Hash(
                i.kind,
                operand_model(i.first_op()),
                i.dest().locator,
            ),
        }
    }

    /// A well-formed instruction has a well-formed model.
    pub proof fn lemma_model_wf(&self)
        requires
            self.wf(),
        ensures
            instr_model_wf(self.model()),
    {
    }

    /// The opcode of this instruction.
    pub fn opcode(&self) -> (r: Opcode)
        ensures
            r == (match *self {
                Instruction::AddWrapped(_) => Opcode::AddWrapped,
                Instruction::NotEqual(_) => Opcode::NotEqual,
                Instruction::Hash(i) => Opcode::Hash(i.kind),
            }),
    {
        match self {
            Instruction::AddWrapped(_) => Opcode::AddWrapped,
            Instruction::NotEqual(_) => Opcode::NotEqual,
            Instruction::Hash(i) => Opcode::Hash(i.kind),
        }
    }

    /// What one evaluation of this instruction yields against a store.
    pub open spec fn eval_spec(&self, m: Map<u64, Option<Value>>) -> Result<Literal, Halt> {
        match *self {
            Instruction::AddWrapped(i) => binary_eval_spec(
                m,
                i.first_op(),
                i.second_op(),
                i.dest(),
                Opcode::AddWrapped,
                |a: Literal, b: Literal| add_wrapped_literals(a, b),
            ),
            Instruction::NotEqual(i) => binary_eval_spec(
                m,
                i.first_op(),
                i.second_op(),
                i.dest(),
                Opcode::NotEqual,
                |a: Literal, b: Literal| not_equal_literals(a, b),
            ),
            Instruction::Hash(i) => unary_eval_spec(
                m,
                i.first_op(),
                i.dest(),
                Opcode::Hash(i.kind),
                |l: Literal| hash_output(i.kind, l),
            ),
        }
    }

    /// The destination locator of this instruction.
    pub open spec fn dest_locator(&self) -> u64 {
        match *self {
            Instruction::AddWrapped(i) => i.dest().locator,
            Instruction::NotEqual(i) => i.dest().locator,
            Instruction::Hash(i) => i.dest().locator,
        }
    }

    /// Evaluates this instruction: resolves its operands, computes its
    /// result, and writes it to the destination. The one side effect is
    /// that single register assignment.
    pub fn evaluate(&self, registers: &mut Registers) -> (r: Result<(), Halt>)
        requires
            self.wf(),
            old(registers).wf(),
            old(registers).values_wf(),
        ensures
            final(registers).wf(),
            match (r, self.eval_spec(old(registers)@)) {
                (Ok(()), Ok(l)) => final(registers)@ == old(registers)@.insert(
                    self.dest_locator(),
                    Some(Value::Literal(l)),
                ),
                (Err(e), Err(se)) => halt_eqv(e, se) && final(registers)@ == old(registers)@,
                _ => false,
            },
    {
        match self {
            Instruction::AddWrapped(i) => i.evaluate(registers),
            Instruction::NotEqual(i) => i.evaluate(registers),
            Instruction::Hash(i) => i.evaluate(registers),
        }
    }
}

} // verus!
