//! The shared shape of instructions: source operands and a destination.
//!
//! Operand arity is fixed per instruction kind: a binary operation holds
//! exactly two source operands, a unary operation exactly one, and each
//! holds the single destination register its result is written to.
use vstd::prelude::*;

use crate::operand::Operand;
use crate::registers::Register;

verus! {

/// Two source operands and a destination register.
#[derive(Clone, Debug, PartialEq, Eq)]
pub struct BinaryOperation {
    pub operands: Vec<Operand>,
    pub destination: Register,
}

impl BinaryOperation {
    /// Exactly two well-formed operands.
    pub open spec fn wf(&self) -> bool {
        self.operands@.len() == 2 && self.operands@[0].wf() && self.operands@[1].wf()
    }

    /// The first source operand.
    pub open spec fn first_op(&self) -> Operand {
        self.operands@[0]
    }

    /// The second source operand.
    pub open spec fn second_op(&self) -> Operand {
        self.operands@[1]
    }

    /// The destination register.
    pub open spec fn dest(&self) -> Register {
        self.destination
    }

    pub fn new(first: Operand, second: Operand, destination: Register) -> (r: BinaryOperation)
        ensures
            r.first_op() == first,
            r.second_op() == second,
            r.dest() == destination,
            first.wf() && second.wf() ==> r.wf(),
    {
        let mut operands: Vec<Operand> = Vec::new();
        operands.push(first);
        operands.push(second);
        BinaryOperation { operands, destination }
    }

    /// The operands, in declaration order.
    pub fn operands(&self) -> (r: &Vec<Operand>)
        requires
            self.wf(),
        ensures
            r@ == seq![self.first_op(), self.second_op()],
    {
        proof {
            assert(self.operands@ =~= seq![self.first_op(), self.second_op()]);
        }
        &self.operands
    }

    /// The first source operand.
    pub fn first(&self) -> (r: &Operand)
        requires
            self.wf(),
        ensures
            *r == self.first_op(),
    {
        &self.operands[0]
    }

    /// The second source operand.
    pub fn second(&self) -> (r: &Operand)
        requires
            self.wf(),
        ensures
            *r == self.second_op(),
    {
        &self.operands[1]
    }

    /// The destination register.
    pub fn destination(&self) -> (r: &Register)
        ensures
            *r == self.dest(),
    {
        &self.destination
    }
}

/// One source operand and a destination register.
#[derive(Clone, Debug, PartialEq, Eq)]
pub struct UnaryOperation {
    pub operands: Vec<Operand>,
    pub destination: Register,
}

impl UnaryOperation {
    /// Exactly one well-formed operand.
    pub open spec fn wf(&self) -> bool {
        self.operands@.len() == 1 && self.operands@[0].wf()
    }

    /// The source operand.
    pub open spec fn first_op(&self) -> Operand {
        self.operands@[0]
    }

    /// The destination register.
    pub open spec fn dest(&self) -> Register {
        self.destination
    }

    pub fn new(first: Operand, destination: Register) -> (r: UnaryOperation)
        ensures
            r.first_op() == first,
            r.dest() == destination,
            first.wf() ==> r.wf(),
    {
        let mut operands: Vec<Operand> = Vec::new();
        operands.push(first);
        UnaryOperation { operands, destination }
    }

    /// The operands: the single source.
    pub fn operands(&self) -> (r: &Vec<Operand>)
        requires
            self.wf(),
        ensures
            r@ == seq![self.first_op()],
    {
        proof {
            assert(self.operands@ =~= seq![self.first_op()]);
        }
        &self.operands
    }

    /// The source operand.
    pub fn first(&self) -> (r: &Operand)
        requires
            self.wf(),
        ensures
            *r == self.first_op(),
    {
        &self.operands[0]
    }

    /// The destination register.
    pub fn destination(&self) -> (r: &Register)
        ensures
            *r == self.dest(),
    {
        &self.destination
    }
}

} // verus!
