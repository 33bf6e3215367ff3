//! The halt channel.
//!
//! A violated precondition during evaluation is fatal to the whole
//! execution: the offending instruction proves the program malformed, and
//! continuing would silently build a wrong circuit. The abort is modelled
//! as a distinguishable error value carried up through every `evaluate`,
//! so a host may abort the process or surface the condition, while the
//! fail-fast semantics stay testable. Parse and decode failures are the
//! recoverable counterpart and use ordinary `Option` results at the
//! boundary instead.
use vstd::prelude::*;

use crate::identifier::Identifier;
use crate::opcode::Opcode;

verus! {

/// A fatal evaluation failure, named after the condition that raised it.
#[derive(Clone, Debug, PartialEq, Eq)]
pub enum Halt {
    /// A composite value stood where a literal was required; carries the
    /// composite's name.
    NotALiteral { name: Identifier },
    /// The operand kinds are not among the combinations the opcode
    /// supports.
    InvalidInstruction { opcode: Opcode },
    /// A register was read or written without having been defined.
    UndefinedRegister { locator: u64 },
    /// A register was read before being assigned.
    UnassignedRegister { locator: u64 },
    /// A register was defined twice.
    RedefinedRegister { locator: u64 },
    /// A register was assigned twice.
    ReassignedRegister { locator: u64 },
    /// A member path reached into a value that is not a composite.
    MemberOfLiteral { locator: u64 },
    /// A member path named a field the composite does not carry.
    UnknownMember { name: Identifier },
    /// More bits were requested from a field element than it has.
    ExcessiveBitWidth { bits: u64 },
    /// A field element did not fit in the requested lower bits.
    UpperBitsNonzero { bits: u64 },
    /// Bits meant to recover an identifier exceed its capacity.
    IdentifierTooLarge,
    /// Bits meant to recover an identifier name no well-formed identifier.
    MalformedIdentifier,
}

/// Whether two halts name one condition: the same variant, with the
/// carried identifiers compared as names.
pub open spec fn halt_eqv(a: Halt, b: Halt) -> bool {
    match (a, b) {
        (Halt::NotALiteral { name: x }, Halt::NotALiteral { name: y }) => x@ == y@,
        (Halt::InvalidInstruction { opcode: x }, Halt::InvalidInstruction { opcode: y }) => x == y,
        (Halt::UndefinedRegister { locator: x }, Halt::UndefinedRegister { locator: y }) => x == y,
        (Halt::UnassignedRegister { locator: x }, Halt::UnassignedRegister { locator: y }) => x
            == y,
        (Halt::RedefinedRegister { locator: x }, Halt::RedefinedRegister { locator: y }) => x == y,
        (Halt::ReassignedRegister { locator: x }, Halt::ReassignedRegister { locator: y }) => x
            == y,
        (Halt::MemberOfLiteral { locator: x }, Halt::MemberOfLiteral { locator: y }) => x == y,
        (Halt::UnknownMember { name: x }, Halt::UnknownMember { name: y }) => x@ == y@,
        (Halt::ExcessiveBitWidth { bits: x }, Halt::ExcessiveBitWidth { bits: y }) => x == y,
        (Halt::UpperBitsNonzero { bits: x }, Halt::UpperBitsNonzero { bits: y }) => x == y,
        (Halt::IdentifierTooLarge, Halt::IdentifierTooLarge) => true,
        (Halt::MalformedIdentifier, Halt::MalformedIdentifier) => true,
        _ => false,
    }
}

} // verus!
