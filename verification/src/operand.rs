//! Operands and their resolution.
//!
//! An operand is either an immediate literal — possibly carrying a
//! visibility suffix for the circuit environment — or a register
//! reference, possibly with a member path into a composite value.
//! Resolution turns an operand and a store into the literal it stands
//! for; every way that can fail is a distinct fatal halt.
use vstd::prelude::*;

use crate::errors::{Halt, halt_eqv};
use crate::identifier::Identifier;
use crate::literal::Literal;
use crate::mode::Mode;
use crate::registers::{Register, Registers, Value};

verus! {

/// An operand: an immediate literal with an optional visibility, or a
/// register with an optional member path.
#[derive(Clone, Debug, PartialEq, Eq)]
pub enum Operand {
    Literal(Literal, Option<Mode>),
    Register(Register, Option<Identifier>),
}

impl Operand {
    /// A well-formed operand.
    pub open spec fn wf(&self) -> bool {
        match *self {
            Operand::Literal(l, _) => l.wf(),
            Operand::Register(_, m) => match m {
                Some(id) => id.wf(),
                None => true,
            },
        }
    }
}

/// The first member of a composite carrying a name.
pub open spec fn member_lookup(members: Seq<(Identifier, Literal)>, name: Seq<u8>) -> Option<
    Literal,
>
    decreases members.len(),
{
    if members.len() == 0 {
        None
    } else if members[0].0@ == name {
        Some(members[0].1)
    } else {
        member_lookup(members.skip(1), name)
    }
}

/// What resolving an operand against a store yields where a bare literal
/// is required: the literal itself, or the halt the resolution owes — an
/// undefined or unassigned register, a composite without a member path,
/// a member path into a bare literal, or a member the composite lacks.
pub open spec fn resolved_literal(m: Map<u64, Option<Value>>, op: Operand) -> Result<
    Literal,
    Halt,
> {
    match op {
        Operand::Literal(l, _) => Ok(l),
        Operand::Register(reg, member) => if !m.contains_key(reg.locator) {
            Err(Halt::UndefinedRegister { locator: reg.locator })
        } else {
            match m[reg.locator] {
                None => Err(Halt::UnassignedRegister { locator: reg.locator }),
                Some(Value::Literal(l)) => match member {
                    None => Ok(l),
                    Some(_) => Err(Halt::MemberOfLiteral { locator: reg.locator }),
                },
                Some(Value::Composite(cname, members)) => match member {
                    None => Err(Halt::NotALiteral { name: cname }),
                    Some(mname) => match member_lookup(members@, mname@) {
                        Some(l) => Ok(l),
                        None => Err(Halt::UnknownMember { name: mname }),
                    },
                },
            }
        },
    }
}

/// The first member of a composite carrying a name, by scan.
fn find_member<'a>(members: &'a Vec<(Identifier, Literal)>, name: &Identifier) -> (r: Option<
    &'a Literal,
>)
    ensures
        match (r, member_lookup(members@, name@)) {
            (Some(l), Some(sl)) => *l == sl,
            (None, None) => true,
            _ => false,
        },
        match r {
            Some(l) => (forall|i: int|
                0 <= i < members@.len() ==> (#[trigger] members@[i]).1.wf()) ==> l.wf(),
            None => true,
        },
{
    let mut i: usize = 0;
    proof {
        assert(members@.skip(0) =~= members@);
    }
    while i < members.len()
        invariant
            i <= members@.len(),
            member_lookup(members@.skip(i as int), name@) == member_lookup(members@, name@),
        decreases members@.len() - i,
    {
        proof {
            assert(members@.skip(i as int)[0] == members@[i as int]);
            assert(members@.skip(i as int).skip(1) =~= members@.skip(i + 1));
        }
        if members[i].0.name_equals(name) {
            return Some(&members[i].1);
        }
        i = i + 1;
    }
    proof {
        assert(members@.skip(members@.len() as int) =~= Seq::<(Identifier, Literal)>::empty());
    }
    None
}

/// Resolves an operand to the bare literal it stands for, halting as
/// `resolved_literal` says.
pub fn load_literal<'a>(registers: &'a Registers, op: &'a Operand) -> (r: Result<
    &'a Literal,
    Halt,
>)
    requires
        registers.wf(),
    ensures
        match (r, resolved_literal(registers@, *op)) {
            (Ok(l), Ok(sl)) => *l == sl,
            (Err(e), Err(se)) => halt_eqv(e, se),
            _ => false,
        },
        match r {
            Ok(l) => registers.values_wf() && op.wf() ==> l.wf(),
            Err(_) => true,
        },
{
    match op {
        Operand::Literal(l, _) => Ok(l),
        Operand::Register(reg, member) => {
            let v = match registers.load(reg) {
                Ok(v) => v,
                Err(e) => {
                    return Err(e);
                },
            };
            match v {
                Value::Literal(l) => match member {
                    None => Ok(l),
                    Some(_) => Err(Halt::MemberOfLiteral { locator: reg.locator }),
                },
                Value::Composite(cname, members) => match member {
                    None => Err(Halt::NotALiteral { name: cname.clone() }),
                    Some(mname) => match find_member(members, mname) {
                        Some(l) => Ok(l),
                        None => Err(Halt::UnknownMember { name: mname.clone() }),
                    },
                },
            }
        },
    }
}

} // verus!
