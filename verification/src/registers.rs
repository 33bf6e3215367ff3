//! Values and the register store.
//!
//! A value is a bare literal or a composite: a named aggregate of named
//! literals. A register is a numbered slot for one value. The store owns
//! every value it holds and enforces the single-assignment lifecycle:
//! a register is defined once, assigned once after that, and may then be
//! read any number of times. Each violation is its own fatal halt.
use vstd::prelude::*;

use crate::errors::Halt;
use crate::identifier::Identifier;
use crate::literal::Literal;

verus! {

/// A value: a bare literal, or a composite of named members.
#[derive(Clone, Debug, PartialEq, Eq)]
pub enum Value {
    Literal(Literal),
    Composite(Identifier, Vec<(Identifier, Literal)>),
}

impl Value {
    /// A well-formed value: literals well formed, composite and member
    /// names well formed.
    pub open spec fn wf(&self) -> bool {
        match *self {
            Value::Literal(l) => l.wf(),
            Value::Composite(name, members) => name.wf() && forall|i: int|
                0 <= i < members@.len() ==> (#[trigger] members@[i]).0.wf() && members@[i].1.wf(),
        }
    }
}

/// A register: an opaque numbered storage slot.
#[derive(Clone, Copy, Debug, PartialEq, Eq, Structural)]
pub struct Register {
    pub locator: u64,
}

impl Register {
    pub fn new(locator: u64) -> (r: Register)
        ensures
            r.locator == locator,
    {
        Register { locator }
    }
}

/// The map a slot list stands for: each defined locator to its optional
/// value.
pub open spec fn slots_map(s: Seq<(u64, Option<Value>)>) -> Map<u64, Option<Value>>
    decreases s.len(),
{
    if s.len() == 0 {
        Map::empty()
    } else {
        slots_map(s.drop_last()).insert(s.last().0, s.last().1)
    }
}

/// With distinct locators, the map reads each slot back exactly.
proof fn lemma_slots_map_index(s: Seq<(u64, Option<Value>)>, i: int)
    requires
        0 <= i < s.len(),
        forall|a: int, b: int| 0 <= a < b < s.len() ==> (#[trigger] s[a]).0 != (#[trigger] s[b]).0,
    ensures
        slots_map(s).contains_key(s[i].0),
        slots_map(s)[s[i].0] == s[i].1,
    decreases s.len(),
{
    if i == s.len() - 1 {
    } else {
        lemma_slots_map_index(s.drop_last(), i);
        assert(s.drop_last()[i] == s[i]);
        assert(s[i].0 != s.last().0);
    }
}

/// A locator on no slot is not in the map.
proof fn lemma_slots_map_absent(s: Seq<(u64, Option<Value>)>, k: u64)
    requires
        forall|i: int| 0 <= i < s.len() ==> (#[trigger] s[i]).0 != k,
    ensures
        !slots_map(s).contains_key(k),
    decreases s.len(),
{
    if s.len() > 0 {
        lemma_slots_map_absent(s.drop_last(), k);
    }
}

/// Updating a slot in place updates its key in the map, with distinct
/// locators.
proof fn lemma_slots_map_update(s: Seq<(u64, Option<Value>)>, i: int, v: Option<Value>)
    requires
        0 <= i < s.len(),
        forall|a: int, b: int| 0 <= a < b < s.len() ==> (#[trigger] s[a]).0 != (#[trigger] s[b]).0,
    ensures
        slots_map(s.update(i, (s[i].0, v))) == slots_map(s).insert(s[i].0, v),
    decreases s.len(),
{
    let t = s.update(i, (s[i].0, v));
    if i == s.len() - 1 {
        assert(t.drop_last() =~= s.drop_last());
        assert(slots_map(t) == slots_map(s.drop_last()).insert(s[i].0, v));
        assert(slots_map(s).insert(s[i].0, v) =~= slots_map(s.drop_last()).insert(s[i].0, v));
    } else {
        assert(t.drop_last() =~= s.drop_last().update(i, (s[i].0, v)));
        assert(t.last() == s.last());
        lemma_slots_map_update(s.drop_last(), i, v);
        assert(s.drop_last()[i] == s[i]);
        assert(s[i].0 != s.last().0);
        assert(slots_map(s.drop_last()).insert(s[i].0, v).insert(s.last().0, s.last().1)
            =~= slots_map(s.drop_last()).insert(s.last().0, s.last().1).insert(s[i].0, v));
    }
}

/// The register store: a mapping from locator to current value, created
/// empty per execution, populated by `define` and `assign`, read by
/// `load`.
pub struct Registers {
    slots: Vec<(u64, Option<Value>)>,
}

impl View for Registers {
    type V = Map<u64, Option<Value>>;

    /// The store as a map: each defined locator to `None` before
    /// assignment, `Some` after.
    closed spec fn view(&self) -> Map<u64, Option<Value>> {
        slots_map(self.slots@)
    }
}

impl Registers {
    /// The store keeps one slot per locator.
    pub closed spec fn wf(&self) -> bool {
        forall|a: int, b: int|
            0 <= a < b < self.slots@.len() ==> (#[trigger] self.slots@[a]).0 != (
            #[trigger] self.slots@[b]).0
    }

    /// All assigned values are well formed.
    pub open spec fn values_wf(&self) -> bool {
        forall|k: u64|
            self@.contains_key(k) ==> match #[trigger] self@[k] {
                Some(v) => v.wf(),
                None => true,
            }
    }

    /// An empty store.
    pub fn new() -> (r: Registers)
        ensures
            r@ == Map::<u64, Option<Value>>::empty(),
            r.wf(),
    {
        Registers { slots: Vec::new() }
    }

    /// The slot index of a locator, if the locator is defined.
    fn find(&self, locator: u64) -> (r: Option<usize>)
        requires
            self.wf(),
        ensures
            match r {
                Some(i) => i < self.slots@.len() && self.slots@[i as int].0 == locator
                    && self@.contains_key(locator) && self@[locator] == self.slots@[i as int].1,
                None => !self@.contains_key(locator) && forall|j: int|
                    0 <= j < self.slots@.len() ==> (#[trigger] self.slots@[j]).0 != locator,
            },
    {
        let mut i: usize = 0;
        while i < self.slots.len()
            invariant
                i <= self.slots@.len(),
                self.wf(),
                forall|j: int| 0 <= j < i ==> (#[trigger] self.slots@[j]).0 != locator,
            decreases self.slots@.len() - i,
        {
            if self.slots[i].0 == locator {
                proof {
                    lemma_slots_map_index(self.slots@, i as int);
                }
                return Some(i);
            }
            i = i + 1;
        }
        proof {
            lemma_slots_map_absent(self.slots@, locator);
        }
        None
    }

    /// Defines a register: makes the slot eligible for one assignment.
    /// Defining a register twice is a fatal programming error.
    pub fn define(&mut self, register: &Register) -> (r: Result<(), Halt>)
        requires
            old(self).wf(),
        ensures
            final(self).wf(),
            match r {
                Ok(()) => !old(self)@.contains_key(register.locator) && final(self)@ == old(
                    self,
                )@.insert(register.locator, None::<Value>),
                Err(e) => old(self)@.contains_key(register.locator) && final(self)@ == old(self)@
                    && e == (Halt::RedefinedRegister { locator: register.locator }),
            },
    {
        match self.find(register.locator) {
            Some(_) => Err(Halt::RedefinedRegister { locator: register.locator }),
            None => {
                let ghost pre = self.slots@;
                self.slots.push((register.locator, None));
                proof {
                    assert(self.slots@.drop_last() =~= pre);
                }
                Ok(())
            },
        }
    }

    /// Assigns a value to a defined, not yet assigned register.
    pub fn assign(&mut self, register: &Register, value: Value) -> (r: Result<(), Halt>)
        requires
            old(self).wf(),
        ensures
            final(self).wf(),
            match r {
                Ok(()) => old(self)@.contains_key(register.locator) && old(self)@[register.locator]
                    is None && final(self)@ == old(self)@.insert(register.locator, Some(value)),
                Err(e) => final(self)@ == old(self)@ && if !old(self)@.contains_key(
                    register.locator,
                ) {
                    e == (Halt::UndefinedRegister { locator: register.locator })
                } else {
                    old(self)@[register.locator] is Some && e == (Halt::ReassignedRegister {
                        locator: register.locator,
                    })
                },
            },
    {
        match self.find(register.locator) {
            None => Err(Halt::UndefinedRegister { locator: register.locator }),
            Some(i) => {
                if self.slots[i].1.is_some() {
                    Err(Halt::ReassignedRegister { locator: register.locator })
                } else {
                    let ghost pre = self.slots@;
                    proof {
                        lemma_slots_map_update(pre, i as int, Some(value));
                    }
                    self.slots[i] = (register.locator, Some(value));
                    proof {
                        assert(self.slots@ =~= pre.update(i as int, (register.locator, Some(
                        value))));
                    }
                    Ok(())
                }
            },
        }
    }

    /// Loads the value of an assigned register; the store keeps the
    /// canonical value and hands out a view.
    pub fn load(&self, register: &Register) -> (r: Result<&Value, Halt>)
        requires
            self.wf(),
        ensures
            match r {
                Ok(v) => self@.contains_key(register.locator) && self@[register.locator] == Some(
                    *v,
                ),
                Err(e) => if !self@.contains_key(register.locator) {
                    e == (Halt::UndefinedRegister { locator: register.locator })
                } else {
                    self@[register.locator] is None && e == (Halt::UnassignedRegister {
                        locator: register.locator,
                    })
                },
            },
    {
        match self.find(register.locator) {
            None => Err(Halt::UndefinedRegister { locator: register.locator }),
            Some(i) => match &self.slots[i].1 {
                Some(v) => Ok(v),
                None => Err(Halt::UnassignedRegister { locator: register.locator }),
            },
        }
    }
}

} // verus!
