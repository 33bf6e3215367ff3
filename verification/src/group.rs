//! Group elements, held by their canonical coordinate.
//!
//! A group literal travels through programs as the x-coordinate of an
//! affine point, one field element; recovering and validating the point
//! itself is curve arithmetic and belongs to the external libraries. The
//! model therefore holds the coordinate, which is all the instruction
//! core reads: identity, bits, bytes and text.
use vstd::prelude::*;

use crate::field::Field;
use crate::limbs::bits_val;

verus! {

/// A group element, as its canonical x-coordinate.
#[derive(Clone, Copy, Debug, PartialEq, Eq, Structural)]
pub struct Group {
    pub x: Field,
}

impl Group {
    /// The coordinate value.
    pub open spec fn value(&self) -> nat {
        self.x.value()
    }

    /// Canonical: the coordinate is canonical.
    pub open spec fn wf(&self) -> bool {
        self.x.wf()
    }

    /// The group element over a coordinate.
    pub fn from_field(x: Field) -> (r: Group)
        ensures
            r.x == x,
    {
        Group { x }
    }

    /// The canonical 253 bits of the coordinate, little endian.
    pub fn to_bits_le(&self) -> (r: Vec<bool>)
        requires
            self.wf(),
        ensures
            r@.len() == 253,
            bits_val(r@) == self.value(),
    {
        self.x.to_bits_le()
    }
}

} // verus!
