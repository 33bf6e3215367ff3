//! The laws of the instruction core.
//!
//! Each law is stated over the spec functions the public contracts use,
//! so it binds every implementation that meets them.
use vstd::prelude::*;

use crate::add_wrapped::{add_wrapped_literals, binary_eval_spec};
use crate::errors::Halt;
use crate::identifier::Identifier;
use crate::literal::Literal;
use crate::opcode::Opcode;
use crate::operand::{Operand, resolved_literal};
use crate::registers::{Register, Value};

verus! {

/// Wrap-around at the type boundary: at every signed width, the largest
/// value plus one wraps to the smallest, and the smallest plus negative
/// one wraps back to the largest; at every unsigned width, the largest
/// value plus one wraps to zero, and zero plus the largest wraps to the
/// largest.
pub proof fn lemma_add_wrapped_boundary()
    ensures
        add_wrapped_literals(Literal::I8(i8::MAX), Literal::I8(1)) == Some(
            Literal::I8(i8::MIN),
        ),
        add_wrapped_literals(Literal::I8(i8::MIN), Literal::I8(-1i8)) == Some(
            Literal::I8(i8::MAX),
        ),
        add_wrapped_literals(Literal::I16(i16::MAX), Literal::I16(1)) == Some(
            Literal::I16(i16::MIN),
        ),
        add_wrapped_literals(Literal::I16(i16::MIN), Literal::I16(-1i16)) == Some(
            Literal::I16(i16::MAX),
        ),
        add_wrapped_literals(Literal::I32(i32::MAX), Literal::I32(1)) == Some(
            Literal::I32(i32::MIN),
        ),
        add_wrapped_literals(Literal::I32(i32::MIN), Literal::I32(-1i32)) == Some(
            Literal::I32(i32::MAX),
        ),
        add_wrapped_literals(Literal::I64(i64::MAX), Literal::I64(1)) == Some(
            Literal::I64(i64::MIN),
        ),
        add_wrapped_literals(Literal::I64(i64::MIN), Literal::I64(-1i64)) == Some(
            Literal::I64(i64::MAX),
        ),
        add_wrapped_literals(Literal::I128(i128::MAX), Literal::I128(1)) == Some(
            Literal::I128(i128::MIN),
        ),
        add_wrapped_literals(Literal::I128(i128::MIN), Literal::I128(-1i128)) == Some(
            Literal::I128(i128::MAX),
        ),
        add_wrapped_literals(Literal::U8(u8::MAX), Literal::U8(1)) == Some(Literal::U8(0)),
        add_wrapped_literals(Literal::U8(u8::MIN), Literal::U8(u8::MAX)) == Some(
            Literal::U8(u8::MAX),
        ),
        add_wrapped_literals(Literal::U16(u16::MAX), Literal::U16(1)) == Some(Literal::U16(0)),
        add_wrapped_literals(Literal::U16(u16::MIN), Literal::U16(u16::MAX)) == Some(
            Literal::U16(u16::MAX),
        ),
        add_wrapped_literals(Literal::U32(u32::MAX), Literal::U32(1)) == Some(Literal::U32(0)),
        add_wrapped_literals(Literal::U32(u32::MIN), Literal::U32(u32::MAX)) == Some(
            Literal::U32(u32::MAX),
        ),
        add_wrapped_literals(Literal::U64(u64::MAX), Literal::U64(1)) == Some(Literal::U64(0)),
        add_wrapped_literals(Literal::U64(u64::MIN), Literal::U64(u64::MAX)) == Some(
            Literal::U64(u64::MAX),
        ),
        add_wrapped_literals(Literal::U128(u128::MAX), Literal::U128(1)) == Some(
            Literal::U128(0),
        ),
        add_wrapped_literals(Literal::U128(u128::MIN), Literal::U128(u128::MAX)) == Some(
            Literal::U128(u128::MAX),
        ),
{
}

/// The wrap-around sum exists exactly for two literals of one integer
/// kind, and is then that same kind with the modular sum: for a signed
/// kind the sum reduced into the kind's symmetric range, for an unsigned
/// kind the sum reduced below the width.
#[verifier::rlimit(100)]
pub proof fn lemma_add_wrapped_exact(a: Literal, b: Literal)
    ensures
        match (a, b) {
        (Literal::I8(x), Literal::I8(y)) => add_wrapped_literals(a, b) matches Some(
            Literal::I8(z),
        ) && z as int == ((x + y + 0x80) % 0x100) - 0x80,
        (Literal::I16(x), Literal::I16(y)) => add_wrapped_literals(a, b) matches Some(
            Literal::I16(z),
        ) && z as int == ((x + y + 0x8000) % 0x1_0000) - 0x8000,
        (Literal::I32(x), Literal::I32(y)) => add_wrapped_literals(a, b) matches Some(
            Literal::I32(z),
        ) && z as int == ((x + y + 0x8000_0000) % 0x1_0000_0000) - 0x8000_0000,
        (Literal::I64(x), Literal::I64(y)) => add_wrapped_literals(a, b) matches Some(
            Literal::I64(z),
        ) && z as int == ((x + y + 0x8000_0000_0000_0000) % 0x1_0000_0000_0000_0000int) - 0x8000_0000_0000_0000,
        (Literal::I128(x), Literal::I128(y)) => add_wrapped_literals(a, b) matches Some(
            Literal::I128(z),
        ) && z as int == ((x + y + 0x8000_0000_0000_0000_0000_0000_0000_0000) % 0x1_0000_0000_0000_0000_0000_0000_0000_0000int) - 0x8000_0000_0000_0000_0000_0000_0000_0000,
        (Literal::U8(x), Literal::U8(y)) => add_wrapped_literals(a, b) matches Some(
            Literal::U8(z),
        ) && z as int == (x + y) % 0x100,
        (Literal::U16(x), Literal::U16(y)) => add_wrapped_literals(a, b) matches Some(
            Literal::U16(z),
        ) && z as int == (x + y) % 0x1_0000,
        (Literal::U32(x), Literal::U32(y)) => add_wrapped_literals(a, b) matches Some(
            Literal::U32(z),
        ) && z as int == (x + y) % 0x1_0000_0000,
        (Literal::U64(x), Literal::U64(y)) => add_wrapped_literals(a, b) matches Some(
            Literal::U64(z),
        ) && z as int == (x + y) % 0x1_0000_0000_0000_0000int,
        (Literal::U128(x), Literal::U128(y)) => add_wrapped_literals(a, b) matches Some(
            Literal::U128(z),
        ) && z as int == (x + y) % 0x1_0000_0000_0000_0000_0000_0000_0000_0000int,
        _ => add_wrapped_literals(a, b) is None,
        },
{
    match (a, b) {
        (Literal::I8(x), Literal::I8(y)) => {
            assert(vstd::wrapping::i8_specs::wrapping_add(x, y) as int == ((x + y + 0x80)
                % 0x100) - 0x80) by {
                if x + y > i8::MAX {
                    vstd::arithmetic::div_mod::lemma_small_mod(
                        (x + y + 0x80 - 0x100) as nat,
                        0x100,
                    );
                    vstd::arithmetic::div_mod::lemma_mod_add_multiples_vanish(
                        x + y + 0x80 - 0x100,
                        0x100,
                    );
                } else if x + y < i8::MIN {
                    vstd::arithmetic::div_mod::lemma_small_mod((x + y + 0x80 + 0x100) as nat, 0x100);
                    vstd::arithmetic::div_mod::lemma_mod_add_multiples_vanish(
                        x + y + 0x80,
                        0x100,
                    );
                } else {
                    vstd::arithmetic::div_mod::lemma_small_mod((x + y + 0x80) as nat, 0x100);
                }
            }
        },
        (Literal::I16(x), Literal::I16(y)) => {
            assert(vstd::wrapping::i16_specs::wrapping_add(x, y) as int == ((x + y + 0x8000)
                % 0x1_0000) - 0x8000) by {
                if x + y > i16::MAX {
                    vstd::arithmetic::div_mod::lemma_small_mod(
                        (x + y + 0x8000 - 0x1_0000) as nat,
                        0x1_0000,
                    );
                    vstd::arithmetic::div_mod::lemma_mod_add_multiples_vanish(
                        x + y + 0x8000 - 0x1_0000,
                        0x1_0000,
                    );
                } else if x + y < i16::MIN {
                    vstd::arithmetic::div_mod::lemma_small_mod((x + y + 0x8000 + 0x1_0000) as nat, 0x1_0000);
                    vstd::arithmetic::div_mod::lemma_mod_add_multiples_vanish(
                        x + y + 0x8000,
                        0x1_0000,
                    );
                } else {
                    vstd::arithmetic::div_mod::lemma_small_mod((x + y + 0x8000) as nat, 0x1_0000);
                }
            }
        },
        (Literal::I32(x), Literal::I32(y)) => {
            assert(vstd::wrapping::i32_specs::wrapping_add(x, y) as int == ((x + y + 0x8000_0000)
                % 0x1_0000_0000) - 0x8000_0000) by {
                if x + y > i32::MAX {
                    vstd::arithmetic::div_mod::lemma_small_mod(
                        (x + y + 0x8000_0000 - 0x1_0000_0000) as nat,
                        0x1_0000_0000,
                    );
                    vstd::arithmetic::div_mod::lemma_mod_add_multiples_vanish(
                        x + y + 0x8000_0000 - 0x1_0000_0000,
                        0x1_0000_0000,
                    );
                } else if x + y < i32::MIN {
                    vstd::arithmetic::div_mod::lemma_small_mod((x + y + 0x8000_0000 + 0x1_0000_0000) as nat, 0x1_0000_0000);
                    vstd::arithmetic::div_mod::lemma_mod_add_multiples_vanish(
                        x + y + 0x8000_0000,
                        0x1_0000_0000,
                    );
                } else {
                    vstd::arithmetic::div_mod::lemma_small_mod((x + y + 0x8000_0000) as nat, 0x1_0000_0000);
                }
            }
        },
        (Literal::I64(x), Literal::I64(y)) => {
            assert(vstd::wrapping::i64_specs::wrapping_add(x, y) as int == ((x + y + 0x8000_0000_0000_0000)
                % 0x1_0000_0000_0000_0000int) - 0x8000_0000_0000_0000) by {
                if x + y > i64::MAX {
                    vstd::arithmetic::div_mod::lemma_small_mod(
                        (x + y + 0x8000_0000_0000_0000 - 0x1_0000_0000_0000_0000int) as nat,
                        0x1_0000_0000_0000_0000nat,
                    );
                    vstd::arithmetic::div_mod::lemma_mod_add_multiples_vanish(
                        x + y + 0x8000_0000_0000_0000 - 0x1_0000_0000_0000_0000int,
                        0x1_0000_0000_0000_0000int,
                    );
                } else if x + y < i64::MIN {
                    vstd::arithmetic::div_mod::lemma_small_mod((x + y + 0x8000_0000_0000_0000 + 0x1_0000_0000_0000_0000int) as nat, 0x1_0000_0000_0000_0000nat);
                    vstd::arithmetic::div_mod::lemma_mod_add_multiples_vanish(
                        x + y + 0x8000_0000_0000_0000,
                        0x1_0000_0000_0000_0000int,
                    );
                } else {
                    vstd::arithmetic::div_mod::lemma_small_mod((x + y + 0x8000_0000_0000_0000) as nat, 0x1_0000_0000_0000_0000nat);
                }
            }
        },
        (Literal::I128(x), Literal::I128(y)) => {
            assert(vstd::wrapping::i128_specs::wrapping_add(x, y) as int == ((x + y + 0x8000_0000_0000_0000_0000_0000_0000_0000)
                % 0x1_0000_0000_0000_0000_0000_0000_0000_0000int) - 0x8000_0000_0000_0000_0000_0000_0000_0000) by {
                if x + y > i128::MAX {
                    vstd::arithmetic::div_mod::lemma_small_mod(
                        (x + y + 0x8000_0000_0000_0000_0000_0000_0000_0000 - 0x1_0000_0000_0000_0000_0000_0000_0000_0000int) as nat,
                        0x1_0000_0000_0000_0000_0000_0000_0000_0000nat,
                    );
                    vstd::arithmetic::div_mod::lemma_mod_add_multiples_vanish(
                        x + y + 0x8000_0000_0000_0000_0000_0000_0000_0000 - 0x1_0000_0000_0000_0000_0000_0000_0000_0000int,
                        0x1_0000_0000_0000_0000_0000_0000_0000_0000int,
                    );
                } else if x + y < i128::MIN {
                    vstd::arithmetic::div_mod::lemma_small_mod((x + y + 0x8000_0000_0000_0000_0000_0000_0000_0000 + 0x1_0000_0000_0000_0000_0000_0000_0000_0000int) as nat, 0x1_0000_0000_0000_0000_0000_0000_0000_0000nat);
                    vstd::arithmetic::div_mod::lemma_mod_add_multiples_vanish(
                        x + y + 0x8000_0000_0000_0000_0000_0000_0000_0000,
                        0x1_0000_0000_0000_0000_0000_0000_0000_0000int,
                    );
                } else {
                    vstd::arithmetic::div_mod::lemma_small_mod((x + y + 0x8000_0000_0000_0000_0000_0000_0000_0000) as nat, 0x1_0000_0000_0000_0000_0000_0000_0000_0000nat);
                }
            }
        },
        (Literal::U8(x), Literal::U8(y)) => {
            assert(vstd::wrapping::u8_specs::wrapping_add(x, y) as int == (x + y) % 0x100) by {
                if x + y > u8::MAX {
                    vstd::arithmetic::div_mod::lemma_small_mod((x + y - 0x100) as nat, 0x100);
                    vstd::arithmetic::div_mod::lemma_mod_add_multiples_vanish(
                        x + y - 0x100,
                        0x100,
                    );
                } else {
                    vstd::arithmetic::div_mod::lemma_small_mod((x + y) as nat, 0x100);
                }
            }
        },
        (Literal::U16(x), Literal::U16(y)) => {
            assert(vstd::wrapping::u16_specs::wrapping_add(x, y) as int == (x + y) % 0x1_0000) by {
                if x + y > u16::MAX {
                    vstd::arithmetic::div_mod::lemma_small_mod((x + y - 0x1_0000) as nat, 0x1_0000);
                    vstd::arithmetic::div_mod::lemma_mod_add_multiples_vanish(
                        x + y - 0x1_0000,
                        0x1_0000,
                    );
                } else {
                    vstd::arithmetic::div_mod::lemma_small_mod((x + y) as nat, 0x1_0000);
                }
            }
        },
        (Literal::U32(x), Literal::U32(y)) => {
            assert(vstd::wrapping::u32_specs::wrapping_add(x, y) as int == (x + y) % 0x1_0000_0000) by {
                if x + y > u32::MAX {
                    vstd::arithmetic::div_mod::lemma_small_mod((x + y - 0x1_0000_0000) as nat, 0x1_0000_0000);
                    vstd::arithmetic::div_mod::lemma_mod_add_multiples_vanish(
                        x + y - 0x1_0000_0000,
                        0x1_0000_0000,
                    );
                } else {
                    vstd::arithmetic::div_mod::lemma_small_mod((x + y) as nat, 0x1_0000_0000);
                }
            }
        },
        (Literal::U64(x), Literal::U64(y)) => {
            assert(vstd::wrapping::u64_specs::wrapping_add(x, y) as int == (x + y) % 0x1_0000_0000_0000_0000int) by {
                if x + y > u64::MAX {
                    vstd::arithmetic::div_mod::lemma_small_mod((x + y - 0x1_0000_0000_0000_0000int) as nat, 0x1_0000_0000_0000_0000nat);
                    vstd::arithmetic::div_mod::lemma_mod_add_multiples_vanish(
                        x + y - 0x1_0000_0000_0000_0000int,
                        0x1_0000_0000_0000_0000int,
                    );
                } else {
                    vstd::arithmetic::div_mod::lemma_small_mod((x + y) as nat, 0x1_0000_0000_0000_0000nat);
                }
            }
        },
        (Literal::U128(x), Literal::U128(y)) => {
            assert(vstd::wrapping::u128_specs::wrapping_add(x, y) as int == (x + y) % 0x1_0000_0000_0000_0000_0000_0000_0000_0000int) by {
                if x + y > u128::MAX {
                    vstd::arithmetic::div_mod::lemma_small_mod((x + y - 0x1_0000_0000_0000_0000_0000_0000_0000_0000int) as nat, 0x1_0000_0000_0000_0000_0000_0000_0000_0000nat);
                    vstd::arithmetic::div_mod::lemma_mod_add_multiples_vanish(
                        x + y - 0x1_0000_0000_0000_0000_0000_0000_0000_0000int,
                        0x1_0000_0000_0000_0000_0000_0000_0000_0000int,
                    );
                } else {
                    vstd::arithmetic::div_mod::lemma_small_mod((x + y) as nat, 0x1_0000_0000_0000_0000_0000_0000_0000_0000nat);
                }
            }
        },
        _ => {
        },
    }
}

/// Kind-mismatch rejection: a binary literal instruction whose resolved
/// operands are literals of two different kinds, or of one kind its
/// semantics does not admit, halts naming its opcode — whatever the
/// opcode and whatever the store.
pub proof fn lemma_binary_kind_mismatch(
    m: Map<u64, Option<Value>>,
    first: Operand,
    second: Operand,
    dest: Register,
    op: Opcode,
    semantics: spec_fn(Literal, Literal) -> Option<Literal>,
    a: Literal,
    b: Literal,
)
    requires
        resolved_literal(m, first) == Ok::<Literal, Halt>(a),
        resolved_literal(m, second) == Ok::<Literal, Halt>(b),
        semantics(a, b) is None,
    ensures
        binary_eval_spec(m, first, second, dest, op, semantics) == Err::<Literal, Halt>(
            Halt::InvalidInstruction { opcode: op },
        ),
{
}

/// Composite rejection: a binary literal instruction whose first operand
/// names a register holding a composite, with no member path, halts
/// naming the composite — whatever the opcode, the semantics and the
/// rest of the store.
pub proof fn lemma_binary_composite_rejected(
    m: Map<u64, Option<Value>>,
    reg: Register,
    second: Operand,
    dest: Register,
    op: Opcode,
    semantics: spec_fn(Literal, Literal) -> Option<Literal>,
    name: Identifier,
    members: Vec<(Identifier, Literal)>,
)
    requires
        m.contains_key(reg.locator),
        m[reg.locator] == Some(Value::Composite(name, members)),
    ensures
        binary_eval_spec(
            m,
            Operand::Register(reg, None),
            second,
            dest,
            op,
            semantics,
        ) == Err::<Literal, Halt>(Halt::NotALiteral { name }),
{
}

} // verus!
