//! The textual instruction grammar.
//!
//! An instruction reads `<opcode> <operand> [<operand>] into <dest>;`.
//! A literal operand is its value followed by its kind suffix, with an
//! optional visibility suffix; a register operand is `r` and a locator,
//! with an optional member path. Display writes the one canonical text
//! of an instruction; parsing reads it back, and the round trip is
//! proved over the instruction model.
use vstd::prelude::*;

use crate::codec::lit_uval;
use crate::field::{Field, field_modulus};
use crate::identifier::{Identifier, is_ident_byte, wf_ident_bytes};
use crate::limbs::{U256, dec_val};
use crate::literal::{Literal, StrLit, Address, is_string_byte, wf_address_bytes};
use crate::model::{LitModel, lit_model, lit_model_wf, OperandModel, operand_model,
    operand_model_wf, InstrModel, instr_model_wf};
use crate::mode::Mode;
use crate::opcode::{HashKind, Opcode, opcode_token};
use crate::operand::Operand;
use crate::registers::Register;
use crate::scalar::scalar_modulus;

verus! {

/// The decimal digits of a number, most significant first; empty for
/// zero.
pub open spec fn dec_digits_of(v: nat) -> Seq<u8>
    decreases v,
{
    if v == 0 {
        Seq::empty()
    } else {
        dec_digits_of(v / 10).push((v % 10) as u8)
    }
}

/// `dec_digits_of` stands for its argument, with digits below ten and no
/// leading zero.
pub proof fn lemma_dec_digits_of(v: nat)
    ensures
        dec_val(dec_digits_of(v)) == v,
        forall|i: int| 0 <= i < dec_digits_of(v).len() ==> dec_digits_of(v)[i] < 10,
        dec_digits_of(v).len() > 0 ==> dec_digits_of(v)[0] != 0,
        v == 0 ==> dec_digits_of(v).len() == 0,
    decreases v,
{
    if v > 0 {
        vstd::arithmetic::div_mod::lemma_div_decreases(v as int, 10);
        vstd::arithmetic::div_mod::lemma_fundamental_div_mod(v as int, 10);
        vstd::arithmetic::div_mod::lemma_mod_division_less_than_divisor(v as int, 10);
        lemma_dec_digits_of(v / 10);
        let s = dec_digits_of(v);
        assert(s.drop_last() =~= dec_digits_of(v / 10));
        if v / 10 == 0 {
            assert(s.len() == 1 && s[0] == v % 10);
        }
    }
}

/// A nonempty digit sequence without a leading zero stands for a
/// positive number.
proof fn lemma_dec_val_pos(s: Seq<u8>)
    requires
        s.len() > 0,
        s[0] != 0,
        forall|i: int| 0 <= i < s.len() ==> s[i] < 10,
    ensures
        dec_val(s) > 0,
    decreases s.len(),
{
    if s.len() > 1 {
        assert(s.drop_last()[0] == s[0]);
        lemma_dec_val_pos(s.drop_last());
    }
}

/// Each number has one digit sequence without a leading zero.
pub proof fn lemma_digits_canonical(s: Seq<u8>, v: nat)
    requires
        dec_val(s) == v,
        forall|i: int| 0 <= i < s.len() ==> s[i] < 10,
        s.len() > 0 ==> s[0] != 0,
        v == 0 ==> s.len() == 0,
    ensures
        s =~= dec_digits_of(v),
    decreases s.len(),
{
    if s.len() > 0 {
        lemma_dec_val_pos(s);
        vstd::arithmetic::div_mod::lemma_fundamental_div_mod_converse(
            v as int,
            10,
            dec_val(s.drop_last()) as int,
            s.last() as int,
        );
        if s.len() == 1 {
            lemma_digits_canonical(s.drop_last(), dec_val(s.drop_last()));
        } else {
            assert(s.drop_last()[0] == s[0]);
            lemma_dec_val_pos(s.drop_last());
            lemma_digits_canonical(s.drop_last(), dec_val(s.drop_last()));
        }
        assert(dec_digits_of(v) =~= dec_digits_of(v / 10).push((v % 10) as u8));
    }
}

/// Digit values as ASCII digits.
pub open spec fn digits_ascii(s: Seq<u8>) -> Seq<u8> {
    s.map(|i: int, d: u8| (d + 48) as u8)
}

/// The canonical decimal text of a number: its digits, or `0` for zero.
pub open spec fn num_text(v: nat) -> Seq<u8> {
    if v == 0 {
        seq![48u8]
    } else {
        digits_ascii(dec_digits_of(v))
    }
}

/// The canonical text of a signed value.
pub open spec fn signed_text(x: int) -> Seq<u8> {
    if x < 0 {
        seq![45u8] + num_text((-x) as nat)
    } else {
        num_text(x as nat)
    }
}

/// The kind suffix of a numeric literal.
pub open spec fn lit_suffix(m: LitModel) -> Seq<u8> {
    match m {
        LitModel::I8(_) => seq![105u8, 56],  // i8
        LitModel::I16(_) => seq![105u8, 49, 54],
        LitModel::I32(_) => seq![105u8, 51, 50],
        LitModel::I64(_) => seq![105u8, 54, 52],
        LitModel::I128(_) => seq![105u8, 49, 50, 56],
        LitModel::U8(_) => seq![117u8, 56],  // u8
        LitModel::U16(_) => seq![117u8, 49, 54],
        LitModel::U32(_) => seq![117u8, 51, 50],
        LitModel::U64(_) => seq![117u8, 54, 52],
        LitModel::U128(_) => seq![117u8, 49, 50, 56],
        LitModel::Field(_) => seq![102u8, 105, 101, 108, 100],  // field
        LitModel::Group(_) => seq![103u8, 114, 111, 117, 112],  // group
        LitModel::Scalar(_) => seq![115u8, 99, 97, 108, 97, 114],  // scalar
        _ => Seq::empty(),
    }
}

/// The canonical text of a literal.
pub open spec fn lit_text(m: LitModel) -> Seq<u8> {
    match m {
        LitModel::Boolean(b) => if b {
            seq![116u8, 114, 117, 101]  // true
        } else {
            seq![102u8, 97, 108, 115, 101]  // false
        },
        LitModel::Str(s) => seq![34u8] + s + seq![34u8],
        LitModel::Address(a) => a,
        LitModel::I8(x) => signed_text(x as int) + lit_suffix(m),
        LitModel::I16(x) => signed_text(x as int) + lit_suffix(m),
        LitModel::I32(x) => signed_text(x as int) + lit_suffix(m),
        LitModel::I64(x) => signed_text(x as int) + lit_suffix(m),
        LitModel::I128(x) => signed_text(x as int) + lit_suffix(m),
        LitModel::U8(x) => num_text(x as nat) + lit_suffix(m),
        LitModel::U16(x) => num_text(x as nat) + lit_suffix(m),
        LitModel::U32(x) => num_text(x as nat) + lit_suffix(m),
        LitModel::U64(x) => num_text(x as nat) + lit_suffix(m),
        LitModel::U128(x) => num_text(x as nat) + lit_suffix(m),
        LitModel::Field(v) => num_text(v) + lit_suffix(m),
        LitModel::Group(v) => num_text(v) + lit_suffix(m),
        LitModel::Scalar(v) => num_text(v) + lit_suffix(m),
    }
}

/// The text of a visibility suffix, with its leading dot.
pub open spec fn vis_text(v: Option<Mode>) -> Seq<u8> {
    match v {
        None => Seq::empty(),
        Some(Mode::Constant) => seq![46u8, 99, 111, 110, 115, 116, 97, 110, 116],  // .constant
        Some(Mode::Public) => seq![46u8, 112, 117, 98, 108, 105, 99],  // .public
        Some(Mode::Private) => seq![46u8, 112, 114, 105, 118, 97, 116, 101],  // .private
    }
}

/// The canonical text of an operand.
pub open spec fn operand_text(m: OperandModel) -> Seq<u8> {
    match m {
        OperandModel::Literal(l, vis) => lit_text(l) + vis_text(vis),
        OperandModel::Register(loc, member) => seq![114u8] + num_text(loc as nat) + (match member {
            None => Seq::empty(),
            Some(name) => seq![46u8] + name,
        }),
    }
}

/// The canonical text of an instruction:
/// `<opcode> <operand> [<operand>] into <destination>;`.
pub open spec fn instr_text(m: InstrModel) -> Seq<u8> {
    match m {
        InstrModel::AddWrapped(a, b, d) => opcode_token(Opcode::AddWrapped) + seq![32u8]
            + operand_text(a) + seq![32u8] + operand_text(b) + seq![32u8] + seq![
            105u8,
            110,
            116,
            111,
        ] + seq![32u8] + seq![114u8] + num_text(d as nat) + seq![59u8],
        InstrModel::NotEqual(a, b, d) => opcode_token(Opcode::NotEqual) + seq![32u8]
            + operand_text(a) + seq![32u8] + operand_text(b) + seq![32u8] + seq![
            105u8,
            110,
            116,
            111,
        ] + seq![32u8] + seq![114u8] + num_text(d as nat) + seq![59u8],
        InstrModel::Hash(k, a, d) => opcode_token(Opcode::Hash(k)) + seq![32u8] + operand_text(a)
            + seq![32u8] + seq![105u8, 110, 116, 111] + seq![32u8] + seq![114u8] + num_text(
            d as nat,
        ) + seq![59u8],
    }
}

/// An ASCII digit.
pub open spec fn is_digit_c(c: u8) -> bool {
    48 <= c <= 57
}

/// A lowercase letter or a digit.
pub open spec fn is_alnum_c(c: u8) -> bool {
    is_digit_c(c) || (97 <= c <= 122)
}

/// A character of an opcode token.
pub open spec fn is_opcode_c(c: u8) -> bool {
    is_alnum_c(c) || c == 46
}

/// The length of the longest prefix of ASCII digits.
pub open spec fn digit_run(s: Seq<u8>) -> int
    decreases s.len(),
{
    if s.len() > 0 && is_digit_c(s[0]) {
        1 + digit_run(s.skip(1))
    } else {
        0
    }
}

/// The length of the longest prefix of letters and digits.
pub open spec fn alnum_run(s: Seq<u8>) -> int
    decreases s.len(),
{
    if s.len() > 0 && is_alnum_c(s[0]) {
        1 + alnum_run(s.skip(1))
    } else {
        0
    }
}

/// The length of the longest prefix of identifier characters.
pub open spec fn ident_run(s: Seq<u8>) -> int
    decreases s.len(),
{
    if s.len() > 0 && is_ident_byte(s[0]) {
        1 + ident_run(s.skip(1))
    } else {
        0
    }
}

/// The length of the longest prefix of string characters.
pub open spec fn string_run(s: Seq<u8>) -> int
    decreases s.len(),
{
    if s.len() > 0 && is_string_byte(s[0]) {
        1 + string_run(s.skip(1))
    } else {
        0
    }
}

/// The length of the longest prefix of spaces.
pub open spec fn space_run(s: Seq<u8>) -> int
    decreases s.len(),
{
    if s.len() > 0 && s[0] == 32 {
        1 + space_run(s.skip(1))
    } else {
        0
    }
}

/// The length of the longest prefix of opcode characters.
pub open spec fn opcode_run(s: Seq<u8>) -> int
    decreases s.len(),
{
    if s.len() > 0 && is_opcode_c(s[0]) {
        1 + opcode_run(s.skip(1))
    } else {
        0
    }
}

/// A digit run over a digit prefix with a non-digit boundary is that
/// prefix.
proof fn lemma_digit_run_exact(a: Seq<u8>, b: Seq<u8>)
    requires
        forall|i: int| 0 <= i < a.len() ==> is_digit_c(#[trigger] a[i]),
        b.len() > 0 ==> !is_digit_c(b[0]),
    ensures
        digit_run(a + b) == a.len(),
    decreases a.len(),
{
    if a.len() == 0 {
        assert(a + b =~= b);
    } else {
        assert((a + b)[0] == a[0]);
        assert((a + b).skip(1) =~= a.skip(1) + b);
        assert(forall|i: int| 0 <= i < a.skip(1).len() ==> is_digit_c(#[trigger] a.skip(1)[i]));
        lemma_digit_run_exact(a.skip(1), b);
    }
}

/// An alnum run over an alnum prefix with a boundary is that prefix.
proof fn lemma_alnum_run_exact(a: Seq<u8>, b: Seq<u8>)
    requires
        forall|i: int| 0 <= i < a.len() ==> is_alnum_c(#[trigger] a[i]),
        b.len() > 0 ==> !is_alnum_c(b[0]),
    ensures
        alnum_run(a + b) == a.len(),
    decreases a.len(),
{
    if a.len() == 0 {
        assert(a + b =~= b);
    } else {
        assert((a + b)[0] == a[0]);
        assert((a + b).skip(1) =~= a.skip(1) + b);
        assert(forall|i: int| 0 <= i < a.skip(1).len() ==> is_alnum_c(#[trigger] a.skip(1)[i]));
        lemma_alnum_run_exact(a.skip(1), b);
    }
}

/// An identifier run over an identifier prefix with a boundary is that
/// prefix.
proof fn lemma_ident_run_exact(a: Seq<u8>, b: Seq<u8>)
    requires
        forall|i: int| 0 <= i < a.len() ==> is_ident_byte(#[trigger] a[i]),
        b.len() > 0 ==> !is_ident_byte(b[0]),
    ensures
        ident_run(a + b) == a.len(),
    decreases a.len(),
{
    if a.len() == 0 {
        assert(a + b =~= b);
    } else {
        assert((a + b)[0] == a[0]);
        assert((a + b).skip(1) =~= a.skip(1) + b);
        assert(forall|i: int| 0 <= i < a.skip(1).len() ==> is_ident_byte(
            #[trigger] a.skip(1)[i],
        ));
        lemma_ident_run_exact(a.skip(1), b);
    }
}

/// A string run over a string prefix with a boundary is that prefix.
proof fn lemma_string_run_exact(a: Seq<u8>, b: Seq<u8>)
    requires
        forall|i: int| 0 <= i < a.len() ==> is_string_byte(#[trigger] a[i]),
        b.len() > 0 ==> !is_string_byte(b[0]),
    ensures
        string_run(a + b) == a.len(),
    decreases a.len(),
{
    if a.len() == 0 {
        assert(a + b =~= b);
    } else {
        assert((a + b)[0] == a[0]);
        assert((a + b).skip(1) =~= a.skip(1) + b);
        assert(forall|i: int| 0 <= i < a.skip(1).len() ==> is_string_byte(
            #[trigger] a.skip(1)[i],
        ));
        lemma_string_run_exact(a.skip(1), b);
    }
}

/// A space run over a space prefix with a boundary is that prefix.
proof fn lemma_space_run_exact(a: Seq<u8>, b: Seq<u8>)
    requires
        forall|i: int| 0 <= i < a.len() ==> #[trigger] a[i] == 32,
        b.len() > 0 ==> b[0] != 32,
    ensures
        space_run(a + b) == a.len(),
    decreases a.len(),
{
    if a.len() == 0 {
        assert(a + b =~= b);
    } else {
        assert((a + b)[0] == a[0]);
        assert((a + b).skip(1) =~= a.skip(1) + b);
        assert(forall|i: int| 0 <= i < a.skip(1).len() ==> #[trigger] a.skip(1)[i] == 32);
        lemma_space_run_exact(a.skip(1), b);
    }
}

/// An opcode run over an opcode prefix with a boundary is that prefix.
proof fn lemma_opcode_run_exact(a: Seq<u8>, b: Seq<u8>)
    requires
        forall|i: int| 0 <= i < a.len() ==> is_opcode_c(#[trigger] a[i]),
        b.len() > 0 ==> !is_opcode_c(b[0]),
    ensures
        opcode_run(a + b) == a.len(),
    decreases a.len(),
{
    if a.len() == 0 {
        assert(a + b =~= b);
    } else {
        assert((a + b)[0] == a[0]);
        assert((a + b).skip(1) =~= a.skip(1) + b);
        assert(forall|i: int| 0 <= i < a.skip(1).len() ==> is_opcode_c(#[trigger] a.skip(1)[i]));
        lemma_opcode_run_exact(a.skip(1), b);
    }
}

/// The number ASCII digits stand for.
pub open spec fn ascii_val(s: Seq<u8>) -> nat {
    dec_val(s.map(|i: int, c: u8| (c - 48) as u8))
}

/// The numeric literal a kind suffix, a sign and a magnitude stand for;
/// `None` where the kind does not admit them.
pub open spec fn kind_of_suffix(tok: Seq<u8>, neg: bool, v: nat) -> Option<LitModel> {
    if tok =~= seq![105u8, 56] {
        if neg {
            if v <= 0x80 {
                Some(LitModel::I8((-(v as int)) as i8))
            } else {
                None
            }
        } else {
            if v <= 0x7f {
                Some(LitModel::I8(v as i8))
            } else {
                None
            }
        }
    } else if tok =~= seq![105u8, 49, 54] {
        if neg {
            if v <= 0x8000 {
                Some(LitModel::I16((-(v as int)) as i16))
            } else {
                None
            }
        } else {
            if v <= 0x7fff {
                Some(LitModel::I16(v as i16))
            } else {
                None
            }
        }
    } else if tok =~= seq![105u8, 51, 50] {
        if neg {
            if v <= 0x8000_0000 {
                Some(LitModel::I32((-(v as int)) as i32))
            } else {
                None
            }
        } else {
            if v <= 0x7fff_ffff {
                Some(LitModel::I32(v as i32))
            } else {
                None
            }
        }
    } else if tok =~= seq![105u8, 54, 52] {
        if neg {
            if v <= 0x8000_0000_0000_0000 {
                Some(LitModel::I64((-(v as int)) as i64))
            } else {
                None
            }
        } else {
            if v <= 0x7fff_ffff_ffff_ffff {
                Some(LitModel::I64(v as i64))
            } else {
                None
            }
        }
    } else if tok =~= seq![105u8, 49, 50, 56] {
        if neg {
            if v <= 0x8000_0000_0000_0000_0000_0000_0000_0000 {
                Some(LitModel::I128((-(v as int)) as i128))
            } else {
                None
            }
        } else {
            if v <= 0x7fff_ffff_ffff_ffff_ffff_ffff_ffff_ffff {
                Some(LitModel::I128(v as i128))
            } else {
                None
            }
        }
    } else if tok =~= seq![117u8, 56] {
        if !neg && v <= 0xff {
            Some(LitModel::U8(v as u8))
        } else {
            None
        }
    } else if tok =~= seq![117u8, 49, 54] {
        if !neg && v <= 0xffff {
            Some(LitModel::U16(v as u16))
        } else {
            None
        }
    } else if tok =~= seq![117u8, 51, 50] {
        if !neg && v <= 0xffff_ffff {
            Some(LitModel::U32(v as u32))
        } else {
            None
        }
    } else if tok =~= seq![117u8, 54, 52] {
        if !neg && v <= 0xffff_ffff_ffff_ffff {
            Some(LitModel::U64(v as u64))
        } else {
            None
        }
    } else if tok =~= seq![117u8, 49, 50, 56] {
        if !neg && v <= 0xffff_ffff_ffff_ffff_ffff_ffff_ffff_ffff {
            Some(LitModel::U128(v as u128))
        } else {
            None
        }
    } else if tok =~= seq![102u8, 105, 101, 108, 100] {
        if !neg && v < field_modulus() {
            Some(LitModel::Field(v))
        } else {
            None
        }
    } else if tok =~= seq![103u8, 114, 111, 117, 112] {
        if !neg && v < field_modulus() {
            Some(LitModel::Group(v))
        } else {
            None
        }
    } else if tok =~= seq![115u8, 99, 97, 108, 97, 114] {
        if !neg && v < scalar_modulus() {
            Some(LitModel::Scalar(v))
        } else {
            None
        }
    } else {
        None
    }
}

/// What parsing a literal from the head of a text yields: the literal
/// and the count of bytes consumed, or nothing.
#[verifier::opaque]
pub open spec fn parse_lit(s: Seq<u8>) -> Option<(LitModel, int)> {
    if s.len() >= 4 && s.subrange(0, 4) =~= seq![116u8, 114, 117, 101] {
        Some((LitModel::Boolean(true), 4))
    } else if s.len() >= 5 && s.subrange(0, 5) =~= seq![102u8, 97, 108, 115, 101] {
        Some((LitModel::Boolean(false), 5))
    } else if s.len() >= 1 && s[0] == 34 {
        let k = string_run(s.skip(1));
        if 1 + k < s.len() && s[1 + k] == 34 && k <= 255 {
            Some((LitModel::Str(s.subrange(1, 1 + k)), k + 2))
        } else {
            None
        }
    } else if s.len() >= 63 && s.subrange(0, 5) =~= seq![97u8, 108, 101, 111, 49]
        && wf_address_bytes(s.subrange(0, 63)) {
        Some((LitModel::Address(s.subrange(0, 63)), 63))
    } else {
        let neg = s.len() >= 1 && s[0] == 45;
        let d0: int = if neg {
            1
        } else {
            0
        };
        let k = digit_run(s.skip(d0));
        if k == 0 {
            None
        } else {
            let v = ascii_val(s.subrange(d0, d0 + k));
            let m = alnum_run(s.skip(d0 + k));
            let tok = s.subrange(d0 + k, d0 + k + m);
            match kind_of_suffix(tok, neg, v) {
                Some(l) => Some((l, d0 + k + m)),
                None => None,
            }
        }
    }
}

/// What parsing a register token yields: its locator and the count of
/// bytes consumed.
pub open spec fn parse_reg(s: Seq<u8>) -> Option<(u64, int)> {
    if s.len() >= 1 && s[0] == 114 {
        let k = digit_run(s.skip(1));
        if k > 0 && ascii_val(s.subrange(1, 1 + k)) < 0x1_0000_0000_0000_0000 {
            Some((ascii_val(s.subrange(1, 1 + k)) as u64, 1 + k))
        } else {
            None
        }
    } else {
        None
    }
}

/// What parsing an operand yields.
#[verifier::opaque]
pub open spec fn parse_operand(s: Seq<u8>) -> Option<(OperandModel, int)> {
    if s.len() >= 2 && s[0] == 114 && is_digit_c(s[1]) {
        match parse_reg(s) {
            None => None,
            Some((loc, n)) => if n < s.len() && s[n] == 46 {
                let k = ident_run(s.skip(n + 1));
                if k > 0 && wf_ident_bytes(s.subrange(n + 1, n + 1 + k)) {
                    Some(
                        (OperandModel::Register(loc, Some(s.subrange(n + 1, n + 1 + k))), n + 1
                            + k),
                    )
                } else {
                    None
                }
            } else {
                Some((OperandModel::Register(loc, None), n))
            },
        }
    } else {
        match parse_lit(s) {
            None => None,
            Some((l, n)) => if n < s.len() && s[n] == 46 {
                let k = alnum_run(s.skip(n + 1));
                let tok = s.subrange(n + 1, n + 1 + k);
                if tok =~= seq![99u8, 111, 110, 115, 116, 97, 110, 116] {
                    Some((OperandModel::Literal(l, Some(Mode::Constant)), n + 1 + k))
                } else if tok =~= seq![112u8, 117, 98, 108, 105, 99] {
                    Some((OperandModel::Literal(l, Some(Mode::Public)), n + 1 + k))
                } else if tok =~= seq![112u8, 114, 105, 118, 97, 116, 101] {
                    Some((OperandModel::Literal(l, Some(Mode::Private)), n + 1 + k))
                } else {
                    Some((OperandModel::Literal(l, None), n))
                }
            } else {
                Some((OperandModel::Literal(l, None), n))
            },
        }
    }
}

/// The opcode a token names.
pub open spec fn opcode_of_token(tok: Seq<u8>) -> Option<Opcode> {
    if tok =~= opcode_token(Opcode::AddWrapped) {
        Some(Opcode::AddWrapped)
    } else if tok =~= opcode_token(Opcode::NotEqual) {
        Some(Opcode::NotEqual)
    } else if tok =~= opcode_token(Opcode::Hash(HashKind::Ped64)) {
        Some(Opcode::Hash(HashKind::Ped64))
    } else if tok =~= opcode_token(Opcode::Hash(HashKind::Ped128)) {
        Some(Opcode::Hash(HashKind::Ped128))
    } else if tok =~= opcode_token(Opcode::Hash(HashKind::Ped256)) {
        Some(Opcode::Hash(HashKind::Ped256))
    } else if tok =~= opcode_token(Opcode::Hash(HashKind::Ped512)) {
        Some(Opcode::Hash(HashKind::Ped512))
    } else if tok =~= opcode_token(Opcode::Hash(HashKind::Ped1024)) {
        Some(Opcode::Hash(HashKind::Ped1024))
    } else if tok =~= opcode_token(Opcode::Hash(HashKind::Psd2)) {
        Some(Opcode::Hash(HashKind::Psd2))
    } else if tok =~= opcode_token(Opcode::Hash(HashKind::Psd4)) {
        Some(Opcode::Hash(HashKind::Psd4))
    } else if tok =~= opcode_token(Opcode::Hash(HashKind::Psd8)) {
        Some(Opcode::Hash(HashKind::Psd8))
    } else {
        None
    }
}

/// What parsing the shared instruction tail — spaces, `into`, spaces,
/// the destination register and the closing semicolon — yields from a
/// position: the destination and the position after the semicolon.
pub open spec fn parse_tail(s: Seq<u8>, pos: int) -> Option<(u64, int)> {
    let sp = space_run(s.skip(pos));
    if sp < 1 {
        None
    } else {
        let q = pos + sp;
        if s.len() >= q + 4 && s.subrange(q, q + 4) =~= seq![105u8, 110, 116, 111] {
            let sp2 = space_run(s.skip(q + 4));
            if sp2 < 1 {
                None
            } else {
                let r0 = q + 4 + sp2;
                match parse_reg(s.skip(r0)) {
                    None => None,
                    Some((d, nd)) => if r0 + nd < s.len() && s[r0 + nd] == 59 {
                        Some((d, r0 + nd + 1))
                    } else {
                        None
                    },
                }
            }
        } else {
            None
        }
    }
}

/// What parsing an instruction from the head of a text yields.
pub open spec fn parse_instr(s: Seq<u8>) -> Option<(InstrModel, int)> {
    let k = opcode_run(s);
    match opcode_of_token(s.subrange(0, k)) {
        None => None,
        Some(op) => {
            let sp1 = space_run(s.skip(k));
            if sp1 < 1 {
                None
            } else {
                let p1 = k + sp1;
                match parse_operand(s.skip(p1)) {
                    None => None,
                    Some((a, na)) => match op {
                        Opcode::AddWrapped | Opcode::NotEqual => {
                            let sp2 = space_run(s.skip(p1 + na));
                            if sp2 < 1 {
                                None
                            } else {
                                let p2 = p1 + na + sp2;
                                match parse_operand(s.skip(p2)) {
                                    None => None,
                                    Some((b, nb)) => match parse_tail(s, p2 + nb) {
                                        None => None,
                                        Some((d, end)) => if op == Opcode::AddWrapped {
                                            Some((InstrModel::AddWrapped(a, b, d), end))
                                        } else {
                                            Some((InstrModel::NotEqual(a, b, d), end))
                                        },
                                    },
                                }
                            }
                        },
                        Opcode::Hash(kind) => match parse_tail(s, p1 + na) {
                            None => None,
                            Some((d, end)) => Some((InstrModel::Hash(kind, a, d), end)),
                        },
                    },
                }
            }
        },
    }
}

/// The canonical decimal text of a number is digits that read back as
/// the number, before any non-digit remainder.
proof fn lemma_num_text(v: nat, rest: Seq<u8>)
    requires
        rest.len() > 0 ==> !is_digit_c(rest[0]),
    ensures
        num_text(v).len() >= 1,
        forall|i: int| 0 <= i < num_text(v).len() ==> is_digit_c(#[trigger] num_text(v)[i]),
        digit_run(num_text(v) + rest) == num_text(v).len(),
        ascii_val(num_text(v)) == v,
{
    let t = num_text(v);
    lemma_dec_digits_of(v);
    if v == 0 {
        assert(t =~= seq![48u8]);
        assert(t.map(|i: int, c: u8| (c - 48) as u8) =~= seq![0u8]);
        assert(seq![0u8].drop_last() =~= Seq::<u8>::empty());
        assert(dec_val(seq![0u8]) == 0);
    } else {
        let dd = dec_digits_of(v);
        assert(forall|i: int| 0 <= i < t.len() ==> is_digit_c(#[trigger] t[i]));
        assert(t.map(|i: int, c: u8| (c - 48) as u8) =~= dd);
    }
    lemma_digit_run_exact(t, rest);
}

/// Whether a numeric literal prints with a minus sign.
pub open spec fn lit_neg(m: LitModel) -> bool {
    match m {
        LitModel::I8(x) => (x as int) < 0,
        LitModel::I16(x) => (x as int) < 0,
        LitModel::I32(x) => (x as int) < 0,
        LitModel::I64(x) => (x as int) < 0,
        LitModel::I128(x) => (x as int) < 0,
        _ => false,
    }
}

/// The printed magnitude of a numeric literal.
pub open spec fn lit_mag(m: LitModel) -> nat {
    match m {
        LitModel::I8(x) => if (x as int) < 0 {
            (-(x as int)) as nat
        } else {
            x as nat
        },
        LitModel::I16(x) => if (x as int) < 0 {
            (-(x as int)) as nat
        } else {
            x as nat
        },
        LitModel::I32(x) => if (x as int) < 0 {
            (-(x as int)) as nat
        } else {
            x as nat
        },
        LitModel::I64(x) => if (x as int) < 0 {
            (-(x as int)) as nat
        } else {
            x as nat
        },
        LitModel::I128(x) => if (x as int) < 0 {
            (-(x as int)) as nat
        } else {
            x as nat
        },
        _ => lit_uval(m),
    }
}

/// The kind suffix, sign and magnitude of a numeric literal read back as
/// that literal.
#[verifier::rlimit(60)]
proof fn lemma_kind_of_suffix(m: LitModel)
    requires
        lit_model_wf(m),
        !(m is Boolean) && !(m is Str) && !(m is Address),
    ensures
        kind_of_suffix(lit_suffix(m), lit_neg(m), lit_mag(m)) == Some(m),
{
}

/// Parsing the canonical text of a numeric literal.
#[verifier::rlimit(60)]
proof fn lemma_parse_lit_numeric(m: LitModel, rest: Seq<u8>)
    requires
        lit_model_wf(m),
        !(m is Boolean) && !(m is Str) && !(m is Address),
        rest.len() > 0 ==> !is_alnum_c(rest[0]),
    ensures
        parse_lit(lit_text(m) + rest) == Some((m, lit_text(m).len() as int)),
{
    reveal(parse_lit);
    let s = lit_text(m) + rest;
    let neg = lit_neg(m);
    let mag = lit_mag(m);
    let nt = num_text(mag);
    let suf = lit_suffix(m);
    let d0: int = if neg {
        1
    } else {
        0
    };
    lemma_num_text(mag, suf + rest);
    assert(lit_text(m) =~= (if neg {
        seq![45u8]
    } else {
        Seq::<u8>::empty()
    }) + nt + suf);
    assert(s.skip(d0) =~= nt + (suf + rest));
    lemma_digit_run_exact(nt, suf + rest);
    assert(s[0] == (if neg {
        45
    } else {
        nt[0]
    }));
    assert(suf.len() > 0 && (suf[0] == 105 || suf[0] == 117 || suf[0] == 102 || suf[0] == 103
        || suf[0] == 115));
    if s.len() >= 4 {
        assert(s.subrange(0, 4)[0] == s[0]);
        assert(!(s.subrange(0, 4) =~= seq![116u8, 114, 117, 101]));
    }
    if s.len() >= 5 {
        assert(s.subrange(0, 5)[0] == s[0]);
        assert(!(s.subrange(0, 5) =~= seq![102u8, 97, 108, 115, 101]));
        assert(!(s.subrange(0, 5) =~= seq![97u8, 108, 101, 111, 49]));
    }
    let k = nt.len() as int;
    assert(digit_run(s.skip(d0)) == k);
    assert(s.subrange(d0, d0 + k) =~= nt);
    assert(s.skip(d0 + k) =~= suf + rest);
    lemma_alnum_run_exact(suf, rest);
    assert(s.subrange(d0 + k, d0 + k + suf.len() as int) =~= suf);
    lemma_kind_of_suffix(m);
}

/// Parsing the canonical text of a literal yields the literal back and
/// consumes exactly its text, before any remainder that does not extend
/// a token.
pub proof fn lemma_parse_lit_roundtrip(m: LitModel, rest: Seq<u8>)
    requires
        lit_model_wf(m),
        rest.len() > 0 ==> !is_alnum_c(rest[0]),
    ensures
        parse_lit(lit_text(m) + rest) == Some((m, lit_text(m).len() as int)),
{
    reveal(parse_lit);
    let s = lit_text(m) + rest;
    match m {
        LitModel::Boolean(b) => {
            if b {
                assert(s.subrange(0, 4) =~= seq![116u8, 114, 117, 101]);
            } else {
                assert(s[0] == 102);
                assert(s.subrange(0, 5) =~= seq![102u8, 97, 108, 115, 101]);
            }
        },
        LitModel::Str(t) => {
            assert(s[0] == 34);
            assert(s.skip(1) =~= t + (seq![34u8] + rest));
            lemma_string_run_exact(t, seq![34u8] + rest);
            assert(s[1 + t.len() as int] == 34);
            assert(s.subrange(1, 1 + t.len() as int) =~= t);
        },
        LitModel::Address(a) => {
            assert(s[0] == 97);
            assert(s.subrange(0, 5) =~= seq![97u8, 108, 101, 111, 49]);
            assert(s.subrange(0, 63) =~= a);
        },
        _ => {
            lemma_parse_lit_numeric(m, rest);
        },
    }
}

/// Parsing a register token written canonically.
proof fn lemma_parse_reg_text(loc: u64, rest: Seq<u8>)
    requires
        rest.len() > 0 ==> !is_digit_c(rest[0]),
    ensures
        parse_reg(seq![114u8] + num_text(loc as nat) + rest) == Some(
            (loc, 1 + num_text(loc as nat).len() as int),
        ),
{
    let nt = num_text(loc as nat);
    let s = seq![114u8] + nt + rest;
    lemma_num_text(loc as nat, rest);
    assert(s[0] == 114);
    assert(s.skip(1) =~= nt + rest);
    assert(s.subrange(1, 1 + nt.len() as int) =~= nt);
}

/// A well-formed literal's text is nonempty and does not begin like a
/// register, a space or a separator.
proof fn lemma_lit_text_first(l: LitModel)
    requires
        lit_model_wf(l),
    ensures
        lit_text(l).len() > 0,
        lit_text(l)[0] != 114,
        lit_text(l)[0] != 32,
        lit_text(l)[0] != 59,
    decreases l,
{
    match l {
        LitModel::Boolean(_) => {
        },
        LitModel::Str(_) => {
        },
        LitModel::Address(a) => {
        },
        _ => {
            let neg = lit_neg(l);
            let mag = lit_mag(l);
            lemma_num_text(mag, lit_suffix(l));
            assert(lit_text(l) =~= (if neg {
                seq![45u8]
            } else {
                Seq::<u8>::empty()
            }) + num_text(mag) + lit_suffix(l));
            if !neg {
                assert(lit_text(l)[0] == num_text(mag)[0]);
            }
        },
    }
}

/// A well-formed operand's text is nonempty and does not begin with a
/// space or a separator.
proof fn lemma_operand_text_first(m: OperandModel)
    requires
        operand_model_wf(m),
    ensures
        operand_text(m).len() > 0,
        operand_text(m)[0] != 32,
        operand_text(m)[0] != 59,
{
    match m {
        OperandModel::Literal(l, vis) => {
            lemma_lit_text_first(l);
            assert(operand_text(m)[0] == lit_text(l)[0]);
        },
        OperandModel::Register(_, _) => {
            assert(operand_text(m)[0] == 114);
        },
    }
}

/// Parsing the canonical text of an operand yields the operand back and
/// consumes exactly its text, before a space, a semicolon, or the end.
#[verifier::rlimit(100)]
pub proof fn lemma_parse_operand_roundtrip(m: OperandModel, rest: Seq<u8>)
    requires
        operand_model_wf(m),
        rest.len() > 0 ==> (rest[0] == 32 || rest[0] == 59),
    ensures
        parse_operand(operand_text(m) + rest) == Some((m, operand_text(m).len() as int)),
{
    reveal(parse_operand);
    let s = operand_text(m) + rest;
    match m {
        OperandModel::Register(loc, member) => {
            let nt = num_text(loc as nat);
            lemma_num_text(loc as nat, Seq::empty());
            assert(s[0] == 114);
            assert(s[1] == nt[0]);
            match member {
                None => {
                    assert(s =~= seq![114u8] + nt + rest);
                    lemma_parse_reg_text(loc, rest);
                },
                Some(name) => {
                    let mem = seq![46u8] + name;
                    assert(s =~= seq![114u8] + nt + (mem + rest));
                    lemma_parse_reg_text(loc, mem + rest);
                    let n = 1 + nt.len() as int;
                    assert(s[n] == 46);
                    assert(s.skip(n + 1) =~= name + rest);
                    lemma_ident_run_exact(name, rest);
                    assert(s.subrange(n + 1, n + 1 + name.len() as int) =~= name);
                },
            }
        },
        OperandModel::Literal(l, vis) => {
            lemma_lit_text_first(l);
            assert(s[0] == lit_text(l)[0]);
            assert(s =~= lit_text(l) + (vis_text(vis) + rest));
            lemma_parse_lit_roundtrip(l, vis_text(vis) + rest);
            let n = lit_text(l).len() as int;
            match vis {
                None => {
                    if n < s.len() {
                        assert(s[n] == rest[0]);
                    }
                },
                Some(mode) => {
                    let word = vis_text(vis).skip(1);
                    assert(s[n] == 46);
                    assert(s.skip(n + 1) =~= word + rest);
                    assert(forall|i: int| 0 <= i < word.len() ==> is_alnum_c(
                        #[trigger] word[i],
                    ));
                    lemma_alnum_run_exact(word, rest);
                    assert(s.subrange(n + 1, n + 1 + word.len() as int) =~= word);
                },
            }
        },
    }
}

/// Each opcode token reads back as its opcode and is made of opcode
/// characters.
#[verifier::rlimit(60)]
proof fn lemma_opcode_token_facts(op: Opcode)
    ensures
        opcode_token(op).len() > 0,
        forall|i: int| 0 <= i < opcode_token(op).len() ==> is_opcode_c(
            #[trigger] opcode_token(op)[i],
        ),
        opcode_of_token(opcode_token(op)) == Some(op),
{
    match op {
        Opcode::AddWrapped => {
        },
        Opcode::NotEqual => {
        },
        Opcode::Hash(k) => {
            match k {
                HashKind::Ped64 => {
                },
                HashKind::Ped128 => {
                },
                HashKind::Ped256 => {
                },
                HashKind::Ped512 => {
                },
                HashKind::Ped1024 => {
                },
                HashKind::Psd2 => {
                },
                HashKind::Psd4 => {
                },
                HashKind::Psd8 => {
                },
            }
        },
    }
}

/// Stepping past a leading segment of a suffix.
proof fn lemma_skip_concat(s: Seq<u8>, p: int, x: Seq<u8>, y: Seq<u8>)
    requires
        0 <= p <= s.len(),
        s.skip(p) == x + y,
    ensures
        s.skip(p + x.len()) =~= y,
        s.subrange(p, p + x.len() as int) =~= x,
{
    let n: int = x.len() as int;
    assert(s.skip(p).len() == s.len() - p);
    assert(s.len() - p == n + y.len());
    assert forall|j: int| 0 <= j < y.len() implies s.skip(p + n)[j] == y[j] by {
        assert(s.skip(p + n)[j] == s.subrange(p + n, s.len() as int)[j]);
        assert(s.subrange(p + n, s.len() as int)[j] == s[p + n + j]);
        assert(s.skip(p)[n + j] == s.subrange(p, s.len() as int)[n + j]);
        assert(s.subrange(p, s.len() as int)[n + j] == s[p + n + j]);
        assert((x + y)[n + j] == y[j]);
    }
    assert forall|j: int| 0 <= j < n implies s.subrange(p, p + n)[j] == x[j] by {
        assert(s.subrange(p, p + n)[j] == s[p + j]);
        assert(s.skip(p)[j] == s.subrange(p, s.len() as int)[j]);
        assert(s.subrange(p, s.len() as int)[j] == s[p + j]);
        assert((x + y)[j] == x[j]);
    }
}

/// Parsing the shared instruction tail written canonically.
proof fn lemma_parse_tail_text(s: Seq<u8>, pos: int, d: u64, rest: Seq<u8>)
    requires
        0 <= pos <= s.len(),
        s.skip(pos) =~= seq![32u8] + seq![105u8, 110, 116, 111] + seq![32u8] + seq![114u8]
            + num_text(d as nat) + seq![59u8] + rest,
    ensures
        parse_tail(s, pos) == Some((d, pos + 8 + num_text(d as nat).len() as int)),
{
    let nt = num_text(d as nat);
    lemma_num_text(d as nat, seq![59u8] + rest);
    assert(s.skip(pos) =~= seq![32u8] + (seq![105u8, 110, 116, 111] + (seq![32u8] + (seq![114u8]
        + nt + (seq![59u8] + rest)))));
    lemma_space_run_exact(
        seq![32u8],
        seq![105u8, 110, 116, 111] + (seq![32u8] + (seq![114u8] + nt + (seq![59u8] + rest))),
    );
    lemma_skip_concat(
        s,
        pos,
        seq![32u8],
        seq![105u8, 110, 116, 111] + (seq![32u8] + (seq![114u8] + nt + (seq![59u8] + rest))),
    );
    let q = pos + 1;
    lemma_skip_concat(
        s,
        q,
        seq![105u8, 110, 116, 111],
        seq![32u8] + (seq![114u8] + nt + (seq![59u8] + rest)),
    );
    lemma_space_run_exact(seq![32u8], seq![114u8] + nt + (seq![59u8] + rest));
    lemma_skip_concat(s, q + 4, seq![32u8], seq![114u8] + nt + (seq![59u8] + rest));
    let r0 = q + 5;
    lemma_parse_reg_text(d, seq![59u8] + rest);
    let nd = 1 + nt.len() as int;
    lemma_skip_concat(s, r0, seq![114u8] + nt, seq![59u8] + rest);
    assert(s[r0 + nd] == s.skip(r0 + nd)[0]);
    assert(s[r0 + nd] == 59);
}

/// Parsing the canonical text of an instruction yields the instruction
/// back and consumes exactly its text: the grammar round trips.
#[verifier::rlimit(100)]
#[verifier::spinoff_prover]
pub proof fn lemma_parse_instr_roundtrip(m: InstrModel, rest: Seq<u8>)
    requires
        instr_model_wf(m),
    ensures
        parse_instr(instr_text(m) + rest) == Some((m, instr_text(m).len() as int)),
{
    match m {
        InstrModel::AddWrapped(a, b, d) => {
            lemma_parse_instr_binary(Opcode::AddWrapped, a, b, d, rest);
        },
        InstrModel::NotEqual(a, b, d) => {
            lemma_parse_instr_binary(Opcode::NotEqual, a, b, d, rest);
        },
        InstrModel::Hash(k, a, d) => {
            let s = instr_text(m) + rest;
            let t0 = opcode_token(Opcode::Hash(k));
            let ta = operand_text(a);
            let nt = num_text(d as nat);
            let tail = seq![32u8] + seq![105u8, 110, 116, 111] + seq![32u8] + seq![114u8] + nt
                + seq![59u8] + rest;
            lemma_opcode_token_facts(Opcode::Hash(k));
            lemma_operand_text_first(a);
            let k0 = t0.len() as int;
            assert(s =~= t0 + (seq![32u8] + (ta + tail)));
            assert(s.skip(0) =~= s);
            lemma_opcode_run_exact(t0, seq![32u8] + (ta + tail));
            lemma_skip_concat(s, 0, t0, seq![32u8] + (ta + tail));
            lemma_space_run_exact(seq![32u8], ta + tail);
            lemma_skip_concat(s, k0, seq![32u8], ta + tail);
            let p1 = k0 + 1;
            lemma_parse_operand_roundtrip(a, tail);
            let na = ta.len() as int;
            lemma_skip_concat(s, p1, ta, tail);
            lemma_parse_tail_text(s, p1 + na, d, rest);
        },
    }
}

/// Parsing the canonical text of a two-operand instruction.
/// The structural facts of a two-operand instruction text: where each
/// token run ends and what each piece parses to.
#[verifier::rlimit(100)]
#[verifier::spinoff_prover]
proof fn lemma_binary_layout(t0: Seq<u8>, a: OperandModel, b: OperandModel, d: u64, rest: Seq<u8>)
    requires
        operand_model_wf(a),
        operand_model_wf(b),
        t0.len() > 0,
        forall|i: int| 0 <= i < t0.len() ==> is_opcode_c(#[trigger] t0[i]),
    ensures
        ({
            let ta = operand_text(a);
            let tb = operand_text(b);
            let nt = num_text(d as nat);
            let s = t0 + seq![32u8] + ta + seq![32u8] + tb + seq![32u8] + seq![
                105u8,
                110,
                116,
                111,
            ] + seq![32u8] + seq![114u8] + nt + seq![59u8] + rest;
            let k0 = t0.len() as int;
            let na = ta.len() as int;
            let nb = tb.len() as int;
            opcode_run(s) == k0 && s.subrange(0, k0) =~= t0 && space_run(s.skip(k0)) == 1
                && parse_operand(s.skip(k0 + 1)) == Some((a, na)) && space_run(
                s.skip(k0 + 1 + na),
            ) == 1 && parse_operand(s.skip(k0 + 2 + na)) == Some((b, nb)) && parse_tail(
                s,
                k0 + 2 + na + nb,
            ) == Some((d, k0 + 10 + na + nb + nt.len() as int)) && s.len() == k0 + 10 + na + nb
                + nt.len() + rest.len()
        }),
{
    let ta = operand_text(a);
    let tb = operand_text(b);
    let nt = num_text(d as nat);
    let s = t0 + seq![32u8] + ta + seq![32u8] + tb + seq![32u8] + seq![105u8, 110, 116, 111]
        + seq![32u8] + seq![114u8] + nt + seq![59u8] + rest;
    let tail = seq![32u8] + seq![105u8, 110, 116, 111] + seq![32u8] + seq![114u8] + nt
        + seq![59u8] + rest;
    lemma_operand_text_first(a);
    lemma_operand_text_first(b);
    let k0 = t0.len() as int;
    assert(s =~= t0 + (seq![32u8] + (ta + (seq![32u8] + (tb + tail)))));
    assert(s.skip(0) =~= s);
    lemma_opcode_run_exact(t0, seq![32u8] + (ta + (seq![32u8] + (tb + tail))));
    lemma_skip_concat(s, 0, t0, seq![32u8] + (ta + (seq![32u8] + (tb + tail))));
    lemma_space_run_exact(seq![32u8], ta + (seq![32u8] + (tb + tail)));
    lemma_skip_concat(s, k0, seq![32u8], ta + (seq![32u8] + (tb + tail)));
    let p1 = k0 + 1;
    lemma_parse_operand_roundtrip(a, seq![32u8] + (tb + tail));
    let na = ta.len() as int;
    lemma_skip_concat(s, p1, ta, seq![32u8] + (tb + tail));
    lemma_space_run_exact(seq![32u8], tb + tail);
    lemma_skip_concat(s, p1 + na, seq![32u8], tb + tail);
    let p2 = p1 + na + 1;
    lemma_parse_operand_roundtrip(b, tail);
    let nb = tb.len() as int;
    lemma_skip_concat(s, p2, tb, tail);
    lemma_parse_tail_text(s, p2 + nb, d, rest);
}

/// Parsing the canonical text of a two-operand instruction.
#[verifier::rlimit(100)]
#[verifier::spinoff_prover]
proof fn lemma_parse_instr_binary(
    op: Opcode,
    a: OperandModel,
    b: OperandModel,
    d: u64,
    rest: Seq<u8>,
)
    requires
        operand_model_wf(a),
        operand_model_wf(b),
        op == Opcode::AddWrapped || op == Opcode::NotEqual,
    ensures
        ({
            let m = if op == Opcode::AddWrapped {
                InstrModel::AddWrapped(a, b, d)
            } else {
                InstrModel::NotEqual(a, b, d)
            };
            parse_instr(instr_text(m) + rest) == Some((m, instr_text(m).len() as int))
        }),
{
    let m = if op == Opcode::AddWrapped {
        InstrModel::AddWrapped(a, b, d)
    } else {
        InstrModel::NotEqual(a, b, d)
    };
    let s = instr_text(m) + rest;
    let t0 = opcode_token(op);
    lemma_opcode_token_facts(op);
    lemma_binary_layout(t0, a, b, d, rest);
    assert(s =~= t0 + seq![32u8] + operand_text(a) + seq![32u8] + operand_text(b) + seq![32u8]
        + seq![105u8, 110, 116, 111] + seq![32u8] + seq![114u8] + num_text(d as nat)
        + seq![59u8] + rest);
}

/// Appends the canonical decimal text of the number the digits stand
/// for.
fn push_num(out: &mut Vec<u8>, digits: &Vec<u8>)
    requires
        forall|i: int| 0 <= i < digits@.len() ==> digits@[i] < 10,
        digits@.len() > 0 ==> digits@[0] != 0,
        dec_val(digits@) == 0 ==> digits@.len() == 0,
    ensures
        final(out)@ == old(out)@ + num_text(dec_val(digits@)),
{
    proof {
        lemma_digits_canonical(digits@, dec_val(digits@));
    }
    if digits.len() == 0 {
        out.push(48);
        proof {
            assert(out@ =~= old(out)@ + num_text(0));
        }
    } else {
        let mut i: usize = 0;
        while i < digits.len()
            invariant
                i <= digits@.len(),
                forall|j: int| 0 <= j < digits@.len() ==> digits@[j] < 10,
                out@ == old(out)@ + digits_ascii(digits@.take(i as int)),
            decreases digits@.len() - i,
        {
            let ghost pre = out@;
            out.push(digits[i] + 48);
            i = i + 1;
            proof {
                assert(out@ =~= old(out)@ + digits_ascii(digits@.take(i as int)));
            }
        }
        proof {
            assert(digits@.take(digits@.len() as int) =~= digits@);
            assert(digits_ascii(digits@) =~= num_text(dec_val(digits@)));
        }
    }
}

/// Appends the canonical decimal text of a locator.
fn push_num_u64(out: &mut Vec<u8>, v: u64)
    ensures
        final(out)@ == old(out)@ + num_text(v as nat),
{
    let digits = U256::from_u128(v as u128).to_digits();
    push_num(out, &digits);
}

/// The canonical text of a literal, as bytes.
pub fn display_literal(l: &Literal) -> (r: Vec<u8>)
    requires
        l.wf(),
    ensures
        r@ == lit_text(lit_model(*l)),
{
    let mut out: Vec<u8> = Vec::new();
    match l {
        Literal::Boolean(b) => {
            if *b {
                out.push(116);
                out.push(114);
                out.push(117);
                out.push(101);
            } else {
                out.push(102);
                out.push(97);
                out.push(108);
                out.push(115);
                out.push(101);
            }
            proof {
                assert(out@ =~= lit_text(lit_model(*l)));
            }
        },
        Literal::Str(st) => {
            out.push(34);
            crate::codec::append_bytes(&mut out, st.as_bytes());
            out.push(34);
            proof {
                assert(out@ =~= lit_text(lit_model(*l)));
            }
        },
        Literal::Address(a) => {
            crate::codec::append_bytes(&mut out, a.as_bytes());
            proof {
                assert(out@ =~= lit_text(lit_model(*l)));
            }
        },
        Literal::I8(x) => {
            if *x < 0 {
                out.push(45);
            }
            let mag: u128 = if *x < 0 {
                (-(*x as i16)) as u128
            } else {
                *x as u128
            };
            let digits = U256::from_u128(mag).to_digits();
            push_num(&mut out, &digits);
            out.push(105);
            out.push(56);
            proof {
                assert(out@ =~= lit_text(lit_model(*l)));
            }
        },
        Literal::I16(x) => {
            if *x < 0 {
                out.push(45);
            }
            let mag: u128 = if *x < 0 {
                (-(*x as i32)) as u128
            } else {
                *x as u128
            };
            let digits = U256::from_u128(mag).to_digits();
            push_num(&mut out, &digits);
            out.push(105);
            out.push(49);
            out.push(54);
            proof {
                assert(out@ =~= lit_text(lit_model(*l)));
            }
        },
        Literal::I32(x) => {
            if *x < 0 {
                out.push(45);
            }
            let mag: u128 = if *x < 0 {
                (-(*x as i64)) as u128
            } else {
                *x as u128
            };
            let digits = U256::from_u128(mag).to_digits();
            push_num(&mut out, &digits);
            out.push(105);
            out.push(51);
            out.push(50);
            proof {
                assert(out@ =~= lit_text(lit_model(*l)));
            }
        },
        Literal::I64(x) => {
            if *x < 0 {
                out.push(45);
            }
            let mag: u128 = if *x < 0 {
                (-(*x as i128)) as u128
            } else {
                *x as u128
            };
            let digits = U256::from_u128(mag).to_digits();
            push_num(&mut out, &digits);
            out.push(105);
            out.push(54);
            out.push(52);
            proof {
                assert(out@ =~= lit_text(lit_model(*l)));
            }
        },
        Literal::I128(x) => {
            if *x < 0 {
                out.push(45);
            }
            let mag: u128 = if *x < 0 {
                ((-(*x + 1)) as u128) + 1
            } else {
                *x as u128
            };
            let digits = U256::from_u128(mag).to_digits();
            push_num(&mut out, &digits);
            out.push(105);
            out.push(49);
            out.push(50);
            out.push(56);
            proof {
                assert(out@ =~= lit_text(lit_model(*l)));
            }
        },
        Literal::U8(x) => {
            let digits = U256::from_u128(*x as u128).to_digits();
            push_num(&mut out, &digits);
            out.push(117);
            out.push(56);
            proof {
                assert(out@ =~= lit_text(lit_model(*l)));
            }
        },
        Literal::U16(x) => {
            let digits = U256::from_u128(*x as u128).to_digits();
            push_num(&mut out, &digits);
            out.push(117);
            out.push(49);
            out.push(54);
            proof {
                assert(out@ =~= lit_text(lit_model(*l)));
            }
        },
        Literal::U32(x) => {
            let digits = U256::from_u128(*x as u128).to_digits();
            push_num(&mut out, &digits);
            out.push(117);
            out.push(51);
            out.push(50);
            proof {
                assert(out@ =~= lit_text(lit_model(*l)));
            }
        },
        Literal::U64(x) => {
            let digits = U256::from_u128(*x as u128).to_digits();
            push_num(&mut out, &digits);
            out.push(117);
            out.push(54);
            out.push(52);
            proof {
                assert(out@ =~= lit_text(lit_model(*l)));
            }
        },
        Literal::U128(x) => {
            let digits = U256::from_u128(*x).to_digits();
            push_num(&mut out, &digits);
            out.push(117);
            out.push(49);
            out.push(50);
            out.push(56);
            proof {
                assert(out@ =~= lit_text(lit_model(*l)));
            }
        },
        Literal::Field(f) => {
            let digits = f.repr.to_digits();
            push_num(&mut out, &digits);
            out.push(102);
            out.push(105);
            out.push(101);
            out.push(108);
            out.push(100);
            proof {
                assert(out@ =~= lit_text(lit_model(*l)));
            }
        },
        Literal::Group(g) => {
            let digits = g.x.repr.to_digits();
            push_num(&mut out, &digits);
            out.push(103);
            out.push(114);
            out.push(111);
            out.push(117);
            out.push(112);
            proof {
                assert(out@ =~= lit_text(lit_model(*l)));
            }
        },
        Literal::Scalar(sc) => {
            let digits = sc.repr.to_digits();
            push_num(&mut out, &digits);
            out.push(115);
            out.push(99);
            out.push(97);
            out.push(108);
            out.push(97);
            out.push(114);
            proof {
                assert(out@ =~= lit_text(lit_model(*l)));
            }
        },
    }
    out
}

/// The canonical text of an operand, as bytes.
pub fn display_operand(o: &Operand) -> (r: Vec<u8>)
    requires
        o.wf(),
    ensures
        r@ == operand_text(operand_model(*o)),
{
    let mut out: Vec<u8> = Vec::new();
    match o {
        Operand::Literal(l, vis) => {
            let body = display_literal(l);
            crate::codec::append_bytes(&mut out, &body);
            match vis {
                None => {
                },
                Some(Mode::Constant) => {
                    out.push(46);
                    out.push(99);
                    out.push(111);
                    out.push(110);
                    out.push(115);
                    out.push(116);
                    out.push(97);
                    out.push(110);
                    out.push(116);
                },
                Some(Mode::Public) => {
                    out.push(46);
                    out.push(112);
                    out.push(117);
                    out.push(98);
                    out.push(108);
                    out.push(105);
                    out.push(99);
                },
                Some(Mode::Private) => {
                    out.push(46);
                    out.push(112);
                    out.push(114);
                    out.push(105);
                    out.push(118);
                    out.push(97);
                    out.push(116);
                    out.push(101);
                },
            }
            proof {
                assert(out@ =~= operand_text(operand_model(*o)));
            }
        },
        Operand::Register(reg, member) => {
            out.push(114);
            push_num_u64(&mut out, reg.locator);
            match member {
                None => {
                },
                Some(id) => {
                    out.push(46);
                    crate::codec::append_bytes(&mut out, id.as_bytes());
                },
            }
            proof {
                assert(out@ =~= operand_text(operand_model(*o)));
            }
        },
    }
    out
}

impl crate::instruction::Instruction {
    /// The canonical text of this instruction:
    /// `<opcode> <operand> [<operand>] into <destination>;`.
    #[verifier::rlimit(100)]
    #[verifier::spinoff_prover]
    pub fn to_text(&self) -> (r: Vec<u8>)
        requires
            self.wf(),
        ensures
            r@ == instr_text(self.model()),
    {
        let mut out = self.opcode().token();
        out.push(32);
        match self {
            crate::instruction::Instruction::AddWrapped(i) => {
                let a = display_operand(i.operation.first());
                crate::codec::append_bytes(&mut out, &a);
                out.push(32);
                let b = display_operand(i.operation.second());
                crate::codec::append_bytes(&mut out, &b);
                out.push(32);
                out.push(105);
                out.push(110);
                out.push(116);
                out.push(111);
                out.push(32);
                out.push(114);
                push_num_u64(&mut out, i.operation.destination().locator);
                out.push(59);
                proof {
                    assert(out@ =~= instr_text(self.model()));
                }
            },
            crate::instruction::Instruction::NotEqual(i) => {
                let a = display_operand(i.operation.first());
                crate::codec::append_bytes(&mut out, &a);
                out.push(32);
                let b = display_operand(i.operation.second());
                crate::codec::append_bytes(&mut out, &b);
                out.push(32);
                out.push(105);
                out.push(110);
                out.push(116);
                out.push(111);
                out.push(32);
                out.push(114);
                push_num_u64(&mut out, i.operation.destination().locator);
                out.push(59);
                proof {
                    assert(out@ =~= instr_text(self.model()));
                }
            },
            crate::instruction::Instruction::Hash(i) => {
                let a = display_operand(i.operation.first());
                crate::codec::append_bytes(&mut out, &a);
                out.push(32);
                out.push(105);
                out.push(110);
                out.push(116);
                out.push(111);
                out.push(32);
                out.push(114);
                push_num_u64(&mut out, i.operation.destination().locator);
                out.push(59);
                proof {
                    assert(out@ =~= instr_text(self.model()));
                }
            },
        }
        out
    }
}

/// A subrange of a suffix is a subrange of the whole.
proof fn lemma_skip_subrange(s: Seq<u8>, pos: int, a: int, b: int)
    requires
        0 <= pos,
        0 <= a <= b,
        pos + b <= s.len(),
    ensures
        s.skip(pos).subrange(a, b) =~= s.subrange(pos + a, pos + b),
{
    assert forall|j: int| 0 <= j < b - a implies #[trigger] s.skip(pos).subrange(a, b)[j]
        == s.subrange(pos + a, pos + b)[j] by {
        assert(s.skip(pos).subrange(a, b)[j] == s.skip(pos)[a + j]);
        assert(s.skip(pos)[a + j] == s[pos + a + j]);
        assert(s.subrange(pos + a, pos + b)[j] == s[pos + a + j]);
    }
}

/// A suffix of a suffix is a suffix of the whole.
proof fn lemma_skip_skip(s: Seq<u8>, pos: int, a: int)
    requires
        0 <= pos,
        0 <= a,
        pos + a <= s.len(),
    ensures
        s.skip(pos).skip(a) =~= s.skip(pos + a),
{
    assert forall|j: int| 0 <= j < s.len() - pos - a implies #[trigger] s.skip(pos).skip(a)[j]
        == s.skip(pos + a)[j] by {
        assert(s.skip(pos).skip(a)[j] == s.skip(pos)[a + j]);
        assert(s.skip(pos)[a + j] == s[pos + a + j]);
        assert(s.skip(pos + a)[j] == s[pos + a + j]);
    }
}

/// The characters inside a digit run are digits.
proof fn lemma_digit_run_chars(t: Seq<u8>)
    ensures
        0 <= digit_run(t) <= t.len(),
        forall|i: int| 0 <= i < digit_run(t) ==> is_digit_c(#[trigger] t[i]),
    decreases t.len(),
{
    if t.len() > 0 && is_digit_c(t[0]) {
        lemma_digit_run_chars(t.skip(1));
        assert forall|i: int| 0 <= i < digit_run(t) implies is_digit_c(#[trigger] t[i]) by {
            if i > 0 {
                assert(t.skip(1)[i - 1] == t[i]);
            }
        }
    }
}

/// The characters inside a string run are string characters.
proof fn lemma_string_run_chars(t: Seq<u8>)
    ensures
        0 <= string_run(t) <= t.len(),
        forall|i: int| 0 <= i < string_run(t) ==> is_string_byte(#[trigger] t[i]),
    decreases t.len(),
{
    if t.len() > 0 && is_string_byte(t[0]) {
        lemma_string_run_chars(t.skip(1));
        assert forall|i: int| 0 <= i < string_run(t) implies is_string_byte(#[trigger] t[i]) by {
            if i > 0 {
                assert(t.skip(1)[i - 1] == t[i]);
            }
        }
    }
}

/// The end of the digit run from a position.
fn scan_digits(s: &[u8], pos: usize) -> (r: usize)
    requires
        pos <= s@.len(),
    ensures
        r as int == digit_run(s@.skip(pos as int)),
        pos + r <= s@.len(),
{
    let n = s.len();
    let mut i: usize = pos;
    while i < n && 48 <= s[i] && s[i] <= 57
        invariant
            pos <= i <= n == s@.len(),
            digit_run(s@.skip(pos as int)) == i - pos + digit_run(s@.skip(i as int)),
        decreases n - i,
    {
        proof {
            assert(s@.skip(i as int)[0] == s@[i as int]);
            assert(s@.skip(i as int).skip(1) =~= s@.skip(i + 1));
        }
        i = i + 1;
    }
    proof {
        if i < n {
            assert(s@.skip(i as int)[0] == s@[i as int]);
        } else {
            assert(s@.skip(i as int) =~= Seq::<u8>::empty());
        }
    }
    i - pos
}

/// The end of the letter-or-digit run from a position.
fn scan_alnum(s: &[u8], pos: usize) -> (r: usize)
    requires
        pos <= s@.len(),
    ensures
        r as int == alnum_run(s@.skip(pos as int)),
        pos + r <= s@.len(),
{
    let n = s.len();
    let mut i: usize = pos;
    while i < n && ((48 <= s[i] && s[i] <= 57) || (97 <= s[i] && s[i] <= 122))
        invariant
            pos <= i <= n == s@.len(),
            alnum_run(s@.skip(pos as int)) == i - pos + alnum_run(s@.skip(i as int)),
        decreases n - i,
    {
        proof {
            assert(s@.skip(i as int)[0] == s@[i as int]);
            assert(s@.skip(i as int).skip(1) =~= s@.skip(i + 1));
        }
        i = i + 1;
    }
    proof {
        if i < n {
            assert(s@.skip(i as int)[0] == s@[i as int]);
        } else {
            assert(s@.skip(i as int) =~= Seq::<u8>::empty());
        }
    }
    i - pos
}

/// The end of the identifier-character run from a position.
fn scan_ident(s: &[u8], pos: usize) -> (r: usize)
    requires
        pos <= s@.len(),
    ensures
        r as int == ident_run(s@.skip(pos as int)),
        pos + r <= s@.len(),
{
    let n = s.len();
    let mut i: usize = pos;
    while i < n && crate::identifier::ident_byte(s[i])
        invariant
            pos <= i <= n == s@.len(),
            ident_run(s@.skip(pos as int)) == i - pos + ident_run(s@.skip(i as int)),
        decreases n - i,
    {
        proof {
            assert(s@.skip(i as int)[0] == s@[i as int]);
            assert(s@.skip(i as int).skip(1) =~= s@.skip(i + 1));
        }
        i = i + 1;
    }
    proof {
        if i < n {
            assert(s@.skip(i as int)[0] == s@[i as int]);
        } else {
            assert(s@.skip(i as int) =~= Seq::<u8>::empty());
        }
    }
    i - pos
}

/// The end of the string-character run from a position.
fn scan_string(s: &[u8], pos: usize) -> (r: usize)
    requires
        pos <= s@.len(),
    ensures
        r as int == string_run(s@.skip(pos as int)),
        pos + r <= s@.len(),
{
    let n = s.len();
    let mut i: usize = pos;
    while i < n && 32 <= s[i] && s[i] <= 126 && s[i] != 34 && s[i] != 92
        invariant
            pos <= i <= n == s@.len(),
            string_run(s@.skip(pos as int)) == i - pos + string_run(s@.skip(i as int)),
        decreases n - i,
    {
        proof {
            assert(s@.skip(i as int)[0] == s@[i as int]);
            assert(s@.skip(i as int).skip(1) =~= s@.skip(i + 1));
        }
        i = i + 1;
    }
    proof {
        if i < n {
            assert(s@.skip(i as int)[0] == s@[i as int]);
        } else {
            assert(s@.skip(i as int) =~= Seq::<u8>::empty());
        }
    }
    i - pos
}

/// The end of the space run from a position.
fn scan_spaces(s: &[u8], pos: usize) -> (r: usize)
    requires
        pos <= s@.len(),
    ensures
        r as int == space_run(s@.skip(pos as int)),
        pos + r <= s@.len(),
{
    let n = s.len();
    let mut i: usize = pos;
    while i < n && s[i] == 32
        invariant
            pos <= i <= n == s@.len(),
            space_run(s@.skip(pos as int)) == i - pos + space_run(s@.skip(i as int)),
        decreases n - i,
    {
        proof {
            assert(s@.skip(i as int)[0] == s@[i as int]);
            assert(s@.skip(i as int).skip(1) =~= s@.skip(i + 1));
        }
        i = i + 1;
    }
    proof {
        if i < n {
            assert(s@.skip(i as int)[0] == s@[i as int]);
        } else {
            assert(s@.skip(i as int) =~= Seq::<u8>::empty());
        }
    }
    i - pos
}

/// The end of the opcode-character run from a position.
fn scan_opcode(s: &[u8], pos: usize) -> (r: usize)
    requires
        pos <= s@.len(),
    ensures
        r as int == opcode_run(s@.skip(pos as int)),
        pos + r <= s@.len(),
{
    let n = s.len();
    let mut i: usize = pos;
    while i < n && ((48 <= s[i] && s[i] <= 57) || (97 <= s[i] && s[i] <= 122) || s[i] == 46)
        invariant
            pos <= i <= n == s@.len(),
            opcode_run(s@.skip(pos as int)) == i - pos + opcode_run(s@.skip(i as int)),
        decreases n - i,
    {
        proof {
            assert(s@.skip(i as int)[0] == s@[i as int]);
            assert(s@.skip(i as int).skip(1) =~= s@.skip(i + 1));
        }
        i = i + 1;
    }
    proof {
        if i < n {
            assert(s@.skip(i as int)[0] == s@[i as int]);
        } else {
            assert(s@.skip(i as int) =~= Seq::<u8>::empty());
        }
    }
    i - pos
}

/// Digit prefixes stand for no more than the whole digit sequence.
proof fn lemma_dec_val_take(u: Seq<u8>, i: int)
    requires
        0 <= i <= u.len(),
    ensures
        dec_val(u.take(i)) <= dec_val(u),
    decreases u.len(),
{
    if i < u.len() {
        assert(u.drop_last().take(i) =~= u.take(i));
        lemma_dec_val_take(u.drop_last(), i);
    } else {
        assert(u.take(i) =~= u);
    }
}

/// The number a run of ASCII digits stands for; `None` when it exceeds
/// 256 bits.
fn digits_value(s: &[u8], pos: usize, k: usize) -> (r: Option<U256>)
    requires
        pos + k <= s@.len(),
        forall|j: int| pos <= j < pos + k ==> is_digit_c(#[trigger] s@[j]),
    ensures
        match r {
            Some(u) => u.value() == ascii_val(s@.subrange(pos as int, pos + k)),
            None => ascii_val(s@.subrange(pos as int, pos + k))
                >= 0x1_0000_0000_0000_0000_0000_0000_0000_0000_0000_0000_0000_0000_0000_0000_0000_0000,
        },
{
    let ghost full = s@.subrange(pos as int, pos + k).map(|j: int, c: u8| (c - 48) as u8);
    let total = s.len();
    let mut acc = U256::zero();
    let mut i: usize = 0;
    proof {
        assert(full.take(0) =~= Seq::<u8>::empty());
    }
    while i < k
        invariant
            i <= k,
            pos + k <= total == s@.len(),
            forall|j: int| pos <= j < pos + k ==> is_digit_c(#[trigger] s@[j]),
            full == s@.subrange(pos as int, pos + k).map(|j: int, c: u8| (c - 48) as u8),
            acc.value() == dec_val(full.take(i as int)),
        decreases k - i,
    {
        let d = s[pos + i] - 48;
        proof {
            assert(full.take(i + 1).drop_last() =~= full.take(i as int));
            assert(full.take(i + 1).last() == full[i as int]);
            assert(full[i as int] == (s@[pos + i] - 48) as u8);
        }
        match acc.mul_small_add(10, d as u64) {
            Some(v) => {
                acc = v;
            },
            None => {
                proof {
                    lemma_dec_val_take(full, i + 1);
                }
                return None;
            },
        }
        i = i + 1;
    }
    proof {
        assert(full.take(k as int) =~= full);
    }
    Some(acc)
}

/// The value of limbs that fit one machine double word.
fn as_u128(u: &U256) -> (r: Option<u128>)
    ensures
        match r {
            Some(x) => x as nat == u.value(),
            None => u.value() >= 0x1_0000_0000_0000_0000_0000_0000_0000_0000,
        },
{
    if u.l2 == 0 && u.l3 == 0 {
        Some((u.l1 as u128) * crate::limbs::LIMB_BASE + (u.l0 as u128))
    } else {
        None
    }
}

/// Parses a literal from a position: the literal and the position after
/// it, or `None` where no literal starts there.
#[verifier::rlimit(100)]
#[verifier::spinoff_prover]
pub fn parse_literal_text(s: &[u8], pos: usize) -> (r: Option<(Literal, usize)>)
    requires
        pos <= s@.len(),
    ensures
        match r {
            Some((l, n)) => parse_lit(s@.skip(pos as int)) == Some(
                (lit_model(l), n - pos as int),
            ) && l.wf() && pos < n <= s@.len(),
            None => parse_lit(s@.skip(pos as int)) is None,
        },
{
    proof {
        reveal(parse_lit);
    }
    let n = s.len();
    let word_true: Vec<u8> = vec![116u8, 114, 117, 101];
    let word_false: Vec<u8> = vec![102u8, 97, 108, 115, 101];
    let word_aleo: Vec<u8> = vec![97u8, 108, 101, 111, 49];
    if n - pos >= 4 && crate::limbs::bytes_eq(
        vstd::slice::slice_subrange(s, pos, pos + 4),
        word_true.as_slice(),
    ) {
        proof {
            lemma_skip_subrange(s@, pos as int, 0, 4);
        }
        return Some((Literal::Boolean(true), pos + 4));
    }
    proof {
        if s@.skip(pos as int).len() >= 4 {
            lemma_skip_subrange(s@, pos as int, 0, 4);
        }
    }
    if n - pos >= 5 && crate::limbs::bytes_eq(
        vstd::slice::slice_subrange(s, pos, pos + 5),
        word_false.as_slice(),
    ) {
        proof {
            lemma_skip_subrange(s@, pos as int, 0, 5);
        }
        return Some((Literal::Boolean(false), pos + 5));
    }
    proof {
        if s@.skip(pos as int).len() >= 5 {
            lemma_skip_subrange(s@, pos as int, 0, 5);
        }
    }
    if pos < n && s[pos] == 34 {
        proof {
            lemma_skip_skip(s@, pos as int, 1);
            assert(s@.skip(pos as int)[0] == s@[pos as int]);
        }
        let k = scan_string(s, pos + 1);
        if pos + 1 + k < n && s[pos + 1 + k] == 34 && k <= 255 {
            proof {
                lemma_skip_subrange(s@, pos as int, 1, 1 + k as int);
                lemma_string_run_chars(s@.skip(pos + 1));
                assert(s@.skip(pos as int)[1 + k as int] == s@[pos + 1 + k]);
                assert forall|j: int| 0 <= j < k implies is_string_byte(
                    #[trigger] s@.subrange(pos + 1, pos + 1 + k as int)[j],
                ) by {
                    assert(s@.subrange(pos + 1, pos + 1 + k as int)[j] == s@.skip(pos + 1)[j]);
                }
            }
            let mut v: Vec<u8> = Vec::new();
            let mut i: usize = 0;
            while i < k
                invariant
                    i <= k,
                    pos + 1 + k < n == s@.len(),
                    v@ == s@.subrange(pos + 1, pos + 1 + i as int),
                decreases k - i,
            {
                v.push(s[pos + 1 + i]);
                i = i + 1;
                proof {
                    assert(v@ =~= s@.subrange(pos + 1, pos + 1 + i as int));
                }
            }
            match StrLit::new(v) {
                Some(st) => {
                    return Some((Literal::Str(st), pos + 2 + k));
                },
                None => {
                    proof {
                        assert(false);
                    }
                },
            }
        }
        return None;
    }
    proof {
        if pos < s@.len() {
            assert(s@.skip(pos as int)[0] == s@[pos as int]);
        }
    }
    if n - pos >= 63 && crate::limbs::bytes_eq(
        vstd::slice::slice_subrange(s, pos, pos + 5),
        word_aleo.as_slice(),
    ) {
        proof {
            lemma_skip_subrange(s@, pos as int, 0, 5);
            lemma_skip_subrange(s@, pos as int, 0, 63);
        }
        let mut v: Vec<u8> = Vec::new();
        let mut i: usize = 0;
        while i < 63
            invariant
                i <= 63,
                pos + 63 <= n == s@.len(),
                v@ == s@.subrange(pos as int, pos + i as int),
            decreases 63 - i,
        {
            v.push(s[pos + i]);
            i = i + 1;
            proof {
                assert(v@ =~= s@.subrange(pos as int, pos + i as int));
            }
        }
        match Address::new(v) {
            Some(a) => {
                return Some((Literal::Address(a), pos + 63));
            },
            None => {
                proof {
                    assert(s@.skip(pos as int)[0] == 97);
                    assert(!is_digit_c(s@.skip(pos as int)[0]) && s@.skip(pos as int)[0] != 45);
                }
                return None;
            },
        }
    }
    proof {
        if s@.skip(pos as int).len() >= 63 {
            lemma_skip_subrange(s@, pos as int, 0, 5);
        }
    }
    parse_number_text(s, pos)
}

/// Parses a numeric literal: an optional sign, digits, and a kind
/// suffix.
#[verifier::rlimit(100)]
#[verifier::spinoff_prover]
fn parse_number_text(s: &[u8], pos: usize) -> (r: Option<(Literal, usize)>)
    requires
        pos <= s@.len(),
        ({
            let sp = s@.skip(pos as int);
            &&& !(sp.len() >= 4 && sp.subrange(0, 4) =~= seq![116u8, 114, 117, 101])
            &&& !(sp.len() >= 5 && sp.subrange(0, 5) =~= seq![102u8, 97, 108, 115, 101])
            &&& !(sp.len() >= 1 && sp[0] == 34)
            &&& !(sp.len() >= 63 && sp.subrange(0, 5) =~= seq![97u8, 108, 101, 111, 49]
                && wf_address_bytes(sp.subrange(0, 63)))
        }),
    ensures
        match r {
            Some((l, n)) => parse_lit(s@.skip(pos as int)) == Some(
                (lit_model(l), n - pos as int),
            ) && l.wf() && pos < n <= s@.len(),
            None => parse_lit(s@.skip(pos as int)) is None,
        },
{
    proof {
        reveal(parse_lit);
        if pos < s@.len() {
            assert(s@.skip(pos as int)[0] == s@[pos as int]);
        }
    }
    let n = s.len();
    let neg = pos < n && s[pos] == 45;
    let d0: usize = if neg {
        pos + 1
    } else {
        pos
    };
    proof {
        lemma_skip_skip(s@, pos as int, d0 - pos);
    }
    let k = scan_digits(s, d0);
    if k == 0 {
        return None;
    }
    proof {
        lemma_digit_run_chars(s@.skip(d0 as int));
        assert forall|j: int| d0 <= j < d0 + k implies is_digit_c(#[trigger] s@[j]) by {
            assert(s@.skip(d0 as int)[j - d0] == s@[j]);
        }
        lemma_skip_subrange(s@, pos as int, d0 - pos, d0 - pos + k as int);
        assert(s@.skip(pos as int).subrange(d0 - pos, d0 - pos + k as int) =~= s@.subrange(
            d0 as int,
            d0 + k as int,
        ));
        lemma_skip_skip(s@, pos as int, d0 - pos + k as int);
    }
    let v256 = digits_value(s, d0, k);
    let ghost v = ascii_val(s@.skip(pos as int).subrange(d0 - pos, d0 - pos + k as int));
    proof {
        assert(s@.skip(pos as int).subrange(d0 - pos, d0 - pos + k as int).map(
            |j: int, c: u8| (c - 48) as u8,
        ) =~= s@.subrange(d0 as int, d0 + k as int).map(|j: int, c: u8| (c - 48) as u8));
    }
    let m = scan_alnum(s, d0 + k);
    proof {
        lemma_skip_subrange(s@, pos as int, d0 - pos + k as int, d0 - pos + k as int + m as int);
    }
    let tok = vstd::slice::slice_subrange(s, d0 + k, d0 + k + m);
    let end = d0 + k + m;
    let sfx_i8: Vec<u8> = vec![105u8, 56];
    let sfx_i16: Vec<u8> = vec![105u8, 49, 54];
    let sfx_i32: Vec<u8> = vec![105u8, 51, 50];
    let sfx_i64: Vec<u8> = vec![105u8, 54, 52];
    let sfx_i128: Vec<u8> = vec![105u8, 49, 50, 56];
    let sfx_u8: Vec<u8> = vec![117u8, 56];
    let sfx_u16: Vec<u8> = vec![117u8, 49, 54];
    let sfx_u32: Vec<u8> = vec![117u8, 51, 50];
    let sfx_u64: Vec<u8> = vec![117u8, 54, 52];
    let sfx_u128: Vec<u8> = vec![117u8, 49, 50, 56];
    let sfx_field: Vec<u8> = vec![102u8, 105, 101, 108, 100];
    let sfx_group: Vec<u8> = vec![103u8, 114, 111, 117, 112];
    let sfx_scalar: Vec<u8> = vec![115u8, 99, 97, 108, 97, 114];
    let vu: Option<u128> = match &v256 {
        Some(u) => as_u128(u),
        None => None,
    };
    let lit: Option<Literal> = if crate::limbs::bytes_eq(tok, sfx_i8.as_slice()) {
        match vu {
            Some(x) => if neg {
                if x <= 0x80 {
                    Some(
                        Literal::I8(
                            if x == 0x80 {
                                i8::MIN
                            } else {
                                -(x as i8)
                            },
                        ),
                    )
                } else {
                    None
                }
            } else {
                if x <= 0x7f {
                    Some(Literal::I8(x as i8))
                } else {
                    None
                }
            },
            None => None,
        }
    } else if crate::limbs::bytes_eq(tok, sfx_i16.as_slice()) {
        match vu {
            Some(x) => if neg {
                if x <= 0x8000 {
                    Some(
                        Literal::I16(
                            if x == 0x8000 {
                                i16::MIN
                            } else {
                                -(x as i16)
                            },
                        ),
                    )
                } else {
                    None
                }
            } else {
                if x <= 0x7fff {
                    Some(Literal::I16(x as i16))
                } else {
                    None
                }
            },
            None => None,
        }
    } else if crate::limbs::bytes_eq(tok, sfx_i32.as_slice()) {
        match vu {
            Some(x) => if neg {
                if x <= 0x8000_0000 {
                    Some(
                        Literal::I32(
                            if x == 0x8000_0000 {
                                i32::MIN
                            } else {
                                -(x as i32)
                            },
                        ),
                    )
                } else {
                    None
                }
            } else {
                if x <= 0x7fff_ffff {
                    Some(Literal::I32(x as i32))
                } else {
                    None
                }
            },
            None => None,
        }
    } else if crate::limbs::bytes_eq(tok, sfx_i64.as_slice()) {
        match vu {
            Some(x) => if neg {
                if x <= 0x8000_0000_0000_0000 {
                    Some(
                        Literal::I64(
                            if x == 0x8000_0000_0000_0000 {
                                i64::MIN
                            } else {
                                -(x as i64)
                            },
                        ),
                    )
                } else {
                    None
                }
            } else {
                if x <= 0x7fff_ffff_ffff_ffff {
                    Some(Literal::I64(x as i64))
                } else {
                    None
                }
            },
            None => None,
        }
    } else if crate::limbs::bytes_eq(tok, sfx_i128.as_slice()) {
        match vu {
            Some(x) => if neg {
                if x <= 0x8000_0000_0000_0000_0000_0000_0000_0000 {
                    Some(
                        Literal::I128(
                            if x == 0x8000_0000_0000_0000_0000_0000_0000_0000 {
                                i128::MIN
                            } else {
                                -(x as i128)
                            },
                        ),
                    )
                } else {
                    None
                }
            } else {
                if x <= 0x7fff_ffff_ffff_ffff_ffff_ffff_ffff_ffff {
                    Some(Literal::I128(x as i128))
                } else {
                    None
                }
            },
            None => None,
        }
    } else if crate::limbs::bytes_eq(tok, sfx_u8.as_slice()) {
        match vu {
            Some(x) => if !neg && x <= 0xff {
                Some(Literal::U8(x as u8))
            } else {
                None
            },
            None => None,
        }
    } else if crate::limbs::bytes_eq(tok, sfx_u16.as_slice()) {
        match vu {
            Some(x) => if !neg && x <= 0xffff {
                Some(Literal::U16(x as u16))
            } else {
                None
            },
            None => None,
        }
    } else if crate::limbs::bytes_eq(tok, sfx_u32.as_slice()) {
        match vu {
            Some(x) => if !neg && x <= 0xffff_ffff {
                Some(Literal::U32(x as u32))
            } else {
                None
            },
            None => None,
        }
    } else if crate::limbs::bytes_eq(tok, sfx_u64.as_slice()) {
        match vu {
            Some(x) => if !neg && x <= 0xffff_ffff_ffff_ffff {
                Some(Literal::U64(x as u64))
            } else {
                None
            },
            None => None,
        }
    } else if crate::limbs::bytes_eq(tok, sfx_u128.as_slice()) {
        match vu {
            Some(x) => if !neg {
                Some(Literal::U128(x))
            } else {
                None
            },
            None => None,
        }
    } else if crate::limbs::bytes_eq(tok, sfx_field.as_slice()) {
        match &v256 {
            Some(u) => if !neg {
                match Field::from_repr(*u) {
                    Some(f) => Some(Literal::Field(f)),
                    None => None,
                }
            } else {
                None
            },
            None => None,
        }
    } else if crate::limbs::bytes_eq(tok, sfx_group.as_slice()) {
        match &v256 {
            Some(u) => if !neg {
                match Field::from_repr(*u) {
                    Some(f) => Some(Literal::Group(crate::group::Group::from_field(f))),
                    None => None,
                }
            } else {
                None
            },
            None => None,
        }
    } else if crate::limbs::bytes_eq(tok, sfx_scalar.as_slice()) {
        match &v256 {
            Some(u) => if !neg {
                match crate::scalar::Scalar::from_repr(*u) {
                    Some(sc) => Some(Literal::Scalar(sc)),
                    None => None,
                }
            } else {
                None
            },
            None => None,
        }
    } else {
        None
    };
    match lit {
        Some(l) => Some((l, end)),
        None => None,
    }
}

/// Parses a register token from a position: the locator and the
/// position after it.
fn parse_register_text(s: &[u8], pos: usize) -> (r: Option<(u64, usize)>)
    requires
        pos <= s@.len(),
    ensures
        match r {
            Some((loc, n)) => parse_reg(s@.skip(pos as int)) == Some((loc, n - pos as int))
                && pos < n <= s@.len(),
            None => parse_reg(s@.skip(pos as int)) is None,
        },
{
    let n = s.len();
    if pos >= n || s[pos] != 114 {
        proof {
            if pos < s@.len() {
                assert(s@.skip(pos as int)[0] == s@[pos as int]);
            }
        }
        return None;
    }
    proof {
        assert(s@.skip(pos as int)[0] == s@[pos as int]);
        lemma_skip_skip(s@, pos as int, 1);
    }
    let k = scan_digits(s, pos + 1);
    if k == 0 {
        return None;
    }
    proof {
        lemma_digit_run_chars(s@.skip(pos + 1));
        assert forall|j: int| pos + 1 <= j < pos + 1 + k implies is_digit_c(
            #[trigger] s@[j],
        ) by {
            assert(s@.skip(pos + 1)[j - pos - 1] == s@[j]);
        }
        lemma_skip_subrange(s@, pos as int, 1, 1 + k as int);
        assert(s@.skip(pos as int).subrange(1, 1 + k as int).map(
            |j: int, c: u8| (c - 48) as u8,
        ) =~= s@.subrange(pos + 1, pos + 1 + k as int).map(|j: int, c: u8| (c - 48) as u8));
    }
    let v256 = digits_value(s, pos + 1, k);
    match v256 {
        None => None,
        Some(u) => match as_u128(&u) {
            None => None,
            Some(x) => if x < 0x1_0000_0000_0000_0000 {
                Some((x as u64, pos + 1 + k))
            } else {
                None
            },
        },
    }
}

/// Parses an operand from a position: the operand and the position
/// after it.
#[verifier::rlimit(100)]
#[verifier::spinoff_prover]
pub fn parse_operand_text(s: &[u8], pos: usize) -> (r: Option<(Operand, usize)>)
    requires
        pos <= s@.len(),
    ensures
        match r {
            Some((o, n)) => parse_operand(s@.skip(pos as int)) == Some(
                (operand_model(o), n - pos as int),
            ) && o.wf() && pos < n <= s@.len(),
            None => parse_operand(s@.skip(pos as int)) is None,
        },
{
    proof {
        reveal(parse_operand);
        if pos < s@.len() {
            assert(s@.skip(pos as int)[0] == s@[pos as int]);
        }
        if pos + 1 < s@.len() {
            assert(s@.skip(pos as int)[1] == s@[pos + 1]);
        }
    }
    let n = s.len();
    if n - pos >= 2 && s[pos] == 114 && 48 <= s[pos + 1] && s[pos + 1] <= 57 {
        let (loc, after) = match parse_register_text(s, pos) {
            Some(x) => x,
            None => {
                return None;
            },
        };
        if after < n && s[after] == 46 {
            proof {
                assert(s@.skip(pos as int)[after - pos] == s@[after as int]);
                lemma_skip_skip(s@, pos as int, after + 1 - pos);
            }
            let k = scan_ident(s, after + 1);
            if k == 0 {
                return None;
            }
            proof {
                lemma_skip_subrange(s@, pos as int, after + 1 - pos, after + 1 - pos + k as int);
            }
            let mut v: Vec<u8> = Vec::new();
            let mut i: usize = 0;
            while i < k
                invariant
                    i <= k,
                    after + 1 + k <= n == s@.len(),
                    v@ == s@.subrange(after + 1, after + 1 + i as int),
                decreases k - i,
            {
                v.push(s[after + 1 + i]);
                i = i + 1;
                proof {
                    assert(v@ =~= s@.subrange(after + 1, after + 1 + i as int));
                }
            }
            match Identifier::new(v) {
                Some(id) => Some(
                    (Operand::Register(Register::new(loc), Some(id)), after + 1 + k),
                ),
                None => None,
            }
        } else {
            proof {
                if after < s@.len() {
                    assert(s@.skip(pos as int)[after - pos] == s@[after as int]);
                }
            }
            Some((Operand::Register(Register::new(loc), None), after))
        }
    } else {
        let (l, after) = match parse_literal_text(s, pos) {
            Some(x) => x,
            None => {
                return None;
            },
        };
        if after < n && s[after] == 46 {
            proof {
                assert(s@.skip(pos as int)[after - pos] == s@[after as int]);
                lemma_skip_skip(s@, pos as int, after + 1 - pos);
            }
            let k = scan_alnum(s, after + 1);
            proof {
                lemma_skip_subrange(s@, pos as int, after + 1 - pos, after + 1 - pos + k as int);
            }
            let tok = vstd::slice::slice_subrange(s, after + 1, after + 1 + k);
            let word_constant: Vec<u8> = vec![99u8, 111, 110, 115, 116, 97, 110, 116];
            let word_public: Vec<u8> = vec![112u8, 117, 98, 108, 105, 99];
            let word_private: Vec<u8> = vec![112u8, 114, 105, 118, 97, 116, 101];
            if crate::limbs::bytes_eq(tok, word_constant.as_slice()) {
                Some((Operand::Literal(l, Some(Mode::Constant)), after + 1 + k))
            } else if crate::limbs::bytes_eq(tok, word_public.as_slice()) {
                Some((Operand::Literal(l, Some(Mode::Public)), after + 1 + k))
            } else if crate::limbs::bytes_eq(tok, word_private.as_slice()) {
                Some((Operand::Literal(l, Some(Mode::Private)), after + 1 + k))
            } else {
                Some((Operand::Literal(l, None), after))
            }
        } else {
            proof {
                if after < s@.len() {
                    assert(s@.skip(pos as int)[after - pos] == s@[after as int]);
                }
            }
            Some((Operand::Literal(l, None), after))
        }
    }
}

impl crate::instruction::Instruction {
    /// Parses an instruction from the head of a text: the instruction
    /// and the count of bytes consumed, through the closing semicolon.
    #[verifier::rlimit(100)]
    #[verifier::spinoff_prover]
    pub fn parse(s: &[u8]) -> (r: Option<(crate::instruction::Instruction, usize)>)
        ensures
            match r {
                Some((i, n)) => parse_instr(s@) == Some((i.model(), n as int)) && i.wf() && n
                    <= s@.len(),
                None => parse_instr(s@) is None,
            },
    {
        let n = s.len();
        proof {
            assert(s@.skip(0) =~= s@);
        }
        let k = scan_opcode(s, 0);
        proof {
            lemma_skip_subrange(s@, 0, 0, k as int);
        }
        let tok = vstd::slice::slice_subrange(s, 0, k);
        let op: Opcode = if crate::limbs::bytes_eq(
            tok,
            Opcode::AddWrapped.token().as_slice(),
        ) {
            Opcode::AddWrapped
        } else if crate::limbs::bytes_eq(tok, Opcode::NotEqual.token().as_slice()) {
            Opcode::NotEqual
        } else if crate::limbs::bytes_eq(
            tok,
            Opcode::Hash(crate::opcode::HashKind::Ped64).token().as_slice(),
        ) {
            Opcode::Hash(crate::opcode::HashKind::Ped64)
        } else if crate::limbs::bytes_eq(
            tok,
            Opcode::Hash(crate::opcode::HashKind::Ped128).token().as_slice(),
        ) {
            Opcode::Hash(crate::opcode::HashKind::Ped128)
        } else if crate::limbs::bytes_eq(
            tok,
            Opcode::Hash(crate::opcode::HashKind::Ped256).token().as_slice(),
        ) {
            Opcode::Hash(crate::opcode::HashKind::Ped256)
        } else if crate::limbs::bytes_eq(
            tok,
            Opcode::Hash(crate::opcode::HashKind::Ped512).token().as_slice(),
        ) {
            Opcode::Hash(crate::opcode::HashKind::Ped512)
        } else if crate::limbs::bytes_eq(
            tok,
            Opcode::Hash(crate::opcode::HashKind::Ped1024).token().as_slice(),
        ) {
            Opcode::Hash(crate::opcode::HashKind::Ped1024)
        } else if crate::limbs::bytes_eq(
            tok,
            Opcode::Hash(crate::opcode::HashKind::Psd2).token().as_slice(),
        ) {
            Opcode::Hash(crate::opcode::HashKind::Psd2)
        } else if crate::limbs::bytes_eq(
            tok,
            Opcode::Hash(crate::opcode::HashKind::Psd4).token().as_slice(),
        ) {
            Opcode::Hash(crate::opcode::HashKind::Psd4)
        } else if crate::limbs::bytes_eq(
            tok,
            Opcode::Hash(crate::opcode::HashKind::Psd8).token().as_slice(),
        ) {
            Opcode::Hash(crate::opcode::HashKind::Psd8)
        } else {
            return None;
        };
        let sp1 = scan_spaces(s, k);
        if sp1 < 1 {
            return None;
        }
        let p1 = k + sp1;
        let (a, after_a) = match parse_operand_text(s, p1) {
            Some(x) => x,
            None => {
                return None;
            },
        };
        proof {
            lemma_skip_skip(s@, 0, p1 as int);
        }
        match op {
            Opcode::AddWrapped | Opcode::NotEqual => {
                let sp2 = scan_spaces(s, after_a);
                if sp2 < 1 {
                    return None;
                }
                let p2 = after_a + sp2;
                let (b, after_b) = match parse_operand_text(s, p2) {
                    Some(x) => x,
                    None => {
                        return None;
                    },
                };
                let (d, end) = match parse_instruction_tail(s, after_b) {
                    Some(x) => x,
                    None => {
                        return None;
                    },
                };
                if matches!(op, Opcode::AddWrapped) {
                    let i = crate::add_wrapped::AddWrapped::new(a, b, Register::new(d));
                    Some((crate::instruction::Instruction::AddWrapped(i), end))
                } else {
                    let i = crate::not_equal::NotEqual::new(a, b, Register::new(d));
                    Some((crate::instruction::Instruction::NotEqual(i), end))
                }
            },
            Opcode::Hash(kind) => {
                let (d, end) = match parse_instruction_tail(s, after_a) {
                    Some(x) => x,
                    None => {
                        return None;
                    },
                };
                let i = crate::hash::HashInstruction::new(kind, a, Register::new(d));
                Some((crate::instruction::Instruction::Hash(i), end))
            },
        }
    }
}

/// Parses the shared instruction tail from a position: spaces, `into`,
/// spaces, the destination register and the closing semicolon.
fn parse_instruction_tail(s: &[u8], pos: usize) -> (r: Option<(u64, usize)>)
    requires
        pos <= s@.len(),
    ensures
        match r {
            Some((d, end)) => parse_tail(s@, pos as int) == Some((d, end as int)) && pos < end
                <= s@.len(),
            None => parse_tail(s@, pos as int) is None,
        },
{
    let n = s.len();
    let sp = scan_spaces(s, pos);
    if sp < 1 {
        return None;
    }
    let q = pos + sp;
    let word_into: Vec<u8> = vec![105u8, 110, 116, 111];
    if n - q < 4 || !crate::limbs::bytes_eq(
        vstd::slice::slice_subrange(s, q, q + 4),
        word_into.as_slice(),
    ) {
        return None;
    }
    let sp2 = scan_spaces(s, q + 4);
    if sp2 < 1 {
        return None;
    }
    let r0 = q + 4 + sp2;
    let (d, after) = match parse_register_text(s, r0) {
        Some(x) => x,
        None => {
            return None;
        },
    };
    if after < n && s[after] == 59 {
        proof {
            assert(s@.skip(r0 as int)[after - r0] == s@[after as int]);
        }
        Some((d, after + 1))
    } else {
        proof {
            if after < s@.len() {
                assert(s@.skip(r0 as int)[after - r0] == s@[after as int]);
            }
        }
        None
    }
}

} // verus!
