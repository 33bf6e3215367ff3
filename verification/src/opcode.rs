//! Opcode identity.
//!
//! Every instruction kind owns a fixed, lowercase token. The token is the
//! single name used for parsing, display and error reports, so it is held
//! here once, as bytes, with the spec-level sequence each exec token
//! provably equals.
use vstd::prelude::*;

verus! {

/// The hash instruction family, one member per opcode.
#[derive(Clone, Copy, Debug, PartialEq, Eq, Structural)]
pub enum HashKind {
    Ped64,
    Ped128,
    Ped256,
    Ped512,
    Ped1024,
    Psd2,
    Psd4,
    Psd8,
}

impl HashKind {
    /// Whether this member hashes to a scalar through the fixed-rate sponge;
    /// the others hash any literal to a field element.
    pub open spec fn is_psd(&self) -> bool {
        match *self {
            HashKind::Psd2 | HashKind::Psd4 | HashKind::Psd8 => true,
            _ => false,
        }
    }

    /// The fixed rate of a sponge member.
    pub open spec fn spec_rate(&self) -> u64 {
        match *self {
            HashKind::Psd2 => 2,
            HashKind::Psd4 => 4,
            HashKind::Psd8 => 8,
            _ => 0,
        }
    }

    /// Whether this member hashes to a scalar through the fixed-rate
    /// sponge.
    pub fn psd(&self) -> (r: bool)
        ensures
            r == self.is_psd(),
    {
        match *self {
            HashKind::Psd2 | HashKind::Psd4 | HashKind::Psd8 => true,
            _ => false,
        }
    }

    /// The fixed rate of a sponge member.
    pub fn rate(&self) -> (r: u64)
        ensures
            r == self.spec_rate(),
    {
        match *self {
            HashKind::Psd2 => 2,
            HashKind::Psd4 => 4,
            HashKind::Psd8 => 8,
            _ => 0,
        }
    }
}

/// The opcode of an instruction kind.
#[derive(Clone, Copy, Debug, PartialEq, Eq, Structural)]
pub enum Opcode {
    AddWrapped,
    NotEqual,
    Hash(HashKind),
}

/// The token of an opcode, as ASCII bytes: `add.w`, `neq`, or one
/// `hash.*` token per hash family member.
pub open spec fn opcode_token(op: Opcode) -> Seq<u8> {
    match op {
        Opcode::AddWrapped => seq![97u8, 100, 100, 46, 119],  // add.w
        Opcode::NotEqual => seq![110u8, 101, 113],  // neq
        Opcode::Hash(HashKind::Ped64) => seq![104u8, 97, 115, 104, 46, 112, 101, 100, 54, 52],
        Opcode::Hash(HashKind::Ped128) => seq![
            104u8,
            97,
            115,
            104,
            46,
            112,
            101,
            100,
            49,
            50,
            56,
        ],
        Opcode::Hash(HashKind::Ped256) => seq![
            104u8,
            97,
            115,
            104,
            46,
            112,
            101,
            100,
            50,
            53,
            54,
        ],
        Opcode::Hash(HashKind::Ped512) => seq![
            104u8,
            97,
            115,
            104,
            46,
            112,
            101,
            100,
            53,
            49,
            50,
        ],
        Opcode::Hash(HashKind::Ped1024) => seq![
            104u8,
            97,
            115,
            104,
            46,
            112,
            101,
            100,
            49,
            48,
            50,
            52,
        ],
        Opcode::Hash(HashKind::Psd2) => seq![104u8, 97, 115, 104, 46, 112, 115, 100, 50],
        Opcode::Hash(HashKind::Psd4) => seq![104u8, 97, 115, 104, 46, 112, 115, 100, 52],
        Opcode::Hash(HashKind::Psd8) => seq![104u8, 97, 115, 104, 46, 112, 115, 100, 56],
    }
}

impl Opcode {
    /// The token of this opcode, as ASCII bytes.
    pub fn token(&self) -> (r: Vec<u8>)
        ensures
            r@ == opcode_token(*self),
    {
        let r: Vec<u8> = match *self {
            Opcode::AddWrapped => vec![97u8, 100, 100, 46, 119],
            Opcode::NotEqual => vec![110u8, 101, 113],
            Opcode::Hash(HashKind::Ped64) => vec![104u8, 97, 115, 104, 46, 112, 101, 100, 54, 52],
            Opcode::Hash(HashKind::Ped128) => vec![
                104u8,
                97,
                115,
                104,
                46,
                112,
                101,
                100,
                49,
                50,
                56,
            ],
            Opcode::Hash(HashKind::Ped256) => vec![
                104u8,
                97,
                115,
                104,
                46,
                112,
                101,
                100,
                50,
                53,
                54,
            ],
            Opcode::Hash(HashKind::Ped512) => vec![
                104u8,
                97,
                115,
                104,
                46,
                112,
                101,
                100,
                53,
                49,
                50,
            ],
            Opcode::Hash(HashKind::Ped1024) => vec![
                104u8,
                97,
                115,
                104,
                46,
                112,
                101,
                100,
                49,
                48,
                50,
                52,
            ],
            Opcode::Hash(HashKind::Psd2) => vec![104u8, 97, 115, 104, 46, 112, 115, 100, 50],
            Opcode::Hash(HashKind::Psd4) => vec![104u8, 97, 115, 104, 46, 112, 115, 100, 52],
            Opcode::Hash(HashKind::Psd8) => vec![104u8, 97, 115, 104, 46, 112, 115, 100, 56],
        };
        proof {
            assert(r@ =~= opcode_token(*self));
        }
        r
    }
}

} // verus!
