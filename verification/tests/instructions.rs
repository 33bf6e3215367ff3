//! Instruction evaluation, failure policy, and the binary wire format.
use bytecode::add_wrapped::AddWrapped;
use bytecode::errors::Halt;
use bytecode::field::Field;
use bytecode::hash::HashInstruction;
use bytecode::identifier::Identifier;
use bytecode::instruction::Instruction;
use bytecode::literal::Literal;
use bytecode::not_equal::NotEqual;
use bytecode::opcode::{HashKind, Opcode};
use bytecode::operand::Operand;
use bytecode::registers::{Register, Registers, Value};

fn reg(locator: u64) -> Operand {
    Operand::Register(Register::new(locator), None)
}

fn imm(l: Literal) -> Operand {
    Operand::Literal(l, None)
}

/// A store with three defined registers and the two given values
/// assigned to the first two.
fn store_with(first: Value, second: Value) -> Registers {
    let mut registers = Registers::new();
    registers.define(&Register::new(0)).unwrap();
    registers.define(&Register::new(1)).unwrap();
    registers.define(&Register::new(2)).unwrap();
    registers.assign(&Register::new(0), first).unwrap();
    registers.assign(&Register::new(1), second).unwrap();
    registers
}

#[test]
fn test_add_wrapped_boundary_scenario() {
    // r0 = 127i8, r1 = 1i8; add.w r0 r1 into r2 yields r2 = -128i8.
    let mut registers = store_with(
        Value::Literal(Literal::I8(127)),
        Value::Literal(Literal::I8(1)),
    );
    let instr = AddWrapped::new(reg(0), reg(1), Register::new(2));
    instr.evaluate(&mut registers).unwrap();
    assert_eq!(
        registers.load(&Register::new(2)).unwrap(),
        &Value::Literal(Literal::I8(-128))
    );
}

#[test]
fn test_add_wrapped_every_width() {
    let cases: Vec<(Literal, Literal, Literal)> = vec![
        (Literal::I8(i8::MAX), Literal::I8(1), Literal::I8(i8::MIN)),
        (Literal::I16(i16::MAX), Literal::I16(1), Literal::I16(i16::MIN)),
        (Literal::I32(i32::MAX), Literal::I32(1), Literal::I32(i32::MIN)),
        (Literal::I64(i64::MAX), Literal::I64(1), Literal::I64(i64::MIN)),
        (
            Literal::I128(i128::MAX),
            Literal::I128(1),
            Literal::I128(i128::MIN),
        ),
        (Literal::I8(i8::MIN), Literal::I8(-1), Literal::I8(i8::MAX)),
        (Literal::I16(i16::MIN), Literal::I16(-1), Literal::I16(i16::MAX)),
        (Literal::I32(i32::MIN), Literal::I32(-1), Literal::I32(i32::MAX)),
        (Literal::I64(i64::MIN), Literal::I64(-1), Literal::I64(i64::MAX)),
        (
            Literal::I128(i128::MIN),
            Literal::I128(-1),
            Literal::I128(i128::MAX),
        ),
        (Literal::U8(u8::MAX), Literal::U8(1), Literal::U8(0)),
        (Literal::U16(u16::MAX), Literal::U16(1), Literal::U16(0)),
        (Literal::U32(u32::MAX), Literal::U32(1), Literal::U32(0)),
        (Literal::U64(u64::MAX), Literal::U64(1), Literal::U64(0)),
        (Literal::U128(u128::MAX), Literal::U128(1), Literal::U128(0)),
    ];
    for (a, b, expected) in cases {
        let mut registers = Registers::new();
        registers.define(&Register::new(2)).unwrap();
        let instr = AddWrapped::new(imm(a), imm(b), Register::new(2));
        instr.evaluate(&mut registers).unwrap();
        assert_eq!(
            registers.load(&Register::new(2)).unwrap(),
            &Value::Literal(expected)
        );
    }
}

#[test]
fn test_add_wrapped_kind_mismatch_halts() {
    let pairs: Vec<(Literal, Literal)> = vec![
        (Literal::Boolean(true), Literal::Boolean(true)),
        (Literal::I8(1), Literal::U8(1)),
        (Literal::U16(1), Literal::U32(1)),
        (Literal::Field(Field::from_u128(1)), Literal::Field(Field::from_u128(2))),
        (
            Literal::Boolean(true),
            Literal::Str(bytecode::literal::StrLit::new(b"hello".to_vec()).unwrap()),
        ),
    ];
    for (a, b) in pairs {
        let mut registers = Registers::new();
        registers.define(&Register::new(2)).unwrap();
        let instr = AddWrapped::new(imm(a), imm(b), Register::new(2));
        assert_eq!(
            instr.evaluate(&mut registers),
            Err(Halt::InvalidInstruction {
                opcode: Opcode::AddWrapped
            })
        );
    }
}

#[test]
fn test_add_field() {
    // r0 = 1field, r1 = 2field; neq r0 r1 into r2 yields r2 = true.
    let mut registers = store_with(
        Value::Literal(Literal::Field(Field::from_u128(1))),
        Value::Literal(Literal::Field(Field::from_u128(2))),
    );
    let instr = NotEqual::new(reg(0), reg(1), Register::new(2));
    instr.evaluate(&mut registers).unwrap();
    assert_eq!(
        registers.load(&Register::new(2)).unwrap(),
        &Value::Literal(Literal::Boolean(true))
    );
}

#[test]
fn test_not_equal_same_field() {
    let mut registers = store_with(
        Value::Literal(Literal::Field(Field::from_u128(7))),
        Value::Literal(Literal::Field(Field::from_u128(7))),
    );
    let instr = NotEqual::new(reg(0), reg(1), Register::new(2));
    instr.evaluate(&mut registers).unwrap();
    assert_eq!(
        registers.load(&Register::new(2)).unwrap(),
        &Value::Literal(Literal::Boolean(false))
    );
}

#[test]
fn test_not_equal_unsupported_kinds_halt() {
    let mut registers = store_with(
        Value::Literal(Literal::U8(1)),
        Value::Literal(Literal::U8(2)),
    );
    let instr = NotEqual::new(reg(0), reg(1), Register::new(2));
    assert_eq!(
        instr.evaluate(&mut registers),
        Err(Halt::InvalidInstruction {
            opcode: Opcode::NotEqual
        })
    );
}

fn sample_composite() -> Value {
    Value::Composite(
        Identifier::new(b"message".to_vec()).unwrap(),
        vec![
            (
                Identifier::new(b"amount".to_vec()).unwrap(),
                Literal::Field(Field::from_u128(10)),
            ),
            (
                Identifier::new(b"count".to_vec()).unwrap(),
                Literal::U64(3),
            ),
        ],
    )
}

#[test]
fn test_composite_rejected_by_every_binary_instruction() {
    // Any binary literal instruction with a composite operand halts,
    // naming the composite.
    let mut registers = store_with(sample_composite(), Value::Literal(Literal::I8(1)));
    let add = AddWrapped::new(reg(0), reg(1), Register::new(2));
    assert_eq!(
        add.evaluate(&mut registers),
        Err(Halt::NotALiteral {
            name: Identifier::new(b"message".to_vec()).unwrap()
        })
    );
    let neq = NotEqual::new(reg(0), reg(1), Register::new(2));
    assert_eq!(
        neq.evaluate(&mut registers),
        Err(Halt::NotALiteral {
            name: Identifier::new(b"message".to_vec()).unwrap()
        })
    );
    let hash = HashInstruction::new(HashKind::Ped64, reg(0), Register::new(2));
    assert_eq!(
        hash.evaluate(&mut registers),
        Err(Halt::NotALiteral {
            name: Identifier::new(b"message".to_vec()).unwrap()
        })
    );
}

#[test]
fn test_composite_member_resolution() {
    let mut registers = store_with(sample_composite(), Value::Literal(Literal::U64(2)));
    let member = Operand::Register(
        Register::new(0),
        Some(Identifier::new(b"count".to_vec()).unwrap()),
    );
    let instr = AddWrapped::new(member, reg(1), Register::new(2));
    instr.evaluate(&mut registers).unwrap();
    assert_eq!(
        registers.load(&Register::new(2)).unwrap(),
        &Value::Literal(Literal::U64(5))
    );
}

#[test]
fn test_register_lifecycle_failures() {
    let mut registers = Registers::new();
    registers.define(&Register::new(0)).unwrap();
    assert_eq!(
        registers.define(&Register::new(0)),
        Err(Halt::RedefinedRegister { locator: 0 })
    );
    assert_eq!(
        registers.load(&Register::new(0)),
        Err(Halt::UnassignedRegister { locator: 0 })
    );
    assert_eq!(
        registers.load(&Register::new(9)),
        Err(Halt::UndefinedRegister { locator: 9 })
    );
    registers
        .assign(&Register::new(0), Value::Literal(Literal::U8(1)))
        .unwrap();
    assert_eq!(
        registers.assign(&Register::new(0), Value::Literal(Literal::U8(2))),
        Err(Halt::ReassignedRegister { locator: 0 })
    );
    assert_eq!(
        registers.assign(&Register::new(9), Value::Literal(Literal::U8(2))),
        Err(Halt::UndefinedRegister { locator: 9 })
    );
}

#[test]
fn test_hash_to_field_all_kinds() {
    // The generic hash members accept every literal kind and yield a
    // field element.
    let literals: Vec<Literal> = vec![
        Literal::Boolean(true),
        Literal::U64(42),
        Literal::I8(-1),
        Literal::Field(Field::from_u128(5)),
        Literal::Str(bytecode::literal::StrLit::new(b"abc".to_vec()).unwrap()),
    ];
    for l in literals {
        let mut registers = Registers::new();
        registers.define(&Register::new(2)).unwrap();
        let instr = HashInstruction::new(HashKind::Ped64, imm(l), Register::new(2));
        instr.evaluate(&mut registers).unwrap();
        match registers.load(&Register::new(2)).unwrap() {
            Value::Literal(Literal::Field(_)) => {}
            other => panic!("expected a field literal, found {:?}", other),
        }
    }
}

#[test]
fn test_hash_domain_separation() {
    // The same literal under two opcodes yields different field results.
    let mut out = Vec::new();
    for kind in [HashKind::Ped64, HashKind::Ped128] {
        let mut registers = Registers::new();
        registers.define(&Register::new(2)).unwrap();
        let instr = HashInstruction::new(kind, imm(Literal::U64(42)), Register::new(2));
        instr.evaluate(&mut registers).unwrap();
        out.push(registers.load(&Register::new(2)).unwrap().clone());
    }
    assert_ne!(out[0], out[1]);
}

#[test]
fn test_hash_to_scalar_kinds() {
    // The sponge members accept field, integer and scalar operands and
    // yield a scalar; other kinds halt naming the opcode.
    for ok in [
        Literal::Field(Field::from_u128(9)),
        Literal::U32(9),
        Literal::I128(-9),
        Literal::Scalar(bytecode::scalar::Scalar::from_u128(9)),
    ] {
        let mut registers = Registers::new();
        registers.define(&Register::new(2)).unwrap();
        let instr = HashInstruction::new(HashKind::Psd2, imm(ok), Register::new(2));
        instr.evaluate(&mut registers).unwrap();
        match registers.load(&Register::new(2)).unwrap() {
            Value::Literal(Literal::Scalar(_)) => {}
            other => panic!("expected a scalar literal, found {:?}", other),
        }
    }
    for bad in [
        Literal::Boolean(true),
        Literal::Str(bytecode::literal::StrLit::new(b"x".to_vec()).unwrap()),
    ] {
        let mut registers = Registers::new();
        registers.define(&Register::new(2)).unwrap();
        let instr = HashInstruction::new(HashKind::Psd2, imm(bad), Register::new(2));
        assert_eq!(
            instr.evaluate(&mut registers),
            Err(Halt::InvalidInstruction {
                opcode: Opcode::Hash(HashKind::Psd2)
            })
        );
    }
    // Different rates separate domains as well.
    let mut results = Vec::new();
    for kind in [HashKind::Psd2, HashKind::Psd4, HashKind::Psd8] {
        let mut registers = Registers::new();
        registers.define(&Register::new(2)).unwrap();
        let instr = HashInstruction::new(kind, imm(Literal::U32(9)), Register::new(2));
        instr.evaluate(&mut registers).unwrap();
        results.push(registers.load(&Register::new(2)).unwrap().clone());
    }
    assert_ne!(results[0], results[1]);
    assert_ne!(results[1], results[2]);
}

fn sample_instructions() -> Vec<Instruction> {
    let mut out = vec![
        Instruction::AddWrapped(AddWrapped::new(
            imm(Literal::I8(-5)),
            reg(1),
            Register::new(2),
        )),
        Instruction::NotEqual(NotEqual::new(
            imm(Literal::Field(Field::from_u128(77))),
            Operand::Register(
                Register::new(4),
                Some(Identifier::new(b"owner".to_vec()).unwrap()),
            ),
            Register::new(5),
        )),
        Instruction::AddWrapped(AddWrapped::new(
            Operand::Literal(Literal::U128(u128::MAX), Some(bytecode::mode::Mode::Public)),
            Operand::Literal(
                Literal::Str(bytecode::literal::StrLit::new(b"hi".to_vec()).unwrap()),
                Some(bytecode::mode::Mode::Constant),
            ),
            Register::new(0),
        )),
    ];
    for kind in [
        HashKind::Ped64,
        HashKind::Ped128,
        HashKind::Ped256,
        HashKind::Ped512,
        HashKind::Ped1024,
        HashKind::Psd2,
        HashKind::Psd4,
        HashKind::Psd8,
    ] {
        out.push(Instruction::Hash(HashInstruction::new(
            kind,
            imm(Literal::Boolean(false)),
            Register::new(7),
        )));
    }
    out
}

#[test]
fn test_serialization_round_trip() {
    // For every instruction kind, decoding an encoding yields the
    // instruction back, byte for byte.
    for instr in sample_instructions() {
        let bytes = instr.write_le();
        let (decoded, consumed) = Instruction::read_le(&bytes).unwrap();
        assert_eq!(consumed, bytes.len());
        assert_eq!(decoded, instr);
        assert_eq!(decoded.write_le(), bytes);
    }
}

#[test]
fn test_deserialization_rejects_malformed() {
    assert!(Instruction::read_le(&[]).is_none());
    assert!(Instruction::read_le(&[99]).is_none());
    let truncated = sample_instructions()[0].write_le();
    assert!(Instruction::read_le(&truncated[..truncated.len() - 1]).is_none());
}

#[test]
fn test_parse() {
    let (instruction, consumed) = Instruction::parse(b"add.w r0 r1 into r2;").unwrap();
    assert!(matches!(instruction, Instruction::AddWrapped(_)));
    assert_eq!(consumed, 20);
}

#[test]
fn test_parse_every_opcode() {
    let texts: Vec<&[u8]> = vec![
        b"add.w r0 r1 into r2;",
        b"neq r0 r1 into r2;",
        b"hash.ped64 r0 into r1;",
        b"hash.ped128 r0 into r1;",
        b"hash.ped256 r0 into r1;",
        b"hash.ped512 r0 into r1;",
        b"hash.ped1024 r0 into r1;",
        b"hash.psd2 r0 into r1;",
        b"hash.psd4 r0 into r1;",
        b"hash.psd8 r0 into r1;",
    ];
    for text in texts {
        let (instruction, consumed) = Instruction::parse(text).unwrap();
        assert_eq!(consumed, text.len());
        // The canonical display of the parsed instruction is the text.
        assert_eq!(instruction.to_text(), text.to_vec());
    }
}

#[test]
fn test_parse_display_round_trip() {
    // For every instruction kind and a representative operand set,
    // parsing the display yields the instruction back.
    for instr in sample_instructions() {
        let text = instr.to_text();
        let (parsed, consumed) = Instruction::parse(&text).unwrap();
        assert_eq!(consumed, text.len());
        assert_eq!(parsed, instr);
        assert_eq!(parsed.to_text(), text);
    }
}

#[test]
fn test_parse_literal_texts() {
    let cases: Vec<(&[u8], Literal)> = vec![
        (b"add.w 127i8 1i8 into r2;", Literal::I8(127)),
        (b"add.w -128i8 0i8 into r2;", Literal::I8(-128)),
        (b"add.w 0u128 0u128 into r2;", Literal::U128(0)),
        (
            b"add.w 340282366920938463463374607431768211455u128 0u128 into r2;",
            Literal::U128(u128::MAX),
        ),
    ];
    for (text, expected) in cases {
        let (instruction, _) = Instruction::parse(text).unwrap();
        match instruction {
            Instruction::AddWrapped(i) => {
                assert_eq!(i.operands()[0], Operand::Literal(expected, None))
            }
            other => panic!("expected add.w, found {:?}", other),
        }
    }
}

#[test]
fn test_parse_rejects_malformed() {
    let bad: Vec<&[u8]> = vec![
        b"",
        b"add.w r0 r1 into r2",
        b"bogus r0 r1 into r2;",
        b"add.w 300i8 1i8 into r2;",
        b"add.w r0 into r2;",
        b"neq r0 r1 r2;",
    ];
    for text in bad {
        assert!(Instruction::parse(text).is_none(), "{:?}", text);
    }
}

#[test]
fn test_parse_visibility_and_member() {
    let (instruction, _) =
        Instruction::parse(b"neq 1field.public r0.owner into r2;").unwrap();
    match instruction {
        Instruction::NotEqual(i) => {
            assert_eq!(
                i.operands()[0],
                Operand::Literal(
                    Literal::Field(Field::from_u128(1)),
                    Some(bytecode::mode::Mode::Public)
                )
            );
            assert_eq!(
                i.operands()[1],
                Operand::Register(
                    Register::new(0),
                    Some(Identifier::new(b"owner".to_vec()).unwrap())
                )
            );
        }
        other => panic!("expected neq, found {:?}", other),
    }
}
