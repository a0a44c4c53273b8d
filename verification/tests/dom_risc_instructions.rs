use wirth::dom_risc::instructions::{BranchCondition, Instruction, InstructionParseError, MemoryMode, OpCode};

#[test]
fn test_register() {
    dom_assert_both(Instruction::Register { o: OpCode::MOV, a: 2, b: 5, c: 1 }, 0b0000_0010_0101_0000_00_00_00_00_00_00_0001);
    dom_assert_both(Instruction::Register { o: OpCode::AND, a: 3, b: 2, c: 4 }, 0b0000_0011_0010_0100_00_00_00_00_00_00_0100);
}

#[test]
fn test_register_im() {
    dom_assert_both(
        Instruction::RegisterIm {
            o: OpCode::LSL,
            a: 2,
            b: 5,
            im: 4,
        },
        0b0100_0010_0101_0001_00_00_00_00_00_00_01_00,
    );
    dom_assert_both(
        Instruction::RegisterIm {
            o: OpCode::LSL,
            a: 2,
            b: 5,
            im: -4,
        },
        0b0101_0010_0101_0001_11_11_11_11_11_11_11_00,
    );
}

#[test]
fn test_memory() {
    dom_assert_both(
        Instruction::Memory {
            u: MemoryMode::Load,
            a: 1,
            b: 3,
            offset: 2,
        },
        0b1000_0001_0011_0000_0000_0000_0000_0010,
    );
}

#[test]
fn test_branch() {
    dom_assert_both(
        Instruction::Branch {
            cond: BranchCondition::EQ,
            c: 3,
            link: true,
        },
        0b1101_0001_0000_0000_0000_0000_0000_0011,
    );
}

#[test]
fn test_branch_off_positive() {
    dom_assert_both(
        Instruction::BranchOff {
            cond: BranchCondition::PL,
            offset: 3,
            link: false,
        },
        0b1110_1000_0000_0000_0000_0000_0000_0011,
    );
}

#[test]
fn test_branch_off_negative() {
    dom_assert_both(
        Instruction::BranchOff {
            cond: BranchCondition::PL,
            offset: -5,
            link: false,
        },
        0b1110_1000_1111_1111_1111_1111_1111_1011,
    );

    // 0b1110_1000_11111_11111_11111_11111_1011 ???
    // 0b1110_1000_11111_11111_11111_11111_1011

    let i = Instruction::encode(&Instruction::BranchOff {
        cond: BranchCondition::PL,
        offset: -5,
        link: false,
    });
    assert_eq!(0b1110_1000_1111_1111_1111_1111_1111_1011, i);
    println!("{}", i);
    println!("{:032b}", i);

    let inst = Instruction::parse(3909091323).unwrap();
    assert!(matches!(inst, Instruction::BranchOff{cond: _cond, offset, link: _link} if offset == -5));
    println!("{:?}", inst);

    let i2 = Instruction::encode(&inst);
    assert_eq!(0b1110_1000_1111_1111_1111_1111_1111_1011, i2);
    println!("{:032b}", i2);

    assert_eq!(i, i2);
}

fn dom_assert_both(inst: Instruction, i: u32) {
    dom_assert_encoded(&inst, i);
    dom_assert_parsed(&inst, i);
}

fn dom_assert_encoded(inst: &Instruction, expected: u32) {
    let actual = Instruction::encode(inst);
    assert_eq!(format!("{:032b}", expected), format!("{:032b}", actual))
}

fn dom_assert_parsed(expected: &Instruction, i: u32) {
    let parsed = Instruction::parse(i).unwrap();
    assert_eq!(*expected, parsed)
}

#[test]
fn test_serde() {
    let instruction = Instruction::Register { o: OpCode::MOV, a: 2, b: 5, c: 1 };
    let mut instructions = vec![];
    instructions.push(instruction);
    let serialized = Instruction::serialize_all(instructions);
    let deserialized = Instruction::deserialize_all(&serialized[..]);
    assert_eq!(Instruction::encode(&instruction), Instruction::encode(&(deserialized[0])));
}

#[test]
fn dom_risc_parse_reports_invalid_parts() {
    // Register format with operation code 13, which names no operation.
    assert_eq!(Err(InstructionParseError::InvalidOpCode(13)), Instruction::parse(0b0000_0000_0000_1101_0000_0000_0000_0000));
    // Branch with condition code 2, which names no condition.
    assert_eq!(Err(InstructionParseError::InvalidBranchCondition(2)), Instruction::parse(0b1100_0010_0000_0000_0000_0000_0000_0000));
}

#[test]
fn dom_risc_serialization_is_bincode_of_the_words() {
    let instructions = vec![
        Instruction::RegisterIm { o: OpCode::ADD, a: 1, b: 1, im: 2 },
        Instruction::BranchOff { cond: BranchCondition::AW, offset: -4, link: false },
    ];
    let words: Vec<u32> = instructions.iter().map(|i| Instruction::encode(i)).collect();
    let bytes = Instruction::serialize_all(instructions.clone());
    assert_eq!(bincode::serialize(&words).unwrap(), bytes);
    // Length as a little-endian u64, then each word little-endian.
    assert_eq!(8 + 4 * 2, bytes.len());
    assert_eq!(2, bytes[0]);
    let back = Instruction::deserialize_all(&bytes[..]);
    assert_eq!(instructions, back);
}

#[test]
fn dom_risc_parse_fails_exactly_on_unknown_codes() {
    assert_eq!(Err(InstructionParseError::InvalidOpCode(13)), Instruction::parse(0x000D_0000));
    assert_eq!(Err(InstructionParseError::InvalidOpCode(15)), Instruction::parse(0x400F_0000));
    assert!(Instruction::parse(0x000C_0000).is_ok());
    assert_eq!(Err(InstructionParseError::InvalidBranchCondition(2)), Instruction::parse(0xC200_0000));
    assert_eq!(Err(InstructionParseError::InvalidBranchCondition(10)), Instruction::parse(0xEA00_0000));
    assert!(Instruction::parse(0xC100_0000).is_ok());
    assert!(Instruction::parse(0x8200_0000).is_ok());
}
