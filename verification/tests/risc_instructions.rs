use wirth::risc::instructions::{BranchOpCode, Instruction, MemoryOpCode, RegisterImOpCode, RegisterOpCode};

fn risc_assert_both(inst: Instruction, i: u32) {
    risc_assert_encoded(inst, i);
    risc_assert_parsed(inst, i);
}

fn risc_assert_encoded(inst: Instruction, expected: u32) {
    let actual = Instruction::encode(inst);
    assert_eq!(format!("{:032b}", expected), format!("{:032b}", actual))
}

fn risc_assert_parsed(expected: Instruction, i: u32) {
    let parsed = Instruction::parse(i).unwrap();
    assert_eq!(expected, parsed)
}

#[test]
fn test_extract_im_disp_c_part() {
    let inst = 0b00_0001_0001_0001_10_00_00_00_00_00_00_1110;

    // Get c as a register index (the first four bits)
    let c_as_register_index = inst % 0x10;
    assert_eq!(0b00_0000_0000_0000_00_00_00_00_00_00_00_1110, c_as_register_index);

    // Get the 18 bits part after the 'f', 'op', 'a' and 'b'
    let im = inst % 0x40000;
    assert_eq!(0b00_0000_0000_0000_10_00_00_00_00_00_00_1110, im);
    assert_eq!(131086, im);

    // The value after which we need to do sign extension
    let f1_sign_limit = 0x20000;
    assert_eq!(131072, f1_sign_limit);
    assert_eq!(0b00_0000_0000_0000_10_00_00_00_00_00_00_0000, f1_sign_limit);

    let neg_im = f1_sign_limit + 1;
    assert_eq!(131073, neg_im);
    let neg_im_with_sign_extension = neg_im - 0x40000;
    assert_eq!("11111111111111100000000000000001", format!("{:032b}", neg_im_with_sign_extension));
    assert_eq!(-131071, neg_im_with_sign_extension);

    assert_eq!("11111111111111111111111111111111", format!("{:032b}", -1));
}

#[test]
fn test_encode_f0_instructions() {
    risc_assert_both(
        Instruction::Register { o: RegisterOpCode::MOV, a: 2, b: 5, c: 1 },
        0b00_0000_0010_0101_00000000000000_0001,
    );
    risc_assert_both(
        Instruction::Register { o: RegisterOpCode::MVN, a: 3, b: 2, c: 4 },
        0b00_0001_0011_0010_00000000000000_0100,
    );
}

#[test]
fn test_encode_f3_instructions() {
    risc_assert_encoded(Instruction::Branch { o: BranchOpCode::BNE, disp: -2 }, 0b11_0001_11111111111111111111111110);
    risc_assert_parsed(Instruction::Branch { o: BranchOpCode::BNE, disp: -2 }, 0b11_0001_11111111111111111111111110);
}

#[test]
fn risc_parse_rejects_unknown_operation() {
    // Format 0 with an operation code past the register operations.
    assert!(Instruction::parse(0b00_1111_0000_0000_00000000000000_0000).is_err());
}

#[test]
fn risc_encoding_round_trips_immediate_values() {
    for im in [0, 1, -1, 131071, -131071] {
        let i = Instruction::RegisterIm { o: wirth::risc::instructions::RegisterImOpCode::ADDI, a: 3, b: 15, im };
        assert_eq!(Ok(i), Instruction::parse(Instruction::encode(i)));
    }
}

#[test]
fn risc_encoding_round_trips_memory_and_negative_values() {
    let load = Instruction::Memory { o: MemoryOpCode::LDW, a: 0, b: 1, disp: 4 };
    assert_eq!(Ok(load), Instruction::parse(Instruction::encode(load)));
    // A negative immediate is an 18 bit two's complement field: it leaves `b` alone.
    let sub = Instruction::RegisterIm { o: RegisterImOpCode::SUBI, a: 2, b: 7, im: -5 };
    assert_eq!(0b01_0011_0010_0111_111111111111111011, Instruction::encode(sub));
    assert_eq!(Ok(sub), Instruction::parse(Instruction::encode(sub)));
    for disp in [-0x1FFFF, -1, 0, 12, 0x1FFFF] {
        let store = Instruction::Memory { o: MemoryOpCode::STW, a: 14, b: 9, disp };
        assert_eq!(Ok(store), Instruction::parse(Instruction::encode(store)));
    }
}
