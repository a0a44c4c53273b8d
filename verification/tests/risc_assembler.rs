use wirth::risc::assembler::{Assembler, ParseError, ParseResult};
use wirth::risc::instructions::{Instruction, RegisterImOpCode};

#[test]
fn lib_it_ignores_comment_lines() {
    let mut a = Assembler::new();
    let parsed = a.parse_line(0, "* A comment should be ignored");
    assert_eq!(Ok(ParseResult::Comment), parsed);
    assert_eq!(None, a.origin);
    assert!(a.instructions.is_empty());
}

#[test]
fn lib_it_parses_symbol_definition() {
    let mut a = Assembler::new();
    let parsed = a.parse_line(0, "#FOO 42");
    assert_eq!(Ok(ParseResult::SymbolDef), parsed);
    assert_eq!(None, a.origin);
    assert!(a.instructions.is_empty());
    assert_eq!(a.symbols.get("#FOO").unwrap(), 42);
}

#[test]
#[allow(unused)]
fn lib_it_maintains_origin() {
    let mut a = Assembler::new();
    a.parse_line(0, "#FOO 42");
    a.parse_line(1, "#BAR 50");
    a.parse_line(2, "MOVI R0,42,32");
    assert_eq!(Some(2), a.origin);
}

#[test]
#[allow(unused)]
fn lib_it_parses_an_instruction_with_address() {
    let mut a = Assembler::new();
    a.parse_line(0, "#FOO 42");
    a.parse_line(1, "#BAR 50");
    a.parse_line(2, "MOVI R0,42,32");
    let parsed = a.parse_line(3, "@START MOVI R1,42,32 ; do some stuff");
    assert_eq!(Some(2), a.origin);
    assert_eq!(a.disps.get("@START").unwrap(), 1);
    assert_eq!(Ok(ParseResult::Instruction), parsed);
    assert_eq!(
        Instruction::RegisterIm { o: RegisterImOpCode::MOVI, a: 1, b: 42, im: 32 },
        a.instructions[1]
    )
}

#[test]
fn lib_it_converts_lines_to_instructions() {
    let mut a = Assembler::new();
    let tests = [
        ("MOVI R1,42,32", Instruction::RegisterIm { o: RegisterImOpCode::MOVI, a: 1, b: 42, im: 32 }),
        (
            "MVNI R0,2,32 ; Some comment",
            Instruction::RegisterIm { o: RegisterImOpCode::MVNI, a: 0, b: 2, im: 32 },
        ),
    ];
    for test in tests.iter() {
        let (line, expected) = test;
        assert_eq!(a.parse_instruction(0, line), Ok(*expected))
    }
}

#[test]
fn risc_assembler_rejects_malformed_lines() {
    let mut a = Assembler::new();
    assert_eq!(Err(ParseError::SyntaxError { index: 7 }), a.parse_line(7, "FOO R1,2,3"));
    assert_eq!(Err(ParseError::SyntaxError { index: 8 }), a.parse_line(8, "#FOO abc"));
    // The first line that is neither a comment nor a symbol sets the origin, even when it fails.
    assert_eq!(Some(7), a.origin);
    assert!(a.instructions.is_empty());
}

#[test]
fn risc_assembler_resolves_registers_and_symbols() {
    let mut a = Assembler::new();
    a.parse_line(0, "#TEN 10");
    assert_eq!(Ok(ParseResult::Instruction), a.parse_line(1, "ADDI R3,R4,#TEN"));
    assert_eq!(Instruction::RegisterIm { o: RegisterImOpCode::ADDI, a: 3, b: 4, im: 10 }, a.instructions[0]);
}

#[test]
fn risc_assembler_scraps_everything_after_a_semicolon() {
    let mut a = Assembler::new();
    assert_eq!(Ok(ParseResult::Instruction), a.parse_line(0, "MOVI R1,42,32;comment"));
    assert_eq!(Instruction::RegisterIm { o: RegisterImOpCode::MOVI, a: 1, b: 42, im: 32 }, a.instructions[0]);
}
