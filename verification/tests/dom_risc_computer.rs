use wirth::dom_risc::computer::Computer;
use wirth::dom_risc::instructions::BranchCondition::{AW, EQ, GE, GT, LE, LT, MI, NE, NV, PL};
use wirth::dom_risc::instructions::Instruction;
use wirth::dom_risc::instructions::Instruction::{Branch, BranchOff, Memory, Register, RegisterIm};
use wirth::dom_risc::instructions::MemoryMode;
use wirth::dom_risc::instructions::OpCode::{ADD, AND, ANN, ASR, DIV, IOR, LSL, MOD, MOV, MUL, ROR, SUB, XOR};

fn dom_exec(c: &mut Computer, i: Instruction) {
    c.execute_instruction(i, false);
}

#[test]
fn test_mov() {
    let mut c = Computer::new();
    c.regs[0] = 0;
    c.regs[1] = 9999; // b will be ignored
    c.regs[2] = 42;

    // R.a := R.c
    dom_exec(&mut c, Register { o: MOV, a: 0, b: 1, c: 2 });
    assert_eq!(42, c.regs[0]);
    assert_eq!(false, c.z_test);
    assert_eq!(false, c.neg_test);
    dom_exec(&mut c, RegisterIm { o: MOV, a: 0, b: 1, im: -84 });
    assert_eq!(-84, c.regs[0]);
    assert_eq!(false, c.z_test);
    assert_eq!(true, c.neg_test);

    dom_exec(&mut c, RegisterIm { o: MOV, a: 0, b: 1, im: 0 });
    assert_eq!(0, c.regs[0]);
    assert_eq!(true, c.z_test);
    assert_eq!(false, c.neg_test);
}

#[test]
fn test_lsl() {
    let mut c = Computer::new();
    c.regs[0] = 0;
    c.regs[1] = 42;
    c.regs[2] = 1;
    // R.a := R.b << R.c
    dom_exec(&mut c, Register { o: LSL, a: 0, b: 1, c: 2 });
    assert_eq!(84, c.regs[0]);

    dom_exec(&mut c, RegisterIm { o: LSL, a: 0, b: 1, im: 2 });
    assert_eq!(168, c.regs[0]);
}

#[test]
fn test_asr() {
    let mut c = Computer::new();
    c.regs[0] = 0;
    c.regs[1] = 42;
    c.regs[2] = 1;
    // R.a := R.b >> R.c
    dom_exec(&mut c, Register { o: ASR, a: 0, b: 1, c: 2 });
    assert_eq!(21, c.regs[0]);

    c.regs[1] = 42;
    dom_exec(&mut c, RegisterIm { o: ASR, a: 0, b: 1, im: 1 });
    assert_eq!(21, c.regs[0]);

    c.regs[1] = -42;
    // R.a := R.b >> R.c (with sign extension)
    dom_exec(&mut c, Register { o: ASR, a: 0, b: 1, c: 2 });
    assert_eq!(-21, c.regs[0]);

    c.regs[1] = -42;
    // R.a := R.b >> R.c (with sign extension)
    dom_exec(&mut c, RegisterIm { o: ASR, a: 0, b: 1, im: 1 });
    assert_eq!(-21, c.regs[0]);
}

#[test]
fn test_ror() {
    let mut c = Computer::new();
    c.regs[0] = 0;
    c.regs[1] = 0b0001_0010_0011_0100_0101_0110_0111_1000;
    c.regs[2] = 4;
    // R.a := R.b rot R.c
    dom_exec(&mut c, Register { o: ROR, a: 0, b: 1, c: 2 });
    assert_eq!(0b1000_0001_0010_0011_0100_0101_0110_0111_u32 as i32, c.regs[0]);

    c.regs[2] = -4;
    dom_exec(&mut c, Register { o: ROR, a: 0, b: 1, c: 2 });
    assert_eq!(0b0010_0011_0100_0101_0110_0111_1000_0001_u32 as i32, c.regs[0]);

    dom_exec(&mut c, RegisterIm { o: ROR, a: 0, b: 1, im: 4 });
    assert_eq!(0b1000_0001_0010_0011_0100_0101_0110_0111_u32 as i32, c.regs[0]);

    dom_exec(&mut c, RegisterIm { o: ROR, a: 0, b: 1, im: -4 });
    assert_eq!(0b0010_0011_0100_0101_0110_0111_1000_0001_u32 as i32, c.regs[0]);
}
#[test]
fn test_logical_register() {
    let mut c = Computer::new();
    c.regs[0] = 0;
    c.regs[1] = 0b0001_0010_0011_0100_0101_0110_0111_1000;
    c.regs[2] = 0b0000_0000_0000_0000_0000_0000_0000_1111;
    // R.a := R.b & R.c
    dom_exec(&mut c, Register { o: AND, a: 0, b: 1, c: 2 });
    assert_eq!(0b0000_0000_0000_0000_0000_0000_0000_1000, c.regs[0] as u32);

    // R.a := R.b & not R.c
    dom_exec(&mut c, Register { o: ANN, a: 0, b: 1, c: 2 });
    assert_eq!(0b0001_0010_0011_0100_0101_0110_0111_0000, c.regs[0] as u32);

    // R.a := R.b | R.c
    dom_exec(&mut c, Register { o: IOR, a: 0, b: 1, c: 2 });
    assert_eq!(0b0001_0010_0011_0100_0101_0110_0111_1111, c.regs[0] as u32);

    // R.a := R.b xor R.c
    dom_exec(&mut c, Register { o: XOR, a: 0, b: 1, c: 2 });
    assert_eq!(0b0001_0010_0011_0100_0101_0110_0111_0111, c.regs[0] as u32);

    // I'm a bit lazy, and I trust my implementation for the "imediate" part ;)
}

#[test]
fn test_arithmetic_register() {
    let mut c = Computer::new();
    c.regs[0] = 0;
    c.regs[1] = 10;
    c.regs[2] = 32;
    // R.a = R.b + R.c
    dom_exec(&mut c, Register { o: ADD, a: 0, b: 1, c: 2 });
    assert_eq!(42, c.regs[0]);

    // R.a = R.b - R.c
    dom_exec(&mut c, Register { o: SUB, a: 0, b: 1, c: 2 });
    assert_eq!(-22, c.regs[0]);

    // R.a = R.b * R.c
    dom_exec(&mut c, Register { o: MUL, a: 0, b: 1, c: 2 });
    assert_eq!(320, c.regs[0]);

    // R.a = R.b / R.c
    dom_exec(&mut c, Register { o: DIV, a: 0, b: 2, c: 1 });
    assert_eq!(3, c.regs[0]);

    c.regs[1] = 21;
    c.regs[2] = 10;

    // R.a = R.b % R.c
    dom_exec(&mut c, Register { o: MOD, a: 0, b: 1, c: 2 });
    assert_eq!(1, c.regs[0]);

    // I'm a bit lazy, and I trust my implementation for the "imediate" part ;)
}

#[test]
fn test_execute_memory_instruction() {
    let mut c = Computer::new();
    c.regs[0] = 0;
    c.regs[1] = 10;

    c.mem[14] = -42;

    // R.a := Mem[R.b + off]
    dom_exec(
        &mut c,
        Memory {
            u: MemoryMode::Load,
            a: 0,
            b: 1,
            offset: 4,
        },
    );
    assert_eq!(c.regs[0], -42);
    assert_eq!(true, c.neg_test);
    assert_eq!(false, c.z_test);

    dom_exec(
        &mut c,
        Memory {
            u: MemoryMode::Store,
            a: 0,
            b: 1,
            offset: 5,
        },
    );
    assert_eq!(c.mem[15], -42);
}

#[test]
fn computer_test_test_branch_instructions() {
    let mut c = Computer::new();
    c.regs[0] = 0;
    c.regs[1] = 10;
    c.regs[15] = 0;

    // In practice, in the loop,
    // `c.pc` would be incremented by one at each instruction.
    c.pc = 40;

    // Branch to R.c if N
    c.neg_test = true;
    dom_exec(&mut c, Branch { cond: MI, c: 1, link: false });
    assert_eq!(c.pc, 10);
    assert_eq!(c.regs[15], 0);

    // Branch to PC + offset if Z
    dom_exec(&mut c, BranchOff { cond: MI, offset: 2, link: false });
    assert_eq!(c.pc, 12);
    assert_eq!(c.regs[15], 0);

    // Branch to R.c if Z and store return address
    dom_exec(&mut c, Branch { cond: MI, c: 1, link: true });
    assert_eq!(c.pc, 10);
    assert_eq!(c.regs[15], 12); // Address has been stored

    // Branch to PC + offset if Z and store return address
    dom_exec(&mut c, BranchOff { cond: MI, offset: -3, link: true });
    assert_eq!(c.pc, 7);
    assert_eq!(c.regs[15], 10);
}

// NOTE(pht) previous test gives me enough confidence that exhaustively
// checking `matches_cond` is enough to test all branch cases.
#[test]
fn match_conditions_against_flags() {
    let mut c = Computer::new();
    c.regs[0] = -42;
    c.update_flags(0);
    assert_eq!(true, c.neg_test);
    assert_eq!(false, c.z_test);
    assert_eq!(true, c.matches_cond(MI)); // -42 < 0 ?
    assert_eq!(false, c.matches_cond(EQ)); // -42 == 0 ?
    assert_eq!(true, c.matches_cond(LT)); // -42 < 0 (implicitely since we don't have carry and overflow)
    assert_eq!(true, c.matches_cond(LE)); // -42 <= 0 ?
    assert_eq!(true, c.matches_cond(AW)); // true ?
    assert_eq!(false, c.matches_cond(PL)); // -42 > 0 ?
    assert_eq!(true, c.matches_cond(NE)); // -42 != 0 ?
    assert_eq!(false, c.matches_cond(GE)); // -42 > 0 ?
    assert_eq!(false, c.matches_cond(GT)); // -42 >= 0 ?
    assert_eq!(false, c.matches_cond(NV)); // false

    c.regs[0] = 0;
    c.update_flags(0);
    assert_eq!(false, c.neg_test);
    assert_eq!(true, c.z_test);
    assert_eq!(false, c.matches_cond(MI)); // 0 < 0 ?
    assert_eq!(true, c.matches_cond(EQ)); // 0 == 0 ?
    assert_eq!(false, c.matches_cond(LT)); // 0 < 0 (implicitely since we don't have carry and overflow)
    assert_eq!(true, c.matches_cond(LE)); // 0 <= 0 ?
    assert_eq!(true, c.matches_cond(AW)); // true ?
    assert_eq!(true, c.matches_cond(PL)); // 0 > 0 ? (this is a special case)
    assert_eq!(false, c.matches_cond(NE)); // 0 != 0 ?
    assert_eq!(true, c.matches_cond(GE)); // 0 > 0 ? (special case)
    assert_eq!(false, c.matches_cond(GT)); // 0 >= 0 ? (not sure how to interpret this one...)
    assert_eq!(false, c.matches_cond(NV)); // false

    c.regs[0] = 42;
    c.update_flags(0);
    assert_eq!(false, c.neg_test);
    assert_eq!(false, c.z_test);
    assert_eq!(false, c.matches_cond(MI)); // 42 < 0 ?
    assert_eq!(false, c.matches_cond(EQ)); // 42 == 0 ?
    assert_eq!(false, c.matches_cond(LT)); // 42 < 0 (implicitely since we don't have carry and overflow)
    assert_eq!(false, c.matches_cond(LE)); // 42 <= 0 ?
    assert_eq!(true, c.matches_cond(AW)); // true ?
    assert_eq!(true, c.matches_cond(PL)); // 42 > 0 ?
    assert_eq!(true, c.matches_cond(NE)); // 42 != 0 ?
    assert_eq!(true, c.matches_cond(GE)); // 42 > 0 ?
    assert_eq!(true, c.matches_cond(GT)); // 42 >= 0 ?
    assert_eq!(false, c.matches_cond(NV)); // false
}

#[test]
fn test_program_execution_to_end() {
    let mut c = Computer::new();
    c.regs[0] = 0;
    c.regs[1] = 0;
    c.regs[2] = 0;

    // MOVI $0, 5
    let mut instruction = RegisterIm { o: MOV, a: 0, b: 0, im: 5 };
    let mut instruction_data = Instruction::encode(&instruction);
    c.mem[0] = instruction_data as i32;

    // MOVI $1, 10
    instruction = RegisterIm { o: MOV, a: 1, b: 0, im: 10 };
    instruction_data = Instruction::encode(&instruction);
    c.mem[1] = instruction_data as i32;

    // BPL $2 -> Which happens to be 0, so this will end execution
    instruction = Branch { cond: PL, c: 2, link: false };
    instruction_data = Instruction::encode(&instruction);
    c.mem[2] = instruction_data as i32;

    let max_cycles = 5;
    let debug = false;
    c.execute(max_cycles, debug);

    assert_eq!(c.regs[0], 5);
    assert_eq!(c.regs[1], 10);
    assert_eq!(c.pc, 0);
}

#[test]
fn test_assembled_program() {
    // NOTE(pht) this is the same program as show in `assembler_test.rs`.
    // Normally, it should increment R1 to 6.
    let instructions = vec![
        RegisterIm { o: MOV, a: 0, b: 0, im: 3 },       //
        RegisterIm { o: MOV, a: 1, b: 0, im: 0 },       //
        RegisterIm { o: ADD, a: 1, b: 1, im: 2 },       //
        RegisterIm { o: SUB, a: 0, b: 0, im: 1 },       //
        BranchOff { cond: EQ, link: false, offset: 2 }, //
        BranchOff {
            cond: AW,
            link: false,
            offset: -4,
        }, // FIXME(pht) assembler gives -3 for this, see if it is a bug in the assembler for negative offset
        RegisterIm { o: MOV, a: 2, b: 0, im: 0 },       //
        Branch { cond: AW, link: false, c: 2 },         //
    ];

    let mut c = Computer::new();
    c.load_instructions(instructions);

    let max_cycles = 50;
    let debug = true;
    c.execute(max_cycles, debug);

    assert_eq!(c.regs[0], 0);
    assert_eq!(c.regs[1], 6);
    assert_eq!(c.regs[2], 0);
    assert_eq!(c.pc, 0);
}

#[test]
fn dom_risc_conditions_and_their_negations_disagree() {
    let pairs = [(MI, PL), (EQ, NE), (LT, GE), (LE, GT), (AW, NV)];
    for value in [-3, 0, 3] {
        let mut c = Computer::new();
        c.regs[4] = value;
        c.update_flags(4);
        for (cond, negation) in pairs {
            assert_ne!(c.matches_cond(cond), c.matches_cond(negation));
        }
    }
}

#[test]
fn dom_risc_division_truncates_toward_zero() {
    let mut c = Computer::new();
    c.regs[1] = -7;
    c.regs[2] = 2;
    dom_exec(&mut c, Register { o: DIV, a: 0, b: 1, c: 2 });
    assert_eq!(-3, c.regs[0]);
    dom_exec(&mut c, Register { o: MOD, a: 0, b: 1, c: 2 });
    assert_eq!(-1, c.regs[0]);
    assert_eq!(true, c.neg_test);
}

#[test]
fn dom_risc_store_then_load_gives_the_value_back() {
    let mut c = Computer::new();
    c.regs[1] = 100;
    c.regs[2] = -5;
    dom_exec(&mut c, Memory { u: MemoryMode::Store, a: 2, b: 1, offset: 7 });
    assert_eq!(-5, c.mem[107]);
    dom_exec(&mut c, Memory { u: MemoryMode::Load, a: 3, b: 1, offset: 7 });
    assert_eq!(-5, c.regs[3]);
}

#[test]
fn dom_risc_default_is_new() {
    let c = Computer::default();
    assert_eq!(0, c.pc);
    assert!(c.regs.iter().all(|r| *r == 0));
    assert!(c.mem.iter().all(|m| *m == 0));
}

#[test]
fn dom_risc_checked_run_matches_run() {
    // R0 := 3; loop: R0 := R0 - 1; while R0 # 0 go back; then R1 := 0 and branch to R1.
    let program = vec![
        RegisterIm { o: MOV, a: 0, b: 0, im: 3 },
        RegisterIm { o: SUB, a: 0, b: 0, im: 1 },
        BranchOff { cond: NE, offset: -2, link: false },
        RegisterIm { o: MOV, a: 1, b: 0, im: 0 },
        Branch { cond: AW, c: 1, link: false },
    ];
    let mut c = Computer::new();
    c.load_instructions(program.clone());
    let mut d = Computer::new();
    d.load_instructions(program);
    c.execute(100, false);
    assert!(d.execute_checked(100, false));
    assert_eq!(0, c.pc);
    assert_eq!(c.pc, d.pc);
    assert_eq!(c.regs, d.regs);
    assert_eq!(0, d.regs[0]);
}

#[test]
fn dom_risc_checked_run_stops_at_a_division_by_zero() {
    let mut c = Computer::new();
    c.load_instructions(vec![RegisterIm { o: MOV, a: 0, b: 0, im: 5 }, RegisterIm { o: DIV, a: 0, b: 0, im: 0 }]);
    assert!(!c.execute_checked(10, false));
    assert_eq!(5, c.regs[0]);
}

#[test]
fn dom_risc_register_instruction_sets_one_register_and_the_flags() {
    let mut c = Computer::new();
    c.regs[1] = 0b1100;
    c.regs[3] = 7;
    c.mem[5] = 11;
    dom_exec(&mut c, RegisterIm { o: ANN, a: 2, b: 1, im: 0b0100 });
    assert_eq!(0b1000, c.regs[2]);
    assert_eq!(0b1100, c.regs[1]);
    assert_eq!(7, c.regs[3]);
    assert_eq!(11, c.mem[5]);
    assert_eq!(0, c.pc);
    assert_eq!((false, false), (c.z_test, c.neg_test));
    dom_exec(&mut c, RegisterIm { o: SUB, a: 2, b: 3, im: 7 });
    assert_eq!(0, c.regs[2]);
    assert_eq!((true, false), (c.z_test, c.neg_test));
    dom_exec(&mut c, RegisterIm { o: ASR, a: 4, b: 1, im: 2 });
    assert_eq!(3, c.regs[4]);
}

fn load_assembly(program: &str) -> Computer {
    let mut a = wirth::dom_risc::assembler::Assembler::new();
    a.assemble(program).expect("Unable to parse program !");
    let mut c = Computer::new();
    c.load_instructions(a.instructions);
    c
}

const COUNT_TO_3: &str = "
* Counts R0 up to 3, then returns to address 0.
        MOV R0,0
        MOV R1,3
@LOOP   ADD R0,R0,1      ; R0 <- R0 + 1
        SUB R2,R0,R1     ; flags from R0 - 3
        BNE @LOOP
        MOV R3,0
        B R3
";

const SQUARES: &str = "
* Stores k * k at address 10 + k, for k from 0 to 3.
        MOV R0,0
        MOV R4,4
@LOOP   MUL R1,R0,R0
        STW R1,R0,10     ; M[R0 + 10] <- R1
        ADD R0,R0,1
        SUB R2,R0,R4
        BNE @LOOP
        MOV R3,0
        B R3
";

const PRIMES: &str = "
* Stores the primes below 25 from address 31 on, by trial division.
* A forward branch lands on the instruction after its label.
        MOV R0,2         ; candidate
        MOV R5,31        ; where the next prime goes
        MOV R6,40        ; where the primes end
@NEXT   MOV R1,2         ; divisor
@TRY    SUB R2,R1,R0
        BEQ @PRIME       ; no divisor below the candidate
        MOD R3,R0,R1
        BEQ @SKIP        ; divisible
        ADD R1,R1,1
        B @TRY
@PRIME  MOV R8,0
        STW R0,R5,0
        ADD R5,R5,1
        SUB R2,R5,R6
        BEQ @DONE
@SKIP   MOV R8,0
        ADD R0,R0,1
        B @NEXT
@DONE   MOV R7,0
        MOV R7,0
        B R7
";

#[test]
fn count_to_3() {
    let debug = true;
    let mut c = load_assembly(COUNT_TO_3);
    let max_cycles = 50;
    c.execute(max_cycles, debug);
    assert_eq!(0, c.pc);
    assert_eq!(3, c.regs[0]);
}

#[test]
fn squares() {
    let debug = true;
    let mut c = load_assembly(SQUARES);
    let max_cycles = 99999;
    c.execute(max_cycles, debug);
    assert_eq!(0, c.pc);
    let base = 10;
    assert_eq!(0, c.mem[base + 0]);
    assert_eq!(1, c.mem[base + 1]);
    assert_eq!(4, c.mem[base + 2]);
    assert_eq!(9, c.mem[base + 3]);
}

#[test]
fn primes() {
    let debug = true;
    let mut c = load_assembly(PRIMES);
    let max_cycles = 99999;
    c.execute(max_cycles, debug);
    assert_eq!(0, c.pc);
    let base = 30;

    let expected = [2, 3, 5, 7, 11, 13, 17, 19, 23];
    assert_eq!(expected, c.mem[base + 1..base + 1 + expected.len()]);
}
