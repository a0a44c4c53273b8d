//! Instruction encoding and decoding for the RISC machine of Wirth's
//! "Compiler Construction".
//!
//! The top bits of a word give the format: register instructions (with a
//! register or a 16 bit immediate operand), memory instructions with a 20 bit
//! offset, and branches to a register or by a 24 bit offset, each under a
//! condition on the flags.

use vstd::prelude::*;

verus! {

/// Register operations.
#[derive(Debug, Copy, Clone, PartialEq, Eq, Structural)]
pub enum OpCode {
    MOV, // R.a = n
    LSL, // R.a = R.b <- n (shift left)
    ASR, // R.a = R.b -> n (shift right with sign extension)
    ROR,
    AND,
    ANN, // R.a = R.b & ~n
    IOR, // R.a = R.b or n
    XOR, // R.a = R.b xor n
    ADD,
    SUB,
    MUL,
    DIV,
    MOD,
}

impl OpCode {
    pub open spec fn spec_code(self) -> u32 {
        match self {
            OpCode::MOV => 0,
            OpCode::LSL => 1,
            OpCode::ASR => 2,
            OpCode::ROR => 3,
            OpCode::AND => 4,
            OpCode::ANN => 5,
            OpCode::IOR => 6,
            OpCode::XOR => 7,
            OpCode::ADD => 8,
            OpCode::SUB => 9,
            OpCode::MUL => 10,
            OpCode::DIV => 11,
            OpCode::MOD => 12,
        }
    }

    pub open spec fn spec_from_code(v: u32) -> Option<OpCode> {
        if v == 0 {
            Some(OpCode::MOV)
        } else if v == 1 {
            Some(OpCode::LSL)
        } else if v == 2 {
            Some(OpCode::ASR)
        } else if v == 3 {
            Some(OpCode::ROR)
        } else if v == 4 {
            Some(OpCode::AND)
        } else if v == 5 {
            Some(OpCode::ANN)
        } else if v == 6 {
            Some(OpCode::IOR)
        } else if v == 7 {
            Some(OpCode::XOR)
        } else if v == 8 {
            Some(OpCode::ADD)
        } else if v == 9 {
            Some(OpCode::SUB)
        } else if v == 10 {
            Some(OpCode::MUL)
        } else if v == 11 {
            Some(OpCode::DIV)
        } else if v == 12 {
            Some(OpCode::MOD)
        } else {
            None
        }
    }

    pub fn code(self) -> (v: u32)
        ensures
            v == self.spec_code(),
    {
        match self {
            OpCode::MOV => 0,
            OpCode::LSL => 1,
            OpCode::ASR => 2,
            OpCode::ROR => 3,
            OpCode::AND => 4,
            OpCode::ANN => 5,
            OpCode::IOR => 6,
            OpCode::XOR => 7,
            OpCode::ADD => 8,
            OpCode::SUB => 9,
            OpCode::MUL => 10,
            OpCode::DIV => 11,
            OpCode::MOD => 12,
        }
    }

    pub proof fn lemma_code(self)
        ensures
            Self::spec_from_code(self.spec_code()) == Some(self),
            self.spec_code() < 16,
    {
    }
}

/// Whether a memory instruction loads or stores.
#[derive(Debug, Copy, Clone, PartialEq, Eq, Structural)]
pub enum MemoryMode {
    Load,
    Store,
}

/// Branch conditions on the flags. Conditions on carry and overflow are not simulated.
#[derive(Debug, Copy, Clone, PartialEq, Eq, Structural)]
pub enum BranchCondition {
    MI,
    EQ,
    LT,
    LE,
    AW, // Always
    PL,
    NE,
    GE,
    GT,
    NV, // Never
}

impl BranchCondition {
    pub open spec fn spec_code(self) -> u32 {
        match self {
            BranchCondition::MI => 0,
            BranchCondition::EQ => 1,
            BranchCondition::LT => 5,
            BranchCondition::LE => 6,
            BranchCondition::AW => 7,
            BranchCondition::PL => 8,
            BranchCondition::NE => 9,
            BranchCondition::GE => 13,
            BranchCondition::GT => 14,
            BranchCondition::NV => 15,
        }
    }

    pub open spec fn spec_from_code(v: u32) -> Option<BranchCondition> {
        if v == 0 {
            Some(BranchCondition::MI)
        } else if v == 1 {
            Some(BranchCondition::EQ)
        } else if v == 5 {
            Some(BranchCondition::LT)
        } else if v == 6 {
            Some(BranchCondition::LE)
        } else if v == 7 {
            Some(BranchCondition::AW)
        } else if v == 8 {
            Some(BranchCondition::PL)
        } else if v == 9 {
            Some(BranchCondition::NE)
        } else if v == 13 {
            Some(BranchCondition::GE)
        } else if v == 14 {
            Some(BranchCondition::GT)
        } else if v == 15 {
            Some(BranchCondition::NV)
        } else {
            None
        }
    }

    pub fn code(self) -> (v: u32)
        ensures
            v == self.spec_code(),
    {
        match self {
            BranchCondition::MI => 0,
            BranchCondition::EQ => 1,
            BranchCondition::LT => 5,
            BranchCondition::LE => 6,
            BranchCondition::AW => 7,
            BranchCondition::PL => 8,
            BranchCondition::NE => 9,
            BranchCondition::GE => 13,
            BranchCondition::GT => 14,
            BranchCondition::NV => 15,
        }
    }

    pub proof fn lemma_code(self)
        ensures
            Self::spec_from_code(self.spec_code()) == Some(self),
            self.spec_code() < 16,
    {
    }
}

#[derive(Debug, Copy, Clone, PartialEq, Eq, Structural)]
#[allow(inconsistent_fields)]
pub enum Instruction {
    Register { a: usize, b: usize, o: OpCode, c: usize },
    RegisterIm { a: usize, b: usize, o: OpCode, im: i32 },
    Memory { a: usize, b: usize, offset: u32, u: MemoryMode },
    Branch { cond: BranchCondition, c: usize, link: bool },
    BranchOff { cond: BranchCondition, offset: i32, link: bool },
}

#[derive(Debug, Copy, Clone, PartialEq, Eq, Structural)]
pub enum InstructionParseError {
    InvalidInstruction(u32),
    InvalidOpCode(u8),
    InvalidBranchCondition(u32),
}

/// The word that encodes an instruction.
pub open spec fn spec_encode(i: Instruction) -> u32 {
    match i {
        Instruction::Register { o, a, b, c } => (c as u32) | (o.spec_code() << 16u32) | ((b as u32)
            << 20u32) | ((a as u32) << 24u32),
        Instruction::RegisterIm { o, a, b, im } => 0x4000_0000 | ((im as u32) & 0xFFFF) | (
        o.spec_code() << 16u32) | ((b as u32) << 20u32) | ((a as u32) << 24u32) | ((if im < 0 {
            1u32
        } else {
            0u32
        }) << 28u32),
        Instruction::Memory { a, b, offset, u } => (offset & 0xFFFFF) | ((b as u32) << 20u32) | ((
        a as u32) << 24u32) | ((if u == MemoryMode::Store {
            10u32
        } else {
            8u32
        }) << 28u32),
        Instruction::Branch { cond, c, link } => (c as u32) | (cond.spec_code() << 24u32) | ((if link {
            13u32
        } else {
            12u32
        }) << 28u32),
        Instruction::BranchOff { cond, offset, link } => ((offset as u32) & 0xFFFFFF) | (
        cond.spec_code() << 24u32) | ((if link {
            15u32
        } else {
            14u32
        }) << 28u32),
    }
}

/// The register operation with code `op`.
pub open spec fn spec_parse_op_code(op: u8) -> Result<OpCode, InstructionParseError> {
    match OpCode::spec_from_code(op as u32) {
        Some(o) => Ok(o),
        None => Err(InstructionParseError::InvalidOpCode(op)),
    }
}

/// The branch condition with code `a`.
pub open spec fn spec_parse_cond(a: usize) -> Result<BranchCondition, InstructionParseError> {
    if a < 16 {
        match BranchCondition::spec_from_code(a as u32) {
            Some(c) => Ok(c),
            None => Err(InstructionParseError::InvalidBranchCondition(a as u32)),
        }
    } else {
        Err(InstructionParseError::InvalidBranchCondition(a as u32))
    }
}

pub open spec fn spec_parse_register(i: u32) -> Result<Instruction, InstructionParseError> {
    let a = ((i / 0x1000000) % 0x10) as usize;
    let b = ((i / 0x100000) % 0x10) as usize;
    let c = (i % 0x10) as usize;
    let op = ((i / 0x10000) % 0x10) as u8;
    let im = (i % 0x10000) as i32;
    match spec_parse_op_code(op) {
        Err(e) => Err(e),
        Ok(o) => if (i / 0x40000000) % 2 == 0 {
            Ok(Instruction::Register { a, b, o, c })
        } else if (i / 0x10000000) % 2 == 0 {
            Ok(Instruction::RegisterIm { a, b, o, im })
        } else {
            Ok(Instruction::RegisterIm { a, b, o, im: ((im as u32) | 0xFFFF0000) as i32 })
        },
    }
}

pub open spec fn spec_parse_memory(i: u32) -> Result<Instruction, InstructionParseError> {
    let a = ((i / 0x1000000) % 0x10) as usize;
    let b = ((i / 0x100000) % 0x10) as usize;
    let offset = i & 0xFFFFF;
    let u = if i & 0x2000_0000 != 0 {
        MemoryMode::Store
    } else {
        MemoryMode::Load
    };
    Ok(Instruction::Memory { a, b, offset, u })
}

pub open spec fn spec_parse_branch(i: u32) -> Result<Instruction, InstructionParseError> {
    let a = ((i / 0x1000000) % 0x10) as usize;
    match spec_parse_cond(a) {
        Err(e) => Err(e),
        Ok(cond) => Ok(
            Instruction::Branch { cond, c: (i % 0x10) as usize, link: (i & 0x1000_0000) > 0 },
        ),
    }
}

/// The 24 bit offset field, sign extended.
pub open spec fn spec_branch_offset(i: u32) -> i32 {
    let offset = i & 0xFFFFFF;
    (if offset & 0x800000 > 0 {
        offset | 0xFF00_0000
    } else {
        offset
    }) as i32
}

pub open spec fn spec_parse_branch_offset(i: u32) -> Result<Instruction, InstructionParseError> {
    let a = ((i / 0x1000000) % 0x10) as usize;
    match spec_parse_cond(a) {
        Err(e) => Err(e),
        Ok(cond) => Ok(
            Instruction::BranchOff {
                cond,
                offset: spec_branch_offset(i),
                link: (i & 0x1000_0000) > 0,
            },
        ),
    }
}

/// The instruction that a word encodes: bit 31 clear for register
/// instructions, then bit 30 clear for memory instructions, then bit 29 clear
/// for branches to a register and set for branches by an offset.
pub open spec fn spec_parse(i: u32) -> Result<Instruction, InstructionParseError> {
    if (i / 0x8000_0000) % 2 == 0 {
        spec_parse_register(i)
    } else if (i / 0x4000_0000) % 2 == 0 {
        spec_parse_memory(i)
    } else if i & 0x2000_0000 == 0 {
        spec_parse_branch(i)
    } else {
        spec_parse_branch_offset(i)
    }
}

impl Instruction {
    pub fn encode(i: &Instruction) -> (w: u32)
        ensures
            w == spec_encode(*i),
    {
        match i {
            Instruction::Register { o, a, b, c } => Instruction::encode_register(*o, *a, *b, *c),
            Instruction::RegisterIm { o, a, b, im } => Instruction::encode_register_im(
                *o,
                *a,
                *b,
                *im,
            ),
            Instruction::Memory { a, b, offset, u } => Instruction::encode_memory(
                *a,
                *b,
                *offset,
                *u,
            ),
            Instruction::Branch { cond, c, link } => Instruction::encode_branch(*cond, *c, *link),
            Instruction::BranchOff { cond, offset, link } => Instruction::encode_branch_offset(
                *cond,
                *offset,
                *link,
            ),
        }
    }

    fn encode_register(op: OpCode, a: usize, b: usize, c: usize) -> (w: u32)
        ensures
            w == spec_encode(Instruction::Register { o: op, a, b, c }),
    {
        //  0000(4) a(4) b(4) [op](4) 000000000000(12) c (4)
        (c as u32) | (op.code() << 16u32) | ((b as u32) << 20u32) | ((a as u32) << 24u32)
    }

    fn encode_register_im(op: OpCode, a: usize, b: usize, im: i32) -> (w: u32)
        ensures
            w == spec_encode(Instruction::RegisterIm { o: op, a, b, im }),
    {
        let mut v: u32 = 0;
        if im < 0 {
            v = 1;
        }
        //  0100(4) a(4) b(4) [op](4) im(16)
        0x4000_0000 | ((im as u32) & 0xFFFF) | (op.code() << 16u32) | ((b as u32) << 20u32) | ((
        a as u32) << 24u32) | (v << 28u32)
    }

    fn encode_memory(a: usize, b: usize, offset: u32, u: MemoryMode) -> (w: u32)
        ensures
            w == spec_encode(Instruction::Memory { a, b, offset, u }),
    {
        let mut uv: u32 = 0b1000;
        if u == MemoryMode::Store {
            uv = 0b1010;
        }
        (offset & 0xFFFFF) | ((b as u32) << 20u32) | ((a as u32) << 24u32) | (uv << 28u32)
    }

    fn encode_branch(cond: BranchCondition, c: usize, link: bool) -> (w: u32)
        ensures
            w == spec_encode(Instruction::Branch { cond, c, link }),
    {
        let mut uv: u32 = 0b1100;
        if link {
            uv = 0b1101;
        }
        (c as u32) | (cond.code() << 24u32) | (uv << 28u32)
    }

    fn encode_branch_offset(cond: BranchCondition, offset: i32, link: bool) -> (w: u32)
        ensures
            w == spec_encode(Instruction::BranchOff { cond, offset, link }),
    {
        let mut uv: u32 = 0b1110;
        if link {
            uv = 0b1111;
        }
        ((offset as u32) & 0xFFFFFF) | (cond.code() << 24u32) | (uv << 28u32)
    }

    pub fn parse(i: u32) -> (r: Result<Instruction, InstructionParseError>)
        ensures
            r == spec_parse(i),
    {
        if (i / 0x8000_0000) % 2 == 0 {
            Instruction::parse_register(i)
        } else if (i / 0x4000_0000) % 2 == 0 {
            Instruction::parse_memory(i)
        } else if i & 0x2000_0000 == 0 {
            Instruction::parse_branch(i)
        } else {
            Instruction::parse_branch_offset(i)
        }
    }

    fn parse_register(i: u32) -> (r: Result<Instruction, InstructionParseError>)
        ensures
            r == spec_parse_register(i),
    {
        let a = ((i / 0x1000000) % 0x10) as usize;
        let b = ((i / 0x100000) % 0x10) as usize;
        let c = (i % 0x10) as usize;

        let op = ((i / 0x10000) % 0x10) as u8;
        let im = (i % 0x10000) as i32;

        let o = match Instruction::parse_op_code(op) {
            Ok(o) => o,
            Err(e) => {
                return Err(e);
            },
        };
        if ((i / 0x40000000) % 2) == 0 {
            Ok(Instruction::Register { a, b, o, c })
        } else if (i / 0x10000000) % 2 == 0 {
            Ok(Instruction::RegisterIm { a, b, o, im })
        } else {
            let im_extended = ((im as u32) | 0xFFFF0000) as i32;
            Ok(Instruction::RegisterIm { a, b, o, im: im_extended })
        }
    }

    fn parse_op_code(op: u8) -> (r: Result<OpCode, InstructionParseError>)
        ensures
            r == spec_parse_op_code(op),
    {
        match op {
            0 => Ok(OpCode::MOV),
            1 => Ok(OpCode::LSL),
            2 => Ok(OpCode::ASR),
            3 => Ok(OpCode::ROR),
            4 => Ok(OpCode::AND),
            5 => Ok(OpCode::ANN),
            6 => Ok(OpCode::IOR),
            7 => Ok(OpCode::XOR),
            8 => Ok(OpCode::ADD),
            9 => Ok(OpCode::SUB),
            10 => Ok(OpCode::MUL),
            11 => Ok(OpCode::DIV),
            12 => Ok(OpCode::MOD),
            _ => Err(InstructionParseError::InvalidOpCode(op)),
        }
    }

    fn parse_memory(i: u32) -> (r: Result<Instruction, InstructionParseError>)
        ensures
            r == spec_parse_memory(i),
    {
        let a = ((i / 0x1000000) % 0x10) as usize;
        let b = ((i / 0x100000) % 0x10) as usize;
        let offset = i & 0xFFFFF;
        let mut u = MemoryMode::Load;
        if i & 0x2000_0000 != 0 {
            u = MemoryMode::Store;
        }
        Ok(Instruction::Memory { a, b, offset, u })
    }

    fn parse_branch(i: u32) -> (r: Result<Instruction, InstructionParseError>)
        ensures
            r == spec_parse_branch(i),
    {
        let a = ((i / 0x1000000) % 0x10) as usize;
        let cond = match Instruction::parse_cond(a) {
            Ok(cond) => cond,
            Err(e) => {
                return Err(e);
            },
        };
        let c = (i % 0x10) as usize;
        let link = (i & 0x1000_0000) > 0;
        Ok(Instruction::Branch { cond, c, link })
    }

    fn parse_branch_offset(i: u32) -> (r: Result<Instruction, InstructionParseError>)
        ensures
            r == spec_parse_branch_offset(i),
    {
        let a = ((i / 0x1000000) % 0x10) as usize;
        let cond = match Instruction::parse_cond(a) {
            Ok(cond) => cond,
            Err(e) => {
                return Err(e);
            },
        };

        let mut offset = i & 0xFFFFFF;
        if offset & 0x800000 > 0 {
            offset = offset | 0xFF00_0000;
        }

        let link = (i & 0x1000_0000) > 0;
        Ok(Instruction::BranchOff { cond, offset: offset as i32, link })
    }

    fn parse_cond(a: usize) -> (r: Result<BranchCondition, InstructionParseError>)
        ensures
            r == spec_parse_cond(a),
    {
        match a {
            0 => Ok(BranchCondition::MI),
            1 => Ok(BranchCondition::EQ),
            5 => Ok(BranchCondition::LT),
            6 => Ok(BranchCondition::LE),
            7 => Ok(BranchCondition::AW),
            8 => Ok(BranchCondition::PL),
            9 => Ok(BranchCondition::NE),
            13 => Ok(BranchCondition::GE),
            14 => Ok(BranchCondition::GT),
            15 => Ok(BranchCondition::NV),
            _ => Err(InstructionParseError::InvalidBranchCondition(a as u32)),
        }
    }
}

/// Whether `v` is the code of no branch condition.
pub open spec fn unknown_condition(v: u32) -> bool {
    v == 2 || v == 3 || v == 4 || v == 10 || v == 11 || v == 12
}

/// A word fails to parse exactly when it is a register instruction (bit 31
/// clear) whose operation field, bits 16 to 19, holds no operation (13 to
/// 15), or a branch (bits 31 and 30 set) whose condition field, bits 24 to
/// 27, holds no condition; the error carries that field.
pub proof fn law_parse_fails_on_unknown_codes(w: u32)
    ensures
        spec_parse(w) is Err <==> (w < 0x8000_0000 && (w / 0x10000) % 0x10 >= 13) || (w >= 0xC000_0000
            && unknown_condition((w / 0x100_0000) % 0x10)),
        w < 0x8000_0000 && (w / 0x10000) % 0x10 >= 13 ==> spec_parse(w) == Err::<Instruction, InstructionParseError>(
            InstructionParseError::InvalidOpCode(((w / 0x10000) % 0x10) as u8),
        ),
        w >= 0xC000_0000 && unknown_condition((w / 0x100_0000) % 0x10) ==> spec_parse(w) == Err::<
            Instruction,
            InstructionParseError,
        >(InstructionParseError::InvalidBranchCondition((w / 0x100_0000) % 0x10)),
{
    assert((w / 0x8000_0000) % 2 == 0 <==> w < 0x8000_0000);
    assert(w >= 0x8000_0000 ==> ((w / 0x4000_0000) % 2 == 0 <==> w < 0xC000_0000));
}

/// The instructions that survive an encoding and a decoding: register
/// indexes fit in 4 bits, an immediate lies in [-0x10000, 0x10000), a memory
/// offset in [0, 0x100000) and a branch offset in [-0x800000, 0x800000).
pub open spec fn spec_encodable(i: Instruction) -> bool {
    match i {
        Instruction::Register { a, b, c, .. } => a < 16 && b < 16 && c < 16,
        Instruction::RegisterIm { a, b, im, .. } => a < 16 && b < 16 && -0x10000 <= im < 0x10000,
        Instruction::Memory { a, b, offset, .. } => a < 16 && b < 16 && offset < 0x100000,
        Instruction::Branch { c, .. } => c < 16,
        Instruction::BranchOff { offset, .. } => -0x800000 <= offset < 0x800000,
    }
}

proof fn lemma_register_fields(op: u32, a: u32, b: u32, c: u32, f: u32, v: u32)
    requires
        op < 16,
        a < 16,
        b < 16,
        c < 0x10000,
        f == 0 || f == 0x4000_0000,
        v < 2,
    ensures
        ({
            let w = f | c | (op << 16u32) | (b << 20u32) | (a << 24u32) | (v << 28u32);
            &&& (w / 0x8000_0000) % 2 == 0
            &&& (w / 0x4000_0000) % 2 == (if f == 0 { 0u32 } else { 1u32 })
            &&& (w / 0x1000_0000) % 2 == v
            &&& (w / 0x1000000) % 0x10 == a
            &&& (w / 0x100000) % 0x10 == b
            &&& (w / 0x10000) % 0x10 == op
            &&& w % 0x10000 == c
            &&& (c < 16 ==> w % 0x10 == c)
        }),
{
    assert(({
        let w = f | c | (op << 16u32) | (b << 20u32) | (a << 24u32) | (v << 28u32);
        &&& (w / 0x8000_0000) % 2 == 0
        &&& (w / 0x4000_0000) % 2 == (if f == 0 { 0u32 } else { 1u32 })
        &&& (w / 0x1000_0000) % 2 == v
        &&& (w / 0x1000000) % 0x10 == a
        &&& (w / 0x100000) % 0x10 == b
        &&& (w / 0x10000) % 0x10 == op
        &&& w % 0x10000 == c
        &&& (c < 16 ==> w % 0x10 == c)
    })) by (bit_vector)
        requires
            op < 16,
            a < 16,
            b < 16,
            c < 0x10000,
            f == 0 || f == 0x4000_0000,
            v < 2,
    ;
}

proof fn lemma_top_fields(x: u32, a: u32, top: u32, low_mask: u32)
    requires
        12 <= top < 16,
        a < 16,
        x <= low_mask,
        low_mask == 0xFFFFFF || low_mask == 0xF,
    ensures
        ({
            let w = x | (a << 24u32) | (top << 28u32);
            &&& (w / 0x8000_0000) % 2 == 1
            &&& (w / 0x4000_0000) % 2 == 1
            &&& (w & 0x2000_0000 == 0) == (top == 12 || top == 13)
            &&& (w & 0x1000_0000 > 0) == (top == 13 || top == 15)
            &&& (w / 0x1000000) % 0x10 == a
            &&& (low_mask == 0xFFFFFF ==> w & 0xFFFFFF == x)
            &&& (low_mask == 0xF ==> w % 0x10 == x)
        }),
{
    assert(({
        let w = x | (a << 24u32) | (top << 28u32);
        &&& (w / 0x8000_0000) % 2 == 1
        &&& (w / 0x4000_0000) % 2 == 1
        &&& (w & 0x2000_0000 == 0) == (top == 12 || top == 13)
        &&& (w & 0x1000_0000 > 0) == (top == 13 || top == 15)
        &&& (w / 0x1000000) % 0x10 == a
        &&& (low_mask == 0xFFFFFF ==> w & 0xFFFFFF == x)
        &&& (low_mask == 0xF ==> w % 0x10 == x)
    })) by (bit_vector)
        requires
            12 <= top < 16,
            a < 16,
            x <= low_mask,
            low_mask == 0xFFFFFF || low_mask == 0xF,
    ;
}

proof fn lemma_plain_register_fields(op: u32, a: u32, b: u32, c: u32)
    requires
        op < 16,
        a < 16,
        b < 16,
        c < 16,
    ensures
        ({
            let w = c | (op << 16u32) | (b << 20u32) | (a << 24u32);
            &&& (w / 0x8000_0000) % 2 == 0
            &&& (w / 0x4000_0000) % 2 == 0
            &&& (w / 0x1000000) % 0x10 == a
            &&& (w / 0x100000) % 0x10 == b
            &&& (w / 0x10000) % 0x10 == op
            &&& w % 0x10 == c
        }),
{
    assert(({
        let w = c | (op << 16u32) | (b << 20u32) | (a << 24u32);
        &&& (w / 0x8000_0000) % 2 == 0
        &&& (w / 0x4000_0000) % 2 == 0
        &&& (w / 0x1000000) % 0x10 == a
        &&& (w / 0x100000) % 0x10 == b
        &&& (w / 0x10000) % 0x10 == op
        &&& w % 0x10 == c
    })) by (bit_vector)
        requires
            op < 16,
            a < 16,
            b < 16,
            c < 16,
    ;
}

proof fn lemma_memory_fields(offset: u32, a: u32, b: u32, top: u32)
    requires
        top == 8 || top == 10,
        a < 16,
        b < 16,
        offset < 0x100000,
    ensures
        ({
            let w = (offset & 0xFFFFF) | (b << 20u32) | (a << 24u32) | (top << 28u32);
            &&& (w / 0x8000_0000) % 2 == 1
            &&& (w / 0x4000_0000) % 2 == 0
            &&& (w & 0x2000_0000 != 0) == (top == 10)
            &&& (w / 0x1000000) % 0x10 == a
            &&& (w / 0x100000) % 0x10 == b
            &&& w & 0xFFFFF == offset
        }),
{
    assert(({
        let w = (offset & 0xFFFFF) | (b << 20u32) | (a << 24u32) | (top << 28u32);
        &&& (w / 0x8000_0000) % 2 == 1
        &&& (w / 0x4000_0000) % 2 == 0
        &&& (w & 0x2000_0000 != 0) == (top == 10)
        &&& (w / 0x1000000) % 0x10 == a
        &&& (w / 0x100000) % 0x10 == b
        &&& w & 0xFFFFF == offset
    })) by (bit_vector)
        requires
            top == 8 || top == 10,
            a < 16,
            b < 16,
            offset < 0x100000,
    ;
}

proof fn lemma_sign_bits(y: u32)
    ensures
        y & 0xFFFF < 0x10000,
        y & 0xFFFFFF <= 0xFFFFFF,
        y < 0x10000 ==> y & 0xFFFF == y,
        y >= 0xFFFF0000 ==> ((y & 0xFFFF) | 0xFFFF0000) == y,
        y < 0x800000 ==> (y & 0xFFFFFF) & 0x800000 == 0 && y & 0xFFFFFF == y,
        y >= 0xFF800000 ==> (y & 0xFFFFFF) & 0x800000 > 0 && ((y & 0xFFFFFF) | 0xFF00_0000) == y,
{
    assert(y & 0xFFFF < 0x10000 && y & 0xFFFFFF <= 0xFFFFFF) by (bit_vector);
    assert(y < 0x10000 ==> y & 0xFFFF == y) by (bit_vector);
    assert(y >= 0xFFFF0000 ==> ((y & 0xFFFF) | 0xFFFF0000) == y) by (bit_vector);
    assert(y < 0x800000 ==> (y & 0xFFFFFF) & 0x800000 == 0 && y & 0xFFFFFF == y)
        by (bit_vector);
    assert(y >= 0xFF800000 ==> (y & 0xFFFFFF) & 0x800000 > 0 && ((y & 0xFFFFFF) | 0xFF00_0000)
        == y) by (bit_vector);
}

/// Decoding an encoded instruction gives the instruction back, for every
/// instruction that fits the fields of the encoding.
pub proof fn lemma_parse_encode(i: Instruction)
    requires
        spec_encodable(i),
    ensures
        spec_parse(spec_encode(i)) == Ok::<Instruction, InstructionParseError>(i),
{
    match i {
        Instruction::Register { o, a, b, c } => {
            o.lemma_code();
            lemma_plain_register_fields(o.spec_code(), a as u32, b as u32, c as u32);
        },
        Instruction::RegisterIm { o, a, b, im } => {
            o.lemma_code();
            let y = im as u32;
            lemma_sign_bits(y);
            let v: u32 = if im < 0 {
                1
            } else {
                0
            };
            lemma_register_fields(o.spec_code(), a as u32, b as u32, y & 0xFFFF, 0x4000_0000, v);
            assert(spec_encode(i) == 0x4000_0000 | (y & 0xFFFF) | (o.spec_code() << 16u32) | ((
            b as u32) << 20u32) | ((a as u32) << 24u32) | (v << 28u32));
            let low = spec_encode(i) % 0x10000;
            assert(low == y & 0xFFFF);
            assert(((low as i32) as u32) == low);
            assert(im < 0 && im >= -0x10000 ==> (im as u32) >= 0xFFFF0000) by (bit_vector);
            assert(((im as u32) as i32) == im) by (bit_vector);
            if im < 0 {
                assert((y as i32) == im);
            } else {
                assert(y == im);
                assert((low as i32) == im);
            }
        },
        Instruction::Memory { a, b, offset, u } => {
            let top: u32 = if u == MemoryMode::Store {
                10
            } else {
                8
            };
            lemma_memory_fields(offset, a as u32, b as u32, top);
        },
        Instruction::Branch { cond, c, link } => {
            cond.lemma_code();
            let top: u32 = if link {
                13
            } else {
                12
            };
            lemma_top_fields(c as u32, cond.spec_code(), top, 0xF);
        },
        Instruction::BranchOff { cond, offset, link } => {
            cond.lemma_code();
            let y = offset as u32;
            lemma_sign_bits(y);
            let top: u32 = if link {
                15
            } else {
                14
            };
            lemma_top_fields(y & 0xFFFFFF, cond.spec_code(), top, 0xFFFFFF);
            assert(offset < 0 && offset >= -0x800000 ==> (offset as u32) >= 0xFF800000)
                by (bit_vector);
            assert(offset >= 0 && offset < 0x800000 ==> (offset as u32) < 0x800000)
                by (bit_vector);
            assert(((offset as u32) as i32) == offset) by (bit_vector);
        },
    }
}

/// The four bytes of `x`, least significant first.
pub open spec fn le_bytes_u32(x: u32) -> Seq<u8> {
    seq![(x & 0xFF) as u8, ((x >> 8u32) & 0xFF) as u8, ((x >> 16u32) & 0xFF) as u8, ((x >> 24u32) & 0xFF) as u8]
}

/// The eight bytes of `x`, least significant first.
pub open spec fn le_bytes_u64(x: u64) -> Seq<u8> {
    le_bytes_u32((x & 0xFFFF_FFFF) as u32) + le_bytes_u32((x >> 32u64) as u32)
}

/// The word whose bytes, least significant first, start at `b[at]`.
pub open spec fn le_u32(b: Seq<u8>, at: int) -> u32 {
    (b[at] as u32) | ((b[at + 1] as u32) << 8u32) | ((b[at + 2] as u32) << 16u32) | ((b[at + 3] as u32) << 24u32)
}

/// The 64 bit number whose bytes, least significant first, start at `b[at]`.
pub open spec fn le_u64(b: Seq<u8>, at: int) -> u64 {
    (le_u32(b, at) as u64) | ((le_u32(b, at + 4) as u64) << 32u64)
}

/// The bytes of a sequence of words, each least significant byte first.
pub open spec fn words_body(ws: Seq<u32>) -> Seq<u8>
    decreases ws.len(),
{
    if ws.len() == 0 {
        seq![]
    } else {
        words_body(ws.drop_last()) + le_bytes_u32(ws.last())
    }
}

/// The bincode encoding of a vector of words (bincode 1 with its default
/// functions: fixed size integers, little endian): the length as 8 bytes,
/// then each word as 4 bytes.
pub open spec fn bincode_words(ws: Seq<u32>) -> Seq<u8> {
    le_bytes_u64(ws.len() as u64) + words_body(ws)
}

/// What bincode decodes from `b` as a vector of words: an 8 byte length `n`,
/// then `n` words of 4 bytes; later bytes are ignored. `None` where the bytes
/// run out or the length does not fit in `usize`.
pub open spec fn bincode_decode_words(b: Seq<u8>) -> Option<Seq<u32>> {
    if b.len() < 8 {
        None
    } else {
        let n = le_u64(b, 0);
        if n <= usize::MAX && 8 + 4 * n <= b.len() {
            Some(Seq::new(n as nat, |k: int| le_u32(b, 8 + 4 * k)))
        } else {
            None
        }
    }
}

/// `bincode::serialize` on a vector of words. Its contract claims the byte
/// layout that bincode 1.3's default functions produce for a `Vec<u32>`
/// (fixed size integers, little endian, no size limit); with no limit the
/// serialization into memory cannot fail.
#[verifier::external_body]
fn bincode_serialize_words(words: &Vec<u32>) -> (r: Vec<u8>)
    ensures
        r@ == bincode_words(words@),
{
    bincode::serialize(words).unwrap()
}

/// `bincode::deserialize_from` a byte slice into a vector of words, with the
/// error dropped. Its contract claims that bincode 1.3's default functions
/// read an 8 byte little endian length and then that many 4 byte little
/// endian words, ignore trailing bytes, and fail exactly where the bytes run
/// out or the length does not fit in `usize`.
#[verifier::external_body]
fn bincode_deserialize_words(bytes: &[u8]) -> (r: Option<Vec<u32>>)
    ensures
        match r {
            Some(v) => bincode_decode_words(bytes@) == Some(v@),
            None => bincode_decode_words(bytes@) is None,
        },
{
    bincode::deserialize_from::<&[u8], Vec<u32>>(bytes).ok()
}

/// Whether every word of `b`'s decoding is an instruction.
pub open spec fn all_parse(ws: Seq<u32>) -> bool {
    forall|k: int| 0 <= k < ws.len() ==> spec_parse(#[trigger] ws[k]) is Ok
}

impl Instruction {
    /// The bincode encoding of the words of the instructions.
    pub fn serialize_all(instructions: Vec<Instruction>) -> (r: Vec<u8>)
        ensures
            r@ == bincode_words(instructions@.map_values(|i: Instruction| spec_encode(i))),
    {
        let mut instruction_bits: Vec<u32> = Vec::new();
        let mut k: usize = 0;
        while k < instructions.len()
            invariant
                k <= instructions.len(),
                instruction_bits@ == instructions@.take(k as int).map_values(|i: Instruction| spec_encode(i)),
            decreases instructions.len() - k,
        {
            instruction_bits.push(Instruction::encode(&instructions[k]));
            k = k + 1;
            assert(instruction_bits@ =~= instructions@.take(k as int).map_values(|i: Instruction| spec_encode(i)));
        }
        assert(instructions@.take(k as int) =~= instructions@);
        bincode_serialize_words(&instruction_bits)
    }

    /// The instructions whose words `bytes` encodes with bincode.
    pub fn deserialize_all(bytes: &[u8]) -> (r: Vec<Instruction>)
        requires
            bincode_decode_words(bytes@) is Some,
            all_parse(bincode_decode_words(bytes@)->0),
        ensures
            r@ == bincode_decode_words(bytes@)->0.map_values(|w: u32| spec_parse(w)->Ok_0),
    {
        let instructions_bits = match bincode_deserialize_words(bytes) {
            Some(v) => v,
            None => {
                assert(false);
                return Vec::new();
            },
        };
        let ghost ws = instructions_bits@;
        let mut r: Vec<Instruction> = Vec::new();
        let mut k: usize = 0;
        while k < instructions_bits.len()
            invariant
                k <= instructions_bits.len(),
                ws == instructions_bits@,
                all_parse(ws),
                r@ == ws.take(k as int).map_values(|w: u32| spec_parse(w)->Ok_0),
            decreases instructions_bits.len() - k,
        {
            let parsed = Instruction::parse(instructions_bits[k]);
            assert(spec_parse(ws[k as int]) is Ok);
            match parsed {
                Ok(i) => r.push(i),
                Err(_) => {
                    assert(false);
                },
            }
            k = k + 1;
            assert(r@ =~= ws.take(k as int).map_values(|w: u32| spec_parse(w)->Ok_0));
        }
        assert(ws.take(k as int) =~= ws);
        r
    }
}

proof fn lemma_le_u32(x: u32, b: Seq<u8>, at: int)
    requires
        0 <= at,
        at + 4 <= b.len(),
        b.subrange(at, at + 4) == le_bytes_u32(x),
    ensures
        le_u32(b, at) == x,
{
    assert(b[at] == le_bytes_u32(x)[0]);
    assert(b[at + 1] == le_bytes_u32(x)[1]);
    assert(b[at + 2] == le_bytes_u32(x)[2]);
    assert(b[at + 3] == le_bytes_u32(x)[3]);
    assert(x == (((x & 0xFF) as u8) as u32) | (((((x >> 8u32) & 0xFF) as u8) as u32) << 8u32) | (
    ((((x >> 16u32) & 0xFF) as u8) as u32) << 16u32) | (((((x >> 24u32) & 0xFF) as u8) as u32)
        << 24u32)) by (bit_vector);
}

proof fn lemma_le_u64(x: u64, b: Seq<u8>)
    requires
        8 <= b.len(),
        b.subrange(0, 8) == le_bytes_u64(x),
    ensures
        le_u64(b, 0) == x,
{
    let lo = (x & 0xFFFF_FFFF) as u32;
    let hi = (x >> 32u64) as u32;
    assert(b.subrange(0, 4) =~= le_bytes_u32(lo)) by {
        assert(b.subrange(0, 4) =~= b.subrange(0, 8).subrange(0, 4));
    }
    assert(b.subrange(4, 8) =~= le_bytes_u32(hi)) by {
        assert(b.subrange(4, 8) =~= b.subrange(0, 8).subrange(4, 8));
    }
    lemma_le_u32(lo, b, 0);
    lemma_le_u32(hi, b, 4);
    assert(x == ((((x & 0xFFFF_FFFF) as u32) as u64) | ((((x >> 32u64) as u32) as u64) << 32u64)))
        by (bit_vector);
}

proof fn lemma_words_body(ws: Seq<u32>)
    ensures
        words_body(ws).len() == 4 * ws.len(),
        forall|k: int|
            0 <= k < ws.len() ==> #[trigger] words_body(ws).subrange(4 * k, 4 * k + 4)
                == le_bytes_u32(ws[k]),
    decreases ws.len(),
{
    if ws.len() > 0 {
        let p = ws.drop_last();
        lemma_words_body(p);
        assert forall|k: int| 0 <= k < ws.len() implies #[trigger] words_body(ws).subrange(
            4 * k,
            4 * k + 4,
        ) == le_bytes_u32(ws[k]) by {
            if k < ws.len() - 1 {
                assert(words_body(ws).subrange(4 * k, 4 * k + 4) =~= words_body(p).subrange(
                    4 * k,
                    4 * k + 4,
                ));
            } else {
                assert(words_body(ws).subrange(4 * k, 4 * k + 4) =~= le_bytes_u32(ws.last()));
            }
        }
    }
}

/// Decoding the bincode encoding of words gives the words back.
pub proof fn lemma_bincode_words_roundtrip(ws: Seq<u32>)
    requires
        4 * ws.len() + 8 <= usize::MAX,
    ensures
        bincode_decode_words(bincode_words(ws)) == Some(ws),
{
    let b = bincode_words(ws);
    lemma_words_body(ws);
    assert(b.subrange(0, 8) =~= le_bytes_u64(ws.len() as u64));
    lemma_le_u64(ws.len() as u64, b);
    let d = Seq::new(ws.len(), |k: int| le_u32(b, 8 + 4 * k));
    assert forall|k: int| 0 <= k < ws.len() implies d[k] == ws[k] by {
        assert(b.subrange(8 + 4 * k, 8 + 4 * k + 4) =~= words_body(ws).subrange(4 * k, 4 * k + 4));
        lemma_le_u32(ws[k], b, 8 + 4 * k);
    }
    assert(d =~= ws);
}

/// Reading back the bincode encoding of instructions gives the instructions,
/// for every sequence of instructions that fit the fields of the encoding.
pub proof fn lemma_deserialize_serialize(is: Seq<Instruction>)
    requires
        4 * is.len() + 8 <= usize::MAX,
        forall|k: int| 0 <= k < is.len() ==> spec_encodable(#[trigger] is[k]),
    ensures
        ({
            let ws = is.map_values(|i: Instruction| spec_encode(i));
            &&& bincode_decode_words(bincode_words(ws)) == Some(ws)
            &&& all_parse(ws)
            &&& ws.map_values(|w: u32| spec_parse(w)->Ok_0) == is
        }),
{
    let ws = is.map_values(|i: Instruction| spec_encode(i));
    lemma_bincode_words_roundtrip(ws);
    assert forall|k: int| 0 <= k < ws.len() implies spec_parse(#[trigger] ws[k]) == Ok::<
        Instruction,
        InstructionParseError,
    >(is[k]) by {
        lemma_parse_encode(is[k]);
    }
    assert(ws.map_values(|w: u32| spec_parse(w)->Ok_0) =~= is);
}

/// The register operation of a decoded word, if it is a register
/// instruction.
pub open spec fn parsed_operation(w: u32) -> Option<OpCode> {
    match spec_parse(w) {
        Ok(Instruction::Register { o, .. }) => Some(o),
        Ok(Instruction::RegisterIm { o, .. }) => Some(o),
        _ => None,
    }
}

/// The branch condition of a decoded word, if it is a branch.
pub open spec fn parsed_condition(w: u32) -> Option<BranchCondition> {
    match spec_parse(w) {
        Ok(Instruction::Branch { cond, .. }) => Some(cond),
        Ok(Instruction::BranchOff { cond, .. }) => Some(cond),
        _ => None,
    }
}

/// The codes of the machine: in a register instruction (bit 31 clear) bits
/// 16 to 19 name the operation, MOV 0, LSL 1, ASR 2, ROR 3, AND 4, ANN 5,
/// IOR 6, XOR 7, ADD 8, SUB 9, MUL 10, DIV 11 and MOD 12; in a branch
/// (bits 31 and 30 set) bits 24 to 27 name the condition, MI 0, EQ 1, LT 5,
/// LE 6, AW 7, PL 8, NE 9, GE 13, GT 14 and NV 15. With the round trip of
/// encoding and decoding, this fixes the code each is encoded with.
pub proof fn law_operation_and_condition_codes(w: u32)
    ensures
        w < 0x8000_0000 && (w / 0x10000) % 0x10 == 0 ==> parsed_operation(w) == Some(OpCode::MOV),
        w < 0x8000_0000 && (w / 0x10000) % 0x10 == 1 ==> parsed_operation(w) == Some(OpCode::LSL),
        w < 0x8000_0000 && (w / 0x10000) % 0x10 == 2 ==> parsed_operation(w) == Some(OpCode::ASR),
        w < 0x8000_0000 && (w / 0x10000) % 0x10 == 3 ==> parsed_operation(w) == Some(OpCode::ROR),
        w < 0x8000_0000 && (w / 0x10000) % 0x10 == 4 ==> parsed_operation(w) == Some(OpCode::AND),
        w < 0x8000_0000 && (w / 0x10000) % 0x10 == 5 ==> parsed_operation(w) == Some(OpCode::ANN),
        w < 0x8000_0000 && (w / 0x10000) % 0x10 == 6 ==> parsed_operation(w) == Some(OpCode::IOR),
        w < 0x8000_0000 && (w / 0x10000) % 0x10 == 7 ==> parsed_operation(w) == Some(OpCode::XOR),
        w < 0x8000_0000 && (w / 0x10000) % 0x10 == 8 ==> parsed_operation(w) == Some(OpCode::ADD),
        w < 0x8000_0000 && (w / 0x10000) % 0x10 == 9 ==> parsed_operation(w) == Some(OpCode::SUB),
        w < 0x8000_0000 && (w / 0x10000) % 0x10 == 10 ==> parsed_operation(w) == Some(OpCode::MUL),
        w < 0x8000_0000 && (w / 0x10000) % 0x10 == 11 ==> parsed_operation(w) == Some(OpCode::DIV),
        w < 0x8000_0000 && (w / 0x10000) % 0x10 == 12 ==> parsed_operation(w) == Some(OpCode::MOD),
        w >= 0xC000_0000 && (w / 0x100_0000) % 0x10 == 0 ==> parsed_condition(w) == Some(BranchCondition::MI),
        w >= 0xC000_0000 && (w / 0x100_0000) % 0x10 == 1 ==> parsed_condition(w) == Some(BranchCondition::EQ),
        w >= 0xC000_0000 && (w / 0x100_0000) % 0x10 == 5 ==> parsed_condition(w) == Some(BranchCondition::LT),
        w >= 0xC000_0000 && (w / 0x100_0000) % 0x10 == 6 ==> parsed_condition(w) == Some(BranchCondition::LE),
        w >= 0xC000_0000 && (w / 0x100_0000) % 0x10 == 7 ==> parsed_condition(w) == Some(BranchCondition::AW),
        w >= 0xC000_0000 && (w / 0x100_0000) % 0x10 == 8 ==> parsed_condition(w) == Some(BranchCondition::PL),
        w >= 0xC000_0000 && (w / 0x100_0000) % 0x10 == 9 ==> parsed_condition(w) == Some(BranchCondition::NE),
        w >= 0xC000_0000 && (w / 0x100_0000) % 0x10 == 13 ==> parsed_condition(w) == Some(BranchCondition::GE),
        w >= 0xC000_0000 && (w / 0x100_0000) % 0x10 == 14 ==> parsed_condition(w) == Some(BranchCondition::GT),
        w >= 0xC000_0000 && (w / 0x100_0000) % 0x10 == 15 ==> parsed_condition(w) == Some(BranchCondition::NV),
{
    assert((w / 0x8000_0000) % 2 == 0 <==> w < 0x8000_0000);
    assert(w >= 0x8000_0000 ==> ((w / 0x4000_0000) % 2 == 0 <==> w < 0xC000_0000));
}

} // verus!
