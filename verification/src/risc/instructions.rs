//! Instruction encoding and decoding for the first RISC machine.
//!
//! A word holds a 6 bit operation code in its top bits, whose first two bits
//! give the format; then either two 4 bit register indexes and an 18 bit field
//! (formats 0, 1 and 2), or a 26 bit displacement (format 3).

use vstd::prelude::*;

verus! {

/// Register to register operations (format 0).
#[derive(Debug, Copy, Clone, Eq, PartialEq, Structural)]
pub enum RegisterOpCode {
    MOV,
    MVN,
    ADD,
    SUB,
    MUL,
    DIV,
    MOD,
    CMP,
}

impl RegisterOpCode {
    /// The operation code of the instruction.
    pub open spec fn spec_code(self) -> u8 {
        match self {
            RegisterOpCode::MOV => 0,
            RegisterOpCode::MVN => 1,
            RegisterOpCode::ADD => 2,
            RegisterOpCode::SUB => 3,
            RegisterOpCode::MUL => 4,
            RegisterOpCode::DIV => 5,
            RegisterOpCode::MOD => 6,
            RegisterOpCode::CMP => 7,
        }
    }

    /// The operation whose code is `v`, if there is one.
    pub open spec fn spec_from_code(v: u8) -> Option<RegisterOpCode> {
        if v == 0 {
            Some(RegisterOpCode::MOV)
        } else if v == 1 {
            Some(RegisterOpCode::MVN)
        } else if v == 2 {
            Some(RegisterOpCode::ADD)
        } else if v == 3 {
            Some(RegisterOpCode::SUB)
        } else if v == 4 {
            Some(RegisterOpCode::MUL)
        } else if v == 5 {
            Some(RegisterOpCode::DIV)
        } else if v == 6 {
            Some(RegisterOpCode::MOD)
        } else if v == 7 {
            Some(RegisterOpCode::CMP)
        } else {
            None
        }
    }

    pub fn code(self) -> (v: u8)
        ensures
            v == self.spec_code(),
    {
        match self {
            RegisterOpCode::MOV => 0,
            RegisterOpCode::MVN => 1,
            RegisterOpCode::ADD => 2,
            RegisterOpCode::SUB => 3,
            RegisterOpCode::MUL => 4,
            RegisterOpCode::DIV => 5,
            RegisterOpCode::MOD => 6,
            RegisterOpCode::CMP => 7,
        }
    }

    pub fn from_code(v: u8) -> (r: Option<RegisterOpCode>)
        ensures
            r == Self::spec_from_code(v),
    {
        match v {
            0 => Some(RegisterOpCode::MOV),
            1 => Some(RegisterOpCode::MVN),
            2 => Some(RegisterOpCode::ADD),
            3 => Some(RegisterOpCode::SUB),
            4 => Some(RegisterOpCode::MUL),
            5 => Some(RegisterOpCode::DIV),
            6 => Some(RegisterOpCode::MOD),
            7 => Some(RegisterOpCode::CMP),
            _ => None,
        }
    }

    pub proof fn lemma_code(self)
        ensures
            Self::spec_from_code(self.spec_code()) == Some(self),
    {
    }

    pub proof fn lemma_from_code(v: u8)
        ensures
            Self::spec_from_code(v) matches Some(o) ==> o.spec_code() == v,
    {
    }
}

/// Operations with an immediate operand (format 1).
#[derive(Debug, Copy, Clone, Eq, PartialEq, Structural)]
pub enum RegisterImOpCode {
    MOVI,
    MVNI,
    ADDI,
    SUBI,
    MULI,
    DIVI,
    MODI,
    CMPI,
    CHKI,
}

impl RegisterImOpCode {
    /// The operation code of the instruction.
    pub open spec fn spec_code(self) -> u8 {
        match self {
            RegisterImOpCode::MOVI => 16,
            RegisterImOpCode::MVNI => 17,
            RegisterImOpCode::ADDI => 18,
            RegisterImOpCode::SUBI => 19,
            RegisterImOpCode::MULI => 20,
            RegisterImOpCode::DIVI => 21,
            RegisterImOpCode::MODI => 22,
            RegisterImOpCode::CMPI => 23,
            RegisterImOpCode::CHKI => 24,
        }
    }

    /// The operation whose code is `v`, if there is one.
    pub open spec fn spec_from_code(v: u8) -> Option<RegisterImOpCode> {
        if v == 16 {
            Some(RegisterImOpCode::MOVI)
        } else if v == 17 {
            Some(RegisterImOpCode::MVNI)
        } else if v == 18 {
            Some(RegisterImOpCode::ADDI)
        } else if v == 19 {
            Some(RegisterImOpCode::SUBI)
        } else if v == 20 {
            Some(RegisterImOpCode::MULI)
        } else if v == 21 {
            Some(RegisterImOpCode::DIVI)
        } else if v == 22 {
            Some(RegisterImOpCode::MODI)
        } else if v == 23 {
            Some(RegisterImOpCode::CMPI)
        } else if v == 24 {
            Some(RegisterImOpCode::CHKI)
        } else {
            None
        }
    }

    pub fn code(self) -> (v: u8)
        ensures
            v == self.spec_code(),
    {
        match self {
            RegisterImOpCode::MOVI => 16,
            RegisterImOpCode::MVNI => 17,
            RegisterImOpCode::ADDI => 18,
            RegisterImOpCode::SUBI => 19,
            RegisterImOpCode::MULI => 20,
            RegisterImOpCode::DIVI => 21,
            RegisterImOpCode::MODI => 22,
            RegisterImOpCode::CMPI => 23,
            RegisterImOpCode::CHKI => 24,
        }
    }

    pub fn from_code(v: u8) -> (r: Option<RegisterImOpCode>)
        ensures
            r == Self::spec_from_code(v),
    {
        match v {
            16 => Some(RegisterImOpCode::MOVI),
            17 => Some(RegisterImOpCode::MVNI),
            18 => Some(RegisterImOpCode::ADDI),
            19 => Some(RegisterImOpCode::SUBI),
            20 => Some(RegisterImOpCode::MULI),
            21 => Some(RegisterImOpCode::DIVI),
            22 => Some(RegisterImOpCode::MODI),
            23 => Some(RegisterImOpCode::CMPI),
            24 => Some(RegisterImOpCode::CHKI),
            _ => None,
        }
    }

    pub proof fn lemma_code(self)
        ensures
            Self::spec_from_code(self.spec_code()) == Some(self),
    {
    }

    pub proof fn lemma_from_code(v: u8)
        ensures
            Self::spec_from_code(v) matches Some(o) ==> o.spec_code() == v,
    {
    }
}

/// Memory operations (format 2).
#[derive(Debug, Copy, Clone, Eq, PartialEq, Structural)]
pub enum MemoryOpCode {
    LDW,
    POP,
    STW,
    PSH,
}

impl MemoryOpCode {
    /// The operation code of the instruction.
    pub open spec fn spec_code(self) -> u8 {
        match self {
            MemoryOpCode::LDW => 32,
            MemoryOpCode::POP => 34,
            MemoryOpCode::STW => 36,
            MemoryOpCode::PSH => 38,
        }
    }

    /// The operation whose code is `v`, if there is one.
    pub open spec fn spec_from_code(v: u8) -> Option<MemoryOpCode> {
        if v == 32 {
            Some(MemoryOpCode::LDW)
        } else if v == 34 {
            Some(MemoryOpCode::POP)
        } else if v == 36 {
            Some(MemoryOpCode::STW)
        } else if v == 38 {
            Some(MemoryOpCode::PSH)
        } else {
            None
        }
    }

    pub fn code(self) -> (v: u8)
        ensures
            v == self.spec_code(),
    {
        match self {
            MemoryOpCode::LDW => 32,
            MemoryOpCode::POP => 34,
            MemoryOpCode::STW => 36,
            MemoryOpCode::PSH => 38,
        }
    }

    pub fn from_code(v: u8) -> (r: Option<MemoryOpCode>)
        ensures
            r == Self::spec_from_code(v),
    {
        match v {
            32 => Some(MemoryOpCode::LDW),
            34 => Some(MemoryOpCode::POP),
            36 => Some(MemoryOpCode::STW),
            38 => Some(MemoryOpCode::PSH),
            _ => None,
        }
    }

    pub proof fn lemma_code(self)
        ensures
            Self::spec_from_code(self.spec_code()) == Some(self),
    {
    }

    pub proof fn lemma_from_code(v: u8)
        ensures
            Self::spec_from_code(v) matches Some(o) ==> o.spec_code() == v,
    {
    }
}

/// Branch operations (format 3).
#[derive(Debug, Copy, Clone, Eq, PartialEq, Structural)]
pub enum BranchOpCode {
    BEQ,
    BNE,
    BLT,
    BGE,
    BLE,
    BGT,
    BR,
    BSR,
    RET,
}

impl BranchOpCode {
    /// The operation code of the instruction.
    pub open spec fn spec_code(self) -> u8 {
        match self {
            BranchOpCode::BEQ => 48,
            BranchOpCode::BNE => 49,
            BranchOpCode::BLT => 50,
            BranchOpCode::BGE => 51,
            BranchOpCode::BLE => 52,
            BranchOpCode::BGT => 53,
            BranchOpCode::BR => 56,
            BranchOpCode::BSR => 57,
            BranchOpCode::RET => 58,
        }
    }

    /// The operation whose code is `v`, if there is one.
    pub open spec fn spec_from_code(v: u8) -> Option<BranchOpCode> {
        if v == 48 {
            Some(BranchOpCode::BEQ)
        } else if v == 49 {
            Some(BranchOpCode::BNE)
        } else if v == 50 {
            Some(BranchOpCode::BLT)
        } else if v == 51 {
            Some(BranchOpCode::BGE)
        } else if v == 52 {
            Some(BranchOpCode::BLE)
        } else if v == 53 {
            Some(BranchOpCode::BGT)
        } else if v == 56 {
            Some(BranchOpCode::BR)
        } else if v == 57 {
            Some(BranchOpCode::BSR)
        } else if v == 58 {
            Some(BranchOpCode::RET)
        } else {
            None
        }
    }

    pub fn code(self) -> (v: u8)
        ensures
            v == self.spec_code(),
    {
        match self {
            BranchOpCode::BEQ => 48,
            BranchOpCode::BNE => 49,
            BranchOpCode::BLT => 50,
            BranchOpCode::BGE => 51,
            BranchOpCode::BLE => 52,
            BranchOpCode::BGT => 53,
            BranchOpCode::BR => 56,
            BranchOpCode::BSR => 57,
            BranchOpCode::RET => 58,
        }
    }

    pub fn from_code(v: u8) -> (r: Option<BranchOpCode>)
        ensures
            r == Self::spec_from_code(v),
    {
        match v {
            48 => Some(BranchOpCode::BEQ),
            49 => Some(BranchOpCode::BNE),
            50 => Some(BranchOpCode::BLT),
            51 => Some(BranchOpCode::BGE),
            52 => Some(BranchOpCode::BLE),
            53 => Some(BranchOpCode::BGT),
            56 => Some(BranchOpCode::BR),
            57 => Some(BranchOpCode::BSR),
            58 => Some(BranchOpCode::RET),
            _ => None,
        }
    }

    pub proof fn lemma_code(self)
        ensures
            Self::spec_from_code(self.spec_code()) == Some(self),
    {
    }

    pub proof fn lemma_from_code(v: u8)
        ensures
            Self::spec_from_code(v) matches Some(o) ==> o.spec_code() == v,
    {
    }
}

#[derive(Debug, PartialEq, Eq, Copy, Clone, Structural)]
#[allow(inconsistent_fields)]
pub enum Instruction {
    Register { o: RegisterOpCode, a: usize, b: usize, c: usize },
    RegisterIm { o: RegisterImOpCode, a: usize, b: usize, im: i32 },
    Memory { o: MemoryOpCode, a: usize, b: usize, disp: i32 },
    Branch { o: BranchOpCode, disp: i32 },
}

#[derive(Debug, PartialEq, Eq, Copy, Clone, Structural)]
pub enum InstructionParseError {
    InvalidInstruction(u32),
}

/// The 18 bit field of an immediate or a memory displacement: a negative
/// value is written in two's complement on 18 bits, that is offset by
/// 0x40000.
pub open spec fn spec_adjust_im(im: i32) -> u32 {
    (if im < 0 {
        im + 0x40000
    } else {
        im as int
    }) as u32
}

/// The 26 bit displacement field of a branch: a negative value is offset by
/// 0x4000000.
pub open spec fn spec_adjust_disp(disp: i32) -> u32 {
    (if disp < 0 {
        disp + 0x4000000
    } else {
        disp as int
    }) as u32
}

/// The word of an instruction with format bits `f`, operation code `op`,
/// registers `a` and `b` and an 18 bit field `c`.
pub open spec fn spec_fields(f: u32, op: u32, a: usize, b: usize, c: u32) -> u32 {
    f | (op << 26u32) | ((a as u32) << 22u32) | ((b as u32) << 18u32) | c
}

/// The word that encodes an instruction.
pub open spec fn spec_encode(i: Instruction) -> u32 {
    match i {
        Instruction::Register { o, a, b, c } => spec_fields(0, o.spec_code() as u32, a, b, c as u32),
        Instruction::RegisterIm { o, a, b, im } => spec_fields(
            0x4000_0000,
            o.spec_code() as u32,
            a,
            b,
            spec_adjust_im(im),
        ),
        Instruction::Memory { o, a, b, disp } => spec_fields(
            0x8000_0000,
            o.spec_code() as u32,
            a,
            b,
            spec_adjust_im(disp),
        ),
        Instruction::Branch { o, disp } => 0xC000_0000 | (((o.spec_code() as u32) % 0x10) << 26u32)
            | spec_adjust_disp(disp),
    }
}

/// The 18 bit field of a word read as a signed value.
pub open spec fn spec_im(i: u32) -> i32 {
    if i % 0x40000 > 0x20000 {
        (i % 0x40000 - 0x40000) as i32
    } else {
        (i % 0x40000) as i32
    }
}

/// The 26 bit field of a word read as a signed value.
pub open spec fn spec_disp(i: u32) -> i32 {
    if i % 0x4000000 > 0x2000000 {
        (i % 0x4000000 - 0x4000000) as i32
    } else {
        (i % 0x4000000) as i32
    }
}

/// The instruction that a word encodes: the operation code is looked up among
/// the register, immediate, memory and branch operations, in that order.
pub open spec fn spec_parse(i: u32) -> Result<Instruction, InstructionParseError> {
    let op = ((i / 0x4000000) % 0x40) as u8;
    let a = ((i / 0x400000) % 0x10) as usize;
    let b = ((i / 0x40000) % 0x10) as usize;
    let c = (i % 0x40000) as usize;
    if let Some(o) = RegisterOpCode::spec_from_code(op) {
        Ok(Instruction::Register { o, a, b, c })
    } else if let Some(o) = RegisterImOpCode::spec_from_code(op) {
        Ok(Instruction::RegisterIm { o, a, b, im: spec_im(i) })
    } else if let Some(o) = MemoryOpCode::spec_from_code(op) {
        Ok(Instruction::Memory { o, a, b, disp: spec_im(i) })
    } else if let Some(o) = BranchOpCode::spec_from_code(op) {
        Ok(Instruction::Branch { o, disp: spec_disp(i) })
    } else {
        Err(InstructionParseError::InvalidInstruction(i))
    }
}

impl Instruction {
    pub fn encode(i: Instruction) -> (w: u32)
        ensures
            w == spec_encode(i),
    {
        match i {
            Instruction::Register { o, a, b, c } => Instruction::encode_f0(o, a, b, c),
            Instruction::RegisterIm { o, a, b, im } => Instruction::encode_f1(o, a, b, im),
            Instruction::Memory { o, a, b, disp } => Instruction::encode_f2(o, a, b, disp),
            Instruction::Branch { o, disp } => Instruction::encode_f3(o, disp),
        }
    }

    fn encode_f0(opcode: RegisterOpCode, a: usize, b: usize, c: usize) -> (w: u32)
        ensures
            w == spec_fields(0, opcode.spec_code() as u32, a, b, c as u32),
    {
        0 | ((opcode.code() as u32) << 26u32) | ((a as u32) << 22u32) | ((b as u32) << 18u32) | (
        c as u32)
    }

    fn adjust_im(im: i32) -> (r: u32)
        ensures
            r == spec_adjust_im(im),
    {
        let mut dd: i64 = im as i64;
        if dd < 0 {
            dd = dd + 0x40000;
        }
        dd as u32
    }

    fn adjust_disp(disp: i32) -> (r: u32)
        ensures
            r == spec_adjust_disp(disp),
    {
        let mut dd: i64 = disp as i64;
        if dd < 0 {
            dd = dd + 0x4000000;
        }
        dd as u32
    }

    fn encode_f1(opcode: RegisterImOpCode, a: usize, b: usize, im: i32) -> (w: u32)
        ensures
            w == spec_fields(0x4000_0000, opcode.spec_code() as u32, a, b, spec_adjust_im(im)),
    {
        0x4000_0000 | ((opcode.code() as u32) << 26u32) | ((a as u32) << 22u32) | ((b as u32)
            << 18u32) | Self::adjust_im(im)
    }

    fn encode_f2(opcode: MemoryOpCode, a: usize, b: usize, disp: i32) -> (w: u32)
        ensures
            w == spec_fields(0x8000_0000, opcode.spec_code() as u32, a, b, spec_adjust_im(disp)),
    {
        0x8000_0000 | ((opcode.code() as u32) << 26u32) | ((a as u32) << 22u32) | ((b as u32)
            << 18u32) | Self::adjust_im(disp)
    }

    fn encode_f3(opcode: BranchOpCode, disp: i32) -> (w: u32)
        ensures
            w == 0xC000_0000 | (((opcode.spec_code() as u32) % 0x10) << 26u32) | spec_adjust_disp(
                disp,
            ),
    {
        0xC000_0000 | (((opcode.code() as u32) % 0x10) << 26u32) | Self::adjust_disp(disp)
    }

    pub fn parse(i: u32) -> (r: Result<Instruction, InstructionParseError>)
        ensures
            r == spec_parse(i),
    {
        let op = ((i / 0x4000000) % 0x40) as u8;
        let a = ((i / 0x400000) % 0x10) as usize;
        let b = ((i / 0x40000) % 0x10) as usize;
        let c = (i % 0x40000) as usize;

        let mut im = (i % 0x40000) as i32;
        if im > 0x20000 {
            im = im - 0x40000;
        }

        let mut disp = (i % 0x4000000) as i32;
        if disp > 0x2000000 {
            disp = disp - 0x4000000;
        }

        if let Some(o) = RegisterOpCode::from_code(op) {
            return Ok(Instruction::Register { o, a, b, c });
        }
        if let Some(o) = RegisterImOpCode::from_code(op) {
            return Ok(Instruction::RegisterIm { o, a, b, im });
        }
        if let Some(o) = MemoryOpCode::from_code(op) {
            return Ok(Instruction::Memory { o, a, b, disp: im });
        }
        if let Some(o) = BranchOpCode::from_code(op) {
            return Ok(Instruction::Branch { o, disp });
        }
        Err(InstructionParseError::InvalidInstruction(i))
    }
}

/// The instructions that fit the fields of the encoding: register indexes
/// in 4 bits, the third register field in 18 bits, an immediate or a memory
/// displacement in (-0x20000, 0x20000] and a branch displacement in
/// (-0x2000000, 0x2000000].
pub open spec fn spec_encodable(i: Instruction) -> bool {
    match i {
        Instruction::Register { a, b, c, .. } => a < 16 && b < 16 && c < 0x40000,
        Instruction::RegisterIm { a, b, im, .. } => a < 16 && b < 16 && -0x20000 < im <= 0x20000,
        Instruction::Memory { a, b, disp, .. } => a < 16 && b < 16 && -0x20000 < disp <= 0x20000,
        Instruction::Branch { disp, .. } => -0x2000000 < disp <= 0x2000000,
    }
}

proof fn lemma_word_fields(w: u32)
    ensures
        w == ((w / 0x4000000 % 0x40) << 26u32) | ((w / 0x400000 % 0x10) << 22u32) | ((w / 0x40000
            % 0x10) << 18u32) | (w % 0x40000),
        w == ((w / 0x4000000 % 0x40) << 26u32) | (w % 0x4000000),
        w / 0x4000000 % 0x40 == w / 0x4000000,
{
    assert(w == ((w / 0x4000000 % 0x40) << 26u32) | ((w / 0x400000 % 0x10) << 22u32) | ((w
        / 0x40000 % 0x10) << 18u32) | (w % 0x40000)) by (bit_vector);
    assert(w == ((w / 0x4000000 % 0x40) << 26u32) | (w % 0x4000000)) by (bit_vector);
    assert(w / 0x4000000 % 0x40 == w / 0x4000000) by (bit_vector);
}

proof fn lemma_fields_extract(f: u32, op: u32, a: u32, b: u32, c: u32)
    requires
        (f == 0 && op < 16) || (f == 0x4000_0000 && 16 <= op < 32) || (f == 0x8000_0000 && 32
            <= op < 48) || (f == 0xC000_0000 && 48 <= op < 64),
        a < 16,
        b < 16,
        c < 0x40000,
    ensures
        ({
            let w = f | (op << 26u32) | (a << 22u32) | (b << 18u32) | c;
            &&& w / 0x4000000 % 0x40 == op
            &&& w / 0x400000 % 0x10 == a
            &&& w / 0x40000 % 0x10 == b
            &&& w % 0x40000 == c
            &&& w == (op << 26u32) | (a << 22u32) | (b << 18u32) | c
            &&& (a == 0 && b == 0 ==> w % 0x4000000 == c)
        }),
{
    assert(({
        let w = f | (op << 26u32) | (a << 22u32) | (b << 18u32) | c;
        &&& w / 0x4000000 % 0x40 == op
        &&& w / 0x400000 % 0x10 == a
        &&& w / 0x40000 % 0x10 == b
        &&& w % 0x40000 == c
        &&& w == (op << 26u32) | (a << 22u32) | (b << 18u32) | c
        &&& (a == 0 && b == 0 ==> w % 0x4000000 == c)
    })) by (bit_vector)
        requires
            (f == 0 && op < 16) || (f == 0x4000_0000 && 16 <= op < 32) || (f == 0x8000_0000 && 32
                <= op < 48) || (f == 0xC000_0000 && 48 <= op < 64),
            a < 16,
            b < 16,
            c < 0x40000,
    ;
}

proof fn lemma_branch_fields(op: u32, d: u32)
    requires
        48 <= op < 64,
        d < 0x4000000,
    ensures
        ({
            let w = 0xC000_0000 | ((op % 0x10) << 26u32) | d;
            &&& w / 0x4000000 % 0x40 == op
            &&& w % 0x4000000 == d
            &&& w == (op << 26u32) | d
        }),
{
    assert(({
        let w = 0xC000_0000 | ((op % 0x10) << 26u32) | d;
        &&& w / 0x4000000 % 0x40 == op
        &&& w % 0x4000000 == d
        &&& w == (op << 26u32) | d
    })) by (bit_vector)
        requires
            48 <= op < 64,
            d < 0x4000000,
    ;
}

/// The 18 bit field of an immediate in range, and the immediate it reads
/// back as.
proof fn lemma_im_field(im: i32)
    requires
        -0x20000 < im <= 0x20000,
    ensures
        spec_adjust_im(im) < 0x40000,
        spec_im(spec_adjust_im(im)) == im,
{
}

/// An 18 bit field reads as an immediate in range, which writes the field
/// back.
proof fn lemma_field_im(y: u32)
    requires
        y < 0x40000,
    ensures
        -0x20000 < spec_im(y) <= 0x20000,
        spec_adjust_im(spec_im(y)) == y,
{
}

proof fn lemma_spec_im_bits(w: u32, y: u32)
    requires
        w % 0x40000 == y,
    ensures
        spec_im(w) == spec_im(y),
{
}

/// Decoding an encoded instruction gives the instruction back, for every
/// instruction that fits the fields of the encoding.
pub proof fn lemma_parse_encode(i: Instruction)
    requires
        spec_encodable(i),
    ensures
        spec_parse(spec_encode(i)) == Ok::<Instruction, InstructionParseError>(i),
{
    match i {
        Instruction::Register { o, a, b, c } => {
            o.lemma_code();
            lemma_fields_extract(0, o.spec_code() as u32, a as u32, b as u32, c as u32);
        },
        Instruction::RegisterIm { o, a, b, im } => {
            o.lemma_code();
            lemma_im_field(im);
            let y = spec_adjust_im(im);
            lemma_fields_extract(0x4000_0000, o.spec_code() as u32, a as u32, b as u32, y);
            lemma_spec_im_bits(spec_encode(i), y);
        },
        Instruction::Memory { o, a, b, disp } => {
            o.lemma_code();
            lemma_im_field(disp);
            let y = spec_adjust_im(disp);
            lemma_fields_extract(0x8000_0000, o.spec_code() as u32, a as u32, b as u32, y);
            lemma_spec_im_bits(spec_encode(i), y);
        },
        Instruction::Branch { o, disp } => {
            o.lemma_code();
            lemma_branch_fields(o.spec_code() as u32, spec_adjust_disp(disp));
        },
    }
}

/// Every decoded word holds an instruction that fits the encoding, and
/// encoding it gives the word back.
pub proof fn lemma_encode_parse(w: u32)
    requires
        spec_parse(w) is Ok,
    ensures
        spec_encodable(spec_parse(w)->Ok_0),
        spec_encode(spec_parse(w)->Ok_0) == w,
{
    lemma_word_fields(w);
    let op = ((w / 0x4000000) % 0x40) as u8;
    let a = ((w / 0x400000) % 0x10) as u32;
    let b = ((w / 0x40000) % 0x10) as u32;
    let c = w % 0x40000;
    RegisterOpCode::lemma_from_code(op);
    RegisterImOpCode::lemma_from_code(op);
    MemoryOpCode::lemma_from_code(op);
    BranchOpCode::lemma_from_code(op);
    match spec_parse(w)->Ok_0 {
        Instruction::Register { o, .. } => {
            lemma_fields_extract(0, op as u32, a, b, c);
        },
        Instruction::RegisterIm { o, im, .. } => {
            lemma_field_im(c);
            lemma_spec_im_bits(w, c);
            lemma_fields_extract(0x4000_0000, op as u32, a, b, c);
        },
        Instruction::Memory { o, disp, .. } => {
            lemma_field_im(c);
            lemma_spec_im_bits(w, c);
            lemma_fields_extract(0x8000_0000, op as u32, a, b, c);
        },
        Instruction::Branch { o, disp } => {
            lemma_branch_fields(op as u32, w % 0x4000000);
        },
    }
}

/// The operation codes of the machine: the top six bits of a word name its
/// operation, MOV 0 to CMP 7 for register operations, MOVI 16 to CHKI 24 for
/// immediate ones, LDW 32, POP 34, STW 36 and PSH 38 for memory, and BEQ 48
/// to BGT 53, BR 56, BSR 57 and RET 58 for branches; no other code is an
/// instruction. With the round trip of encoding and decoding, this fixes
/// the code that each operation is encoded with.
pub proof fn law_operation_codes(w: u32, op: u32)
    requires
        op == w / 0x400_0000,
    ensures
        op == 0 ==> spec_parse(w) matches Ok(Instruction::Register { o: RegisterOpCode::MOV, .. }),
        op == 1 ==> spec_parse(w) matches Ok(Instruction::Register { o: RegisterOpCode::MVN, .. }),
        op == 2 ==> spec_parse(w) matches Ok(Instruction::Register { o: RegisterOpCode::ADD, .. }),
        op == 3 ==> spec_parse(w) matches Ok(Instruction::Register { o: RegisterOpCode::SUB, .. }),
        op == 4 ==> spec_parse(w) matches Ok(Instruction::Register { o: RegisterOpCode::MUL, .. }),
        op == 5 ==> spec_parse(w) matches Ok(Instruction::Register { o: RegisterOpCode::DIV, .. }),
        op == 6 ==> spec_parse(w) matches Ok(Instruction::Register { o: RegisterOpCode::MOD, .. }),
        op == 7 ==> spec_parse(w) matches Ok(Instruction::Register { o: RegisterOpCode::CMP, .. }),
        op == 16 ==> spec_parse(w) matches Ok(Instruction::RegisterIm { o: RegisterImOpCode::MOVI, .. }),
        op == 17 ==> spec_parse(w) matches Ok(Instruction::RegisterIm { o: RegisterImOpCode::MVNI, .. }),
        op == 18 ==> spec_parse(w) matches Ok(Instruction::RegisterIm { o: RegisterImOpCode::ADDI, .. }),
        op == 19 ==> spec_parse(w) matches Ok(Instruction::RegisterIm { o: RegisterImOpCode::SUBI, .. }),
        op == 20 ==> spec_parse(w) matches Ok(Instruction::RegisterIm { o: RegisterImOpCode::MULI, .. }),
        op == 21 ==> spec_parse(w) matches Ok(Instruction::RegisterIm { o: RegisterImOpCode::DIVI, .. }),
        op == 22 ==> spec_parse(w) matches Ok(Instruction::RegisterIm { o: RegisterImOpCode::MODI, .. }),
        op == 23 ==> spec_parse(w) matches Ok(Instruction::RegisterIm { o: RegisterImOpCode::CMPI, .. }),
        op == 24 ==> spec_parse(w) matches Ok(Instruction::RegisterIm { o: RegisterImOpCode::CHKI, .. }),
        op == 32 ==> spec_parse(w) matches Ok(Instruction::Memory { o: MemoryOpCode::LDW, .. }),
        op == 34 ==> spec_parse(w) matches Ok(Instruction::Memory { o: MemoryOpCode::POP, .. }),
        op == 36 ==> spec_parse(w) matches Ok(Instruction::Memory { o: MemoryOpCode::STW, .. }),
        op == 38 ==> spec_parse(w) matches Ok(Instruction::Memory { o: MemoryOpCode::PSH, .. }),
        op == 48 ==> spec_parse(w) matches Ok(Instruction::Branch { o: BranchOpCode::BEQ, .. }),
        op == 49 ==> spec_parse(w) matches Ok(Instruction::Branch { o: BranchOpCode::BNE, .. }),
        op == 50 ==> spec_parse(w) matches Ok(Instruction::Branch { o: BranchOpCode::BLT, .. }),
        op == 51 ==> spec_parse(w) matches Ok(Instruction::Branch { o: BranchOpCode::BGE, .. }),
        op == 52 ==> spec_parse(w) matches Ok(Instruction::Branch { o: BranchOpCode::BLE, .. }),
        op == 53 ==> spec_parse(w) matches Ok(Instruction::Branch { o: BranchOpCode::BGT, .. }),
        op == 56 ==> spec_parse(w) matches Ok(Instruction::Branch { o: BranchOpCode::BR, .. }),
        op == 57 ==> spec_parse(w) matches Ok(Instruction::Branch { o: BranchOpCode::BSR, .. }),
        op == 58 ==> spec_parse(w) matches Ok(Instruction::Branch { o: BranchOpCode::RET, .. }),
        op != 0 && op != 1 && op != 2 && op != 3 && op != 4 && op != 5 && op != 6 && op != 7 && op != 16 && op != 17 && op != 18 && op != 19 && op != 20 && op != 21 && op != 22 && op != 23 && op != 24 && op != 32 && op != 34 && op != 36 && op != 38 && op != 48 && op != 49 && op != 50 && op != 51 && op != 52 && op != 53 && op != 56 && op != 57 && op != 58 ==> spec_parse(w) is Err,
{
    lemma_word_fields(w);
}

} // verus!
