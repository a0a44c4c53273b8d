//! A simulator of the RISC machine.
//!
//! The state of the machine is its 4096 words of memory, its 16 registers,
//! the address of the next instruction and the two flags that the last
//! register or load instruction set.

use vstd::prelude::*;

use crate::arith::{div_trunc, rem_trunc, div_i32, rem_i32, rotate_right, rotate_left, rotate_right_u32, rotate_left_u32};
use crate::dom_risc::instructions::{
    spec_encode, spec_parse, BranchCondition, Instruction, MemoryMode, OpCode,
};

verus! {

pub const MEMORY_SIZE: usize = 4096;

pub struct Computer {
    // Memory is an array of words: addresses count words, not bytes.
    pub mem: [i32; 4096],
    pub regs: [i32; 16],
    // Address of the next instruction to run.
    pub pc: usize,
    // Flags set from the last value written to a register.
    pub z_test: bool,
    pub neg_test: bool,
}

/// The state of the machine, as a mathematical value.
pub struct State {
    pub mem: Seq<i32>,
    pub regs: Seq<i32>,
    pub pc: usize,
    pub z_test: bool,
    pub neg_test: bool,
}

impl View for Computer {
    type V = State;

    open spec fn view(&self) -> State {
        State {
            mem: self.mem@,
            regs: self.regs@,
            pc: self.pc,
            z_test: self.z_test,
            neg_test: self.neg_test,
        }
    }
}

pub open spec fn fits_i32(x: int) -> bool {
    i32::MIN <= x <= i32::MAX
}

/// The result of the register operation `o` on `x` (the value of `R[b]`) and
/// `v`, or `None` where Rust's arithmetic would fail: a shift by a negative
/// amount or by 32 places or more, a rotation by `i32::MIN` places to the
/// left, an overflow, or a division by zero.
pub open spec fn operate(o: OpCode, x: i32, v: i32) -> Option<i32> {
    match o {
        OpCode::MOV => Some(v),
        OpCode::LSL => if 0 <= v < 32 {
            Some(x << (v as u32))
        } else {
            None
        },
        OpCode::ASR => if 0 <= v < 32 {
            Some(x >> (v as u32))
        } else {
            None
        },
        OpCode::ROR => if v > 0 {
            Some(rotate_right(x as u32, v as u32) as i32)
        } else if v != i32::MIN {
            Some(rotate_left(x as u32, (-v) as u32) as i32)
        } else {
            None
        },
        OpCode::AND => Some(x & v),
        OpCode::ANN => Some(x & !v),
        OpCode::IOR => Some(x | v),
        OpCode::XOR => Some(x ^ v),
        OpCode::ADD => if fits_i32(x + v) {
            Some((x + v) as i32)
        } else {
            None
        },
        OpCode::SUB => if fits_i32(x - v) {
            Some((x - v) as i32)
        } else {
            None
        },
        OpCode::MUL => if fits_i32(x * v) {
            Some((x * v) as i32)
        } else {
            None
        },
        OpCode::DIV => if v != 0 && !(x == i32::MIN && v == -1) {
            Some(div_trunc(x as int, v as int) as i32)
        } else {
            None
        },
        OpCode::MOD => if v != 0 && !(x == i32::MIN && v == -1) {
            Some(rem_trunc(x as int, v as int) as i32)
        } else {
            None
        },
    }
}

/// Whether the flags meet the branch condition.
pub open spec fn spec_matches_cond(z_test: bool, neg_test: bool, cond: BranchCondition) -> bool {
    match cond {
        BranchCondition::MI => neg_test,
        BranchCondition::EQ => z_test,
        BranchCondition::LT => neg_test,
        BranchCondition::LE => neg_test || z_test,
        BranchCondition::AW => true,
        BranchCondition::PL => !neg_test,
        BranchCondition::NE => !z_test,
        BranchCondition::GE => !neg_test,
        BranchCondition::GT => !(neg_test || z_test),
        BranchCondition::NV => false,
    }
}

/// The condition whose code differs from that of `cond` in its top bit.
pub open spec fn negated(cond: BranchCondition) -> BranchCondition {
    BranchCondition::spec_from_code(cond.spec_code() ^ 8u32)->0
}

impl State {
    pub open spec fn wf(self) -> bool {
        self.regs.len() == 16 && self.mem.len() == 4096
    }

    pub open spec fn matches(self, cond: BranchCondition) -> bool {
        spec_matches_cond(self.z_test, self.neg_test, cond)
    }

    /// `R[a] := v`, with the flags set from `v`.
    pub open spec fn set_reg_flags(self, a: int, v: i32) -> State {
        State { regs: self.regs.update(a, v), z_test: v == 0, neg_test: v < 0, ..self }
    }

    /// The register instruction `R[a] := R[b] o v`.
    pub open spec fn register(self, o: OpCode, a: usize, b: usize, v: i32) -> Option<State> {
        if a >= 16 || (o != OpCode::MOV && b >= 16) {
            None
        } else {
            match operate(o, self.regs[b as int], v) {
                Some(r) => Some(self.set_reg_flags(a as int, r)),
                None => None,
            }
        }
    }

    /// The address `R[b] + offset` that a memory instruction reaches, where
    /// it lies in memory.
    pub open spec fn address(self, b: usize, offset: u32) -> Option<int> {
        let adr = self.regs[b as int] + (offset as i32);
        if fits_i32(adr) && 0 <= adr < 4096 {
            Some(adr)
        } else {
            None
        }
    }

    /// Where a taken branch with `link` first saves the return address.
    pub open spec fn link(self, link: bool) -> State {
        if link {
            State { regs: self.regs.update(15, self.pc as i32), ..self }
        } else {
            self
        }
    }

    /// The state after running one instruction, or `None` where the run
    /// fails: a register index out of range, an operation that Rust's
    /// arithmetic refuses, or an address outside memory.
    pub open spec fn step(self, i: Instruction) -> Option<State> {
        match i {
            Instruction::Register { o, a, b, c } => if c < 16 {
                self.register(o, a, b, self.regs[c as int])
            } else {
                None
            },
            Instruction::RegisterIm { o, a, b, im } => self.register(o, a, b, im),
            Instruction::Memory { u, a, b, offset } => if a < 16 && b < 16 {
                match self.address(b, offset) {
                    Some(adr) => match u {
                        MemoryMode::Load => Some(self.set_reg_flags(a as int, self.mem[adr])),
                        MemoryMode::Store => Some(
                            State { mem: self.mem.update(adr, self.regs[a as int]), ..self },
                        ),
                    },
                    None => None,
                }
            } else {
                None
            },
            Instruction::Branch { cond, c, link } => if !self.matches(cond) {
                Some(self)
            } else if c < 16 {
                let s = self.link(link);
                Some(State { pc: s.regs[c as int] as usize, ..s })
            } else {
                None
            },
            Instruction::BranchOff { cond, offset, link } => if !self.matches(cond) {
                Some(self)
            } else {
                let s = self.link(link);
                let target = (s.pc as i32) + offset;
                if fits_i32(target) {
                    Some(State { pc: (target as i32) as usize, ..s })
                } else {
                    None
                }
            },
        }
    }
}

/// One cycle: fetch the word at `pc`, decode it, move `pc` to the next word
/// and run the instruction. `None` where `pc` lies outside memory, the word
/// is no instruction, or the instruction fails.
pub open spec fn cycle(s: State) -> Option<State> {
    if s.pc < 4096 {
        match spec_parse(s.mem[s.pc as int] as u32) {
            Ok(i) => State { pc: (s.pc + 1) as usize, ..s }.step(i),
            Err(_) => None,
        }
    } else {
        None
    }
}

/// The state at the end of a run whose cycle counter stands at `i`: cycles
/// go on until `pc` comes back to 0 or the counter has passed `max`.
pub open spec fn run(s: State, max: u32, i: u32) -> Option<State>
    decreases u32::MAX - i,
{
    match cycle(s) {
        None => None,
        Some(t) => if t.pc == 0 || i > max {
            Some(t)
        } else if i == u32::MAX {
            None
        } else {
            run(t, max, (i + 1) as u32)
        },
    }
}

/// The state in which a run starts.
pub open spec fn start(s: State) -> State {
    State { pc: 0, ..s }
}

/// Every condition has a negation, which holds exactly where it does not.
pub proof fn lemma_negated_condition(s: State, cond: BranchCondition)
    ensures
        s.matches(negated(cond)) == !s.matches(cond),
        negated(negated(cond)) == cond,
{
    match cond {
        BranchCondition::MI => assert(0u32 ^ 8u32 == 8u32 && 8u32 ^ 8u32 == 0u32) by (bit_vector),
        BranchCondition::EQ => assert(1u32 ^ 8u32 == 9u32 && 9u32 ^ 8u32 == 1u32) by (bit_vector),
        BranchCondition::LT => assert(5u32 ^ 8u32 == 13u32 && 13u32 ^ 8u32 == 5u32) by (bit_vector),
        BranchCondition::LE => assert(6u32 ^ 8u32 == 14u32 && 14u32 ^ 8u32 == 6u32) by (bit_vector),
        BranchCondition::AW => assert(7u32 ^ 8u32 == 15u32 && 15u32 ^ 8u32 == 7u32) by (bit_vector),
        BranchCondition::PL => assert(8u32 ^ 8u32 == 0u32 && 0u32 ^ 8u32 == 8u32) by (bit_vector),
        BranchCondition::NE => assert(9u32 ^ 8u32 == 1u32 && 1u32 ^ 8u32 == 9u32) by (bit_vector),
        BranchCondition::GE => assert(13u32 ^ 8u32 == 5u32 && 5u32 ^ 8u32 == 13u32) by (bit_vector),
        BranchCondition::GT => assert(14u32 ^ 8u32 == 6u32 && 6u32 ^ 8u32 == 14u32) by (bit_vector),
        BranchCondition::NV => assert(15u32 ^ 8u32 == 7u32 && 7u32 ^ 8u32 == 15u32) by (bit_vector),
    }
}

/// Running an instruction keeps the shape of the machine.
pub proof fn lemma_step_wf(s: State, i: Instruction)
    requires
        s.wf(),
        s.step(i) is Some,
    ensures
        s.step(i)->0.wf(),
{
}

/// Only a store writes memory, and only at the address it reaches.
pub proof fn lemma_step_memory(s: State, i: Instruction)
    requires
        s.wf(),
        s.step(i) is Some,
    ensures
        !(i matches Instruction::Memory { u: MemoryMode::Store, .. }) ==> s.step(i)->0.mem == s.mem,
        i matches Instruction::Memory { u: MemoryMode::Store, a, b, offset } ==> s.step(i)->0.mem
            == s.mem.update(s.address(b, offset)->0, s.regs[a as int]),
{
}

/// A run keeps the shape of the machine.
pub proof fn lemma_run_wf(s: State, max: u32, i: u32)
    requires
        s.wf(),
        run(s, max, i) is Some,
    ensures
        run(s, max, i)->0.wf(),
    decreases u32::MAX - i,
{
    let t = cycle(s)->0;
    lemma_step_wf(State { pc: (s.pc + 1) as usize, ..s }, spec_parse(s.mem[s.pc as int] as u32)->Ok_0);
    if !(t.pc == 0 || i > max) {
        lemma_run_wf(t, max, (i + 1) as u32);
    }
}

/// Whether the register operation `o` on `x` and `v` goes through.
fn can_operate(o: OpCode, x: i32, v: i32) -> (r: bool)
    ensures
        r == (operate(o, x, v) is Some),
{
    match o {
        OpCode::MOV | OpCode::AND | OpCode::ANN | OpCode::IOR | OpCode::XOR => true,
        OpCode::LSL | OpCode::ASR => 0 <= v && v < 32,
        OpCode::ROR => v > 0 || v != i32::MIN,
        OpCode::ADD => {
            let y: i64 = x as i64 + v as i64;
            i32::MIN as i64 <= y && y <= i32::MAX as i64
        },
        OpCode::SUB => {
            let y: i64 = x as i64 - v as i64;
            i32::MIN as i64 <= y && y <= i32::MAX as i64
        },
        OpCode::MUL => {
            assert(-0x4000_0000_0000_0000 <= x * v <= 0x4000_0000_0000_0000) by (nonlinear_arith)
                requires
                    i32::MIN <= x <= i32::MAX,
                    i32::MIN <= v <= i32::MAX,
            ;
            let y: i64 = x as i64 * v as i64;
            i32::MIN as i64 <= y && y <= i32::MAX as i64
        },
        OpCode::DIV | OpCode::MOD => v != 0 && !(x == i32::MIN && v == -1),
    }
}

impl Computer {
    pub fn new() -> (c: Computer)
        ensures
            c@.regs == Seq::new(16, |i: int| 0i32),
            c@.mem == Seq::new(4096, |i: int| 0i32),
            c.pc == 0,
            !c.z_test,
            !c.neg_test,
    {
        let c = Computer { regs: [0;16], mem: [0;4096], pc: 0, z_test: false, neg_test: false };
        assert(c@.regs =~= Seq::new(16, |i: int| 0i32));
        assert(c@.mem =~= Seq::new(4096, |i: int| 0i32));
        c
    }

    /// Writes the encoded instructions to memory from address 0 on.
    pub fn load_instructions(&mut self, instructions: Vec<Instruction>)
        requires
            instructions.len() <= 4096,
        ensures
            final(self)@ == (State {
                mem: Seq::new(
                    4096,
                    |k: int|
                        if k < instructions.len() {
                            spec_encode(instructions@[k]) as i32
                        } else {
                            old(self)@.mem[k]
                        },
                ),
                ..old(self)@
            }),
    {
        let mut index: usize = 0;
        while index < instructions.len()
            invariant
                instructions.len() <= 4096,
                index <= instructions.len(),
                self.regs@ == old(self).regs@,
                self.pc == old(self).pc,
                self.z_test == old(self).z_test,
                self.neg_test == old(self).neg_test,
                forall|k: int|
                    0 <= k < 4096 ==> #[trigger] self.mem@[k] == if k < index {
                        spec_encode(instructions@[k]) as i32
                    } else {
                        old(self).mem@[k]
                    },
            decreases instructions.len() - index,
        {
            let w = Instruction::encode(&instructions[index]);
            self.mem[index] = w as i32;
            index = index + 1;
        }
        assert(self.mem@ =~= Seq::new(
            4096,
            |k: int|
                if k < instructions.len() {
                    spec_encode(instructions@[k]) as i32
                } else {
                    old(self)@.mem[k]
                },
        ));
    }

    /// Runs the program from address 0 until `pc` comes back to 0, or until
    /// more than `max_cycles` cycles have passed.
    pub fn execute(&mut self, max_cycles: u32, debug: bool)
        requires
            run(start(old(self)@), max_cycles, 0) is Some,
        ensures
            final(self)@ == run(start(old(self)@), max_cycles, 0)->0,
    {
        let ghost target = run(start(old(self)@), max_cycles, 0)->0;
        self.pc = 0;
        let mut cycles: u32 = 0;
        loop
            invariant_except_break
                self@.wf(),
                run(self@, max_cycles, cycles) == Some(target),
            ensures
                self@ == target,
            decreases u32::MAX - cycles,
        {
            let ghost s0 = self@;
            let ir: i32 = self.mem[self.pc];
            let instruction = match Instruction::parse(ir as u32) {
                Ok(instruction) => instruction,
                Err(_) => {
                    assert(false);
                    return;
                },
            };
            self.pc = self.pc + 1;
            assert(self@ == State { pc: (s0.pc + 1) as usize, ..s0 });
            self.execute_instruction(instruction, debug);
            if self.pc == 0 {
                break;
            }
            if cycles > max_cycles {
                break;
            }
            cycles = cycles + 1;
        }
    }

    /// Runs the program as `execute` does, and tells whether the run went
    /// through: it stops without running a cycle that would fail (a word
    /// that is no instruction, a register out of range, an operation that
    /// overflows or divides by zero, an address outside memory).
    pub fn execute_checked(&mut self, max_cycles: u32, debug: bool) -> (ok: bool)
        ensures
            ok == (run(start(old(self)@), max_cycles, 0) is Some),
            ok ==> final(self)@ == run(start(old(self)@), max_cycles, 0)->0,
    {
        let ghost target = run(start(old(self)@), max_cycles, 0);
        self.pc = 0;
        let mut cycles: u32 = 0;
        loop
            invariant_except_break
                self@.wf(),
                run(self@, max_cycles, cycles) == target,
            invariant
                target == run(start(old(self)@), max_cycles, 0),
            ensures
                target is Some,
                self@ == target->0,
            decreases u32::MAX - cycles,
        {
            let ghost s0 = self@;
            if self.pc >= 4096 {
                assert(cycle(s0) is None);
                return false;
            }
            let ir: i32 = self.mem[self.pc];
            let instruction = match Instruction::parse(#[verifier::truncate] (ir as u32)) {
                Ok(instruction) => instruction,
                Err(_) => {
                    assert(cycle(s0) is None);
                    return false;
                },
            };
            self.pc = self.pc + 1;
            assert(self@ == State { pc: (s0.pc + 1) as usize, ..s0 });
            if !self.can_step(instruction) {
                assert(cycle(s0) is None);
                return false;
            }
            self.execute_instruction(instruction, debug);
            if self.pc == 0 {
                break;
            }
            if cycles > max_cycles {
                break;
            }
            if cycles == u32::MAX {
                return false;
            }
            cycles = cycles + 1;
        }
        true
    }

    /// Whether running `i` in this state goes through.
    fn can_step(&self, i: Instruction) -> (b: bool)
        ensures
            b == (self@.step(i) is Some),
    {
        match i {
            Instruction::Register { o, a, b, c } => if c < 16 {
                self.can_register(o, a, b, self.regs[c])
            } else {
                false
            },
            Instruction::RegisterIm { o, a, b, im } => self.can_register(o, a, b, im),
            Instruction::Memory { u, a, b, offset } => if a < 16 && b < 16 {
                let adr: i64 = self.regs[b] as i64 + (offset as i32) as i64;
                0 <= adr && adr < 4096
            } else {
                false
            },
            Instruction::Branch { cond, c, link } => !self.matches_cond(cond) || c < 16,
            Instruction::BranchOff { cond, offset, link } => if !self.matches_cond(cond) {
                true
            } else {
                let target: i64 = (self.pc as i32) as i64 + offset as i64;
                i32::MIN as i64 <= target && target <= i32::MAX as i64
            },
        }
    }

    fn can_register(&self, o: OpCode, a: usize, b: usize, v: i32) -> (r: bool)
        ensures
            r == (self@.register(o, a, b, v) is Some),
    {
        if a >= 16 {
            return false;
        }
        match o {
            OpCode::MOV => true,
            _ => if b >= 16 {
                false
            } else {
                can_operate(o, self.regs[b], v)
            },
        }
    }

    /// Runs one instruction.
    pub fn execute_instruction(&mut self, i: Instruction, debug: bool)
        requires
            old(self)@.step(i) is Some,
        ensures
            final(self)@ == old(self)@.step(i)->0,
    {
        let _ = debug;
        match i {
            Instruction::Register { o, a, b, c } => {
                let v = self.regs[c];
                self.execute_register(o, a, b, v);
            },
            Instruction::RegisterIm { o, a, b, im } => self.execute_register(o, a, b, im),
            Instruction::Memory { u, a, b, offset } => self.execute_memory(u, a, b, offset),
            Instruction::Branch { cond, c, link } => self.execute_branch(cond, c, link),
            Instruction::BranchOff { cond, offset, link } => self.execute_branch_offset(cond, offset, link),
        }
    }

    fn execute_register(&mut self, o: OpCode, a: usize, b: usize, value: i32)
        requires
            old(self)@.register(o, a, b, value) is Some,
        ensures
            final(self)@ == old(self)@.register(o, a, b, value)->0,
    {
        let r: i32 = match o {
            OpCode::MOV => value,
            OpCode::LSL => self.regs[b] << (value as u32),
            OpCode::ASR => self.regs[b] >> (value as u32),
            OpCode::ROR => if value > 0 {
                rotate_right_u32(self.regs[b] as u32, value as u32) as i32
            } else {
                rotate_left_u32(self.regs[b] as u32, (-value) as u32) as i32
            },
            OpCode::AND => self.regs[b] & value,
            OpCode::ANN => self.regs[b] & !value,
            OpCode::IOR => self.regs[b] | value,
            OpCode::XOR => self.regs[b] ^ value,
            OpCode::ADD => self.regs[b] + value,
            OpCode::SUB => self.regs[b] - value,
            OpCode::MUL => self.regs[b] * value,
            OpCode::DIV => div_i32(self.regs[b], value),
            OpCode::MOD => rem_i32(self.regs[b], value),
        };
        self.regs[a] = r;
        self.update_flags(a);
        assert(self@.regs =~= old(self)@.regs.update(a as int, r));
    }

    fn execute_memory(&mut self, u: MemoryMode, a: usize, b: usize, offset: u32)
        requires
            a < 16,
            b < 16,
            old(self)@.address(b, offset) is Some,
        ensures
            final(self)@ == old(self)@.step(Instruction::Memory { u, a, b, offset })->0,
    {
        let adr: i32 = self.regs[b] + offset as i32;
        match u {
            MemoryMode::Load => {
                self.regs[a] = self.mem[adr as usize];
                self.update_flags(a);
                assert(self@.regs =~= old(self)@.regs.update(a as int, old(self)@.mem[adr as int]));
            },
            MemoryMode::Store => {
                self.mem[adr as usize] = self.regs[a];
                assert(self@.mem =~= old(self)@.mem.update(adr as int, old(self)@.regs[a as int]));
            },
        }
    }

    fn execute_branch(&mut self, cond: BranchCondition, c: usize, link: bool)
        requires
            old(self)@.step(Instruction::Branch { cond, c, link }) is Some,
        ensures
            final(self)@ == old(self)@.step(Instruction::Branch { cond, c, link })->0,
    {
        if self.matches_cond(cond) {
            if link {
                self.regs[15] = self.pc as i32;
                assert(self@.regs =~= old(self)@.regs.update(15, old(self).pc as i32));
            }
            self.pc = self.regs[c] as usize;
        }
    }

    fn execute_branch_offset(&mut self, cond: BranchCondition, offset: i32, link: bool)
        requires
            old(self)@.step(Instruction::BranchOff { cond, offset, link }) is Some,
        ensures
            final(self)@ == old(self)@.step(Instruction::BranchOff { cond, offset, link })->0,
    {
        if self.matches_cond(cond) {
            if link {
                self.regs[15] = self.pc as i32;
                assert(self@.regs =~= old(self)@.regs.update(15, old(self).pc as i32));
            }
            let new_pc = (self.pc as i32 + offset) as usize;
            self.pc = new_pc;
        }
    }

    /// Whether the flags meet the branch condition.
    pub fn matches_cond(&self, cond: BranchCondition) -> (r: bool)
        ensures
            r == spec_matches_cond(self.z_test, self.neg_test, cond),
    {
        match cond {
            BranchCondition::MI => self.neg_test,
            BranchCondition::EQ => self.z_test,
            BranchCondition::LT => self.neg_test,
            BranchCondition::LE => self.neg_test || self.z_test,
            BranchCondition::AW => true,
            BranchCondition::PL => !self.neg_test,
            BranchCondition::NE => !self.z_test,
            BranchCondition::GE => !self.neg_test,
            BranchCondition::GT => !(self.neg_test || self.z_test),
            BranchCondition::NV => false,
        }
    }

    /// Sets the flags from the value of `R[a]`.
    pub fn update_flags(&mut self, a: usize)
        requires
            a < 16,
        ensures
            final(self)@ == (State {
                z_test: old(self).regs@[a as int] == 0,
                neg_test: old(self).regs@[a as int] < 0,
                ..old(self)@
            }),
    {
        self.z_test = self.regs[a] == 0;
        self.neg_test = self.regs[a] < 0;
    }
}

impl Default for Computer {
    fn default() -> (c: Self)
        ensures
            c@.regs == Seq::new(16, |i: int| 0i32),
            c@.mem == Seq::new(4096, |i: int| 0i32),
            c.pc == 0,
            !c.z_test,
            !c.neg_test,
    {
        Self::new()
    }
}

/// A register instruction `R[a] := R[b] o v` sets `R[a]` alone, to the
/// operation's result, and the flags from that result; memory and `pc`
/// stay. A move gives `v`, an addition `R[b] + v`, a subtraction
/// `R[b] - v`, a product `R[b] * v`, a division and a remainder the
/// truncated quotient and remainder, the logical operations `R[b] & v`,
/// `R[b] & !v`, `R[b] | v` and `R[b] ^ v`, the shifts `R[b] << v` and
/// `R[b] >> v`, and a rotation by a positive `v` the bits of `R[b]` turned
/// right by `v` places.
pub proof fn law_register_instruction(s: State, o: OpCode, a: usize, b: usize, v: i32)
    requires
        s.wf(),
        a < 16,
        b < 16,
        operate(o, s.regs[b as int], v) is Some,
    ensures
        s.register(o, a, b, v) matches Some(t) && t.wf() && t.regs[a as int] == operate(o, s.regs[b as int], v)->0
            && t.z_test == (t.regs[a as int] == 0) && t.neg_test == (t.regs[a as int] < 0) && t.mem == s.mem && t.pc
            == s.pc && (forall|j: int| 0 <= j < 16 && j != a ==> #[trigger] t.regs[j] == s.regs[j]),
        o == OpCode::MOV ==> s.register(o, a, b, v)->0.regs[a as int] == v,
        o == OpCode::ADD ==> s.register(o, a, b, v)->0.regs[a as int] == s.regs[b as int] + v,
        o == OpCode::SUB ==> s.register(o, a, b, v)->0.regs[a as int] == s.regs[b as int] - v,
        o == OpCode::ANN ==> s.register(o, a, b, v)->0.regs[a as int] == s.regs[b as int] & !v,
        o == OpCode::ASR ==> s.register(o, a, b, v)->0.regs[a as int] == s.regs[b as int] >> (v as u32),
        o == OpCode::LSL ==> s.register(o, a, b, v)->0.regs[a as int] == s.regs[b as int] << (v as u32),
        o == OpCode::AND ==> s.register(o, a, b, v)->0.regs[a as int] == s.regs[b as int] & v,
        o == OpCode::IOR ==> s.register(o, a, b, v)->0.regs[a as int] == s.regs[b as int] | v,
        o == OpCode::XOR ==> s.register(o, a, b, v)->0.regs[a as int] == s.regs[b as int] ^ v,
        o == OpCode::MUL ==> s.register(o, a, b, v)->0.regs[a as int] == s.regs[b as int] * v,
        o == OpCode::DIV ==> s.register(o, a, b, v)->0.regs[a as int] == div_trunc(s.regs[b as int] as int, v as int) as i32,
        o == OpCode::MOD ==> s.register(o, a, b, v)->0.regs[a as int] == rem_trunc(s.regs[b as int] as int, v as int) as i32,
        o == OpCode::ROR && v > 0 ==> s.register(o, a, b, v)->0.regs[a as int] == rotate_right(
            s.regs[b as int] as u32,
            v as u32,
        ) as i32,
{
}

/// Whether condition `cond` holds of the value `v` that last set the
/// flags: MI and LT when it is negative, EQ when it is zero, LE when it is
/// not positive, PL and GE when it is not negative, NE when it is not zero,
/// GT when it is positive, AW always and NV never.
pub open spec fn holds_of(cond: BranchCondition, v: int) -> bool {
    match cond {
        BranchCondition::MI => v < 0,
        BranchCondition::EQ => v == 0,
        BranchCondition::LT => v < 0,
        BranchCondition::LE => v <= 0,
        BranchCondition::AW => true,
        BranchCondition::PL => v >= 0,
        BranchCondition::NE => v != 0,
        BranchCondition::GE => v >= 0,
        BranchCondition::GT => v > 0,
        BranchCondition::NV => false,
    }
}

/// With the flags set from a value `v`, as every register instruction and
/// load sets them, a condition matches exactly when it holds of `v`; a
/// branch to `R[c]`, or by `offset`, is taken exactly then, and otherwise
/// the state stays as it was.
pub proof fn law_branch_conditions(s: State, v: int, cond: BranchCondition, c: usize, offset: i32)
    requires
        s.wf(),
        s.z_test == (v == 0),
        s.neg_test == (v < 0),
        c < 16,
        fits_i32((s.pc as i32) + offset),
    ensures
        s.matches(cond) == holds_of(cond, v),
        s.step(Instruction::Branch { cond, c, link: false }) == if holds_of(cond, v) {
            Some(State { pc: s.regs[c as int] as usize, ..s })
        } else {
            Some(s)
        },
        s.step(Instruction::BranchOff { cond, offset, link: false }) == if holds_of(cond, v) {
            Some(State { pc: (((s.pc as i32) + offset) as i32) as usize, ..s })
        } else {
            Some(s)
        },
{
}

/// A register instruction sets the flags from the value it writes, so
/// that a condition then matches exactly when it holds of that value.
pub proof fn law_conditions_after_register(s: State, o: OpCode, a: usize, b: usize, v: i32, cond: BranchCondition)
    requires
        s.wf(),
        s.register(o, a, b, v) is Some,
    ensures
        s.register(o, a, b, v)->0.matches(cond) == holds_of(cond, s.register(o, a, b, v)->0.regs[a as int] as int),
{
}

} // verus!
