//! A simulator of the first RISC machine.
//!
//! The state of the machine is its 16 registers, 4096 words of memory, the
//! two flags that comparisons set, a flag that stops execution, and the
//! address of the next instruction to run.

use vstd::prelude::*;

use crate::arith::{div_trunc, rem_trunc, div_i32, rem_i32, lemma_rem_trunc_bound};
use crate::risc::instructions::{
    spec_encode, spec_parse, BranchOpCode, Instruction, MemoryOpCode, RegisterImOpCode, RegisterOpCode,
};

verus! {

pub struct Computer {
    pub regs: [i32; 16],
    // Memory is an array of words: addresses count words, not bytes.
    pub mem: [i32; 4096],
    // Flags set by comparisons.
    pub z_test: bool,
    pub neg_test: bool,
    // Set by a return to address 0, it stops execution.
    pub done_flag: bool,
    // Address of the next instruction to run.
    pub next: i32,
}

/// The state of the machine, as a mathematical value.
pub struct State {
    pub regs: Seq<i32>,
    pub mem: Seq<i32>,
    pub z_test: bool,
    pub neg_test: bool,
    pub done_flag: bool,
    pub next: i32,
}

impl View for Computer {
    type V = State;

    open spec fn view(&self) -> State {
        State {
            regs: self.regs@,
            mem: self.mem@,
            z_test: self.z_test,
            neg_test: self.neg_test,
            done_flag: self.done_flag,
            next: self.next,
        }
    }
}

pub open spec fn fits_i32(x: int) -> bool {
    i32::MIN <= x <= i32::MAX
}

impl State {
    pub open spec fn wf(self) -> bool {
        self.regs.len() == 16 && self.mem.len() == 4096
    }

    pub open spec fn with_reg(self, a: int, v: i32) -> State {
        State { regs: self.regs.update(a, v), ..self }
    }

    pub open spec fn with_mem(self, adr: int, v: i32) -> State {
        State { mem: self.mem.update(adr, v), ..self }
    }

    pub open spec fn with_flags(self, z: bool, neg: bool) -> State {
        State { z_test: z, neg_test: neg, ..self }
    }

    pub open spec fn with_next(self, next: i32) -> State {
        State { next: next, ..self }
    }

    /// `R[a] := v` where `v` must fit in a word.
    pub open spec fn store(self, a: int, v: int) -> Option<State> {
        if fits_i32(v) {
            Some(self.with_reg(a, v as i32))
        } else {
            None
        }
    }

    /// Jumps to `R[15] + disp` when `taken`.
    pub open spec fn branch(self, taken: bool, disp: i32) -> Option<State> {
        if !taken {
            Some(self)
        } else if fits_i32(self.regs[15] + disp) {
            Some(self.with_next((self.regs[15] + disp) as i32))
        } else {
            None
        }
    }

    /// The state after running one instruction, or `None` where the run
    /// stops in error: a register index out of range, a shift of 32 places
    /// or more, an arithmetic overflow, a division by zero, or a memory
    /// address outside memory.
    pub open spec fn step(self, i: Instruction) -> Option<State> {
        match i {
            Instruction::Register { o, a, b, c } => {
                if !(a < 16 && c < 16) {
                    None
                } else {
                    match o {
                        RegisterOpCode::MOV => if b < 32 {
                            Some(self.with_reg(a as int, self.regs[c as int] << b))
                        } else {
                            None
                        },
                        RegisterOpCode::MVN => if b < 32 && (self.regs[c as int] << b) != i32::MIN {
                            Some(self.with_reg(a as int, (-(self.regs[c as int] << b)) as i32))
                        } else {
                            None
                        },
                        RegisterOpCode::CMP => if b < 16 {
                            Some(
                                self.with_flags(
                                    self.regs[b as int] == self.regs[c as int],
                                    self.regs[b as int] < self.regs[c as int],
                                ),
                            )
                        } else {
                            None
                        },
                        _ => if b < 16 {
                            arith(self, o, a as int, self.regs[b as int], self.regs[c as int])
                        } else {
                            None
                        },
                    }
                }
            },
            Instruction::RegisterIm { o, a, b, im } => match o {
                RegisterImOpCode::MOVI => if a < 16 && b < 32 {
                    Some(self.with_reg(a as int, im << b))
                } else {
                    None
                },
                RegisterImOpCode::MVNI => if a < 16 && b < 32 && (im << b) != i32::MIN {
                    Some(self.with_reg(a as int, (-(im << b)) as i32))
                } else {
                    None
                },
                RegisterImOpCode::CMPI => if b < 16 {
                    Some(self.with_flags(self.regs[b as int] == im, self.regs[b as int] < im))
                } else {
                    None
                },
                RegisterImOpCode::CHKI => if a < 16 {
                    if self.regs[a as int] < 0 || self.regs[a as int] > im {
                        Some(self.with_reg(a as int, 0))
                    } else {
                        Some(self)
                    }
                } else {
                    None
                },
                _ => if a < 16 && b < 16 {
                    arith(self, im_to_register(o), a as int, self.regs[b as int], im)
                } else {
                    None
                },
            },
            Instruction::Memory { o, a, b, disp } => {
                if !(a < 16 && b < 16) {
                    None
                } else {
                    match o {
                        MemoryOpCode::LDW => {
                            let adr = self.regs[b as int] + disp;
                            if fits_i32(adr) && 0 <= adr < 4096 {
                                Some(self.with_reg(a as int, self.mem[adr]))
                            } else {
                                None
                            }
                        },
                        MemoryOpCode::POP => {
                            let adr = self.regs[b as int];
                            if 0 <= adr < 4096 {
                                let s1 = self.with_reg(a as int, self.mem[adr as int]);
                                s1.store(b as int, s1.regs[b as int] + disp)
                            } else {
                                None
                            }
                        },
                        MemoryOpCode::PSH => {
                            let adr = self.regs[b as int] - disp;
                            if fits_i32(adr) && 0 <= adr < 4096 {
                                let s1 = self.with_reg(b as int, adr as i32);
                                Some(s1.with_mem(adr, s1.regs[a as int]))
                            } else {
                                None
                            }
                        },
                        MemoryOpCode::STW => {
                            let adr = self.regs[b as int] + disp;
                            if fits_i32(adr) && 0 <= adr < 4096 {
                                Some(self.with_mem(adr, self.regs[a as int]))
                            } else {
                                None
                            }
                        },
                    }
                }
            },
            Instruction::Branch { o, disp } => match o {
                BranchOpCode::BEQ => self.branch(self.z_test, disp),
                BranchOpCode::BLT => self.branch(self.neg_test, disp),
                BranchOpCode::BLE => self.branch(self.neg_test || self.z_test, disp),
                BranchOpCode::BNE => self.branch(!self.z_test, disp),
                BranchOpCode::BGE => self.branch(!self.neg_test, disp),
                BranchOpCode::BGT => self.branch(!self.neg_test && !self.z_test, disp),
                BranchOpCode::BR => self.branch(true, disp),
                BranchOpCode::BSR => self.with_reg(14, self.regs[15]).branch(true, disp),
                BranchOpCode::RET => {
                    let index = rem_trunc(disp as int, 16);
                    if index >= 0 {
                        let n = self.regs[index];
                        if n == 0 {
                            Some(State { next: n, done_flag: true, ..self })
                        } else {
                            Some(self.with_next(n))
                        }
                    } else {
                        None
                    }
                },
            },
        }
    }
}

/// The register operation that an arithmetic immediate operation performs.
pub open spec fn im_to_register(o: RegisterImOpCode) -> RegisterOpCode {
    match o {
        RegisterImOpCode::ADDI => RegisterOpCode::ADD,
        RegisterImOpCode::SUBI => RegisterOpCode::SUB,
        RegisterImOpCode::MULI => RegisterOpCode::MUL,
        RegisterImOpCode::DIVI => RegisterOpCode::DIV,
        RegisterImOpCode::MODI => RegisterOpCode::MOD,
        _ => RegisterOpCode::MOV,
    }
}

/// `R[a] := x op y` for the arithmetic operations.
pub open spec fn arith(s: State, o: RegisterOpCode, a: int, x: i32, y: i32) -> Option<State> {
    match o {
        RegisterOpCode::ADD => s.store(a, x + y),
        RegisterOpCode::SUB => s.store(a, x - y),
        RegisterOpCode::MUL => s.store(a, x * y),
        RegisterOpCode::DIV => if y != 0 && !(x == i32::MIN && y == -1) {
            s.store(a, div_trunc(x as int, y as int))
        } else {
            None
        },
        RegisterOpCode::MOD => if y != 0 && !(x == i32::MIN && y == -1) {
            s.store(a, rem_trunc(x as int, y as int))
        } else {
            None
        },
        _ => None,
    }
}

/// The state at the start of a run from address `base`.
pub open spec fn start(s: State, base: usize) -> State {
    State { done_flag: false, ..s }.with_reg(15, base as i32)
}

/// One cycle: fetch the word at `R[15]`, decode it and run it, with `next`
/// first set to the following address. `None` where the address is outside
/// memory, the word is no instruction, or the instruction fails.
pub open spec fn cycle(s: State) -> Option<State> {
    let pc = s.regs[15];
    if !fits_i32(pc + 1) || !(0 <= pc < 4096) {
        None
    } else {
        match spec_parse(s.mem[pc as int] as u32) {
            Ok(i) => s.with_next((pc + 1) as i32).step(i),
            Err(_) => None,
        }
    }
}

/// The state at the end of a run whose cycle counter stands at `i`: cycles go
/// on until the done flag is set or the counter has passed `max`, `R[15]`
/// taking the value of `next` between two cycles.
pub open spec fn run(s: State, max: u32, i: u32) -> Option<State>
    decreases u32::MAX - i,
{
    match cycle(s) {
        None => None,
        Some(t) => if i > max || t.done_flag {
            Some(t)
        } else if i == u32::MAX {
            None
        } else {
            run(t.with_reg(15, t.next), max, (i + 1) as u32)
        },
    }
}

pub proof fn lemma_step_wf(s: State, i: Instruction)
    requires
        s.wf(),
        s.step(i) is Some,
    ensures
        s.step(i)->0.wf(),
{
}

pub proof fn lemma_run_wf(s: State, max: u32, i: u32)
    requires
        s.wf(),
        run(s, max, i) is Some,
    ensures
        run(s, max, i)->0.wf(),
    decreases u32::MAX - i,
{
    let t = cycle(s)->0;
    let pc = s.regs[15];
    lemma_step_wf(s.with_next((pc + 1) as i32), spec_parse(s.mem[pc as int] as u32)->Ok_0);
    if !(i > max || t.done_flag) {
        lemma_run_wf(t.with_reg(15, t.next), max, (i + 1) as u32);
    }
}

impl Computer {
    pub fn new() -> (c: Computer)
        ensures
            c@.regs == Seq::new(16, |i: int| 0i32),
            c@.mem == Seq::new(4096, |i: int| 0i32),
            !c.z_test,
            !c.neg_test,
            !c.done_flag,
            c.next == 0,
    {
        let c = Computer {
            regs: [0;16],
            mem: [0;4096],
            z_test: false,
            neg_test: false,
            done_flag: false,
            next: 0,
        };
        assert(c@.regs =~= Seq::new(16, |i: int| 0i32));
        assert(c@.mem =~= Seq::new(4096, |i: int| 0i32));
        c
    }

    /// Writes the encoded instructions to memory from address `base` on.
    pub fn load_instructions_at(&mut self, instructions: Vec<Instruction>, base: usize)
        requires
            base + instructions.len() <= 4096,
        ensures
            final(self)@ == (State {
                mem: Seq::new(
                    4096,
                    |k: int|
                        if base <= k < base + instructions.len() {
                            spec_encode(instructions@[k - base]) as i32
                        } else {
                            old(self)@.mem[k]
                        },
                ),
                ..old(self)@
            }),
    {
        let mut index: usize = 0;
        while index < instructions.len()
            invariant
                base + instructions.len() <= 4096,
                index <= instructions.len(),
                self.regs@ == old(self).regs@,
                self.z_test == old(self).z_test,
                self.neg_test == old(self).neg_test,
                self.done_flag == old(self).done_flag,
                self.next == old(self).next,
                forall|k: int|
                    0 <= k < 4096 ==> #[trigger] self.mem@[k] == if base <= k < base + index {
                        spec_encode(instructions@[k - base]) as i32
                    } else {
                        old(self).mem@[k]
                    },
            decreases instructions.len() - index,
        {
            let w = Instruction::encode(instructions[index]);
            self.mem[base + index] = w as i32;
            index = index + 1;
        }
        assert(self.mem@ =~= Seq::new(
            4096,
            |k: int|
                if base <= k < base + instructions.len() {
                    spec_encode(instructions@[k - base]) as i32
                } else {
                    old(self)@.mem[k]
                },
        ));
    }

    /// Writes the encoded instructions to memory from address 0 on.
    pub fn load_instructions(&mut self, instructions: Vec<Instruction>)
        requires
            instructions.len() <= 4096,
        ensures
            final(self)@ == (State {
                mem: Seq::new(
                    4096,
                    |k: int|
                        if k < instructions.len() {
                            spec_encode(instructions@[k]) as i32
                        } else {
                            old(self)@.mem[k]
                        },
                ),
                ..old(self)@
            }),
    {
        self.load_instructions_at(instructions, 0);
        assert(self@.mem =~= Seq::new(
            4096,
            |k: int|
                if k < instructions.len() {
                    spec_encode(instructions@[k]) as i32
                } else {
                    old(self)@.mem[k]
                },
        ));
    }

    fn set_reg(&mut self, a: usize, v: i32)
        requires
            a < 16,
        ensures
            final(self)@ == old(self)@.with_reg(a as int, v),
    {
        self.regs[a] = v;
        assert(self@.regs =~= old(self)@.regs.update(a as int, v));
    }

    fn set_mem(&mut self, adr: usize, v: i32)
        requires
            adr < 4096,
        ensures
            final(self)@ == old(self)@.with_mem(adr as int, v),
    {
        self.mem[adr] = v;
        assert(self@.mem =~= old(self)@.mem.update(adr as int, v));
    }

    fn arith(&mut self, o: RegisterOpCode, a: usize, x: i32, y: i32)
        requires
            a < 16,
            arith(old(self)@, o, a as int, x, y) is Some,
        ensures
            final(self)@ == arith(old(self)@, o, a as int, x, y)->0,
    {
        match o {
            RegisterOpCode::ADD => self.set_reg(a, x + y),
            RegisterOpCode::SUB => self.set_reg(a, x - y),
            RegisterOpCode::MUL => self.set_reg(a, x * y),
            RegisterOpCode::DIV => self.set_reg(a, div_i32(x, y)),
            RegisterOpCode::MOD => self.set_reg(a, rem_i32(x, y)),
            _ => {},
        }
    }

    fn branch(&mut self, taken: bool, disp: i32)
        requires
            old(self)@.wf(),
            old(self)@.branch(taken, disp) is Some,
        ensures
            final(self)@ == old(self)@.branch(taken, disp)->0,
    {
        if taken {
            self.next = self.regs[15] + disp;
        }
    }

    /// Runs one instruction.
    pub fn execute_instruction(&mut self, i: Instruction)
        requires
            old(self)@.wf(),
            old(self)@.step(i) is Some,
        ensures
            final(self)@ == old(self)@.step(i)->0,
    {
        match i {
            Instruction::Register { o, a, b, c } => match o {
                RegisterOpCode::MOV => {
                    let v = self.regs[c] << b;
                    self.set_reg(a, v);
                },
                RegisterOpCode::MVN => {
                    let v = self.regs[c] << b;
                    self.set_reg(a, -v);
                },
                RegisterOpCode::CMP => {
                    let (reg_b, reg_c) = (self.regs[b], self.regs[c]);
                    self.z_test = reg_b == reg_c;
                    self.neg_test = reg_b < reg_c;
                },
                _ => {
                    let (x, y) = (self.regs[b], self.regs[c]);
                    self.arith(o, a, x, y);
                },
            },
            Instruction::RegisterIm { o, a, b, im } => match o {
                RegisterImOpCode::MOVI => {
                    self.set_reg(a, im << b);
                },
                RegisterImOpCode::MVNI => {
                    self.set_reg(a, -(im << b));
                },
                RegisterImOpCode::CMPI => {
                    let reg_b = self.regs[b];
                    self.z_test = reg_b == im;
                    self.neg_test = reg_b < im;
                },
                RegisterImOpCode::CHKI => {
                    let reg_a = self.regs[a];
                    if reg_a < 0 || reg_a > im {
                        self.set_reg(a, 0);
                    }
                },
                RegisterImOpCode::ADDI => {
                    let x = self.regs[b];
                    self.arith(RegisterOpCode::ADD, a, x, im);
                },
                RegisterImOpCode::SUBI => {
                    let x = self.regs[b];
                    self.arith(RegisterOpCode::SUB, a, x, im);
                },
                RegisterImOpCode::MULI => {
                    let x = self.regs[b];
                    self.arith(RegisterOpCode::MUL, a, x, im);
                },
                RegisterImOpCode::DIVI => {
                    let x = self.regs[b];
                    self.arith(RegisterOpCode::DIV, a, x, im);
                },
                RegisterImOpCode::MODI => {
                    let x = self.regs[b];
                    self.arith(RegisterOpCode::MOD, a, x, im);
                },
            },
            Instruction::Memory { o, a, b, disp } => match o {
                MemoryOpCode::LDW => {
                    let b_add = self.regs[b];
                    let b_plus_disp_add = (b_add + disp) as usize;
                    let v = self.mem[b_plus_disp_add];
                    self.set_reg(a, v);
                },
                MemoryOpCode::POP => {
                    let v = self.mem[self.regs[b] as usize];
                    self.set_reg(a, v);
                    let nb = self.regs[b] + disp;
                    self.set_reg(b, nb);
                },
                MemoryOpCode::PSH => {
                    let nb = self.regs[b] - disp;
                    self.set_reg(b, nb);
                    let v = self.regs[a];
                    self.set_mem(self.regs[b] as usize, v);
                },
                MemoryOpCode::STW => {
                    let v = self.regs[a];
                    self.set_mem((self.regs[b] + disp) as usize, v);
                },
            },
            Instruction::Branch { o, disp } => match o {
                BranchOpCode::BEQ => {
                    let t = self.z_test;
                    self.branch(t, disp);
                },
                BranchOpCode::BLT => {
                    let t = self.neg_test;
                    self.branch(t, disp);
                },
                BranchOpCode::BLE => {
                    let t = self.neg_test || self.z_test;
                    self.branch(t, disp);
                },
                BranchOpCode::BNE => {
                    let t = !self.z_test;
                    self.branch(t, disp);
                },
                BranchOpCode::BGE => {
                    let t = !self.neg_test;
                    self.branch(t, disp);
                },
                BranchOpCode::BGT => {
                    let t = !self.neg_test && !self.z_test;
                    self.branch(t, disp);
                },
                BranchOpCode::BR => {
                    self.branch(true, disp);
                },
                BranchOpCode::BSR => {
                    let r = self.regs[15];
                    self.set_reg(14, r);
                    self.branch(true, disp);
                },
                BranchOpCode::RET => {
                    proof {
                        lemma_rem_trunc_bound(disp as int, 16);
                    }
                    let index = rem_i32(disp, 0x10) as usize;
                    self.next = self.regs[index];
                    if self.next == 0 {
                        self.done_flag = true;
                    }
                },
            },
        }
    }

    /// Runs the program from address `base` until a return to address 0, or
    /// until `max` cycles have passed.
    pub fn execute_at(&mut self, max: u32, base: usize, debug: bool)
        requires
            run(start(old(self)@, base), max, 0) is Some,
        ensures
            final(self)@ == run(start(old(self)@, base), max, 0)->0,
    {
        let _ = debug;
        let ghost target = run(start(old(self)@, base), max, 0)->0;
        self.done_flag = false;
        self.regs[15] = base as i32;
        assert(self@ =~= start(old(self)@, base));
        let mut i: u32 = 0;
        loop
            invariant_except_break
                self@.wf(),
                run(self@, max, i) == Some(target),
            ensures
                self@ == target,
            decreases u32::MAX - i,
        {
            let ghost s0 = self@;
            let pc_address = self.regs[15];
            self.next = self.regs[15] + 1;
            let ir: i32 = self.mem[pc_address as usize];
            let instruction = match Instruction::parse(ir as u32) {
                Ok(instruction) => instruction,
                Err(_) => {
                    assert(false);
                    return;
                },
            };
            assert(self@ == s0.with_next((pc_address + 1) as i32));
            self.execute_instruction(instruction);
            if i > max || self.done_flag {
                break;
            }
            i = i + 1;
            let n = self.next;
            self.regs[15] = n;
            assert(self@.regs =~= s0.with_next((pc_address + 1) as i32).step(instruction)->0.regs.update(15, n));
        }
    }

    /// Runs the program from address 0.
    pub fn execute(&mut self, max: u32, debug: bool)
        requires
            run(start(old(self)@, 0), max, 0) is Some,
        ensures
            final(self)@ == run(start(old(self)@, 0), max, 0)->0,
    {
        self.execute_at(max, 0, debug);
    }
}

/// The state in which cycle `k` of a run from `s` begins, counting from 0:
/// `R[15]` takes the value of `next` between two cycles.
pub open spec fn cycle_start(s: State, k: nat) -> Option<State>
    decreases k,
{
    if k == 0 {
        Some(s)
    } else {
        match cycle(s) {
            None => None,
            Some(t) => cycle_start(t.with_reg(15, t.next), (k - 1) as nat),
        }
    }
}

/// Whether the cycle that begins in `p` runs a return, to address 0.
pub open spec fn returns_to_zero(p: State, t: State) -> bool {
    &&& spec_parse(p.mem[p.regs[15] as int] as u32) matches Ok(Instruction::Branch { o: BranchOpCode::RET, .. })
    &&& t.next == 0
}

/// Only a return to address 0 raises the done flag.
pub proof fn lemma_step_done(s: State, i: Instruction)
    requires
        !s.done_flag,
        s.step(i) matches Some(t) && t.done_flag,
    ensures
        i matches Instruction::Branch { o: BranchOpCode::RET, .. },
        s.step(i)->0.next == 0,
{
}

/// `r` is where `n` cycles from `s` end, `n` being at least one and at
/// most `bound`; fewer than `bound` only when the done flag went up, which
/// only a return to address 0 raises in the last cycle.
pub open spec fn cycles_end(s: State, r: State, n: nat, bound: int) -> bool {
    &&& 1 <= n <= bound
    &&& cycle_start(s, (n - 1) as nat) is Some
    &&& cycle(cycle_start(s, (n - 1) as nat)->0) == Some(r)
    &&& n < bound ==> r.done_flag
    &&& r.done_flag ==> returns_to_zero(cycle_start(s, (n - 1) as nat)->0, r)
}

proof fn lemma_run_cycles(q: State, max: u32, i: u32)
    requires
        max < u32::MAX,
        i <= max + 1,
        !q.done_flag,
        run(q, max, i) is Some,
    ensures
        exists|m: nat| #[trigger] cycles_end(q, run(q, max, i)->0, m, max + 2 - i),
    decreases max + 1 - i,
{
    let t = cycle(q)->0;
    let pc = q.regs[15];
    let ins = spec_parse(q.mem[pc as int] as u32)->Ok_0;
    if t.done_flag {
        lemma_step_done(q.with_next((pc + 1) as i32), ins);
    }
    if i > max || t.done_flag {
        assert(cycles_end(q, run(q, max, i)->0, 1, max + 2 - i));
    } else {
        let q1 = t.with_reg(15, t.next);
        lemma_run_cycles(q1, max, (i + 1) as u32);
        let r = run(q1, max, (i + 1) as u32)->0;
        let m1 = choose|m: nat| #[trigger] cycles_end(q1, r, m, max + 2 - (i + 1));
        assert(cycle_start(q, m1) == cycle_start(q1, (m1 - 1) as nat));
        assert(cycles_end(q, r, m1 + 1, max + 2 - i));
    }
}

/// A run from address `base` is a number of cycles, at least one and at
/// most `max + 2`, the first fetched from `M[base]`; it ends before the
/// last of them only because the done flag went up, and the done flag goes
/// up only with a return to address 0.
pub proof fn law_run_cycles(s: State, max: u32, base: usize)
    requires
        s.wf(),
        max < u32::MAX,
        run(start(s, base), max, 0) is Some,
    ensures
        start(s, base).regs[15] == base as i32,
        exists|n: nat| #[trigger] cycles_end(start(s, base), run(start(s, base), max, 0)->0, n, max + 2),
{
    lemma_run_cycles(start(s, base), max, 0);
}

/// Whether branch `o` is taken after comparing `x` with `y`: BEQ on equal
/// values, BNE on different ones, BLT when `x < y`, BGE when `x >= y`, BLE
/// when `x <= y`, BGT when `x > y`, and BR always.
pub open spec fn taken_after_compare(o: BranchOpCode, x: int, y: int) -> bool {
    match o {
        BranchOpCode::BEQ => x == y,
        BranchOpCode::BNE => x != y,
        BranchOpCode::BLT => x < y,
        BranchOpCode::BGE => x >= y,
        BranchOpCode::BLE => x <= y,
        BranchOpCode::BGT => x > y,
        _ => true,
    }
}

/// A comparison followed by a branch: after `CMP` of `R[b]` with `R[c]`, or
/// `CMPI` of `R[b]` with `im`, a branch jumps to `R[15] + disp` exactly when
/// its relation holds of the two values, and otherwise leaves `next` as it
/// was; the comparison changes nothing but the flags.
pub proof fn law_compare_then_branch(s: State, a: usize, b: usize, c: usize, im: i32, o: BranchOpCode, disp: i32)
    requires
        s.wf(),
        a < 16,
        b < 16,
        c < 16,
        fits_i32(s.regs[15] + disp),
        o != BranchOpCode::BSR,
        o != BranchOpCode::RET,
    ensures
        s.step(Instruction::Register { o: RegisterOpCode::CMP, a, b, c }) matches Some(t) && t.regs == s.regs
            && t.mem == s.mem && t.next == s.next && t.step(Instruction::Branch { o, disp }) == if taken_after_compare(
            o,
            s.regs[b as int] as int,
            s.regs[c as int] as int,
        ) {
            Some(t.with_next((s.regs[15] + disp) as i32))
        } else {
            Some(t)
        },
        s.step(Instruction::RegisterIm { o: RegisterImOpCode::CMPI, a, b, im }) matches Some(t) && t.regs == s.regs
            && t.mem == s.mem && t.next == s.next && t.step(Instruction::Branch { o, disp }) == if taken_after_compare(
            o,
            s.regs[b as int] as int,
            im as int,
        ) {
            Some(t.with_next((s.regs[15] + disp) as i32))
        } else {
            Some(t)
        },
{
}

/// The arithmetic of the machine: `MOV` sets `R[a]` to `R[c]` shifted left
/// by `b` places and `MVN` to its negation, `MOVI` and `MVNI` do the same
/// with `im`; `ADD`, `SUB`, `MUL`, `DIV` and `MOD` set
/// `R[a]` to the sum, difference, product, truncated quotient and remainder
/// of `R[b]` and `R[c]`, and their immediate forms do the same with `im`,
/// where the result fits in a word; nothing else changes.
pub proof fn law_arithmetic(s: State, a: usize, b: usize, c: usize, im: i32)
    requires
        s.wf(),
        a < 16,
        b < 16,
        c < 16,
    ensures
        b < 32 ==> s.step(Instruction::Register { o: RegisterOpCode::MOV, a, b, c }) == Some(
            s.with_reg(a as int, s.regs[c as int] << b),
        ),
        b < 32 ==> s.step(Instruction::RegisterIm { o: RegisterImOpCode::MOVI, a, b, im }) == Some(
            s.with_reg(a as int, im << b),
        ),
        b < 32 && (s.regs[c as int] << b) != i32::MIN ==> s.step(Instruction::Register { o: RegisterOpCode::MVN, a, b, c })
            == Some(s.with_reg(a as int, (-(s.regs[c as int] << b)) as i32)),
        b < 32 && (im << b) != i32::MIN ==> s.step(Instruction::RegisterIm { o: RegisterImOpCode::MVNI, a, b, im })
            == Some(s.with_reg(a as int, (-(im << b)) as i32)),
        ({
            let x = s.regs[b as int] as int;
            let y = s.regs[c as int] as int;
            &&& fits_i32(x + y) ==> s.step(Instruction::Register { o: RegisterOpCode::ADD, a, b, c }) == Some(
                s.with_reg(a as int, (x + y) as i32),
            )
            &&& fits_i32(x - y) ==> s.step(Instruction::Register { o: RegisterOpCode::SUB, a, b, c }) == Some(
                s.with_reg(a as int, (x - y) as i32),
            )
            &&& fits_i32(x * y) ==> s.step(Instruction::Register { o: RegisterOpCode::MUL, a, b, c }) == Some(
                s.with_reg(a as int, (x * y) as i32),
            )
            &&& y != 0 && !(x == i32::MIN && y == -1) && fits_i32(div_trunc(x, y)) ==> s.step(Instruction::Register { o: RegisterOpCode::DIV, a, b, c })
                == Some(s.with_reg(a as int, div_trunc(x, y) as i32))
            &&& y != 0 && !(x == i32::MIN && y == -1) && fits_i32(rem_trunc(x, y)) ==> s.step(Instruction::Register { o: RegisterOpCode::MOD, a, b, c })
                == Some(s.with_reg(a as int, rem_trunc(x, y) as i32))
        }),
        ({
            let x = s.regs[b as int] as int;
            let y = im as int;
            &&& fits_i32(x + y) ==> s.step(Instruction::RegisterIm { o: RegisterImOpCode::ADDI, a, b, im }) == Some(
                s.with_reg(a as int, (x + y) as i32),
            )
            &&& fits_i32(x - y) ==> s.step(Instruction::RegisterIm { o: RegisterImOpCode::SUBI, a, b, im }) == Some(
                s.with_reg(a as int, (x - y) as i32),
            )
            &&& fits_i32(x * y) ==> s.step(Instruction::RegisterIm { o: RegisterImOpCode::MULI, a, b, im }) == Some(
                s.with_reg(a as int, (x * y) as i32),
            )
            &&& y != 0 && !(x == i32::MIN && y == -1) && fits_i32(div_trunc(x, y)) ==> s.step(
                Instruction::RegisterIm { o: RegisterImOpCode::DIVI, a, b, im },
            ) == Some(s.with_reg(a as int, div_trunc(x, y) as i32))
            &&& y != 0 && !(x == i32::MIN && y == -1) && fits_i32(rem_trunc(x, y)) ==> s.step(
                Instruction::RegisterIm { o: RegisterImOpCode::MODI, a, b, im },
            ) == Some(s.with_reg(a as int, rem_trunc(x, y) as i32))
        }),
{
}

} // verus!
