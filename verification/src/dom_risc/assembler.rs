//! An assembler for the RISC machine.
//!
//! A program is a text of lines. A line that is empty or starts with `*` is a
//! comment; `#NAME value` defines a symbol; any other line holds an
//! instruction, `OP params`, which an `@LABEL` may precede. Parameters are
//! separated by commas: registers `R0` to `R15`, numbers, `#` symbols, and for
//! branches `@` labels, which become offsets from the branch.
//!
//! Assembling goes over the text twice: first to give each label the index
//! of its instruction, then to translate the lines in order.

use vstd::prelude::*;

use crate::dom_risc::instructions::{BranchCondition, Instruction, MemoryMode, OpCode};
use crate::symbols::SymbolTable;
use crate::text::{
    before, before_exec,
    chars_of, eq_lit, fields, fields_exec, lemma_lines_len, lines, lines_exec, parse_i32,
    parse_i32_exec, parse_u32, parse_u32_exec, slice_of, starts_with, starts_with_exec,
    string_from_chars, trim_end, trim_end_exec,
    trim_start, trim_start_exec, words, words_exec,
};

verus! {

pub struct Assembler {
    pub instructions: Vec<Instruction>,
    // Labels like @BAR, with the index of their instruction.
    pub instruction_indexes: SymbolTable<i32>,
    // Symbols like #FOO, with their values.
    pub symbols: SymbolTable<u32>,
    // The line being translated.
    pub line_index: u32,
}

#[derive(Debug, Copy, Clone, PartialEq, Eq, Structural)]
pub enum ParseError {
    SyntaxError { line_index: u32 },
}

#[derive(Debug, Copy, Clone, PartialEq, Eq, Structural)]
pub enum ParseResult {
    Comment,
    SymbolDef,
    Instruction,
}

#[derive(Debug, Copy, Clone, PartialEq, Eq, Structural)]
pub enum AssembleResult {
    Program,
}

#[derive(Debug, Clone, PartialEq, Eq)]
pub enum AssembleError {
    SyntaxError { line_index: u32, line: String },
}

/// The state of an assembler, as a mathematical value.
pub struct AsmState {
    pub instructions: Seq<Instruction>,
    pub instruction_indexes: Map<Seq<char>, i32>,
    pub symbols: Map<Seq<char>, u32>,
    pub line_index: u32,
}

impl View for Assembler {
    type V = AsmState;

    open spec fn view(&self) -> AsmState {
        AsmState {
            instructions: self.instructions@,
            instruction_indexes: self.instruction_indexes@,
            symbols: self.symbols@,
            line_index: self.line_index,
        }
    }
}

pub open spec fn fits_i32(x: int) -> bool {
    i32::MIN <= x <= i32::MAX
}

/// A line without its leading whitespace, without its first `;` and all
/// that follows (a comment), and without the whitespace before that.
pub open spec fn trimmed(line: Seq<char>) -> Seq<char> {
    trim_end(before(trim_start(line), ';'))
}

/// Register `Rn`, for `n` below 16.
pub open spec fn spec_register(s: Seq<char>) -> Option<usize> {
    if s.len() > 0 && s[0] == 'R' {
        match parse_u32(s.drop_first()) {
            Some(c) => if c < 16 {
                Some(c as usize)
            } else {
                None
            },
            None => None,
        }
    } else {
        None
    }
}

/// An immediate value: a symbol's value or a decimal number.
pub open spec fn spec_im(st: AsmState, s: Seq<char>) -> Option<i32> {
    if st.symbols.contains_key(s) {
        Some(st.symbols[s] as i32)
    } else {
        parse_i32(s)
    }
}

/// The distance from the instruction at `index` to label `s`, one less when
/// it goes backwards.
pub open spec fn label_offset(st: AsmState, index: u32, s: Seq<char>) -> int {
    let offset = st.instruction_indexes[s] - (index as i32);
    if offset < 0 {
        offset - 1
    } else {
        offset
    }
}

/// Where the offset to a label does not fit a word, which Rust's arithmetic
/// refuses.
pub open spec fn offset_overflows(st: AsmState, index: u32, s: Seq<char>) -> bool {
    st.instruction_indexes.contains_key(s) && !(fits_i32(
        st.instruction_indexes[s] - (index as i32),
    ) && fits_i32(label_offset(st, index, s)))
}

/// A branch offset: to a label, a symbol's value, or a decimal number.
pub open spec fn spec_branch_offset(st: AsmState, index: u32, s: Seq<char>) -> Option<i32> {
    if st.instruction_indexes.contains_key(s) {
        Some(label_offset(st, index, s) as i32)
    } else if st.symbols.contains_key(s) {
        Some(st.symbols[s] as i32)
    } else {
        parse_i32(s)
    }
}

pub open spec fn spec_a_c(s: Seq<char>) -> Option<(usize, usize)> {
    let f = fields(s, ',');
    if f.len() >= 2 && spec_register(f[0]) is Some && spec_register(f[1]) is Some {
        Some((spec_register(f[0])->0, spec_register(f[1])->0))
    } else {
        None
    }
}

pub open spec fn spec_a_im(st: AsmState, s: Seq<char>) -> Option<(usize, i32)> {
    let f = fields(s, ',');
    if f.len() >= 2 && spec_register(f[0]) is Some && spec_im(st, f[1]) is Some {
        Some((spec_register(f[0])->0, spec_im(st, f[1])->0))
    } else {
        None
    }
}

pub open spec fn spec_a_b_c(s: Seq<char>) -> Option<(usize, usize, usize)> {
    let f = fields(s, ',');
    if f.len() >= 3 && spec_register(f[0]) is Some && spec_register(f[1]) is Some && spec_register(
        f[2],
    ) is Some {
        Some((spec_register(f[0])->0, spec_register(f[1])->0, spec_register(f[2])->0))
    } else {
        None
    }
}

pub open spec fn spec_a_b_im(st: AsmState, s: Seq<char>) -> Option<(usize, usize, i32)> {
    let f = fields(s, ',');
    if f.len() >= 3 && spec_register(f[0]) is Some && spec_register(f[1]) is Some && spec_im(
        st,
        f[2],
    ) is Some {
        Some((spec_register(f[0])->0, spec_register(f[1])->0, spec_im(st, f[2])->0))
    } else {
        None
    }
}

/// The register operation that `s` names.
pub open spec fn spec_register_opcode(s: Seq<char>) -> Option<OpCode> {
    if s == "MOV"@ {
        Some(OpCode::MOV)
    } else if s == "LSL"@ {
        Some(OpCode::LSL)
    } else if s == "ASR"@ {
        Some(OpCode::ASR)
    } else if s == "ROR"@ {
        Some(OpCode::ROR)
    } else if s == "AND"@ {
        Some(OpCode::AND)
    } else if s == "ANN"@ {
        Some(OpCode::ANN)
    } else if s == "IOR"@ {
        Some(OpCode::IOR)
    } else if s == "XOR"@ {
        Some(OpCode::XOR)
    } else if s == "ADD"@ {
        Some(OpCode::ADD)
    } else if s == "SUB"@ {
        Some(OpCode::SUB)
    } else if s == "MUL"@ {
        Some(OpCode::MUL)
    } else if s == "DIV"@ {
        Some(OpCode::DIV)
    } else if s == "MOD"@ {
        Some(OpCode::MOD)
    } else {
        None
    }
}

/// The condition and link flag of the branch mnemonic `s`.
pub open spec fn spec_condition_link(s: Seq<char>) -> Option<(BranchCondition, bool)> {
    if s == "BMI"@ {
        Some((BranchCondition::MI, false))
    } else if s == "BEQ"@ {
        Some((BranchCondition::EQ, false))
    } else if s == "BLT"@ {
        Some((BranchCondition::LT, false))
    } else if s == "BLE"@ {
        Some((BranchCondition::LE, false))
    } else if s == "B"@ {
        Some((BranchCondition::AW, false))
    } else if s == "BPL"@ {
        Some((BranchCondition::PL, false))
    } else if s == "BNE"@ {
        Some((BranchCondition::NE, false))
    } else if s == "BGE"@ {
        Some((BranchCondition::GE, false))
    } else if s == "BGT"@ {
        Some((BranchCondition::GT, false))
    } else if s == "BMIL"@ {
        Some((BranchCondition::MI, true))
    } else if s == "BEQL"@ {
        Some((BranchCondition::EQ, true))
    } else if s == "BLTL"@ {
        Some((BranchCondition::LT, true))
    } else if s == "BLEL"@ {
        Some((BranchCondition::LE, true))
    } else if s == "BL"@ {
        Some((BranchCondition::AW, true))
    } else if s == "BPLL"@ {
        Some((BranchCondition::PL, true))
    } else if s == "BNEL"@ {
        Some((BranchCondition::NE, true))
    } else if s == "BGEL"@ {
        Some((BranchCondition::GE, true))
    } else if s == "BGTL"@ {
        Some((BranchCondition::GT, true))
    } else {
        None
    }
}

/// A register instruction with operation `o`: `MOV a,c` or `MOV a,im`, and
/// `OP a,b,c` or `OP a,b,im` for the others.
pub open spec fn register_form(st: AsmState, o: OpCode, params: Seq<char>) -> Option<Instruction> {
    if o == OpCode::MOV {
        match spec_a_c(params) {
            Some((a, c)) => Some(Instruction::Register { o, a, b: 0, c }),
            None => match spec_a_im(st, params) {
                Some((a, im)) => Some(Instruction::RegisterIm { o, a, b: 0, im }),
                None => None,
            },
        }
    } else {
        match spec_a_b_c(params) {
            Some((a, b, c)) => Some(Instruction::Register { o, a, b, c }),
            None => match spec_a_b_im(st, params) {
                Some((a, b, im)) => Some(Instruction::RegisterIm { o, a, b, im }),
                None => None,
            },
        }
    }
}

/// `LDW a,b,off` and `STW a,b,off`; a negative offset is an error.
pub open spec fn memory_form(st: AsmState, op: Seq<char>, params: Seq<char>) -> Option<
    Result<Instruction, ()>,
> {
    if op == "LDW"@ || op == "STW"@ {
        match spec_a_b_im(st, params) {
            Some((a, b, im)) => if im < 0 {
                Some(Err(()))
            } else {
                Some(
                    Ok(
                        Instruction::Memory {
                            u: if op == "STW"@ {
                                MemoryMode::Store
                            } else {
                                MemoryMode::Load
                            },
                            a,
                            b,
                            offset: im as u32,
                        },
                    ),
                )
            },
            None => None,
        }
    } else {
        None
    }
}

/// A branch to a register, or by an offset.
pub open spec fn branch_form(st: AsmState, index: u32, op: Seq<char>, params: Seq<char>) -> Option<
    Instruction,
> {
    match spec_condition_link(op) {
        Some((cond, link)) => match spec_register(params) {
            Some(c) => Some(Instruction::Branch { cond, link, c }),
            None => match spec_branch_offset(st, index, params) {
                Some(offset) => Some(Instruction::BranchOff { cond, link, offset }),
                None => None,
            },
        },
        None => None,
    }
}

/// The instruction that operation `op` with parameters `params` stands for,
/// when it is the instruction at `index`.
pub open spec fn spec_op_params(st: AsmState, index: u32, op: Seq<char>, params: Seq<char>) -> Result<
    Instruction,
    (),
> {
    match spec_register_opcode(op) {
        Some(o) if register_form(st, o, params) is Some => Ok(register_form(st, o, params)->0),
        _ => match memory_form(st, op, params) {
            Some(r) => r,
            None => match branch_form(st, index, op, params) {
                Some(i) => Ok(i),
                None => Err(()),
            },
        },
    }
}

/// Where translating `op params` computes a label offset that does not fit.
pub open spec fn op_params_overflows(st: AsmState, index: u32, op: Seq<char>, params: Seq<char>) -> bool {
    &&& !(spec_register_opcode(op) is Some && register_form(st, spec_register_opcode(op)->0, params) is Some)
    &&& memory_form(st, op, params) is None
    &&& spec_condition_link(op) is Some
    &&& spec_register(params) is None
    &&& offset_overflows(st, index, params)
}

/// The words of an instruction line that give the operation and its
/// parameters, after a label if there is one.
pub open spec fn op_and_params(line: Seq<char>) -> Option<(Seq<char>, Seq<char>)> {
    let t = words(line);
    if t.len() >= 1 && starts_with(t[0], '@') {
        if t.len() >= 3 {
            Some((t[1], t[2]))
        } else {
            None
        }
    } else if t.len() >= 2 {
        Some((t[0], t[1]))
    } else {
        None
    }
}

/// The instruction on a line.
pub open spec fn spec_instruction(st: AsmState, line: Seq<char>) -> Result<Instruction, ParseError> {
    match op_and_params(line) {
        Some((op, params)) => match spec_op_params(st, st.instructions.len() as u32, op, params) {
            Ok(i) => Ok(i),
            Err(_) => Err(ParseError::SyntaxError { line_index: st.line_index }),
        },
        None => Err(ParseError::SyntaxError { line_index: st.line_index }),
    }
}

pub open spec fn instruction_overflows(st: AsmState, line: Seq<char>) -> bool {
    match op_and_params(line) {
        Some((op, params)) => op_params_overflows(st, st.instructions.len() as u32, op, params),
        None => false,
    }
}

/// Whether a trimmed line is a comment.
pub open spec fn is_comment(l: Seq<char>) -> bool {
    l.len() == 0 || starts_with(l, '*')
}

/// A symbol definition `#NAME value`.
pub open spec fn spec_symbol_def(st: AsmState, line_index: u32, l: Seq<char>) -> (AsmState, Result<
    ParseResult,
    ParseError,
>) {
    let t = words(l);
    if t.len() >= 2 && parse_u32(t[1]) is Some {
        (
            AsmState { symbols: st.symbols.insert(t[0], parse_u32(t[1])->0), ..st },
            Ok(ParseResult::SymbolDef),
        )
    } else {
        (st, Err(ParseError::SyntaxError { line_index }))
    }
}

/// The state after a line, and what the line was.
pub open spec fn spec_parse_line(st: AsmState, line_index: u32, line: Seq<char>) -> (AsmState, Result<
    ParseResult,
    ParseError,
>) {
    let l = trimmed(line);
    if is_comment(l) {
        (st, Ok(ParseResult::Comment))
    } else if starts_with(l, '#') {
        spec_symbol_def(st, line_index, l)
    } else {
        match spec_instruction(st, l) {
            Ok(i) => (
                AsmState { instructions: st.instructions.push(i), ..st },
                Ok(ParseResult::Instruction),
            ),
            Err(_) => (st, Err(ParseError::SyntaxError { line_index })),
        }
    }
}

pub open spec fn line_overflows(st: AsmState, line: Seq<char>) -> bool {
    let l = trimmed(line);
    !is_comment(l) && !starts_with(l, '#') && instruction_overflows(st, l)
}

/// The labels of the lines, each with the index of its instruction, counted
/// from `count`, added to `ii`.
pub open spec fn index_labels(ii: Map<Seq<char>, i32>, lines: Seq<Seq<char>>, count: int) -> Map<
    Seq<char>,
    i32,
>
    decreases lines.len(),
{
    if lines.len() == 0 {
        ii
    } else {
        let l = trimmed(lines[0]);
        if is_comment(l) || starts_with(l, '#') {
            index_labels(ii, lines.drop_first(), count)
        } else {
            let t = words(lines[0]);
            let ii2 = if t.len() > 0 && starts_with(t[0], '@') {
                ii.insert(t[0], count as u32 as i32)
            } else {
                ii
            };
            index_labels(ii2, lines.drop_first(), count + 1)
        }
    }
}

/// The state after the lines from `k` on, and either success or the index
/// and text of the first line in error.
pub open spec fn translate_lines(st: AsmState, lines: Seq<Seq<char>>, k: int) -> (AsmState, Result<
    AssembleResult,
    (u32, Seq<char>),
>)
    decreases lines.len() - k,
{
    if k >= lines.len() || k < 0 {
        (st, Ok(AssembleResult::Program))
    } else {
        let st1 = AsmState { line_index: k as u32, ..st };
        let (st2, r) = spec_parse_line(st1, k as u32, lines[k]);
        match r {
            Err(ParseError::SyntaxError { line_index }) => (st2, Err((line_index, lines[k]))),
            Ok(_) => translate_lines(st2, lines, k + 1),
        }
    }
}

pub open spec fn translate_overflows(st: AsmState, lines: Seq<Seq<char>>, k: int) -> bool
    decreases lines.len() - k,
{
    if k >= lines.len() || k < 0 {
        false
    } else {
        let st1 = AsmState { line_index: k as u32, ..st };
        let (st2, r) = spec_parse_line(st1, k as u32, lines[k]);
        line_overflows(st1, lines[k]) || (r is Ok && translate_overflows(st2, lines, k + 1))
    }
}

/// The state once the labels of `program` are known.
pub open spec fn with_labels(st: AsmState, program: Seq<char>) -> AsmState {
    AsmState { instruction_indexes: index_labels(st.instruction_indexes, lines(program), 0), ..st }
}

/// Assembling `program` from state `st`.
pub open spec fn spec_assemble(st: AsmState, program: Seq<char>) -> (AsmState, Result<
    AssembleResult,
    (u32, Seq<char>),
>) {
    translate_lines(with_labels(st, program), lines(program), 0)
}

pub open spec fn assemble_overflows(st: AsmState, program: Seq<char>) -> bool {
    translate_overflows(with_labels(st, program), lines(program), 0)
}

/// The view of an assembly result.
pub open spec fn result_view(r: Result<AssembleResult, AssembleError>) -> Result<
    AssembleResult,
    (u32, Seq<char>),
> {
    match r {
        Ok(p) => Ok(p),
        Err(AssembleError::SyntaxError { line_index, line }) => Err((line_index, line@)),
    }
}

impl Assembler {
    pub fn new() -> (a: Assembler)
        ensures
            a@.instructions.len() == 0,
            a@.instruction_indexes == Map::<Seq<char>, i32>::empty(),
            a@.symbols == Map::<Seq<char>, u32>::empty(),
            a@.line_index == 0,
    {
        Assembler {
            instructions: Vec::new(),
            symbols: SymbolTable::new(),
            instruction_indexes: SymbolTable::new(),
            line_index: 0,
        }
    }

    /// Assembles `program`, appending its instructions.
    pub fn assemble(&mut self, program: &str) -> (r: Result<AssembleResult, AssembleError>)
        requires
            program@.len() <= u32::MAX,
            !assemble_overflows(old(self)@, program@),
        ensures
            (final(self)@, result_view(r)) == spec_assemble(old(self)@, program@),
    {
        let text = chars_of(program);
        let ls = lines_exec(&text);
        proof {
            lemma_lines_len(program@);
        }
        let ghost all = lines(program@);
        let mut instruction_index: u32 = 0;
        let mut k: usize = 0;
        assert(all.skip(0) =~= all);
        while k < ls.len()
            invariant
                k <= ls.len() <= u32::MAX,
                instruction_index <= k,
                all == crate::text::views(ls@),
                self.instructions@ == old(self).instructions@,
                self.symbols@ == old(self).symbols@,
                self.line_index == old(self).line_index,
                index_labels(old(self)@.instruction_indexes, all, 0) == index_labels(
                    self.instruction_indexes@,
                    all.skip(k as int),
                    instruction_index as int,
                ),
            decreases ls.len() - k,
        {
            let ghost rest = all.skip(k as int);
            assert(rest.drop_first() =~= all.skip(k + 1));
            assert(rest[0] == ls@[k as int]@);
            let line = &ls[k];
            let l = trim_end_exec(&before_exec(&trim_start_exec(line), ';'));
            if l.len() == 0 || starts_with_exec(&l, '*') || starts_with_exec(&l, '#') {
            } else {
                let tokens = words_exec(line);
                if tokens.len() > 0 && starts_with_exec(&tokens[0], '@') {
                    let label = slice_of(&tokens[0], 0, tokens[0].len());
                    assert(label@ =~= tokens@[0]@);
                    self.instruction_indexes.insert_chars(label, instruction_index as i32);
                }
                instruction_index = instruction_index + 1;
            }
            k = k + 1;
        }
        assert(self@ == with_labels(old(self)@, program@)) by {
            assert(all.skip(k as int) =~= Seq::<Seq<char>>::empty());
        }
        let ghost st0 = self@;
        let mut k: usize = 0;
        while k < ls.len()
            invariant
                k <= ls.len() <= u32::MAX,
                all == crate::text::views(ls@),
                all == lines(program@),
                st0 == with_labels(old(self)@, program@),
                translate_lines(st0, all, 0) == translate_lines(self@, all, k as int),
                !translate_overflows(self@, all, k as int),
            decreases ls.len() - k,
        {
            let ghost s_prev = self@;
            self.line_index = k as u32;
            let line = &ls[k];
            assert(all[k as int] == line@);
            let parsed = self.parse_line_chars(k as u32, line);
            match parsed {
                Err(ParseError::SyntaxError { line_index: error_line_index }) => {
                    assert(translate_lines(s_prev, all, k as int) == (
                        self@,
                        Err::<AssembleResult, (u32, Seq<char>)>((error_line_index, line@)),
                    ));
                    let text_line = string_from_chars(line);
                    let e = AssembleError::SyntaxError { line_index: error_line_index, line: text_line };
                    assert(result_view(Err(e)) == Err::<AssembleResult, (u32, Seq<char>)>((error_line_index, line@)));
                    return Err(e);
                },
                Ok(_) => {},
            }
            k = k + 1;
        }
        Ok(AssembleResult::Program)
    }

    /// Translates one line: a comment, a symbol definition or an instruction,
    /// which is appended.
    pub fn parse_line(&mut self, line_index: u32, line: &str) -> (r: Result<ParseResult, ParseError>)
        requires
            !line_overflows(old(self)@, line@),
        ensures
            (final(self)@, r) == spec_parse_line(old(self)@, line_index, line@),
    {
        let v = chars_of(line);
        self.parse_line_chars(line_index, &v)
    }

    fn parse_line_chars(&mut self, line_index: u32, line: &Vec<char>) -> (r: Result<
        ParseResult,
        ParseError,
    >)
        requires
            !line_overflows(old(self)@, line@),
        ensures
            (final(self)@, r) == spec_parse_line(old(self)@, line_index, line@),
    {
        let l = trim_end_exec(&before_exec(&trim_start_exec(line), ';'));
        if l.len() == 0 || starts_with_exec(&l, '*') {
            return Ok(ParseResult::Comment);
        } else if starts_with_exec(&l, '#') {
            return self.parse_symbol_def(line_index, &l);
        }
        if let Ok(instruction) = self.parse_instruction_chars(&l) {
            self.instructions.push(instruction);
            return Ok(ParseResult::Instruction);
        }
        Err(ParseError::SyntaxError { line_index })
    }

    fn parse_symbol_def(&mut self, line_index: u32, line: &Vec<char>) -> (r: Result<
        ParseResult,
        ParseError,
    >)
        ensures
            (final(self)@, r) == spec_symbol_def(old(self)@, line_index, line@),
    {
        let tokens = words_exec(line);
        if tokens.len() >= 2 {
            if let Some(value) = parse_u32_exec(&tokens[1]) {
                let symbol = slice_of(&tokens[0], 0, tokens[0].len());
                assert(symbol@ =~= tokens@[0]@);
                self.symbols.insert_chars(symbol, value);
                return Ok(ParseResult::SymbolDef);
            }
        }
        Err(ParseError::SyntaxError { line_index })
    }

    /// The instruction on a line, which is the instruction at index
    /// `instructions.len()`.
    pub fn parse_instruction(&mut self, line: &str) -> (r: Result<Instruction, ParseError>)
        requires
            !instruction_overflows(old(self)@, line@),
        ensures
            final(self)@ == old(self)@,
            r == spec_instruction(old(self)@, line@),
    {
        let v = chars_of(line);
        self.parse_instruction_chars(&v)
    }

    fn parse_instruction_chars(&self, line: &Vec<char>) -> (r: Result<Instruction, ParseError>)
        requires
            !instruction_overflows(self@, line@),
        ensures
            r == spec_instruction(self@, line@),
    {
        let tokens = words_exec(line);
        let instruction_index = self.instructions.len() as u32;
        if tokens.len() >= 1 {
            if starts_with_exec(&tokens[0], '@') {
                if tokens.len() >= 3 {
                    return self.parse_op_params(instruction_index, &tokens[1], &tokens[2]);
                }
            } else if tokens.len() >= 2 {
                return self.parse_op_params(instruction_index, &tokens[0], &tokens[1]);
            }
        }
        self.syntax_error()
    }

    fn parse_op_params(&self, instruction_index: u32, op: &Vec<char>, params: &Vec<char>) -> (r: Result<
        Instruction,
        ParseError,
    >)
        requires
            !op_params_overflows(self@, instruction_index, op@, params@),
        ensures
            r == (match spec_op_params(self@, instruction_index, op@, params@) {
                Ok(i) => Ok(i),
                Err(_) => Err(ParseError::SyntaxError { line_index: self.line_index }),
            }),
    {
        if let Some(o) = self.parse_register_opcode(op) {
            if o == OpCode::MOV {
                if let Some((a, c)) = self.parse_a_c(params) {
                    return Ok(Instruction::Register { o, a, b: 0, c });
                }
                if let Some((a, im)) = self.parse_a_im(params) {
                    return Ok(Instruction::RegisterIm { o, a, b: 0, im });
                }
            } else {
                if let Some((a, b, c)) = self.parse_a_b_c(params) {
                    return Ok(Instruction::Register { o, a, b, c });
                }
                if let Some((a, b, im)) = self.parse_a_b_im(params) {
                    return Ok(Instruction::RegisterIm { o, a, b, im });
                }
            }
        }
        if eq_lit(op, "LDW") || eq_lit(op, "STW") {
            if let Some((a, b, im)) = self.parse_a_b_im(params) {
                if im < 0 {
                    return self.syntax_error();
                }
                let mut mode = MemoryMode::Load;
                if eq_lit(op, "STW") {
                    mode = MemoryMode::Store;
                }
                return Ok(Instruction::Memory { u: mode, a, b, offset: im as u32 });
            }
        }
        if let Some((cond, link)) = self.parse_condition_link(op) {
            if let Some(c) = self.parse_register(params) {
                return Ok(Instruction::Branch { cond, link, c });
            }
            if let Some(offset) = self.parse_branch_offset(instruction_index, params) {
                return Ok(Instruction::BranchOff { cond, link, offset });
            }
        }
        self.syntax_error()
    }

    fn parse_a_im(&self, s: &Vec<char>) -> (r: Option<(usize, i32)>)
        ensures
            r == spec_a_im(self@, s@),
    {
        let split = fields_exec(s, ',');
        if split.len() >= 2 {
            if let (Some(a), Some(im)) = (self.parse_register(&split[0]), self.parse_im(&split[1])) {
                return Some((a, im));
            }
        }
        None
    }

    fn parse_a_b_c(&self, s: &Vec<char>) -> (r: Option<(usize, usize, usize)>)
        ensures
            r == spec_a_b_c(s@),
    {
        let split = fields_exec(s, ',');
        if split.len() >= 3 {
            if let (Some(a), Some(b), Some(c)) = (
                self.parse_register(&split[0]),
                self.parse_register(&split[1]),
                self.parse_register(&split[2]),
            ) {
                return Some((a, b, c));
            }
        }
        None
    }

    fn parse_a_b_im(&self, s: &Vec<char>) -> (r: Option<(usize, usize, i32)>)
        ensures
            r == spec_a_b_im(self@, s@),
    {
        let split = fields_exec(s, ',');
        if split.len() >= 3 {
            if let (Some(a), Some(b), Some(im)) = (
                self.parse_register(&split[0]),
                self.parse_register(&split[1]),
                self.parse_im(&split[2]),
            ) {
                return Some((a, b, im));
            }
        }
        None
    }

    fn parse_a_c(&self, s: &Vec<char>) -> (r: Option<(usize, usize)>)
        ensures
            r == spec_a_c(s@),
    {
        let split = fields_exec(s, ',');
        if split.len() >= 2 {
            if let (Some(a), Some(c)) = (self.parse_register(&split[0]), self.parse_register(&split[1])) {
                return Some((a, c));
            }
        }
        None
    }

    fn parse_register(&self, s: &Vec<char>) -> (r: Option<usize>)
        ensures
            r == spec_register(s@),
    {
        if s.len() > 0 && s[0] == 'R' {
            let remainer = slice_of(s, 1, s.len());
            assert(remainer@ =~= s@.drop_first());
            if let Some(c) = parse_u32_exec(&remainer) {
                if c < 16 {
                    return Some(c as usize);
                }
            }
        }
        None
    }

    fn parse_im(&self, s: &Vec<char>) -> (r: Option<i32>)
        ensures
            r == spec_im(self@, s@),
    {
        if let Some(symbol) = self.symbols.get_chars(s) {
            return Some(symbol as i32);
        }
        parse_i32_exec(s)
    }

    fn parse_branch_offset(&self, instruction_index: u32, s: &Vec<char>) -> (r: Option<i32>)
        requires
            !offset_overflows(self@, instruction_index, s@),
        ensures
            r == spec_branch_offset(self@, instruction_index, s@),
    {
        if let Some(param_instruction_index) = self.instruction_indexes.get_chars(s) {
            let offset: i32 = param_instruction_index - instruction_index as i32;
            if offset < 0 {
                return Some(offset - 1);
            } else {
                return Some(offset);
            }
        }
        if let Some(symbol) = self.symbols.get_chars(s) {
            return Some(symbol as i32);
        }
        parse_i32_exec(s)
    }

    fn syntax_error(&self) -> (r: Result<Instruction, ParseError>)
        ensures
            r == Err::<Instruction, ParseError>(ParseError::SyntaxError { line_index: self.line_index }),
    {
        Err(ParseError::SyntaxError { line_index: self.line_index })
    }

    fn parse_register_opcode(&self, s: &Vec<char>) -> (r: Option<OpCode>)
        ensures
            r == spec_register_opcode(s@),
    {
        if eq_lit(s, "MOV") {
            Some(OpCode::MOV)
        } else if eq_lit(s, "LSL") {
            Some(OpCode::LSL)
        } else if eq_lit(s, "ASR") {
            Some(OpCode::ASR)
        } else if eq_lit(s, "ROR") {
            Some(OpCode::ROR)
        } else if eq_lit(s, "AND") {
            Some(OpCode::AND)
        } else if eq_lit(s, "ANN") {
            Some(OpCode::ANN)
        } else if eq_lit(s, "IOR") {
            Some(OpCode::IOR)
        } else if eq_lit(s, "XOR") {
            Some(OpCode::XOR)
        } else if eq_lit(s, "ADD") {
            Some(OpCode::ADD)
        } else if eq_lit(s, "SUB") {
            Some(OpCode::SUB)
        } else if eq_lit(s, "MUL") {
            Some(OpCode::MUL)
        } else if eq_lit(s, "DIV") {
            Some(OpCode::DIV)
        } else if eq_lit(s, "MOD") {
            Some(OpCode::MOD)
        } else {
            None
        }
    }

    fn parse_condition_link(&self, s: &Vec<char>) -> (r: Option<(BranchCondition, bool)>)
        ensures
            r == spec_condition_link(s@),
    {
        if eq_lit(s, "BMI") {
            Some((BranchCondition::MI, false))
        } else if eq_lit(s, "BEQ") {
            Some((BranchCondition::EQ, false))
        } else if eq_lit(s, "BLT") {
            Some((BranchCondition::LT, false))
        } else if eq_lit(s, "BLE") {
            Some((BranchCondition::LE, false))
        } else if eq_lit(s, "B") {
            Some((BranchCondition::AW, false))
        } else if eq_lit(s, "BPL") {
            Some((BranchCondition::PL, false))
        } else if eq_lit(s, "BNE") {
            Some((BranchCondition::NE, false))
        } else if eq_lit(s, "BGE") {
            Some((BranchCondition::GE, false))
        } else if eq_lit(s, "BGT") {
            Some((BranchCondition::GT, false))
        } else if eq_lit(s, "BMIL") {
            Some((BranchCondition::MI, true))
        } else if eq_lit(s, "BEQL") {
            Some((BranchCondition::EQ, true))
        } else if eq_lit(s, "BLTL") {
            Some((BranchCondition::LT, true))
        } else if eq_lit(s, "BLEL") {
            Some((BranchCondition::LE, true))
        } else if eq_lit(s, "BL") {
            Some((BranchCondition::AW, true))
        } else if eq_lit(s, "BPLL") {
            Some((BranchCondition::PL, true))
        } else if eq_lit(s, "BNEL") {
            Some((BranchCondition::NE, true))
        } else if eq_lit(s, "BGEL") {
            Some((BranchCondition::GE, true))
        } else if eq_lit(s, "BGTL") {
            Some((BranchCondition::GT, true))
        } else {
            None
        }
    }
}

/// The state of a new assembler.
pub open spec fn empty_state() -> AsmState {
    AsmState {
        instructions: Seq::empty(),
        instruction_indexes: Map::empty(),
        symbols: Map::empty(),
        line_index: 0,
    }
}

/// The instructions of `input`, or the first line in error.
pub fn assemble(input: &str) -> (r: Result<Vec<Instruction>, AssembleError>)
    requires
        input@.len() <= u32::MAX,
        !assemble_overflows(empty_state(), input@),
    ensures
        ({
            let (st, res) = spec_assemble(empty_state(), input@);
            match r {
                Ok(v) => res is Ok && v@ == st.instructions,
                Err(e) => result_view(Err(e)) == res,
            }
        }),
{
    let mut assembler = Assembler::new();
    proof {
        assert(assembler@.instructions =~= Seq::<Instruction>::empty());
        assert(assembler@ == empty_state());
    }
    match assembler.assemble(input) {
        Ok(AssembleResult::Program) => Ok(assembler.instructions),
        Err(err) => Err(err),
    }
}

/// Labels get the indices of their instructions, which are not negative.
proof fn lemma_index_labels_range(ii: Map<Seq<char>, i32>, lines: Seq<Seq<char>>, count: int)
    requires
        forall|k: Seq<char>| ii.contains_key(k) ==> 0 <= #[trigger] ii[k],
        0 <= count,
        count + lines.len() <= i32::MAX + 1,
    ensures
        forall|k: Seq<char>|
            index_labels(ii, lines, count).contains_key(k) ==> 0 <= #[trigger] index_labels(
                ii,
                lines,
                count,
            )[k],
    decreases lines.len(),
{
    if lines.len() > 0 {
        let l = trimmed(lines[0]);
        if is_comment(l) || starts_with(l, '#') {
            lemma_index_labels_range(ii, lines.drop_first(), count);
            assert(index_labels(ii, lines, count) == index_labels(ii, lines.drop_first(), count));
        } else {
            let t = words(lines[0]);
            let c32 = count as u32;
            assert(c32 == count);
            assert(c32 <= 0x7fff_ffff ==> c32 as i32 == c32) by (bit_vector);
            let ii2 = if t.len() > 0 && starts_with(t[0], '@') {
                ii.insert(t[0], count as u32 as i32)
            } else {
                ii
            };
            assert(forall|k: Seq<char>| ii2.contains_key(k) ==> 0 <= #[trigger] ii2[k]);
            lemma_index_labels_range(ii2, lines.drop_first(), count + 1);
            assert(index_labels(ii, lines, count) == index_labels(ii2, lines.drop_first(), count + 1));
        }
    }
}

/// With label indices that are not negative and fewer than `i32::MAX`
/// instructions in all, no label offset overflows.
proof fn lemma_translate_no_overflow(st: AsmState, lines: Seq<Seq<char>>, k: int)
    requires
        forall|s: Seq<char>| st.instruction_indexes.contains_key(s) ==> 0 <= #[trigger] st.instruction_indexes[s],
        0 <= k <= lines.len(),
        st.instructions.len() + (lines.len() - k) <= i32::MAX,
    ensures
        !translate_overflows(st, lines, k),
    decreases lines.len() - k,
{
    if k < lines.len() {
        let st1 = AsmState { line_index: k as u32, ..st };
        let (st2, r) = spec_parse_line(st1, k as u32, lines[k]);
        lemma_translate_no_overflow(st2, lines, k + 1);
    }
}

/// Assembling a text of at most `i32::MAX` characters computes no label
/// offset that overflows.
pub proof fn lemma_assemble_no_overflow(program: Seq<char>)
    requires
        program.len() <= i32::MAX,
    ensures
        !assemble_overflows(empty_state(), program),
{
    lemma_lines_len(program);
    lemma_index_labels_range(Map::empty(), lines(program), 0);
    lemma_translate_no_overflow(with_labels(empty_state(), program), lines(program), 0);
}

/// A line that holds an instruction: neither a comment nor a symbol
/// definition.
pub open spec fn is_instruction_line(line: Seq<char>) -> bool {
    let l = trimmed(line);
    !is_comment(l) && !starts_with(l, '#')
}

/// The number of lines that hold an instruction.
pub open spec fn instruction_lines(ls: Seq<Seq<char>>) -> nat
    decreases ls.len(),
{
    if ls.len() == 0 {
        0
    } else {
        (if is_instruction_line(ls[0]) {
            1nat
        } else {
            0nat
        }) + instruction_lines(ls.drop_first())
    }
}

/// The label that starts a line, if any.
pub open spec fn label_of(line: Seq<char>) -> Option<Seq<char>> {
    let t = words(line);
    if t.len() > 0 && starts_with(t[0], '@') {
        Some(t[0])
    } else {
        None
    }
}

proof fn lemma_translate_counts(st: AsmState, ls: Seq<Seq<char>>, k: int)
    requires
        0 <= k <= ls.len(),
        translate_lines(st, ls, k).1 is Ok,
    ensures
        translate_lines(st, ls, k).0.instructions.len() == st.instructions.len() + instruction_lines(
            ls.skip(k),
        ),
        translate_lines(st, ls, k).0.instruction_indexes == st.instruction_indexes,
    decreases ls.len() - k,
{
    if k == ls.len() {
        assert(ls.skip(k).len() == 0);
    } else {
        let st1 = AsmState { line_index: k as u32, ..st };
        let (st2, r) = spec_parse_line(st1, k as u32, ls[k]);
        lemma_translate_counts(st2, ls, k + 1);
        assert(ls.skip(k).drop_first() =~= ls.skip(k + 1));
        assert(ls.skip(k)[0] == ls[k]);
    }
}

/// A translation that goes through adds one instruction for each line that
/// holds one, and leaves the labels as they were.
pub proof fn lemma_assemble_counts_instructions(st: AsmState, program: Seq<char>)
    requires
        spec_assemble(st, program).1 is Ok,
    ensures
        spec_assemble(st, program).0.instructions.len() == st.instructions.len() + instruction_lines(
            lines(program),
        ),
        spec_assemble(st, program).0.instruction_indexes == with_labels(st, program).instruction_indexes,
{
    lemma_translate_counts(with_labels(st, program), lines(program), 0);
    assert(lines(program).skip(0) =~= lines(program));
}

proof fn lemma_index_labels_at(ii: Map<Seq<char>, i32>, ls: Seq<Seq<char>>, count: int, j: int, t: Seq<char>)
    requires
        0 <= j < ls.len(),
        is_instruction_line(ls[j]),
        label_of(ls[j]) == Some(t),
        forall|k: int| j < k < ls.len() && #[trigger] is_instruction_line(ls[k]) ==> label_of(ls[k]) != Some(t),
    ensures
        index_labels(ii, ls, count).contains_key(t),
        index_labels(ii, ls, count)[t] == (count + instruction_lines(ls.take(j))) as u32 as i32,
    decreases ls.len(),
{
    let l = trimmed(ls[0]);
    let rest = ls.drop_first();
    if j == 0 {
        assert(ls.take(0).len() == 0);
        let ii2 = ii.insert(t, count as u32 as i32);
        lemma_index_labels_keeps(ii2, rest, count + 1, t);
    } else {
        assert forall|k: int| j - 1 < k < rest.len() && #[trigger] is_instruction_line(rest[k]) implies label_of(
            rest[k],
        ) != Some(t) by {
            assert(rest[k] == ls[k + 1]);
        }
        assert(ls.take(j).drop_first() =~= rest.take(j - 1));
        assert(ls.take(j)[0] == ls[0]);
        if is_comment(l) || starts_with(l, '#') {
            lemma_index_labels_at(ii, rest, count, j - 1, t);
        } else {
            let w = words(ls[0]);
            let ii2 = if w.len() > 0 && starts_with(w[0], '@') {
                ii.insert(w[0], count as u32 as i32)
            } else {
                ii
            };
            lemma_index_labels_at(ii2, rest, count + 1, j - 1, t);
        }
    }
}

/// Lines without an instruction labelled `t` leave the index of `t`.
proof fn lemma_index_labels_keeps(ii: Map<Seq<char>, i32>, ls: Seq<Seq<char>>, count: int, t: Seq<char>)
    requires
        ii.contains_key(t),
        forall|k: int| 0 <= k < ls.len() && #[trigger] is_instruction_line(ls[k]) ==> label_of(ls[k]) != Some(t),
    ensures
        index_labels(ii, ls, count).contains_key(t),
        index_labels(ii, ls, count)[t] == ii[t],
    decreases ls.len(),
{
    if ls.len() > 0 {
        let rest = ls.drop_first();
        assert forall|k: int| 0 <= k < rest.len() && #[trigger] is_instruction_line(rest[k]) implies label_of(
            rest[k],
        ) != Some(t) by {
            assert(rest[k] == ls[k + 1]);
        }
        assert(is_instruction_line(ls[0]) ==> label_of(ls[0]) != Some(t));
        let l = trimmed(ls[0]);
        if is_comment(l) || starts_with(l, '#') {
            lemma_index_labels_keeps(ii, rest, count, t);
        } else {
            let w = words(ls[0]);
            let ii2 = if w.len() > 0 && starts_with(w[0], '@') {
                ii.insert(w[0], count as u32 as i32)
            } else {
                ii
            };
            lemma_index_labels_keeps(ii2, rest, count + 1, t);
        }
    }
}

/// A label marks its instruction: where the `j`-th line holds an instruction
/// labelled `t`, and no later instruction line carries the same label, the
/// assembled program maps `t` to the number of instruction lines before
/// line `j`, which is the index of the instruction of that line.
pub proof fn lemma_label_marks_its_instruction(program: Seq<char>, j: int, t: Seq<char>)
    requires
        0 <= j < lines(program).len(),
        is_instruction_line(lines(program)[j]),
        label_of(lines(program)[j]) == Some(t),
        forall|k: int|
            j < k < lines(program).len() && #[trigger] is_instruction_line(lines(program)[k]) ==> label_of(
                lines(program)[k],
            ) != Some(t),
    ensures
        with_labels(empty_state(), program).instruction_indexes.contains_key(t),
        with_labels(empty_state(), program).instruction_indexes[t] == instruction_lines(
            lines(program).take(j),
        ) as u32 as i32,
{
    lemma_index_labels_at(Map::empty(), lines(program), 0, j, t);
}

/// The state in which line `i` is parsed, the lines from `k` to before `i`
/// having been parsed from `st`, each with its own index.
pub open spec fn state_at_line(st: AsmState, ls: Seq<Seq<char>>, k: int, i: int) -> AsmState
    decreases i - k,
{
    if i <= k {
        st
    } else {
        let p = state_at_line(st, ls, k, i - 1);
        spec_parse_line(AsmState { line_index: (i - 1) as u32, ..p }, (i - 1) as u32, ls[i - 1]).0
    }
}

/// Whether line `i` fails, parsed in the state the lines before it left.
pub open spec fn line_fails(st: AsmState, ls: Seq<Seq<char>>, k: int, i: int) -> bool {
    let p = state_at_line(st, ls, k, i);
    spec_parse_line(AsmState { line_index: i as u32, ..p }, i as u32, ls[i]).1 is Err
}

proof fn lemma_state_at_line_shift(st: AsmState, ls: Seq<Seq<char>>, k: int, i: int)
    requires
        0 <= k < i,
    ensures
        state_at_line(st, ls, k, i) == state_at_line(
            spec_parse_line(AsmState { line_index: k as u32, ..st }, k as u32, ls[k]).0,
            ls,
            k + 1,
            i,
        ),
    decreases i - k,
{
    let st2 = spec_parse_line(AsmState { line_index: k as u32, ..st }, k as u32, ls[k]).0;
    assert(state_at_line(st, ls, k, k) == st);
    if i > k + 1 {
        lemma_state_at_line_shift(st, ls, k, i - 1);
        assert(state_at_line(st, ls, k, i) == spec_parse_line(
            AsmState { line_index: (i - 1) as u32, ..state_at_line(st, ls, k, i - 1) },
            (i - 1) as u32,
            ls[i - 1],
        ).0);
        assert(state_at_line(st2, ls, k + 1, i) == spec_parse_line(
            AsmState { line_index: (i - 1) as u32, ..state_at_line(st2, ls, k + 1, i - 1) },
            (i - 1) as u32,
            ls[i - 1],
        ).0);
    } else {
        assert(state_at_line(st2, ls, k + 1, k + 1) == st2);
    }
}

/// Translating the lines from `k` on fails exactly when one of them fails;
/// the error gives the first failing line's index and text, and the
/// instructions are those that the lines before it gave. On success the
/// state is the one that all the lines leave.
pub proof fn law_translate_stops_at_first_failing_line(st: AsmState, ls: Seq<Seq<char>>, k: int)
    requires
        0 <= k <= ls.len() <= u32::MAX,
    ensures
        match translate_lines(st, ls, k) {
            (st2, Ok(_)) => st2 == state_at_line(st, ls, k, ls.len() as int) && forall|i: int|
                k <= i < ls.len() ==> !#[trigger] line_fails(st, ls, k, i),
            (st2, Err((index, line))) => k <= index < ls.len() && line == ls[index as int] && line_fails(
                st,
                ls,
                k,
                index as int,
            ) && (forall|i: int| k <= i < index ==> !#[trigger] line_fails(st, ls, k, i))
                && st2.instructions == state_at_line(st, ls, k, index as int).instructions,
        },
    decreases ls.len() - k,
{
    if k < ls.len() {
        let st1 = AsmState { line_index: k as u32, ..st };
        let (st2, r) = spec_parse_line(st1, k as u32, ls[k]);
        assert(state_at_line(st, ls, k, k) == st);
        if r is Ok {
            law_translate_stops_at_first_failing_line(st2, ls, k + 1);
            assert forall|i: int| k < i <= ls.len() implies state_at_line(st, ls, k, i) == state_at_line(
                st2,
                ls,
                k + 1,
                i,
            ) by {
                lemma_state_at_line_shift(st, ls, k, i);
            }
            assert(state_at_line(st, ls, k, k + 1) == st2);
            assert forall|i: int| k + 1 <= i < ls.len() implies line_fails(st, ls, k, i) == line_fails(
                st2,
                ls,
                k + 1,
                i,
            ) by {
                lemma_state_at_line_shift(st, ls, k, i);
            }
        } else {
            assert(spec_parse_line(st1, k as u32, ls[k]).0.instructions == st.instructions);
        }
    }
}

/// Assembling a program fails exactly when one of its lines fails; the
/// error gives the first failing line's index and text, and the
/// instructions are those that the lines before it gave.
pub proof fn law_assemble_stops_at_first_failing_line(st: AsmState, program: Seq<char>)
    requires
        lines(program).len() <= u32::MAX,
    ensures
        match spec_assemble(st, program) {
            (st2, Ok(_)) => st2 == state_at_line(with_labels(st, program), lines(program), 0, lines(program).len() as int)
                && forall|i: int|
                0 <= i < lines(program).len() ==> !#[trigger] line_fails(with_labels(st, program), lines(program), 0, i),
            (st2, Err((index, line))) => index < lines(program).len() && line == lines(program)[index as int]
                && line_fails(with_labels(st, program), lines(program), 0, index as int) && (forall|i: int|
                0 <= i < index ==> !#[trigger] line_fails(with_labels(st, program), lines(program), 0, i))
                && st2.instructions == state_at_line(with_labels(st, program), lines(program), 0, index as int).instructions,
        },
{
    law_translate_stops_at_first_failing_line(with_labels(st, program), lines(program), 0);
}

/// Each branch mnemonic `B<cc>` assembles to the condition that `cc` names
/// (`B` alone branching always), and with a trailing `L` to the same
/// condition with a link; no two words name the same condition and link.
pub proof fn law_branch_mnemonics(w1: Seq<char>, w2: Seq<char>)
    ensures
        spec_condition_link("BMI"@) == Some((BranchCondition::MI, false)),
        spec_condition_link("BEQ"@) == Some((BranchCondition::EQ, false)),
        spec_condition_link("BLT"@) == Some((BranchCondition::LT, false)),
        spec_condition_link("BLE"@) == Some((BranchCondition::LE, false)),
        spec_condition_link("B"@) == Some((BranchCondition::AW, false)),
        spec_condition_link("BPL"@) == Some((BranchCondition::PL, false)),
        spec_condition_link("BNE"@) == Some((BranchCondition::NE, false)),
        spec_condition_link("BGE"@) == Some((BranchCondition::GE, false)),
        spec_condition_link("BGT"@) == Some((BranchCondition::GT, false)),
        spec_condition_link("BMIL"@) == Some((BranchCondition::MI, true)),
        spec_condition_link("BEQL"@) == Some((BranchCondition::EQ, true)),
        spec_condition_link("BLTL"@) == Some((BranchCondition::LT, true)),
        spec_condition_link("BLEL"@) == Some((BranchCondition::LE, true)),
        spec_condition_link("BL"@) == Some((BranchCondition::AW, true)),
        spec_condition_link("BPLL"@) == Some((BranchCondition::PL, true)),
        spec_condition_link("BNEL"@) == Some((BranchCondition::NE, true)),
        spec_condition_link("BGEL"@) == Some((BranchCondition::GE, true)),
        spec_condition_link("BGTL"@) == Some((BranchCondition::GT, true)),
        spec_condition_link(w1) is Some && spec_condition_link(w1) == spec_condition_link(w2) ==> w1 == w2,
{
    reveal_strlit("BMI");
    reveal_strlit("BEQ");
    reveal_strlit("BLT");
    reveal_strlit("BLE");
    reveal_strlit("B");
    reveal_strlit("BPL");
    reveal_strlit("BNE");
    reveal_strlit("BGE");
    reveal_strlit("BGT");
    reveal_strlit("BMIL");
    reveal_strlit("BEQL");
    reveal_strlit("BLTL");
    reveal_strlit("BLEL");
    reveal_strlit("BL");
    reveal_strlit("BPLL");
    reveal_strlit("BNEL");
    reveal_strlit("BGEL");
    reveal_strlit("BGTL");
    assert("BEQ"@[1] != "BMI"@[1]);
    assert("BLT"@[1] != "BMI"@[1]);
    assert("BLT"@[1] != "BEQ"@[1]);
    assert("BLE"@[1] != "BMI"@[1]);
    assert("BLE"@[1] != "BEQ"@[1]);
    assert("BLE"@[2] != "BLT"@[2]);
    assert("B"@.len() != "BMI"@.len());
    assert("B"@.len() != "BEQ"@.len());
    assert("B"@.len() != "BLT"@.len());
    assert("B"@.len() != "BLE"@.len());
    assert("BPL"@[1] != "BMI"@[1]);
    assert("BPL"@[1] != "BEQ"@[1]);
    assert("BPL"@[1] != "BLT"@[1]);
    assert("BPL"@[1] != "BLE"@[1]);
    assert("BPL"@.len() != "B"@.len());
    assert("BNE"@[1] != "BMI"@[1]);
    assert("BNE"@[1] != "BEQ"@[1]);
    assert("BNE"@[1] != "BLT"@[1]);
    assert("BNE"@[1] != "BLE"@[1]);
    assert("BNE"@.len() != "B"@.len());
    assert("BNE"@[1] != "BPL"@[1]);
    assert("BGE"@[1] != "BMI"@[1]);
    assert("BGE"@[1] != "BEQ"@[1]);
    assert("BGE"@[1] != "BLT"@[1]);
    assert("BGE"@[1] != "BLE"@[1]);
    assert("BGE"@.len() != "B"@.len());
    assert("BGE"@[1] != "BPL"@[1]);
    assert("BGE"@[1] != "BNE"@[1]);
    assert("BGT"@[1] != "BMI"@[1]);
    assert("BGT"@[1] != "BEQ"@[1]);
    assert("BGT"@[1] != "BLT"@[1]);
    assert("BGT"@[1] != "BLE"@[1]);
    assert("BGT"@.len() != "B"@.len());
    assert("BGT"@[1] != "BPL"@[1]);
    assert("BGT"@[1] != "BNE"@[1]);
    assert("BGT"@[2] != "BGE"@[2]);
    assert("BMIL"@.len() != "BMI"@.len());
    assert("BMIL"@.len() != "BEQ"@.len());
    assert("BMIL"@.len() != "BLT"@.len());
    assert("BMIL"@.len() != "BLE"@.len());
    assert("BMIL"@.len() != "B"@.len());
    assert("BMIL"@.len() != "BPL"@.len());
    assert("BMIL"@.len() != "BNE"@.len());
    assert("BMIL"@.len() != "BGE"@.len());
    assert("BMIL"@.len() != "BGT"@.len());
    assert("BEQL"@.len() != "BMI"@.len());
    assert("BEQL"@.len() != "BEQ"@.len());
    assert("BEQL"@.len() != "BLT"@.len());
    assert("BEQL"@.len() != "BLE"@.len());
    assert("BEQL"@.len() != "B"@.len());
    assert("BEQL"@.len() != "BPL"@.len());
    assert("BEQL"@.len() != "BNE"@.len());
    assert("BEQL"@.len() != "BGE"@.len());
    assert("BEQL"@.len() != "BGT"@.len());
    assert("BEQL"@[1] != "BMIL"@[1]);
    assert("BLTL"@.len() != "BMI"@.len());
    assert("BLTL"@.len() != "BEQ"@.len());
    assert("BLTL"@.len() != "BLT"@.len());
    assert("BLTL"@.len() != "BLE"@.len());
    assert("BLTL"@.len() != "B"@.len());
    assert("BLTL"@.len() != "BPL"@.len());
    assert("BLTL"@.len() != "BNE"@.len());
    assert("BLTL"@.len() != "BGE"@.len());
    assert("BLTL"@.len() != "BGT"@.len());
    assert("BLTL"@[1] != "BMIL"@[1]);
    assert("BLTL"@[1] != "BEQL"@[1]);
    assert("BLEL"@.len() != "BMI"@.len());
    assert("BLEL"@.len() != "BEQ"@.len());
    assert("BLEL"@.len() != "BLT"@.len());
    assert("BLEL"@.len() != "BLE"@.len());
    assert("BLEL"@.len() != "B"@.len());
    assert("BLEL"@.len() != "BPL"@.len());
    assert("BLEL"@.len() != "BNE"@.len());
    assert("BLEL"@.len() != "BGE"@.len());
    assert("BLEL"@.len() != "BGT"@.len());
    assert("BLEL"@[1] != "BMIL"@[1]);
    assert("BLEL"@[1] != "BEQL"@[1]);
    assert("BLEL"@[2] != "BLTL"@[2]);
    assert("BL"@.len() != "BMI"@.len());
    assert("BL"@.len() != "BEQ"@.len());
    assert("BL"@.len() != "BLT"@.len());
    assert("BL"@.len() != "BLE"@.len());
    assert("BL"@.len() != "B"@.len());
    assert("BL"@.len() != "BPL"@.len());
    assert("BL"@.len() != "BNE"@.len());
    assert("BL"@.len() != "BGE"@.len());
    assert("BL"@.len() != "BGT"@.len());
    assert("BL"@.len() != "BMIL"@.len());
    assert("BL"@.len() != "BEQL"@.len());
    assert("BL"@.len() != "BLTL"@.len());
    assert("BL"@.len() != "BLEL"@.len());
    assert("BPLL"@.len() != "BMI"@.len());
    assert("BPLL"@.len() != "BEQ"@.len());
    assert("BPLL"@.len() != "BLT"@.len());
    assert("BPLL"@.len() != "BLE"@.len());
    assert("BPLL"@.len() != "B"@.len());
    assert("BPLL"@.len() != "BPL"@.len());
    assert("BPLL"@.len() != "BNE"@.len());
    assert("BPLL"@.len() != "BGE"@.len());
    assert("BPLL"@.len() != "BGT"@.len());
    assert("BPLL"@[1] != "BMIL"@[1]);
    assert("BPLL"@[1] != "BEQL"@[1]);
    assert("BPLL"@[1] != "BLTL"@[1]);
    assert("BPLL"@[1] != "BLEL"@[1]);
    assert("BPLL"@.len() != "BL"@.len());
    assert("BNEL"@.len() != "BMI"@.len());
    assert("BNEL"@.len() != "BEQ"@.len());
    assert("BNEL"@.len() != "BLT"@.len());
    assert("BNEL"@.len() != "BLE"@.len());
    assert("BNEL"@.len() != "B"@.len());
    assert("BNEL"@.len() != "BPL"@.len());
    assert("BNEL"@.len() != "BNE"@.len());
    assert("BNEL"@.len() != "BGE"@.len());
    assert("BNEL"@.len() != "BGT"@.len());
    assert("BNEL"@[1] != "BMIL"@[1]);
    assert("BNEL"@[1] != "BEQL"@[1]);
    assert("BNEL"@[1] != "BLTL"@[1]);
    assert("BNEL"@[1] != "BLEL"@[1]);
    assert("BNEL"@.len() != "BL"@.len());
    assert("BNEL"@[1] != "BPLL"@[1]);
    assert("BGEL"@.len() != "BMI"@.len());
    assert("BGEL"@.len() != "BEQ"@.len());
    assert("BGEL"@.len() != "BLT"@.len());
    assert("BGEL"@.len() != "BLE"@.len());
    assert("BGEL"@.len() != "B"@.len());
    assert("BGEL"@.len() != "BPL"@.len());
    assert("BGEL"@.len() != "BNE"@.len());
    assert("BGEL"@.len() != "BGE"@.len());
    assert("BGEL"@.len() != "BGT"@.len());
    assert("BGEL"@[1] != "BMIL"@[1]);
    assert("BGEL"@[1] != "BEQL"@[1]);
    assert("BGEL"@[1] != "BLTL"@[1]);
    assert("BGEL"@[1] != "BLEL"@[1]);
    assert("BGEL"@.len() != "BL"@.len());
    assert("BGEL"@[1] != "BPLL"@[1]);
    assert("BGEL"@[1] != "BNEL"@[1]);
    assert("BGTL"@.len() != "BMI"@.len());
    assert("BGTL"@.len() != "BEQ"@.len());
    assert("BGTL"@.len() != "BLT"@.len());
    assert("BGTL"@.len() != "BLE"@.len());
    assert("BGTL"@.len() != "B"@.len());
    assert("BGTL"@.len() != "BPL"@.len());
    assert("BGTL"@.len() != "BNE"@.len());
    assert("BGTL"@.len() != "BGE"@.len());
    assert("BGTL"@.len() != "BGT"@.len());
    assert("BGTL"@[1] != "BMIL"@[1]);
    assert("BGTL"@[1] != "BEQL"@[1]);
    assert("BGTL"@[1] != "BLTL"@[1]);
    assert("BGTL"@[1] != "BLEL"@[1]);
    assert("BGTL"@.len() != "BL"@.len());
    assert("BGTL"@[1] != "BPLL"@[1]);
    assert("BGTL"@[1] != "BNEL"@[1]);
    assert("BGTL"@[2] != "BGEL"@[2]);
}

/// Each register mnemonic assembles to the operation spelt the same, and no
/// two words name the same operation.
pub proof fn law_register_mnemonics(w1: Seq<char>, w2: Seq<char>)
    ensures
        spec_register_opcode("MOV"@) == Some(OpCode::MOV),
        spec_register_opcode("LSL"@) == Some(OpCode::LSL),
        spec_register_opcode("ASR"@) == Some(OpCode::ASR),
        spec_register_opcode("ROR"@) == Some(OpCode::ROR),
        spec_register_opcode("AND"@) == Some(OpCode::AND),
        spec_register_opcode("ANN"@) == Some(OpCode::ANN),
        spec_register_opcode("IOR"@) == Some(OpCode::IOR),
        spec_register_opcode("XOR"@) == Some(OpCode::XOR),
        spec_register_opcode("ADD"@) == Some(OpCode::ADD),
        spec_register_opcode("SUB"@) == Some(OpCode::SUB),
        spec_register_opcode("MUL"@) == Some(OpCode::MUL),
        spec_register_opcode("DIV"@) == Some(OpCode::DIV),
        spec_register_opcode("MOD"@) == Some(OpCode::MOD),
        spec_register_opcode(w1) is Some && spec_register_opcode(w1) == spec_register_opcode(w2) ==> w1 == w2,
{
    reveal_strlit("MOV");
    reveal_strlit("LSL");
    reveal_strlit("ASR");
    reveal_strlit("ROR");
    reveal_strlit("AND");
    reveal_strlit("ANN");
    reveal_strlit("IOR");
    reveal_strlit("XOR");
    reveal_strlit("ADD");
    reveal_strlit("SUB");
    reveal_strlit("MUL");
    reveal_strlit("DIV");
    reveal_strlit("MOD");
    assert("LSL"@[0] != "MOV"@[0]);
    assert("ASR"@[0] != "MOV"@[0]);
    assert("ASR"@[0] != "LSL"@[0]);
    assert("ROR"@[0] != "MOV"@[0]);
    assert("ROR"@[0] != "LSL"@[0]);
    assert("ROR"@[0] != "ASR"@[0]);
    assert("AND"@[0] != "MOV"@[0]);
    assert("AND"@[0] != "LSL"@[0]);
    assert("AND"@[1] != "ASR"@[1]);
    assert("AND"@[0] != "ROR"@[0]);
    assert("ANN"@[0] != "MOV"@[0]);
    assert("ANN"@[0] != "LSL"@[0]);
    assert("ANN"@[1] != "ASR"@[1]);
    assert("ANN"@[0] != "ROR"@[0]);
    assert("ANN"@[2] != "AND"@[2]);
    assert("IOR"@[0] != "MOV"@[0]);
    assert("IOR"@[0] != "LSL"@[0]);
    assert("IOR"@[0] != "ASR"@[0]);
    assert("IOR"@[0] != "ROR"@[0]);
    assert("IOR"@[0] != "AND"@[0]);
    assert("IOR"@[0] != "ANN"@[0]);
    assert("XOR"@[0] != "MOV"@[0]);
    assert("XOR"@[0] != "LSL"@[0]);
    assert("XOR"@[0] != "ASR"@[0]);
    assert("XOR"@[0] != "ROR"@[0]);
    assert("XOR"@[0] != "AND"@[0]);
    assert("XOR"@[0] != "ANN"@[0]);
    assert("XOR"@[0] != "IOR"@[0]);
    assert("ADD"@[0] != "MOV"@[0]);
    assert("ADD"@[0] != "LSL"@[0]);
    assert("ADD"@[1] != "ASR"@[1]);
    assert("ADD"@[0] != "ROR"@[0]);
    assert("ADD"@[1] != "AND"@[1]);
    assert("ADD"@[1] != "ANN"@[1]);
    assert("ADD"@[0] != "IOR"@[0]);
    assert("ADD"@[0] != "XOR"@[0]);
    assert("SUB"@[0] != "MOV"@[0]);
    assert("SUB"@[0] != "LSL"@[0]);
    assert("SUB"@[0] != "ASR"@[0]);
    assert("SUB"@[0] != "ROR"@[0]);
    assert("SUB"@[0] != "AND"@[0]);
    assert("SUB"@[0] != "ANN"@[0]);
    assert("SUB"@[0] != "IOR"@[0]);
    assert("SUB"@[0] != "XOR"@[0]);
    assert("SUB"@[0] != "ADD"@[0]);
    assert("MUL"@[1] != "MOV"@[1]);
    assert("MUL"@[0] != "LSL"@[0]);
    assert("MUL"@[0] != "ASR"@[0]);
    assert("MUL"@[0] != "ROR"@[0]);
    assert("MUL"@[0] != "AND"@[0]);
    assert("MUL"@[0] != "ANN"@[0]);
    assert("MUL"@[0] != "IOR"@[0]);
    assert("MUL"@[0] != "XOR"@[0]);
    assert("MUL"@[0] != "ADD"@[0]);
    assert("MUL"@[0] != "SUB"@[0]);
    assert("DIV"@[0] != "MOV"@[0]);
    assert("DIV"@[0] != "LSL"@[0]);
    assert("DIV"@[0] != "ASR"@[0]);
    assert("DIV"@[0] != "ROR"@[0]);
    assert("DIV"@[0] != "AND"@[0]);
    assert("DIV"@[0] != "ANN"@[0]);
    assert("DIV"@[0] != "IOR"@[0]);
    assert("DIV"@[0] != "XOR"@[0]);
    assert("DIV"@[0] != "ADD"@[0]);
    assert("DIV"@[0] != "SUB"@[0]);
    assert("DIV"@[0] != "MUL"@[0]);
    assert("MOD"@[2] != "MOV"@[2]);
    assert("MOD"@[0] != "LSL"@[0]);
    assert("MOD"@[0] != "ASR"@[0]);
    assert("MOD"@[0] != "ROR"@[0]);
    assert("MOD"@[0] != "AND"@[0]);
    assert("MOD"@[0] != "ANN"@[0]);
    assert("MOD"@[0] != "IOR"@[0]);
    assert("MOD"@[0] != "XOR"@[0]);
    assert("MOD"@[0] != "ADD"@[0]);
    assert("MOD"@[0] != "SUB"@[0]);
    assert("MOD"@[1] != "MUL"@[1]);
    assert("MOD"@[0] != "DIV"@[0]);
}

} // verus!
