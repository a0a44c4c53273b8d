//! An assembler for the first RISC machine.
//!
//! A line that starts with `*` is a comment; `#NAME value` defines a symbol;
//! other lines hold an immediate register instruction `OPI a,b,c`, which an
//! `@LABEL` may precede. The first instruction line is the origin of the
//! program, and a label is given its distance from the origin. Registers
//! `R0` to `R15` are symbols for their numbers.

use vstd::prelude::*;

use crate::risc::instructions::{Instruction, RegisterImOpCode};
use crate::symbols::SymbolTable;
use crate::text::{
    before, before_exec,
    chars_of, eq_lit, fields, fields_exec, parse_u32, parse_u32_exec, parse_usize, parse_usize_exec,
    slice_of, starts_with, starts_with_exec, string_from_chars, trim_end, trim_end_exec,
    trim_start, trim_start_exec, words, words_exec,
};

verus! {

pub struct Assembler {
    pub instructions: Vec<Instruction>,
    // The index of the first line that holds an instruction.
    pub origin: Option<u32>,
    // Symbols like #FOO, with their values.
    pub symbols: SymbolTable<u32>,
    // Labels like @BAR, with their distance from the origin.
    pub disps: SymbolTable<u32>,
}

#[derive(Debug, Copy, Clone, PartialEq, Eq, Structural)]
pub enum ParseError {
    SyntaxError { index: u32 },
}

#[derive(Debug, Copy, Clone, PartialEq, Eq, Structural)]
pub enum ParseResult {
    Comment,
    SymbolDef,
    Instruction,
}

/// The state of an assembler, as a mathematical value.
pub struct AsmState {
    pub instructions: Seq<Instruction>,
    pub origin: Option<u32>,
    pub symbols: Map<Seq<char>, u32>,
    pub disps: Map<Seq<char>, u32>,
}

impl View for Assembler {
    type V = AsmState;

    open spec fn view(&self) -> AsmState {
        AsmState {
            instructions: self.instructions@,
            origin: self.origin,
            symbols: self.symbols@,
            disps: self.disps@,
        }
    }
}

/// A line without its leading whitespace, without its first `;` and all
/// that follows (a comment), and without the whitespace before that.
pub open spec fn trimmed(line: Seq<char>) -> Seq<char> {
    trim_end(before(trim_start(line), ';'))
}

/// The name of register `i`.
pub open spec fn register_name(i: u32) -> Seq<char> {
    seq!['R'] + crate::bin_graph::decimal(i as nat)
}

/// The symbols of a new assembler: `R0` to `R15` for their numbers.
pub open spec fn register_symbols(n: u32) -> Map<Seq<char>, u32>
    decreases n,
{
    if n == 0 {
        Map::empty()
    } else {
        register_symbols((n - 1) as u32).insert(register_name((n - 1) as u32), (n - 1) as u32)
    }
}

/// The immediate operation that `s` names.
pub open spec fn spec_opcode(s: Seq<char>) -> Option<RegisterImOpCode> {
    if s == "MOVI"@ {
        Some(RegisterImOpCode::MOVI)
    } else if s == "MVNI"@ {
        Some(RegisterImOpCode::MVNI)
    } else if s == "ADDI"@ {
        Some(RegisterImOpCode::ADDI)
    } else if s == "SUBI"@ {
        Some(RegisterImOpCode::SUBI)
    } else if s == "MULI"@ {
        Some(RegisterImOpCode::MULI)
    } else if s == "DIVI"@ {
        Some(RegisterImOpCode::DIVI)
    } else if s == "MODI"@ {
        Some(RegisterImOpCode::MODI)
    } else if s == "CMPI"@ {
        Some(RegisterImOpCode::CMPI)
    } else if s == "CHKI"@ {
        Some(RegisterImOpCode::CHKI)
    } else {
        None
    }
}

/// A value: a symbol's, a label's, or a decimal number.
pub open spec fn spec_value(st: AsmState, s: Seq<char>) -> Option<usize> {
    if st.symbols.contains_key(s) {
        Some(st.symbols[s] as usize)
    } else if st.disps.contains_key(s) {
        Some(st.disps[s] as usize)
    } else {
        parse_usize(s)
    }
}

/// `OPI a,b,c`: an immediate register instruction.
pub open spec fn spec_op_params(st: AsmState, op: Seq<char>, params: Seq<char>) -> Option<Instruction> {
    let f = fields(params, ',');
    match spec_opcode(op) {
        Some(o) => if f.len() >= 3 && spec_value(st, f[0]) is Some && spec_value(st, f[1]) is Some
            && spec_value(st, f[2]) is Some {
            Some(
                Instruction::RegisterIm {
                    o,
                    a: spec_value(st, f[0])->0,
                    b: spec_value(st, f[1])->0,
                    im: spec_value(st, f[2])->0 as i32,
                },
            )
        } else {
            None
        },
        None => None,
    }
}

/// The instruction on the line at `index`, and the state after it: a label
/// records its distance from the origin.
pub open spec fn spec_instruction(st: AsmState, index: u32, line: Seq<char>) -> (AsmState, Result<
    Instruction,
    ParseError,
>) {
    let t = words(line);
    let err = Err(ParseError::SyntaxError { index });
    if t.len() >= 1 && starts_with(t[0], '@') {
        match st.origin {
            Some(o) => {
                let st1 = AsmState { disps: st.disps.insert(t[0], (index - o) as u32), ..st };
                if t.len() >= 3 {
                    match spec_op_params(st1, t[1], t[2]) {
                        Some(i) => (st1, Ok(i)),
                        None => (st1, err),
                    }
                } else {
                    (st1, err)
                }
            },
            None => (st, err),
        }
    } else if t.len() >= 2 {
        match spec_op_params(st, t[0], t[1]) {
            Some(i) => (st, Ok(i)),
            None => (st, err),
        }
    } else {
        (st, err)
    }
}

/// Where a label's distance from the origin would be negative, which
/// Rust's arithmetic refuses.
pub open spec fn instruction_underflows(st: AsmState, index: u32, line: Seq<char>) -> bool {
    let t = words(line);
    &&& t.len() >= 1
    &&& starts_with(t[0], '@')
    &&& st.origin is Some
    &&& index < st.origin->0
}

/// A symbol definition `#NAME value`.
pub open spec fn spec_symbol_def(st: AsmState, index: u32, l: Seq<char>) -> (AsmState, Result<
    ParseResult,
    ParseError,
>) {
    let t = words(l);
    if t.len() >= 2 && parse_u32(t[1]) is Some {
        (AsmState { symbols: st.symbols.insert(t[0], parse_u32(t[1])->0), ..st }, Ok(ParseResult::SymbolDef))
    } else {
        (st, Err(ParseError::SyntaxError { index }))
    }
}

/// The state after the line at `index`, and what the line was.
pub open spec fn spec_parse_line(st: AsmState, index: u32, line: Seq<char>) -> (AsmState, Result<
    ParseResult,
    ParseError,
>) {
    let l = trimmed(line);
    if starts_with(l, '*') {
        (st, Ok(ParseResult::Comment))
    } else if starts_with(l, '#') {
        spec_symbol_def(st, index, l)
    } else {
        let st1 = if st.origin is None {
            AsmState { origin: Some(index), ..st }
        } else {
            st
        };
        match spec_instruction(st1, index, l) {
            (st2, Ok(i)) => (AsmState { instructions: st2.instructions.push(i), ..st2 }, Ok(ParseResult::Instruction)),
            (st2, Err(_)) => (st2, Err(ParseError::SyntaxError { index })),
        }
    }
}

pub open spec fn line_underflows(st: AsmState, index: u32, line: Seq<char>) -> bool {
    let l = trimmed(line);
    let st1 = if st.origin is None {
        AsmState { origin: Some(index), ..st }
    } else {
        st
    };
    !starts_with(l, '*') && !starts_with(l, '#') && instruction_underflows(st1, index, l)
}

fn push_decimal_u32(out: &mut Vec<char>, n: u32)
    ensures
        final(out)@ == old(out)@ + crate::bin_graph::decimal(n as nat),
    decreases n,
{
    let d = n % 10;
    let c = if d == 0 {
        '0'
    } else if d == 1 {
        '1'
    } else if d == 2 {
        '2'
    } else if d == 3 {
        '3'
    } else if d == 4 {
        '4'
    } else if d == 5 {
        '5'
    } else if d == 6 {
        '6'
    } else if d == 7 {
        '7'
    } else if d == 8 {
        '8'
    } else {
        '9'
    };
    assert(c == crate::bin_graph::digit_char(d as nat));
    if n < 10 {
        out.push(c);
    } else {
        push_decimal_u32(out, n / 10);
        out.push(c);
    }
}

impl Assembler {
    pub fn new() -> (a: Assembler)
        ensures
            a@ == (AsmState {
                instructions: Seq::empty(),
                origin: None,
                symbols: register_symbols(16),
                disps: Map::empty(),
            }),
    {
        let mut symbols: SymbolTable<u32> = SymbolTable::new();
        let mut i: u32 = 0;
        while i < 16
            invariant
                i <= 16,
                symbols@ == register_symbols(i),
            decreases 16 - i,
        {
            let mut name: Vec<char> = Vec::new();
            name.push('R');
            push_decimal_u32(&mut name, i);
            assert(name@ =~= register_name(i));
            symbols.insert_chars(name, i);
            i = i + 1;
        }
        let a = Assembler { origin: None, instructions: Vec::new(), symbols, disps: SymbolTable::new() };
        assert(a@.instructions =~= Seq::<Instruction>::empty());
        a
    }

    /// Translates the line at `index`: a comment, a symbol definition or an
    /// instruction, which is appended.
    pub fn parse_line(&mut self, index: u32, line: &str) -> (r: Result<ParseResult, ParseError>)
        requires
            !line_underflows(old(self)@, index, line@),
        ensures
            (final(self)@, r) == spec_parse_line(old(self)@, index, line@),
    {
        let v = chars_of(line);
        let l = trim_end_exec(&before_exec(&trim_start_exec(&v), ';'));
        if starts_with_exec(&l, '*') {
            return Ok(ParseResult::Comment);
        } else if starts_with_exec(&l, '#') {
            return self.parse_symbol_def(index, &l);
        }
        if self.origin.is_none() {
            self.origin = Some(index);
        }
        if let Ok(instruction) = self.parse_instruction_chars(index, &l) {
            self.instructions.push(instruction);
            return Ok(ParseResult::Instruction);
        }
        Err(ParseError::SyntaxError { index })
    }

    fn parse_symbol_def(&mut self, index: u32, line: &Vec<char>) -> (r: Result<ParseResult, ParseError>)
        ensures
            (final(self)@, r) == spec_symbol_def(old(self)@, index, line@),
    {
        let tokens = words_exec(line);
        if tokens.len() >= 2 {
            if let Some(value) = parse_u32_exec(&tokens[1]) {
                let symbol = slice_of(&tokens[0], 0, tokens[0].len());
                assert(symbol@ =~= tokens@[0]@);
                self.symbols.insert_chars(symbol, value);
                return Ok(ParseResult::SymbolDef);
            }
        }
        Err(ParseError::SyntaxError { index })
    }

    /// The instruction on the line at `index`; a label records its distance
    /// from the origin.
    pub fn parse_instruction(&mut self, index: u32, line: &str) -> (r: Result<Instruction, ParseError>)
        requires
            !instruction_underflows(old(self)@, index, line@),
        ensures
            (final(self)@, r) == spec_instruction(old(self)@, index, line@),
    {
        let v = chars_of(line);
        self.parse_instruction_chars(index, &v)
    }

    fn parse_instruction_chars(&mut self, index: u32, line: &Vec<char>) -> (r: Result<Instruction, ParseError>)
        requires
            !instruction_underflows(old(self)@, index, line@),
        ensures
            (final(self)@, r) == spec_instruction(old(self)@, index, line@),
    {
        let tokens = words_exec(line);
        if tokens.len() >= 1 {
            if starts_with_exec(&tokens[0], '@') {
                if let Some(origin) = self.origin {
                    let disp = index - origin;
                    let label = slice_of(&tokens[0], 0, tokens[0].len());
                    assert(label@ =~= tokens@[0]@);
                    self.disps.insert_chars(label, disp);
                    if tokens.len() >= 3 {
                        return self.parse_op_params(index, &tokens[1], &tokens[2]);
                    }
                }
            } else if tokens.len() >= 2 {
                return self.parse_op_params(index, &tokens[0], &tokens[1]);
            }
        }
        Err(ParseError::SyntaxError { index })
    }

    fn parse_op_params(&self, index: u32, op: &Vec<char>, params: &Vec<char>) -> (r: Result<Instruction, ParseError>)
        ensures
            r == match spec_op_params(self@, op@, params@) {
                Some(i) => Ok(i),
                None => Err(ParseError::SyntaxError { index }),
            },
    {
        if let Some(o) = opcode_from_name(op) {
            let split = fields_exec(params, ',');
            if split.len() >= 3 {
                let (a, b, c) = (self.parse_value(&split[0]), self.parse_value(&split[1]), self.parse_value(&split[2]));
                if let (Some(a), Some(b), Some(c)) = (a, b, c) {
                    return Ok(Instruction::RegisterIm { o, a, b, im: c as i32 });
                }
            }
        }
        Err(ParseError::SyntaxError { index })
    }

    fn parse_value(&self, s: &Vec<char>) -> (r: Option<usize>)
        ensures
            r == spec_value(self@, s@),
    {
        if let Some(symbol) = self.symbols.get_chars(s) {
            return Some(symbol as usize);
        }
        if let Some(disp) = self.disps.get_chars(s) {
            return Some(disp as usize);
        }
        parse_usize_exec(s)
    }
}

/// The immediate operation that `s` names, spelt as its variant.
fn opcode_from_name(s: &Vec<char>) -> (r: Option<RegisterImOpCode>)
    ensures
        r == spec_opcode(s@),
{
    if eq_lit(s, "MOVI") {
        Some(RegisterImOpCode::MOVI)
    } else if eq_lit(s, "MVNI") {
        Some(RegisterImOpCode::MVNI)
    } else if eq_lit(s, "ADDI") {
        Some(RegisterImOpCode::ADDI)
    } else if eq_lit(s, "SUBI") {
        Some(RegisterImOpCode::SUBI)
    } else if eq_lit(s, "MULI") {
        Some(RegisterImOpCode::MULI)
    } else if eq_lit(s, "DIVI") {
        Some(RegisterImOpCode::DIVI)
    } else if eq_lit(s, "MODI") {
        Some(RegisterImOpCode::MODI)
    } else if eq_lit(s, "CMPI") {
        Some(RegisterImOpCode::CMPI)
    } else if eq_lit(s, "CHKI") {
        Some(RegisterImOpCode::CHKI)
    } else {
        None
    }
}

/// Each immediate mnemonic assembles to the operation spelt the same, and
/// no two words name the same operation.
pub proof fn law_immediate_mnemonics(w1: Seq<char>, w2: Seq<char>)
    ensures
        spec_opcode("MOVI"@) == Some(RegisterImOpCode::MOVI),
        spec_opcode("MVNI"@) == Some(RegisterImOpCode::MVNI),
        spec_opcode("ADDI"@) == Some(RegisterImOpCode::ADDI),
        spec_opcode("SUBI"@) == Some(RegisterImOpCode::SUBI),
        spec_opcode("MULI"@) == Some(RegisterImOpCode::MULI),
        spec_opcode("DIVI"@) == Some(RegisterImOpCode::DIVI),
        spec_opcode("MODI"@) == Some(RegisterImOpCode::MODI),
        spec_opcode("CMPI"@) == Some(RegisterImOpCode::CMPI),
        spec_opcode("CHKI"@) == Some(RegisterImOpCode::CHKI),
        spec_opcode(w1) is Some && spec_opcode(w1) == spec_opcode(w2) ==> w1 == w2,
{
    reveal_strlit("MOVI");
    reveal_strlit("MVNI");
    reveal_strlit("ADDI");
    reveal_strlit("SUBI");
    reveal_strlit("MULI");
    reveal_strlit("DIVI");
    reveal_strlit("MODI");
    reveal_strlit("CMPI");
    reveal_strlit("CHKI");
    assert("MVNI"@[1] != "MOVI"@[1]);
    assert("ADDI"@[0] != "MOVI"@[0]);
    assert("ADDI"@[0] != "MVNI"@[0]);
    assert("SUBI"@[0] != "MOVI"@[0]);
    assert("SUBI"@[0] != "MVNI"@[0]);
    assert("SUBI"@[0] != "ADDI"@[0]);
    assert("MULI"@[1] != "MOVI"@[1]);
    assert("MULI"@[1] != "MVNI"@[1]);
    assert("MULI"@[0] != "ADDI"@[0]);
    assert("MULI"@[0] != "SUBI"@[0]);
    assert("DIVI"@[0] != "MOVI"@[0]);
    assert("DIVI"@[0] != "MVNI"@[0]);
    assert("DIVI"@[0] != "ADDI"@[0]);
    assert("DIVI"@[0] != "SUBI"@[0]);
    assert("DIVI"@[0] != "MULI"@[0]);
    assert("MODI"@[2] != "MOVI"@[2]);
    assert("MODI"@[1] != "MVNI"@[1]);
    assert("MODI"@[0] != "ADDI"@[0]);
    assert("MODI"@[0] != "SUBI"@[0]);
    assert("MODI"@[1] != "MULI"@[1]);
    assert("MODI"@[0] != "DIVI"@[0]);
    assert("CMPI"@[0] != "MOVI"@[0]);
    assert("CMPI"@[0] != "MVNI"@[0]);
    assert("CMPI"@[0] != "ADDI"@[0]);
    assert("CMPI"@[0] != "SUBI"@[0]);
    assert("CMPI"@[0] != "MULI"@[0]);
    assert("CMPI"@[0] != "DIVI"@[0]);
    assert("CMPI"@[0] != "MODI"@[0]);
    assert("CHKI"@[0] != "MOVI"@[0]);
    assert("CHKI"@[0] != "MVNI"@[0]);
    assert("CHKI"@[0] != "ADDI"@[0]);
    assert("CHKI"@[0] != "SUBI"@[0]);
    assert("CHKI"@[0] != "MULI"@[0]);
    assert("CHKI"@[0] != "DIVI"@[0]);
    assert("CHKI"@[0] != "MODI"@[0]);
    assert("CHKI"@[1] != "CMPI"@[1]);
}

} // verus!
