//! A scanner of a whole Oberon text, line after line.

use vstd::prelude::*;

use crate::compiler::line_scanner::{LineScanner, LineState, cls_next};
use crate::compiler::token::{ScanError, ScanResult, ScanV, next_view};
use crate::text::{chars_of, lemma_lines_len, lines, lines_exec, slice_of, views};

verus! {

/// The state of a scanner, as a mathematical value.
pub struct ScannerState {
    pub lines: Seq<Seq<char>>,
    // Index of the next line to scan.
    pub next_line: int,
    pub line_number: u32,
    pub line: LineState,
}

/// A scanner of line `text`, numbered `n`.
pub open spec fn line_start(n: u32, text: Seq<char>) -> LineState {
    LineState { text, pos: 0, line_number: n, column_number: 0 }
}

/// The next scan and the state after it; `None` at the end of the text.
pub open spec fn cs_next(st: ScannerState) -> Option<(ScannerState, Option<Result<ScanV, ScanError>>)>
    decreases st.lines.len() - st.next_line,
{
    match cls_next(st.line) {
        None => None,
        Some((l1, r)) => match r {
            Some(x) => Some((ScannerState { line: l1, ..st }, Some(x))),
            None => if 0 <= st.next_line < st.lines.len() {
                let n = (st.line_number + 1) as u32;
                cs_next(
                    ScannerState {
                        lines: st.lines,
                        next_line: st.next_line + 1,
                        line_number: n,
                        line: line_start(n, st.lines[st.next_line]),
                    },
                )
            } else {
                Some((ScannerState { line: l1, ..st }, None))
            },
        },
    }
}

/// The state of a new scanner of `s`.
pub open spec fn scanner_start(s: Seq<char>) -> ScannerState {
    let ls = lines(s);
    if ls.len() > 0 {
        ScannerState { lines: ls, next_line: 1, line_number: 0, line: line_start(0, ls[0]) }
    } else {
        ScannerState { lines: ls, next_line: 0, line_number: 0, line: line_start(0, Seq::empty()) }
    }
}

#[derive(Debug)]
pub struct Scanner {
    line_number: u32,
    lines: Vec<Vec<char>>,
    next_line: usize,
    line_scanner: LineScanner,
}

impl View for Scanner {
    type V = ScannerState;

    closed spec fn view(&self) -> ScannerState {
        ScannerState {
            lines: views(self.lines@),
            next_line: self.next_line as int,
            line_number: self.line_number,
            line: self.line_scanner@,
        }
    }
}

impl Scanner {
    pub closed spec fn wf(&self) -> bool {
        &&& self.line_scanner.wf()
        &&& self.lines.len() <= u32::MAX
        &&& forall|j: int| 0 <= j < self.lines.len() ==> #[trigger] self.lines@[j].len() <= u32::MAX
        &&& self.next_line <= self.lines.len()
        &&& if self.next_line == 0 {
            self.line_number == 0 && self.lines.len() == 0
        } else {
            self.line_number == self.next_line - 1
        }
    }

    pub fn new(s: &str) -> (r: Scanner)
        requires
            s@.len() <= u32::MAX,
        ensures
            r.wf(),
            r@ == scanner_start(s@),
    {
        let text = chars_of(s);
        let lines = lines_exec(&text);
        proof {
            lemma_lines_len(s@);
            assert forall|j: int| 0 <= j < lines.len() implies #[trigger] lines@[j].len() <= u32::MAX by {
                crate::text::lemma_lines_bound(s@, j);
                assert(views(lines@)[j] == lines@[j]@);
            }
        }
        if lines.len() > 0 {
            let first = slice_of(&lines[0], 0, lines[0].len());
            assert(first@ =~= lines@[0]@);
            let line_scanner = LineScanner::from_chars(0, first);
            Scanner { line_number: 0, lines, next_line: 1, line_scanner }
        } else {
            let line_scanner = LineScanner::from_chars(0, Vec::new());
            Scanner { line_number: 0, lines, next_line: 0, line_scanner }
        }
    }

    /// The next scan, or `None` at the end of the text.
    pub fn next(&mut self) -> (r: Option<ScanResult>)
        requires
            old(self).wf(),
            cs_next(old(self)@) is Some,
        ensures
            final(self).wf(),
            (final(self)@, next_view(r)) == cs_next(old(self)@)->0,
    {
        loop
            invariant
                self.wf(),
                cs_next(self@) == cs_next(old(self)@),
                cs_next(self@) is Some,
            decreases self.lines.len() - self.next_line,
        {
            match self.line_scanner.next() {
                Some(scan) => {
                    return Some(scan);
                },
                None => {
                    if self.next_line < self.lines.len() {
                        self.line_number = self.line_number + 1;
                        let line = slice_of(&self.lines[self.next_line], 0, self.lines[self.next_line].len());
                        assert(line@ =~= self.lines@[self.next_line as int]@);
                        self.line_scanner = LineScanner::from_chars(self.line_number, line);
                        self.next_line = self.next_line + 1;
                    } else {
                        return None;
                    }
                },
            }
        }
    }
}

} // verus!
