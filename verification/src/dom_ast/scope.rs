//! The variables declared in a scope, each with its address and size.

use vstd::prelude::*;

use std::rc::Rc;

use crate::text::{chars_of, eq_chars};

verus! {

#[derive(Debug, PartialEq)]
pub struct Symbol {
    pub name: String,
    // offset from stack base
    pub adr: usize,
    // size of the variable in words
    pub size: usize,
}

/// A symbol as a mathematical value.
pub struct SymbolV {
    pub name: Seq<char>,
    pub adr: usize,
    pub size: usize,
}

impl View for Symbol {
    type V = SymbolV;

    open spec fn view(&self) -> SymbolV {
        SymbolV { name: self.name@, adr: self.adr, size: self.size }
    }
}

/// A scope as a mathematical value: its symbols in the order they were
/// added, and the address of the next one.
pub struct ScopeV {
    pub symbols: Seq<SymbolV>,
    pub next_adr: usize,
}

/// The index of the first symbol named `name`.
pub open spec fn first_named(symbols: Seq<SymbolV>, name: Seq<char>) -> Option<int>
    decreases symbols.len(),
{
    if symbols.len() == 0 {
        None
    } else if symbols[0].name == name {
        Some(0)
    } else {
        match first_named(symbols.drop_first(), name) {
            Some(i) => Some(i + 1),
            None => None,
        }
    }
}

impl ScopeV {
    /// The symbol that a lookup of `name` finds.
    pub open spec fn lookup(self, name: Seq<char>) -> Option<SymbolV> {
        match first_named(self.symbols, name) {
            Some(i) => Some(self.symbols[i]),
            None => None,
        }
    }

    /// Whether a symbol of `size` words can be added.
    pub open spec fn can_add(self, size: usize) -> bool {
        self.next_adr + size <= usize::MAX
    }

    /// The scope with a symbol `name` of `size` words added.
    pub open spec fn add(self, name: Seq<char>, size: usize) -> ScopeV {
        ScopeV {
            symbols: self.symbols.push(SymbolV { name, adr: self.next_adr, size }),
            next_adr: (self.next_adr + size) as usize,
        }
    }
}

pub struct Scope {
    symbols: Vec<Rc<Symbol>>,
    next_adr: usize,
}

impl View for Scope {
    type V = ScopeV;

    closed spec fn view(&self) -> ScopeV {
        ScopeV { symbols: self.symbols@.map_values(|s: Rc<Symbol>| (*s)@), next_adr: self.next_adr }
    }
}

/// `first_named` finds the first symbol with the name.
proof fn lemma_first_named(symbols: Seq<SymbolV>, name: Seq<char>)
    ensures
        match first_named(symbols, name) {
            Some(i) => 0 <= i < symbols.len() && symbols[i].name == name && forall|j: int|
                0 <= j < i ==> #[trigger] symbols[j].name != name,
            None => forall|j: int| 0 <= j < symbols.len() ==> #[trigger] symbols[j].name != name,
        },
    decreases symbols.len(),
{
    if symbols.len() > 0 {
        lemma_first_named(symbols.drop_first(), name);
        assert forall|j: int| 1 <= j < symbols.len() implies symbols[j] == symbols.drop_first()[j - 1] by {}
    }
}

/// A symbol that is first with its name is what `first_named` finds.
proof fn lemma_first_named_at(symbols: Seq<SymbolV>, name: Seq<char>, i: int)
    requires
        0 <= i < symbols.len(),
        symbols[i].name == name,
        forall|j: int| 0 <= j < i ==> #[trigger] symbols[j].name != name,
    ensures
        first_named(symbols, name) == Some(i),
{
    lemma_first_named(symbols, name);
}

/// No symbol has the name.
proof fn lemma_first_named_none(symbols: Seq<SymbolV>, name: Seq<char>)
    requires
        forall|j: int| 0 <= j < symbols.len() ==> #[trigger] symbols[j].name != name,
    ensures
        first_named(symbols, name) is None,
{
    lemma_first_named(symbols, name);
}

impl ScopeV {
    /// The symbols lie one after the other from address 0, each taking its
    /// size, and the next address is just past the last one.
    pub open spec fn laid_out(self) -> bool {
        &&& forall|i: int|
            0 < i < self.symbols.len() ==> #[trigger] self.symbols[i].adr == self.symbols[i - 1].adr
                + self.symbols[i - 1].size
        &&& self.symbols.len() > 0 ==> self.symbols[0].adr == 0
        &&& self.next_adr == (if self.symbols.len() == 0 {
            0
        } else {
            self.symbols.last().adr + self.symbols.last().size
        })
    }
}

/// A new scope is laid out, and adding a symbol keeps it so: the symbol
/// gets the next address and the next address moves past it.
pub proof fn lemma_add_keeps_layout(sc: ScopeV, name: Seq<char>, size: usize)
    requires
        sc.laid_out(),
        sc.can_add(size),
    ensures
        (ScopeV { symbols: Seq::empty(), next_adr: 0 }).laid_out(),
        sc.add(name, size).laid_out(),
{
    let sc1 = sc.add(name, size);
    assert forall|i: int| 0 < i < sc1.symbols.len() implies #[trigger] sc1.symbols[i].adr
        == sc1.symbols[i - 1].adr + sc1.symbols[i - 1].size by {
        if i < sc.symbols.len() {
            assert(sc1.symbols[i] == sc.symbols[i]);
            assert(sc1.symbols[i - 1] == sc.symbols[i - 1]);
        }
    }
}

/// After a symbol is added, a lookup of its name finds it where the name
/// was not declared yet, and finds the earlier symbol where it was; a
/// lookup of any other name finds what it found before.
pub proof fn lemma_lookup_after_add(sc: ScopeV, name: Seq<char>, size: usize, other: Seq<char>)
    requires
        other != name,
    ensures
        sc.lookup(name) is None ==> sc.add(name, size).lookup(name) == Some(
            SymbolV { name, adr: sc.next_adr, size },
        ),
        sc.lookup(name) is Some ==> sc.add(name, size).lookup(name) == sc.lookup(name),
        sc.add(name, size).lookup(other) == sc.lookup(other),
{
    let s0 = sc.symbols;
    let s1 = sc.add(name, size).symbols;
    lemma_first_named(s0, name);
    lemma_first_named(s0, other);
    assert forall|j: int| 0 <= j < s0.len() implies s1[j] == s0[j] by {}
    match first_named(s0, name) {
        Some(i) => lemma_first_named_at(s1, name, i),
        None => lemma_first_named_at(s1, name, s0.len() as int),
    }
    match first_named(s0, other) {
        Some(i) => lemma_first_named_at(s1, other, i),
        None => {
            assert forall|j: int| 0 <= j < s1.len() implies #[trigger] s1[j].name != other by {
                if j < s0.len() {
                    assert(s1[j] == s0[j]);
                }
            }
            lemma_first_named_none(s1, other);
        },
    }
}

impl Scope {
    pub fn new() -> (s: Scope)
        ensures
            s@ == (ScopeV { symbols: Seq::empty(), next_adr: 0 }),
    {
        let s = Scope { symbols: Vec::new(), next_adr: 0 };
        assert(s@.symbols =~= Seq::<SymbolV>::empty());
        s
    }

    /// Adds a symbol of one word.
    pub fn add(&mut self, s: &str)
        requires
            old(self)@.can_add(1),
        ensures
            final(self)@ == old(self)@.add(s@, 1),
    {
        self.add_with_size(s, 1);
    }

    /// Adds a symbol of `size` words, at the next free address.
    pub fn add_with_size(&mut self, s: &str, size: usize)
        requires
            old(self)@.can_add(size),
        ensures
            final(self)@ == old(self)@.add(s@, size),
    {
        let name = crate::text::string_from_chars(&chars_of(s));
        let symbol = Symbol { name, adr: self.next_adr, size };
        self.next_adr = self.next_adr + size;
        self.symbols.push(Rc::new(symbol));
        assert(self@.symbols =~= old(self)@.symbols.push(SymbolV { name: s@, adr: old(self)@.next_adr, size }));
    }

    /// The first symbol named `s`.
    pub fn lookup(&self, s: &str) -> (r: Option<Rc<Symbol>>)
        ensures
            match r {
                Some(sym) => self@.lookup(s@) == Some(sym@),
                None => self@.lookup(s@) is None,
            },
    {
        let name = chars_of(s);
        self.lookup_chars(&name)
    }

    /// The first symbol whose name is the characters `name`.
    pub fn lookup_chars(&self, name: &Vec<char>) -> (r: Option<Rc<Symbol>>)
        ensures
            match r {
                Some(sym) => self@.lookup(name@) == Some(sym@),
                None => self@.lookup(name@) is None,
            },
    {
        let mut i: usize = 0;
        while i < self.symbols.len()
            invariant
                i <= self.symbols.len(),
                forall|j: int| 0 <= j < i ==> #[trigger] self@.symbols[j].name != name@,
            decreases self.symbols.len() - i,
        {
            let symbol_name = chars_of(self.symbols[i].name.as_str());
            if eq_chars(&symbol_name, name) {
                proof {
                    lemma_first_named_at(self@.symbols, name@, i as int);
                }
                return Some(crate::sharing::share(&self.symbols[i]));
            }
            i = i + 1;
        }
        proof {
            lemma_first_named_none(self@.symbols, name@);
        }
        None
    }
}

impl Default for Scope {
    fn default() -> (s: Self)
        ensures
            s@ == (ScopeV { symbols: Seq::empty(), next_adr: 0 }),
    {
        Self::new()
    }
}

} // verus!
