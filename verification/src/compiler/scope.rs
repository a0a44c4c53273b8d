//! The symbols of a scope. Lookup does not look at names yet: it finds the
//! first symbol, whatever it is called.

use vstd::prelude::*;

verus! {

#[derive(Debug, PartialEq)]
pub struct Symbol {
    pub name: String,
}

pub struct Scope {
    symbols: Vec<Symbol>,
}

impl View for Scope {
    type V = Seq<Seq<char>>;

    /// The names of the symbols, in the order they were added.
    closed spec fn view(&self) -> Seq<Seq<char>> {
        self.symbols@.map_values(|s: Symbol| s.name@)
    }
}

impl Scope {
    pub fn new() -> (s: Scope)
        ensures
            s@ == Seq::<Seq<char>>::empty(),
    {
        let s = Scope { symbols: Vec::new() };
        assert(s@ =~= Seq::<Seq<char>>::empty());
        s
    }

    /// Adds a symbol named `s`, even if one already has that name.
    pub fn add(&mut self, s: &str)
        ensures
            final(self)@ == old(self)@.push(s@),
    {
        let name = crate::text::string_from_chars(&crate::text::chars_of(s));
        self.symbols.push(Symbol { name });
        assert(self@ =~= old(self)@.push(s@));
    }

    /// The first symbol of the scope, if there is one.
    pub fn lookup<'a>(&'a self, _s: &str) -> (r: Option<&'a Symbol>)
        ensures
            match r {
                Some(sym) => self@.len() > 0 && sym.name@ == self@[0],
                None => self@.len() == 0,
            },
    {
        if self.symbols.len() == 0 {
            None
        } else {
            Some(&self.symbols[0])
        }
    }
}

} // verus!
