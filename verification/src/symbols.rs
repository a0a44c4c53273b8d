//! A table from names to values, where a later definition of a name hides
//! the earlier ones.

use vstd::prelude::*;

use crate::text::{chars_of, eq_chars};

verus! {

/// The definitions of a table, oldest first.
pub struct SymbolTable<V> {
    entries: Vec<(Vec<char>, V)>,
}

/// The map that the definitions `e` give, a later one winning.
pub open spec fn entries_map<V>(e: Seq<(Vec<char>, V)>) -> Map<Seq<char>, V>
    decreases e.len(),
{
    if e.len() == 0 {
        Map::empty()
    } else {
        entries_map(e.drop_last()).insert(e.last().0@, e.last().1)
    }
}

impl<V> View for SymbolTable<V> {
    type V = Map<Seq<char>, V>;

    closed spec fn view(&self) -> Map<Seq<char>, V> {
        entries_map(self.entries@)
    }
}

impl<V: Copy> SymbolTable<V> {
    pub fn new() -> (t: Self)
        ensures
            t@ == Map::<Seq<char>, V>::empty(),
    {
        SymbolTable { entries: Vec::new() }
    }

    /// Defines `key` as `value`.
    pub fn insert(&mut self, key: String, value: V)
        ensures
            final(self)@ == old(self)@.insert(key@, value),
    {
        let k = chars_of(key.as_str());
        self.insert_chars(k, value);
    }

    /// Defines the name spelt by `key` as `value`.
    pub fn insert_chars(&mut self, key: Vec<char>, value: V)
        ensures
            final(self)@ == old(self)@.insert(key@, value),
    {
        self.entries.push((key, value));
        assert(self.entries@.drop_last() =~= old(self).entries@);
    }

    /// The value of `key`, if it is defined.
    pub fn get(&self, key: &str) -> (r: Option<V>)
        ensures
            r == (if self@.contains_key(key@) {
                Some(self@[key@])
            } else {
                None
            }),
    {
        let k = chars_of(key);
        self.get_chars(&k)
    }

    /// The value of the name spelt by `key`, if it is defined.
    pub fn get_chars(&self, key: &Vec<char>) -> (r: Option<V>)
        ensures
            r == (if self@.contains_key(key@) {
                Some(self@[key@])
            } else {
                None
            }),
    {
        let mut i: usize = self.entries.len();
        while i > 0
            invariant
                i <= self.entries.len(),
                forall|j: int| i <= j < self.entries.len() ==> #[trigger] self.entries@[j].0@ != key@,
            decreases i,
        {
            if eq_chars(&self.entries[i - 1].0, key) {
                proof {
                    lemma_entries_map_suffix(self.entries@, i as int, key@);
                    assert(self.entries@.take(i as int).drop_last() =~= self.entries@.take(i - 1));
                }
                return Some(self.entries[i - 1].1);
            }
            i = i - 1;
        }
        proof {
            lemma_entries_map_suffix(self.entries@, 0, key@);
            assert(self.entries@.take(0) =~= Seq::<(Vec<char>, V)>::empty());
        }
        None
    }
}

/// Definitions after the first `i` that do not name `k` leave what `k` maps to.
proof fn lemma_entries_map_suffix<V>(e: Seq<(Vec<char>, V)>, i: int, k: Seq<char>)
    requires
        0 <= i <= e.len(),
        forall|j: int| i <= j < e.len() ==> #[trigger] e[j].0@ != k,
    ensures
        entries_map(e).contains_key(k) == entries_map(e.take(i)).contains_key(k),
        entries_map(e).contains_key(k) ==> entries_map(e)[k] == entries_map(e.take(i))[k],
    decreases e.len(),
{
    if e.len() > i {
        lemma_entries_map_suffix(e.drop_last(), i, k);
        assert(e.drop_last().take(i) =~= e.take(i));
    } else {
        assert(e.take(i) =~= e);
    }
}

/// A definition is what a later lookup of its name gives, and it leaves
/// what the other names give as it was.
pub proof fn lemma_get_after_insert<V>(m: Map<Seq<char>, V>, key: Seq<char>, value: V, other: Seq<char>)
    requires
        other != key,
    ensures
        m.insert(key, value).contains_key(key),
        m.insert(key, value)[key] == value,
        m.insert(key, value).contains_key(other) == m.contains_key(other),
        m.contains_key(other) ==> m.insert(key, value)[other] == m[other],
{
}

} // verus!
