//! Symbol tables for nested scopes: each scope has its own table and may
//! have an enclosing scope, in which a name is looked up when the scope
//! itself does not declare it.

use crate::assoc::{distinct_keys, entries_map, lemma_entries_map_domain, lemma_entries_map_value};
use vstd::prelude::*;

verus! {

/// The symbol table of one scope.
#[derive(Debug, PartialEq, Eq)]
pub struct Env {
    table: Vec<(String, String)>,
    previous: Option<Box<Env>>,
}

impl Env {
    /// The declarations of this scope in the order in which they were made.
    pub closed spec fn entries(&self) -> Seq<(Seq<char>, Seq<char>)> {
        Seq::new(self.table@.len(), |i: int| (self.table@[i].0@, self.table@[i].1@))
    }

    /// What this scope itself declares.
    pub closed spec fn local(&self) -> Map<Seq<char>, Seq<char>> {
        entries_map(self.entries())
    }

    /// The enclosing scope, if there is one.
    pub closed spec fn outer(&self) -> Option<Env> {
        match self.previous {
            Some(env) => Some(*env),
            None => None,
        }
    }

    /// No scope of the chain declares a name twice.
    pub closed spec fn wf(&self) -> bool
        decreases self,
    {
        &&& distinct_keys(self.entries())
        &&& match self.previous {
            Some(env) => env.wf(),
            None => true,
        }
    }

    /// The symbol that `key` stands for here: what the innermost scope that
    /// declares it says.
    pub closed spec fn resolve(&self, key: Seq<char>) -> Option<Seq<char>>
        decreases self,
    {
        if self.local().contains_key(key) {
            Some(self.local()[key])
        } else {
            match self.previous {
                Some(env) => env.resolve(key),
                None => None,
            }
        }
    }

    /// How a name is resolved: in this scope if it is declared here, else
    /// as the enclosing scope resolves it, and not at all where there is
    /// none.
    pub proof fn lemma_resolve(&self, key: Seq<char>)
        ensures
            self.resolve(key) == if self.local().contains_key(key) {
                Some(self.local()[key])
            } else {
                match self.outer() {
                    Some(env) => env.resolve(key),
                    None => None,
                }
            },
            self.wf() && self.outer() is Some ==> self.outer()->0.wf(),
    {
    }

    /// The outermost scope, with nothing declared.
    pub fn new() -> (env: Env)
        ensures
            env.wf(),
            env.local() == Map::<Seq<char>, Seq<char>>::empty(),
            env.outer() is None,
    {
        Env { table: Vec::new(), previous: None }
    }

    /// A scope inside `previous`, with nothing declared.
    pub fn nested(previous: Env) -> (env: Env)
        requires
            previous.wf(),
        ensures
            env.wf(),
            env.local() == Map::<Seq<char>, Seq<char>>::empty(),
            env.outer() == Some(previous),
    {
        Env { table: Vec::new(), previous: Some(Box::new(previous)) }
    }

    /// How many names this scope declares.
    pub fn len(&self) -> (n: usize)
        requires
            self.wf(),
        ensures
            n == self.local().dom().len(),
    {
        proof {
            crate::assoc::lemma_entries_count(self.entries());
        }
        self.table.len()
    }

    /// Whether this scope has no enclosing scope.
    pub fn is_outermost(&self) -> (b: bool)
        ensures
            b == (self.outer() is None),
    {
        self.previous.is_none()
    }

    /// Where this scope declares `key`, if it does.
    fn position(&self, key: &str) -> (found: Option<usize>)
        ensures
            match found {
                Some(i) => i < self.entries().len() && self.entries()[i as int].0 == key@,
                None => forall|i: int|
                    0 <= i < self.entries().len() ==> (#[trigger] self.entries()[i]).0 != key@,
            },
    {
        let wanted = key.to_owned();
        let mut i: usize = 0;
        while i < self.table.len()
            invariant
                i <= self.table@.len(),
                wanted@ == key@,
                forall|j: int| 0 <= j < i ==> (#[trigger] self.entries()[j]).0 != key@,
            decreases self.table@.len() - i,
        {
            if self.table[i].0 == wanted {
                return Some(i);
            }
            i += 1;
        }
        None
    }

    /// Whether this scope itself declares `key`.
    pub fn declares(&self, key: &str) -> (b: bool)
        ensures
            b == self.local().contains_key(key@),
    {
        proof {
            lemma_entries_map_domain(self.entries(), key@);
        }
        self.position(key).is_some()
    }

    /// Declares `key` in this scope, with the symbol `sym`.
    pub fn insert(&mut self, key: &str, sym: String)
        requires
            old(self).wf(),
            !old(self).local().contains_key(key@),
        ensures
            final(self).wf(),
            final(self).local() == old(self).local().insert(key@, sym@),
            final(self).outer() == old(self).outer(),
    {
        let ghost before = self.entries();
        proof {
            lemma_entries_map_domain(before, key@);
        }
        self.table.push((key.to_owned(), sym));
        assert(self.entries() =~= before.push((key@, sym@)));
        assert(self.entries().drop_last() =~= before);
    }

    /// The symbol that `key` stands for: what the innermost scope that
    /// declares it says.
    pub fn get(&self, key: &str) -> (symbol: Option<String>)
        requires
            self.wf(),
        ensures
            match symbol {
                Some(text) => self.resolve(key@) == Some(text@),
                None => self.resolve(key@) is None,
            },
        decreases self,
    {
        proof {
            lemma_entries_map_domain(self.entries(), key@);
        }
        match self.position(key) {
            Some(i) => {
                proof {
                    lemma_entries_map_value(self.entries(), i as int);
                }
                Some(self.table[i].1.clone())
            },
            None => match &self.previous {
                Some(env) => env.get(key),
                None => None,
            },
        }
    }
}

} // verus!
