//! The keyword table: which spellings are reserved, and as what.

use crate::assoc::{
    distinct_keys, entries_map, lemma_entries_count, lemma_entries_map_domain,
    lemma_entries_map_value,
};
use crate::token::{Tag, Word};
use vstd::prelude::*;

verus! {

/// The kind of a word spelled `text` under the reservations `keywords`: a
/// keyword where the spelling is reserved, an identifier where it is not.
pub open spec fn word_kind(keywords: Map<Seq<char>, Tag>, text: Seq<char>) -> Tag {
    if keywords.contains_key(text) {
        Tag::Keyword
    } else {
        Tag::Identifier
    }
}

/// The reserved words of a scanner. Entries are added while the table is
/// built and never leave it.
pub struct KeywordTable {
    words: Vec<Word>,
}

impl KeywordTable {
    /// The entries in the order in which they were reserved.
    pub closed spec fn entries(&self) -> Seq<(Seq<char>, Tag)> {
        Seq::new(self.words@.len(), |i: int| (self.words@[i].word@, self.words@[i].tag))
    }

    /// No spelling is reserved twice.
    pub closed spec fn wf(&self) -> bool {
        distinct_keys(self.entries())
    }

    /// The tag each reserved spelling stands for.
    pub closed spec fn view(&self) -> Map<Seq<char>, Tag> {
        entries_map(self.entries())
    }

    /// The tag of `text`, where it is reserved.
    pub open spec fn tag_of(&self, text: Seq<char>) -> Option<Tag> {
        if self@.contains_key(text) {
            Some(self@[text])
        } else {
            None
        }
    }

    /// A table without entries.
    pub fn new() -> (table: KeywordTable)
        ensures
            table.wf(),
            table@ == Map::<Seq<char>, Tag>::empty(),
    {
        KeywordTable { words: Vec::new() }
    }

    /// How many spellings are reserved.
    pub fn len(&self) -> (n: usize)
        requires
            self.wf(),
        ensures
            n == self@.dom().len(),
            self@.dom().finite(),
    {
        proof {
            lemma_entries_count(self.entries());
        }
        self.words.len()
    }

    /// Where the entry for `text` stands, if there is one.
    fn position(&self, text: &str) -> (found: Option<usize>)
        ensures
            match found {
                Some(i) => i < self.entries().len() && self.entries()[i as int].0 == text@,
                None => forall|i: int|
                    0 <= i < self.entries().len() ==> (#[trigger] self.entries()[i]).0 != text@,
            },
    {
        let wanted = text.to_owned();
        let mut i: usize = 0;
        while i < self.words.len()
            invariant
                i <= self.words@.len(),
                wanted@ == text@,
                forall|j: int| 0 <= j < i ==> (#[trigger] self.entries()[j]).0 != text@,
            decreases self.words@.len() - i,
        {
            if self.words[i].word == wanted {
                return Some(i);
            }
            i += 1;
        }
        None
    }

    /// The tag that `text` is reserved as, if it is reserved.
    pub fn lookup(&self, text: &str) -> (tag: Option<Tag>)
        requires
            self.wf(),
        ensures
            tag == self.tag_of(text@),
    {
        proof {
            lemma_entries_map_domain(self.entries(), text@);
        }
        match self.position(text) {
            Some(i) => {
                proof {
                    lemma_entries_map_value(self.entries(), i as int);
                }
                Some(self.words[i].tag)
            },
            None => None,
        }
    }

    /// Reserves the spelling of `word` with its tag, unless the spelling is
    /// reserved already. Says whether the table changed.
    pub fn reserve(&mut self, word: Word) -> (added: bool)
        requires
            old(self).wf(),
        ensures
            final(self).wf(),
            added == !old(self)@.contains_key(word.word@),
            final(self)@ == if added {
                old(self)@.insert(word.word@, word.tag)
            } else {
                old(self)@
            },
    {
        proof {
            lemma_entries_map_domain(self.entries(), word.word@);
        }
        match self.position(word.word.as_str()) {
            Some(_) => false,
            None => {
                let ghost before = self.entries();
                let ghost entry = (word.word@, word.tag);
                self.words.push(word);
                assert(self.entries() =~= before.push(entry));
                assert(self.entries().drop_last() =~= before);
                true
            },
        }
    }
}

} // verus!
