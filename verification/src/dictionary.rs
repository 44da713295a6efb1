//! The dictionary: a read-only association from canonical outline text to
//! raw value strings, built once by its owner and shared with every reader.

use vstd::prelude::*;

use crate::outline::{outline_text, Outline};
use crate::plover_dict::{token_spec, Token};

verus! {

/// The value of the first entry whose key is `key`, if any.
pub open spec fn assoc_find(entries: Seq<(Seq<char>, Seq<char>)>, key: Seq<char>) -> Option<
    Seq<char>,
>
    decreases entries.len(),
{
    if entries.len() == 0 {
        None
    } else if entries[0].0 == key {
        Some(entries[0].1)
    } else {
        assoc_find(entries.drop_first(), key)
    }
}

/// The mapping from outline text to raw dictionary values.
pub struct Dictionary {
    entries: Vec<(String, String)>,
}

impl Dictionary {
    /// The entries in insertion order: outline text paired with raw value.
    pub closed spec fn entries(self) -> Seq<(Seq<char>, Seq<char>)> {
        Seq::new(self.entries@.len(), |i: int| (self.entries@[i].0@, self.entries@[i].1@))
    }

    /// An empty dictionary, to be filled by its owner before use.
    pub fn new() -> (d: Dictionary)
        ensures
            d.entries() == Seq::<(Seq<char>, Seq<char>)>::empty(),
    {
        let d = Dictionary { entries: Vec::new() };
        proof {
            assert(d.entries() =~= Seq::<(Seq<char>, Seq<char>)>::empty());
        }
        d
    }

    /// Add one entry: `key` is canonical outline text, `value` a raw
    /// dictionary value.
    pub fn insert(&mut self, key: &str, value: &str)
        ensures
            final(self).entries() == old(self).entries().push((key@, value@)),
    {
        self.entries.push((key.to_owned(), value.to_owned()));
        proof {
            assert(self.entries() =~= old(self).entries().push((key@, value@)));
        }
    }

    /// Look an outline up by its canonical text. A hit decodes the raw
    /// value to its token; a miss is a normal outcome, not an error.
    pub fn lookup(&self, outline: Outline) -> (r: Option<Token>)
        ensures
            match assoc_find(self.entries(), outline_text(outline.strokes())) {
                Some(raw) => r matches Some(t) && t@ == token_spec(raw),
                None => r is None,
            },
    {
        let text = outline.format();
        let ghost key = outline_text(outline.strokes());
        let mut i: usize = 0;
        proof {
            assert(self.entries().skip(0) =~= self.entries());
        }
        while i < self.entries.len()
            invariant
                i <= self.entries@.len(),
                text@ == key,
                key == outline_text(outline.strokes()),
                self.entries().len() == self.entries@.len(),
                assoc_find(self.entries(), key) == assoc_find(
                    self.entries().skip(i as int),
                    key,
                ),
            decreases self.entries@.len() - i,
        {
            proof {
                assert(self.entries().skip(i as int)[0] == self.entries()[i as int]);
                assert(self.entries().skip(i as int).drop_first() =~= self.entries().skip(
                    i as int + 1,
                ));
            }
            let hit = self.entries[i].0 == text;
            if hit {
                proof {
                    assert(self.entries()[i as int].0 == key);
                    assert(assoc_find(self.entries().skip(i as int), key) == Some(
                        self.entries()[i as int].1,
                    ));
                }
                let token = Token::parse(self.entries[i].1.as_str());
                return Some(token);
            }
            i = i + 1;
        }
        None
    }
}

} // verus!
