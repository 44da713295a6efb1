//! The machine: the ordered history of decoded tokens, cleared on commit.

use vstd::prelude::*;

use crate::plover_dict::Token;

verus! {

/// An unbounded ordered history of tokens, owned by one caller.
pub struct Machine {
    history: Vec<Token>,
}

impl Machine {
    /// The tokens fed in since the last commit, oldest first.
    pub closed spec fn history(self) -> Seq<Token> {
        self.history@
    }

    /// A machine with an empty history.
    pub fn new() -> (m: Machine)
        ensures
            m.history() == Seq::<Token>::empty(),
    {
        Machine { history: Vec::new() }
    }

    /// Append one token to the history.
    pub fn input(&mut self, token: Token)
        ensures
            final(self).history() == old(self).history().push(token),
    {
        self.history.push(token);
    }

    /// Clear the history. This stands in for the formatting stage to come:
    /// the output text is always empty for now.
    pub fn commit(&mut self) -> (r: String)
        ensures
            final(self).history() == Seq::<Token>::empty(),
            r@ == Seq::<char>::empty(),
    {
        self.history = Vec::new();
        String::new()
    }
}

} // verus!
