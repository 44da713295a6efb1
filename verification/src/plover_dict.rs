//! Tokens: the decoded meanings of raw dictionary values, and the annotation
//! grammar that classifies a raw value by first-match precedence.

use vstd::prelude::*;

use crate::text::{chars_to_string, copy_range, str_to_chars};

verus! {

/// The decoded meaning of one raw dictionary value: a plain word, an affix,
/// glued text, a bare attach mark, or a reserved case-control mark.
#[derive(Clone, Debug)]
pub enum Token {
    Word(String),
    Prefix(String),
    Suffix(String),
    Infix(String),
    Glue(String),
    Attach,
    CapNext,
    CapPrev,
    UncapNext,
    UncapPrev,
}

/// A token seen through the text it carries.
pub enum TokenV {
    Word(Seq<char>),
    Prefix(Seq<char>),
    Suffix(Seq<char>),
    Infix(Seq<char>),
    Glue(Seq<char>),
    Attach,
    CapNext,
    CapPrev,
    UncapNext,
    UncapPrev,
}

impl View for Token {
    type V = TokenV;

    open spec fn view(&self) -> TokenV {
        match self {
            Token::Word(t) => TokenV::Word(t@),
            Token::Prefix(t) => TokenV::Prefix(t@),
            Token::Suffix(t) => TokenV::Suffix(t@),
            Token::Infix(t) => TokenV::Infix(t@),
            Token::Glue(t) => TokenV::Glue(t@),
            Token::Attach => TokenV::Attach,
            Token::CapNext => TokenV::CapNext,
            Token::CapPrev => TokenV::CapPrev,
            Token::UncapNext => TokenV::UncapNext,
            Token::UncapPrev => TokenV::UncapPrev,
        }
    }
}

impl PartialEq for Token {
    fn eq(&self, other: &Token) -> (r: bool) {
        match (self, other) {
            (Token::Word(a), Token::Word(b)) => *a == *b,
            (Token::Prefix(a), Token::Prefix(b)) => *a == *b,
            (Token::Suffix(a), Token::Suffix(b)) => *a == *b,
            (Token::Infix(a), Token::Infix(b)) => *a == *b,
            (Token::Glue(a), Token::Glue(b)) => *a == *b,
            (Token::Attach, Token::Attach) => true,
            (Token::CapNext, Token::CapNext) => true,
            (Token::CapPrev, Token::CapPrev) => true,
            (Token::UncapNext, Token::UncapNext) => true,
            (Token::UncapPrev, Token::UncapPrev) => true,
            _ => false,
        }
    }
}

impl vstd::std_specs::cmp::PartialEqSpecImpl for Token {
    open spec fn obeys_eq_spec() -> bool {
        true
    }

    open spec fn eq_spec(&self, other: &Token) -> bool {
        self@ == other@
    }
}

impl Eq for Token {

}

/// A group of tokens, as one dictionary value can decode to several.
#[derive(Clone, Debug)]
pub struct DictionaryEntry(Vec<Token>);

/// The index of the first `}` of `s` at `i` or later, or the length of `s`
/// if there is none.
pub open spec fn find_close_from(s: Seq<char>, i: int) -> int
    decreases s.len() - i,
{
    if i < 0 || i >= s.len() {
        s.len() as int
    } else if s[i] == '}' {
        i
    } else {
        find_close_from(s, i + 1)
    }
}

/// The raw value is the bare attach mark `{^}`.
pub open spec fn is_attach(s: Seq<char>) -> bool {
    s.len() == 3 && s[0] == '{' && s[1] == '^' && s[2] == '}'
}

/// The raw value begins with `{&`, then at least one character, then `}`.
pub open spec fn glue_match(s: Seq<char>) -> bool {
    s.len() >= 2 && s[0] == '{' && s[1] == '&' && 3 <= find_close_from(s, 2) < s.len()
}

/// The glued text: what stands between `{&` and the first `}`.
pub open spec fn glue_text(s: Seq<char>) -> Seq<char> {
    s.subrange(2, find_close_from(s, 2))
}

/// The raw value begins with `{^`, then at least one character, then `^}`.
pub open spec fn infix_match(s: Seq<char>) -> bool {
    s.len() >= 2 && s[0] == '{' && s[1] == '^' && 4 <= find_close_from(s, 2) < s.len() && s[
        find_close_from(s, 2) - 1] == '^'
}

/// The infix text: what stands between `{^` and the closing `^}`.
pub open spec fn infix_text(s: Seq<char>) -> Seq<char> {
    s.subrange(2, find_close_from(s, 2) - 1)
}

/// The raw value begins with `{`, then at least one character, then `^}`.
pub open spec fn prefix_match(s: Seq<char>) -> bool {
    s.len() >= 1 && s[0] == '{' && 3 <= find_close_from(s, 1) < s.len() && s[find_close_from(s, 1)
        - 1] == '^'
}

/// The prefix text: what stands between `{` and the closing `^}`.
pub open spec fn prefix_text(s: Seq<char>) -> Seq<char> {
    s.subrange(1, find_close_from(s, 1) - 1)
}

/// The raw value begins with `{^`, then at least one character, then `}`.
pub open spec fn suffix_match(s: Seq<char>) -> bool {
    s.len() >= 2 && s[0] == '{' && s[1] == '^' && 3 <= find_close_from(s, 2) < s.len()
}

/// The suffix text: what stands between `{^` and the first `}`.
pub open spec fn suffix_text(s: Seq<char>) -> Seq<char> {
    s.subrange(2, find_close_from(s, 2))
}

/// The token a raw dictionary value decodes to, by first-match precedence:
/// the bare attach mark, then glue, infix, prefix, suffix, and finally a
/// plain word taken verbatim.
pub open spec fn token_spec(s: Seq<char>) -> TokenV {
    if is_attach(s) {
        TokenV::Attach
    } else if glue_match(s) {
        TokenV::Glue(glue_text(s))
    } else if infix_match(s) {
        TokenV::Infix(infix_text(s))
    } else if prefix_match(s) {
        TokenV::Prefix(prefix_text(s))
    } else if suffix_match(s) {
        TokenV::Suffix(suffix_text(s))
    } else {
        TokenV::Word(s)
    }
}

/// The first `}` of `v` at `from` or later.
fn find_close_exec(v: &Vec<char>, from: usize) -> (r: usize)
    requires
        from <= v@.len(),
    ensures
        r as int == find_close_from(v@, from as int),
{
    let mut i: usize = from;
    while i < v.len()
        invariant
            from <= i <= v@.len(),
            find_close_from(v@, from as int) == find_close_from(v@, i as int),
        decreases v@.len() - i,
    {
        if v[i] == '}' {
            return i;
        }
        i = i + 1;
    }
    i
}

impl Token {
    /// Decode one raw dictionary value by first-match precedence.
    pub fn parse(word: &str) -> (r: Token)
        ensures
            r@ == token_spec(word@),
    {
        let v = str_to_chars(word);
        let n = v.len();
        if n == 3 && v[0] == '{' && v[1] == '^' && v[2] == '}' {
            return Token::Attach;
        }
        if n >= 2 && v[0] == '{' && v[1] == '&' {
            let j = find_close_exec(&v, 2);
            if 3 <= j && j < n {
                let cap = copy_range(&v, 2, j);
                return Token::Glue(chars_to_string(&cap));
            }
        }
        if n >= 2 && v[0] == '{' && v[1] == '^' {
            let j = find_close_exec(&v, 2);
            if 4 <= j && j < n && v[j - 1] == '^' {
                let cap = copy_range(&v, 2, j - 1);
                return Token::Infix(chars_to_string(&cap));
            }
        }
        if n >= 1 && v[0] == '{' {
            let j = find_close_exec(&v, 1);
            if 3 <= j && j < n && v[j - 1] == '^' {
                let cap = copy_range(&v, 1, j - 1);
                return Token::Prefix(chars_to_string(&cap));
            }
        }
        if n >= 2 && v[0] == '{' && v[1] == '^' {
            let j = find_close_exec(&v, 2);
            if 3 <= j && j < n {
                let cap = copy_range(&v, 2, j);
                return Token::Suffix(chars_to_string(&cap));
            }
        }
        Token::Word(word.to_owned())
    }
}

} // verus!
