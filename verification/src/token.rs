//! The tokens that a service declaration is written in. A declaration
//! reaches the library as a flat list of them: groups are written as their
//! opening and closing punctuation.

use vstd::prelude::*;
use vstd::string::*;

verus! {

/// One token of a declaration.
#[derive(Clone, Debug, PartialEq, Eq)]
pub enum Token {
    /// A word that can name something.
    Ident(String),
    /// A word that the language keeps for itself, such as `trait` or `fn`.
    Keyword(String),
    /// One character of punctuation.
    Punct(char),
    /// A literal, as it was written.
    Literal(String),
}

/// A token as a mathematical value.
pub enum TokenView {
    Ident(Seq<char>),
    Keyword(Seq<char>),
    Punct(char),
    Literal(Seq<char>),
}

impl View for Token {
    type V = TokenView;

    open spec fn view(&self) -> TokenView {
        match self {
            Token::Ident(s) => TokenView::Ident(s@),
            Token::Keyword(s) => TokenView::Keyword(s@),
            Token::Punct(c) => TokenView::Punct(*c),
            Token::Literal(s) => TokenView::Literal(s@),
        }
    }
}

/// The tokens of a list as mathematical values, one for one.
pub open spec fn token_views(tokens: Seq<Token>) -> Seq<TokenView> {
    Seq::new(tokens.len(), |i: int| tokens[i]@)
}

impl Token {
    /// A copy of the token.
    pub fn duplicate(&self) -> (r: Token)
        ensures
            r@ == self@,
    {
        match self {
            Token::Ident(s) => Token::Ident(s.clone()),
            Token::Keyword(s) => Token::Keyword(s.clone()),
            Token::Punct(c) => Token::Punct(*c),
            Token::Literal(s) => Token::Literal(s.clone()),
        }
    }

    /// Whether the token is the keyword `word`.
    pub fn is_keyword(&self, word: &str) -> (r: bool)
        ensures
            r == (self@ == TokenView::Keyword(word@)),
    {
        match self {
            Token::Keyword(s) => *s == String::from_str(word),
            _ => false,
        }
    }

    /// Whether the token is the punctuation `c`.
    pub fn is_punct(&self, c: char) -> (r: bool)
        ensures
            r == (self@ == TokenView::Punct(c)),
    {
        match self {
            Token::Punct(p) => *p == c,
            _ => false,
        }
    }
}

/// Copies the tokens from `start` up to `end`.
pub(crate) fn copy_tokens(tokens: &[Token], start: usize, end: usize) -> (r: Vec<Token>)
    requires
        start <= end <= tokens@.len(),
    ensures
        token_views(r@) == token_views(tokens@).subrange(start as int, end as int),
{
    let mut out: Vec<Token> = Vec::new();
    let mut i: usize = start;
    while i < end
        invariant
            start <= i <= end <= tokens@.len(),
            token_views(out@) == token_views(tokens@).subrange(start as int, i as int),
        decreases end - i,
    {
        let ghost before = out@;
        out.push(tokens[i].duplicate());
        proof {
            let done = token_views(tokens@).subrange(start as int, i as int);
            let next = token_views(tokens@).subrange(start as int, i + 1);
            assert(token_views(before).len() == done.len());
            assert(before.len() == i - start);
            assert(out@.len() == before.len() + 1);
            assert(token_views(out@).len() == next.len());
            assert forall|k: int| 0 <= k < next.len() implies token_views(out@)[k] == next[k] by {
                if k < before.len() {
                    assert(out@[k] == before[k]);
                    assert(token_views(before)[k] == done[k]);
                    assert(done[k] == token_views(tokens@)[start + k]);
                } else {
                    assert(out@[k]@ == tokens@[i as int]@);
                    assert(next[k] == token_views(tokens@)[start + k]);
                }
            }
            assert(token_views(out@) =~= next);
        }
        i += 1;
    }
    out
}

} // verus!
