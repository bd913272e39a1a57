//! Token trees: the shape of the source that the engine reads and rewrites.
use vstd::prelude::*;

verus! {

/// The view of an identifier: its name and its source location.
pub type IdentView = (Seq<char>, usize);

/// The delimiter of a group of tokens.
#[derive(Clone, Copy, Debug, PartialEq, Eq, Structural)]
pub enum Delimiter {
    Parenthesis,
    Brace,
    Bracket,
    Invisible,
}

/// An identifier token with the location it came from.
#[derive(Debug, PartialEq, Eq)]
pub struct Ident {
    pub name: String,
    pub pos: usize,
}

impl View for Ident {
    type V = IdentView;

    open spec fn view(&self) -> IdentView {
        (self.name@, self.pos)
    }
}

impl Ident {
    pub fn new(name: &str, pos: usize) -> (r: Ident)
        ensures
            r.name@ == name@,
            r.pos == pos,
    {
        Ident { name: name.to_owned(), pos }
    }

    /// An independent copy of this identifier.
    pub fn copy(&self) -> (r: Ident)
        ensures
            r@ == self@,
    {
        Ident { name: self.name.clone(), pos: self.pos }
    }
}

/// A token: an identifier, a punctuation character, a literal, or a
/// delimited group of tokens. Each carries its source location.
#[derive(Debug, PartialEq, Eq)]
pub enum TokenTree {
    Ident(Ident),
    Punct(char, usize),
    Literal(String, usize),
    Group(Delimiter, Vec<TokenTree>, usize),
}

pub open spec fn is_punct(t: TokenTree, c: char) -> bool {
    t is Punct && t->Punct_0 == c
}

pub open spec fn is_group(t: TokenTree, d: Delimiter) -> bool {
    t is Group && t->Group_0 == d
}

/// The source location of a token.
pub open spec fn pos_of(t: TokenTree) -> usize {
    match t {
        TokenTree::Ident(i) => i.pos,
        TokenTree::Punct(_, p) => p,
        TokenTree::Literal(_, p) => p,
        TokenTree::Group(_, _, p) => p,
    }
}

impl TokenTree {
    pub fn pos(&self) -> (r: usize)
        ensures
            r == pos_of(*self),
    {
        match self {
            TokenTree::Ident(i) => i.pos,
            TokenTree::Punct(_, p) => *p,
            TokenTree::Literal(_, p) => *p,
            TokenTree::Group(_, _, p) => *p,
        }
    }
}

} // verus!
