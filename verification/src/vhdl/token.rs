//! The tokens of VHDL as far as the search for design units tells them
//! apart.

use vstd::prelude::*;
use crate::lang::Position;

verus! {

/// A reserved word, by what the search for design units makes of it.
#[derive(Debug, Clone, Copy, PartialEq, Eq, Structural)]
pub enum Keyword {
    Entity,
    Architecture,
    Package,
    Configuration,
    Component,
    Is,
    Of,
    End,
    Port,
    Generic,
    Begin,
    Body,
    Function,
    Procedure,
    /// A word that starts a declaration: `signal`, `variable`, `constant`,
    /// `file`, `shared`, `alias`, `attribute`, `type`, `subtype`.
    Declaration,
    /// A word that follows `end` where something inside a unit ends:
    /// `process`, `if`, `case`, `loop`, `generate`, `block`, `record`,
    /// `units`, `protected`, `postponed`, `for`.
    Closer,
    /// Any other reserved word.
    Other,
}

/// What went wrong in a source text.
#[derive(Debug, Clone, Copy, PartialEq, Eq, Structural)]
pub enum VhdlError {
    /// A comment opened by `/*` is not closed.
    UnclosedComment,
    /// A string opened by `"` is not closed.
    UnclosedString,
    /// A name opened by a backslash is not closed.
    UnclosedIdentifier,
    /// The text ends where this reserved word had to come.
    ExpectingKeyword(Keyword),
    /// A name had to come.
    ExpectingIdentifier,
}

/// A token without its place.
#[derive(Debug, PartialEq, Eq)]
pub enum VhdlToken {
    Comment(String),
    Identifier(String),
    Keyword(Keyword),
    /// A string, a character or a number.
    Literal(String),
    /// Any other character, which stands for itself.
    Delimiter(char),
    EOF,
}

/// The mathematical value of a `VhdlToken`.
pub enum TokenView {
    Comment(Seq<char>),
    Identifier(Seq<char>),
    Keyword(Keyword),
    Literal(Seq<char>),
    Delimiter(char),
    EOF,
}

impl VhdlToken {
    /// The mathematical value.
    pub open spec fn view(&self) -> TokenView {
        match self {
            VhdlToken::Comment(s) => TokenView::Comment(s@),
            VhdlToken::Identifier(s) => TokenView::Identifier(s@),
            VhdlToken::Keyword(k) => TokenView::Keyword(*k),
            VhdlToken::Literal(s) => TokenView::Literal(s@),
            VhdlToken::Delimiter(c) => TokenView::Delimiter(*c),
            VhdlToken::EOF => TokenView::EOF,
        }
    }

    /// Whether the token is a comment.
    pub fn is_comment(&self) -> (r: bool)
        ensures
            r == (self@ is Comment),
    {
        match self {
            VhdlToken::Comment(_) => true,
            _ => false,
        }
    }

    /// Whether the token marks the end of the text.
    pub fn is_eof(&self) -> (r: bool)
        ensures
            r == (self@ is EOF),
    {
        match self {
            VhdlToken::EOF => true,
            _ => false,
        }
    }

    /// Whether the token is the character `c`.
    pub fn check_delimiter(&self, c: char) -> (r: bool)
        ensures
            r == (self@ == TokenView::Delimiter(c)),
    {
        match self {
            VhdlToken::Delimiter(d) => *d == c,
            _ => false,
        }
    }

    /// Whether the token is the reserved word `kw`.
    pub fn check_keyword(&self, kw: &Keyword) -> (r: bool)
        ensures
            r == (self@ == TokenView::Keyword(*kw)),
    {
        match self {
            VhdlToken::Keyword(k) => *k == *kw,
            _ => false,
        }
    }

    /// The reserved word, if the token is one.
    pub fn as_keyword(&self) -> (r: Option<Keyword>)
        ensures
            match r {
                Some(k) => self@ == TokenView::Keyword(k),
                None => !(self@ is Keyword),
            },
    {
        match self {
            VhdlToken::Keyword(k) => Some(*k),
            _ => None,
        }
    }

    /// The name, if the token is one.
    pub fn as_identifier(&self) -> (r: Option<&String>)
        ensures
            match r {
                Some(s) => self@ == TokenView::Identifier(s@),
                None => !(self@ is Identifier),
            },
    {
        match self {
            VhdlToken::Identifier(s) => Some(s),
            _ => None,
        }
    }
}

/// A token and the place where it starts.
#[derive(Debug, PartialEq, Eq)]
pub struct Token {
    position: Position,
    ttype: VhdlToken,
}

impl Token {
    /// The token without its place.
    pub closed spec fn view(&self) -> TokenView {
        self.ttype@
    }

    /// The place where the token starts.
    pub closed spec fn spec_position(&self) -> Position {
        self.position
    }

    /// The token `ttype` at the place `position`.
    pub fn new(ttype: VhdlToken, position: Position) -> (t: Token)
        ensures
            t@ == ttype@,
            t.spec_position() == position,
    {
        Token { position, ttype }
    }

    /// The token without its place.
    pub fn as_type(&self) -> (ttype: &VhdlToken)
        ensures
            ttype@ == self@,
    {
        &self.ttype
    }

    /// The token without its place.
    pub fn take(self) -> (ttype: VhdlToken)
        ensures
            ttype@ == self@,
    {
        self.ttype
    }

    /// The place where the token starts.
    pub fn locate(&self) -> (position: &Position)
        ensures
            *position == self.spec_position(),
    {
        &self.position
    }
}

/// The tokens of `tokens` without their places.
pub open spec fn tokens_view(tokens: Seq<Token>) -> Seq<TokenView> {
    Seq::new(tokens.len(), |i: int| tokens[i]@)
}

/// The places of `tokens`.
pub open spec fn places_view(tokens: Seq<Token>) -> Seq<Position> {
    Seq::new(tokens.len(), |i: int| tokens[i].spec_position())
}

/// The tokens of `tokens` with their places.
pub open spec fn placed_view(tokens: Seq<Token>) -> Seq<(Position, TokenView)> {
    Seq::new(tokens.len(), |i: int| (tokens[i].spec_position(), tokens[i]@))
}

} // verus!
