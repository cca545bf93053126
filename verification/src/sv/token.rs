//! The tokens of SystemVerilog as far as the search for modules tells them
//! apart.

use vstd::prelude::*;
use crate::lang::Position;
use crate::text::string_of;

verus! {

/// A delimiter or an operator.
#[derive(Debug, Clone, Copy, PartialEq, Eq, Structural)]
pub enum Operator {
    /// `(*`, which opens an attribute.
    AttrL,
    /// `*)`, which closes an attribute.
    AttrR,
    ParenL,
    ParenR,
    Semicolon,
    Comma,
    Pound,
    /// Any other character that stands for itself.
    Other(char),
}

/// A reserved word that the search for modules acts on.
#[derive(Debug, Clone, Copy, PartialEq, Eq, Structural)]
pub enum Keyword {
    Module,
    Macromodule,
    Endmodule,
}

/// What went wrong in a source text.
#[derive(Debug, Clone, Copy, PartialEq, Eq, Structural)]
pub enum SystemVerilogError {
    /// A comment opened by `/*` is not closed.
    UnclosedComment,
    /// A string opened by `"` is not closed.
    UnclosedString,
    /// The text ends where this operator had to come.
    ExpectingOperator(Operator),
    /// The text ends where this reserved word had to come.
    ExpectingKeyword(Keyword),
    /// A name had to come.
    ExpectingIdentifier,
}

/// A token without its place.
#[derive(Debug, PartialEq, Eq)]
pub enum SystemVerilogToken {
    Comment(String),
    Operator(Operator),
    Number(String),
    Identifier(String),
    Keyword(Keyword),
    /// Any other reserved word.
    Reserved(String),
    StringLiteral(String),
    Directive(String),
    EOF,
}

/// The mathematical value of a `SystemVerilogToken`.
pub enum TokenView {
    Comment(Seq<char>),
    Operator(Operator),
    Number(Seq<char>),
    Identifier(Seq<char>),
    Keyword(Keyword),
    Reserved(Seq<char>),
    StringLiteral(Seq<char>),
    Directive(Seq<char>),
    EOF,
}

/// An operator as the source text writes it.
pub open spec fn operator_text(o: Operator) -> Seq<char> {
    match o {
        Operator::AttrL => "(*"@,
        Operator::AttrR => "*)"@,
        Operator::ParenL => "("@,
        Operator::ParenR => ")"@,
        Operator::Semicolon => ";"@,
        Operator::Comma => ","@,
        Operator::Pound => "#"@,
        Operator::Other(c) => seq![c],
    }
}

/// A token as a source text can write it: a comment between `/*` and
/// `*/`, a text between quotes, a directive behind a grave accent, and
/// every other token as it is.
pub open spec fn token_text(t: TokenView) -> Seq<char> {
    match t {
        TokenView::Comment(s) => "/*"@ + s + "*/"@,
        TokenView::Operator(o) => operator_text(o),
        TokenView::Number(s) => s,
        TokenView::Identifier(s) => s,
        TokenView::Keyword(Keyword::Module) => "module"@,
        TokenView::Keyword(Keyword::Macromodule) => "macromodule"@,
        TokenView::Keyword(Keyword::Endmodule) => "endmodule"@,
        TokenView::Reserved(s) => s,
        TokenView::StringLiteral(s) => "\""@ + s + "\""@,
        TokenView::Directive(s) => "`"@ + s,
        TokenView::EOF => Seq::empty(),
    }
}

impl SystemVerilogToken {
    /// The mathematical value.
    pub open spec fn view(&self) -> TokenView {
        match self {
            SystemVerilogToken::Comment(s) => TokenView::Comment(s@),
            SystemVerilogToken::Operator(o) => TokenView::Operator(*o),
            SystemVerilogToken::Number(s) => TokenView::Number(s@),
            SystemVerilogToken::Identifier(s) => TokenView::Identifier(s@),
            SystemVerilogToken::Keyword(k) => TokenView::Keyword(*k),
            SystemVerilogToken::Reserved(s) => TokenView::Reserved(s@),
            SystemVerilogToken::StringLiteral(s) => TokenView::StringLiteral(s@),
            SystemVerilogToken::Directive(s) => TokenView::Directive(s@),
            SystemVerilogToken::EOF => TokenView::EOF,
        }
    }

    /// Whether the token is a comment.
    pub fn is_comment(&self) -> (r: bool)
        ensures
            r == (self@ is Comment),
    {
        match self {
            SystemVerilogToken::Comment(_) => true,
            _ => false,
        }
    }

    /// Whether the token marks the end of the text.
    pub fn is_eof(&self) -> (r: bool)
        ensures
            r == (self@ is EOF),
    {
        match self {
            SystemVerilogToken::EOF => true,
            _ => false,
        }
    }

    /// Whether the token is the operator `op`.
    pub fn check_delimiter(&self, op: &Operator) -> (r: bool)
        ensures
            r == (self@ == TokenView::Operator(*op)),
    {
        match self {
            SystemVerilogToken::Operator(o) => *o == *op,
            _ => false,
        }
    }

    /// Whether the token is the reserved word `kw`.
    pub fn check_keyword(&self, kw: &Keyword) -> (r: bool)
        ensures
            r == (self@ == TokenView::Keyword(*kw)),
    {
        match self {
            SystemVerilogToken::Keyword(k) => *k == *kw,
            _ => false,
        }
    }

    /// Whether the token is a reserved word.
    pub fn is_keyword(&self) -> (r: bool)
        ensures
            r == (self@ is Keyword || self@ is Reserved),
    {
        match self {
            SystemVerilogToken::Keyword(_) => true,
            SystemVerilogToken::Reserved(_) => true,
            _ => false,
        }
    }

    /// The token as a source text can write it.
    pub fn to_string(&self) -> (s: String)
        ensures
            s@ == token_text(self@),
    {
        match self {
            SystemVerilogToken::Comment(s) => {
                let text = String::from_str("/*").concat(s.as_str()).concat("*/");
                assert(text@ =~= token_text(self@));
                text
            },
            SystemVerilogToken::Operator(o) => match o {
                Operator::AttrL => String::from_str("(*"),
                Operator::AttrR => String::from_str("*)"),
                Operator::ParenL => String::from_str("("),
                Operator::ParenR => String::from_str(")"),
                Operator::Semicolon => String::from_str(";"),
                Operator::Comma => String::from_str(","),
                Operator::Pound => String::from_str("#"),
                Operator::Other(c) => {
                    let mut one: Vec<char> = Vec::new();
                    one.push(*c);
                    assert(one@ =~= seq![*c]);
                    string_of(&one)
                },
            },
            SystemVerilogToken::Number(s) => s.clone(),
            SystemVerilogToken::Identifier(s) => s.clone(),
            SystemVerilogToken::Keyword(k) => match k {
                Keyword::Module => String::from_str("module"),
                Keyword::Macromodule => String::from_str("macromodule"),
                Keyword::Endmodule => String::from_str("endmodule"),
            },
            SystemVerilogToken::Reserved(s) => s.clone(),
            SystemVerilogToken::StringLiteral(s) => {
                let text = String::from_str("\"").concat(s.as_str()).concat("\"");
                assert(text@ =~= token_text(self@));
                text
            },
            SystemVerilogToken::Directive(s) => {
                let text = String::from_str("`").concat(s.as_str());
                text
            },
            SystemVerilogToken::EOF => String::new(),
        }
    }

    /// The name, if the token is one.
    pub fn as_identifier(&self) -> (r: Option<&String>)
        ensures
            match r {
                Some(s) => self@ == TokenView::Identifier(s@),
                None => !(self@ is Identifier),
            },
    {
        match self {
            SystemVerilogToken::Identifier(s) => Some(s),
            _ => None,
        }
    }
}

impl Clone for SystemVerilogToken {
    fn clone(&self) -> (r: Self)
        ensures
            r@ == self@,
    {
        match self {
            SystemVerilogToken::Comment(s) => SystemVerilogToken::Comment(s.clone()),
            SystemVerilogToken::Operator(o) => SystemVerilogToken::Operator(*o),
            SystemVerilogToken::Number(s) => SystemVerilogToken::Number(s.clone()),
            SystemVerilogToken::Identifier(s) => SystemVerilogToken::Identifier(s.clone()),
            SystemVerilogToken::Keyword(k) => SystemVerilogToken::Keyword(*k),
            SystemVerilogToken::Reserved(s) => SystemVerilogToken::Reserved(s.clone()),
            SystemVerilogToken::StringLiteral(s) => SystemVerilogToken::StringLiteral(s.clone()),
            SystemVerilogToken::Directive(s) => SystemVerilogToken::Directive(s.clone()),
            SystemVerilogToken::EOF => SystemVerilogToken::EOF,
        }
    }
}

/// A token and the place where it starts.
#[derive(Debug, PartialEq, Eq)]
pub struct Token {
    position: Position,
    ttype: SystemVerilogToken,
}

impl Token {
    /// The token without its place.
    pub closed spec fn view(&self) -> TokenView {
        self.ttype@
    }

    /// The place where the token starts.
    pub closed spec fn spec_position(&self) -> Position {
        self.position
    }

    /// The token `ttype` at the place `position`.
    pub fn new(ttype: SystemVerilogToken, position: Position) -> (t: Token)
        ensures
            t@ == ttype@,
            t.spec_position() == position,
    {
        Token { position, ttype }
    }

    /// The token without its place.
    pub fn as_type(&self) -> (ttype: &SystemVerilogToken)
        ensures
            ttype@ == self@,
    {
        &self.ttype
    }

    /// The token without its place.
    pub fn take(self) -> (ttype: SystemVerilogToken)
        ensures
            ttype@ == self@,
    {
        self.ttype
    }

    /// The place where the token starts.
    pub fn locate(&self) -> (position: &Position)
        ensures
            *position == self.spec_position(),
    {
        &self.position
    }

    /// The place where the token starts.
    pub fn into_position(self) -> (position: Position)
        ensures
            position == self.spec_position(),
    {
        self.position
    }
}

impl Clone for Token {
    fn clone(&self) -> (r: Self)
        ensures
            r@ == self@,
            r.spec_position() == self.spec_position(),
    {
        Token { position: self.position, ttype: self.ttype.clone() }
    }
}

/// The tokens of `tokens` without their places.
pub open spec fn tokens_view(tokens: Seq<Token>) -> Seq<TokenView> {
    Seq::new(tokens.len(), |i: int| tokens[i]@)
}

/// The places of the tokens of `tokens`.
pub open spec fn places_view(tokens: Seq<Token>) -> Seq<Position> {
    Seq::new(tokens.len(), |i: int| tokens[i].spec_position())
}

} // verus!
