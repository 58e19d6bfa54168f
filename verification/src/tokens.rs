//! Token data model: token kinds, literal payloads, numeric-literal type
//! suffixes, and the token cursor the consumer primitives drive.

use vstd::prelude::*;
use crate::source::{Span, SpecSpan};
use crate::error::{ParseError, ParseET, SpecParseError, SpecParseET};

verus! {

/// The closed set of type suffixes a numeric literal may carry.
#[derive(Clone, Copy, Debug, PartialEq, Eq, Structural)]
pub enum NumLitTy {
    U8,
    U16,
    U32,
    U64,
    U128,
    UPtr,
    I8,
    I16,
    I32,
    I64,
    I128,
    IPtr,
    F32,
    F64,
}

/// A parsed numeric value. Integers carry their value; floating-point
/// literals carry their cleaned digit body (separators and radix prefix
/// stripped, suffix removed) exactly as it will be interpreted, since this
/// library never computes with floating-point values itself.
#[derive(Debug)]
pub enum NumLit {
    Integer(u128),
    Float(String),
}

/// Mathematical image of a `NumLit`.
pub ghost enum SpecNumLit {
    Integer(int),
    Float(Seq<char>),
}

impl View for NumLit {
    type V = SpecNumLit;

    open spec fn view(&self) -> SpecNumLit {
        match self {
            NumLit::Integer(v) => SpecNumLit::Integer(*v as int),
            NumLit::Float(s) => SpecNumLit::Float(s@),
        }
    }
}

impl NumLit {
    /// A fresh value equal to this one.
    pub fn duplicate(&self) -> (r: NumLit)
        ensures
            r@ == self@,
    {
        match self {
            NumLit::Integer(v) => NumLit::Integer(*v),
            NumLit::Float(s) => NumLit::Float(s.clone()),
        }
    }
}

impl PartialEq for NumLit {
    fn eq(&self, other: &NumLit) -> (r: bool) {
        match (self, other) {
            (NumLit::Integer(a), NumLit::Integer(b)) => *a == *b,
            (NumLit::Float(a), NumLit::Float(b)) => *a == *b,
            _ => false,
        }
    }
}

impl vstd::std_specs::cmp::PartialEqSpecImpl for NumLit {
    open spec fn obeys_eq_spec() -> bool {
        true
    }

    open spec fn eq_spec(&self, other: &NumLit) -> bool {
        self@ == other@
    }
}

/// A constant-value token payload.
#[derive(Debug)]
pub enum Literal {
    String(String),
    Char(char),
    Number(NumLit, Option<NumLitTy>),
    Bool(bool),
}

/// Mathematical image of a `Literal`.
pub ghost enum SpecLiteral {
    String(Seq<char>),
    Char(char),
    Number(SpecNumLit, Option<NumLitTy>),
    Bool(bool),
}

impl View for Literal {
    type V = SpecLiteral;

    open spec fn view(&self) -> SpecLiteral {
        match self {
            Literal::String(s) => SpecLiteral::String(s@),
            Literal::Char(c) => SpecLiteral::Char(*c),
            Literal::Number(n, t) => SpecLiteral::Number(n@, *t),
            Literal::Bool(b) => SpecLiteral::Bool(*b),
        }
    }
}

impl Literal {
    /// A fresh value equal to this one.
    pub fn duplicate(&self) -> (r: Literal)
        ensures
            r@ == self@,
    {
        match self {
            Literal::String(s) => Literal::String(s.clone()),
            Literal::Char(c) => Literal::Char(*c),
            Literal::Number(n, t) => Literal::Number(n.duplicate(), *t),
            Literal::Bool(b) => Literal::Bool(*b),
        }
    }
}

impl PartialEq for Literal {
    fn eq(&self, other: &Literal) -> (r: bool) {
        match (self, other) {
            (Literal::String(a), Literal::String(b)) => *a == *b,
            (Literal::Char(a), Literal::Char(b)) => *a == *b,
            (Literal::Number(a, ta), Literal::Number(b, tb)) => *a == *b && match (ta, tb) {
                (Option::None, Option::None) => true,
                (Option::Some(x), Option::Some(y)) => *x == *y,
                _ => false,
            },
            (Literal::Bool(a), Literal::Bool(b)) => *a == *b,
            _ => false,
        }
    }
}

impl vstd::std_specs::cmp::PartialEqSpecImpl for Literal {
    open spec fn obeys_eq_spec() -> bool {
        true
    }

    open spec fn eq_spec(&self, other: &Literal) -> bool {
        self@ == other@
    }
}

/// The kind of one token.
#[derive(Debug)]
pub enum TokenType {
    Ident(String),
    Particle(char, bool),
    Literal(Literal),
}

/// Mathematical image of a `TokenType`.
pub ghost enum SpecTokenType {
    Ident(Seq<char>),
    Particle(char, bool),
    Literal(SpecLiteral),
}

impl View for TokenType {
    type V = SpecTokenType;

    open spec fn view(&self) -> SpecTokenType {
        match self {
            TokenType::Ident(s) => SpecTokenType::Ident(s@),
            TokenType::Particle(c, g) => SpecTokenType::Particle(*c, *g),
            TokenType::Literal(l) => SpecTokenType::Literal(l@),
        }
    }
}

impl TokenType {
    /// A fresh value equal to this one.
    pub fn duplicate(&self) -> (r: TokenType)
        ensures
            r@ == self@,
    {
        match self {
            TokenType::Ident(s) => TokenType::Ident(s.clone()),
            TokenType::Particle(c, g) => TokenType::Particle(*c, *g),
            TokenType::Literal(l) => TokenType::Literal(l.duplicate()),
        }
    }

    /// Pairs the token kind with its location.
    pub fn at(self, loc: Span) -> (r: Token)
        ensures
            r.tt@ == self@,
            r.loc@ == loc@,
    {
        Token { tt: self, loc }
    }
}

/// One located token.
#[derive(Debug)]
pub struct Token {
    pub tt: TokenType,
    pub loc: Span,
}

/// Mathematical image of a `Token`.
pub ghost struct SpecToken {
    pub tt: SpecTokenType,
    pub loc: SpecSpan,
}

impl View for Token {
    type V = SpecToken;

    open spec fn view(&self) -> SpecToken {
        SpecToken { tt: self.tt@, loc: self.loc@ }
    }
}

impl Token {
    /// A fresh value equal to this one.
    pub fn duplicate(&self) -> (r: Token)
        ensures
            r@ == self@,
    {
        Token { tt: self.tt.duplicate(), loc: self.loc.duplicate() }
    }
}

/// An identifier together with its location.
pub struct Ident(pub String, pub Span);

/// A literal together with its location.
pub struct AstLiteral(pub Literal, pub Span);

/// A cursor over a token sequence: the current position plus the tokens.
/// The consumer primitives inspect the current token with `this` and move
/// forward with `next`.
pub struct TokIter {
    pub tokens: Vec<Token>,
    pub index: usize,
}

impl TokIter {
    /// A cursor standing on the first token of `tokens`.
    pub fn new(tokens: Vec<Token>) -> (r: TokIter)
        ensures
            r.tokens@ == tokens@,
            r.index == 0,
    {
        TokIter { tokens, index: 0 }
    }

    /// The token under the cursor, without advancing; an end-of-input error
    /// when the cursor stands past the last token.
    pub fn this(&self) -> (r: Result<Token, ParseError>)
        ensures
            self.index < self.tokens@.len() ==> r is Ok && r->Ok_0@ == self.tokens@[
                self.index as int]@,
            self.index >= self.tokens@.len() ==> r is Err && r->Err_0@ == (SpecParseError {
                et: SpecParseET::EOF,
                loc: Option::None,
                context: Seq::empty(),
            }),
    {
        if self.index < self.tokens.len() {
            Ok(self.tokens[self.index].duplicate())
        } else {
            Err(ParseET::EOF.error())
        }
    }

    /// Moves the cursor one token forward (stopping at the numeric limit of
    /// the position type, which no real token sequence reaches).
    pub fn next(&mut self)
        ensures
            final(self).tokens@ == old(self).tokens@,
            final(self).index == if old(self).index < usize::MAX {
                old(self).index + 1
            } else {
                old(self).index as int
            },
    {
        if self.index < usize::MAX {
            self.index = self.index + 1;
        }
    }
}

} // verus!
