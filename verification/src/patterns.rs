//! Token consumer primitives: stateless single-step operations over a token
//! cursor. Each inspects the current token; on a match it advances the cursor
//! and returns the extracted payload, on a mismatch it returns a grammar
//! error carrying the mismatched token's span and leaves the cursor in place.

use vstd::prelude::*;
use crate::chars::dec_of;
use crate::error::{ParseError, ParseET, SpecParseError, SpecParseET};
use crate::source::SpecSpan;
use crate::tokens::{
    Token, TokenType, Literal, NumLit, NumLitTy, TokIter, Ident, AstLiteral, SpecToken,
    SpecTokenType, SpecLiteral, SpecNumLit,
};

verus! {

/// The diagnostic text for a numeric payload: its digits, or the float body.
pub open spec fn num_desc(n: SpecNumLit) -> Seq<char> {
    match n {
        SpecNumLit::Integer(v) => dec_of(v as nat),
        SpecNumLit::Float(s) => s,
    }
}

/// The diagnostic text for a literal payload.
pub open spec fn lit_desc(l: SpecLiteral) -> Seq<char> {
    match l {
        SpecLiteral::String(s) => "String(\""@ + s + "\")"@,
        SpecLiteral::Char(c) => "Char('"@ + seq![c] + "')"@,
        SpecLiteral::Number(n, _) => "Number("@ + num_desc(n) + ")"@,
        SpecLiteral::Bool(b) => if b {
            "Bool(true)"@
        } else {
            "Bool(false)"@
        },
    }
}

/// The diagnostic text for a token kind.
pub open spec fn tt_desc(t: SpecTokenType) -> Seq<char> {
    match t {
        SpecTokenType::Ident(s) => "Ident("@ + s + ")"@,
        SpecTokenType::Particle(c, g) => "Particle('"@ + seq![c] + (if g {
            "', glued)"@
        } else {
            "')"@
        }),
        SpecTokenType::Literal(l) => "Literal("@ + lit_desc(l) + ")"@,
    }
}

/// Executable form of `num_desc`.
fn num_desc_exec(n: &NumLit) -> (r: String)
    ensures
        r@ == num_desc(n@),
{
    match n {
        NumLit::Integer(v) => crate::chars::string_from_chars(&crate::chars::dec_string(*v)),
        NumLit::Float(s) => s.clone(),
    }
}

/// Executable form of `lit_desc`.
fn lit_desc_exec(l: &Literal) -> (r: String)
    ensures
        r@ == lit_desc(l@),
{
    match l {
        Literal::String(s) => String::from_str("String(\"").concat(s.as_str()).concat("\")"),
        Literal::Char(c) => {
            let mut v: Vec<char> = Vec::new();
            v.push(*c);
            proof {
                assert(v@ =~= seq![*c]);
            }
            String::from_str("Char('").concat(
                crate::chars::string_from_chars(&v).as_str(),
            ).concat("')")
        },
        Literal::Number(n, _) => String::from_str("Number(").concat(
            num_desc_exec(n).as_str(),
        ).concat(")"),
        Literal::Bool(b) => if *b {
            String::from_str("Bool(true)")
        } else {
            String::from_str("Bool(false)")
        },
    }
}

/// Executable form of `tt_desc`.
fn tt_desc_exec(t: &TokenType) -> (r: String)
    ensures
        r@ == tt_desc(t@),
{
    match t {
        TokenType::Ident(s) => String::from_str("Ident(").concat(s.as_str()).concat(")"),
        TokenType::Particle(c, g) => {
            let mut v: Vec<char> = Vec::new();
            v.push(*c);
            proof {
                assert(v@ =~= seq![*c]);
            }
            String::from_str("Particle('").concat(
                crate::chars::string_from_chars(&v).as_str(),
            ).concat(
                if *g {
                    "', glued)"
                } else {
                    "')"
                },
            )
        },
        TokenType::Literal(l) => String::from_str("Literal(").concat(
            lit_desc_exec(l).as_str(),
        ).concat(")"),
    }
}

/// A grammar error at a span, with no context yet.
pub open spec fn spec_parsing_err(msg: Seq<char>, loc: SpecSpan) -> SpecParseError {
    SpecParseError {
        et: SpecParseET::ParsingError(msg),
        loc: Option::Some(loc),
        context: Seq::empty(),
    }
}

/// The bare end-of-input error a consumer yields past the last token.
pub open spec fn spec_consumer_eof() -> SpecParseError {
    SpecParseError { et: SpecParseET::EOF, loc: Option::None, context: Seq::empty() }
}

/// Past the last token.
pub open spec fn at_end(it: TokIter) -> bool {
    it.index >= it.tokens@.len()
}

/// The token under the cursor.
pub open spec fn cur(it: TokIter) -> SpecToken {
    it.tokens@[it.index as int]@
}

/// Fetches the next token unconditionally, advancing the cursor; the
/// end-of-input error when none is left (the cursor still advances once, as
/// lookahead-driven grammar logic expects).
pub struct GetNext;

impl GetNext {
    /// Consumes one token, whatever it is.
    pub fn consume(&self, iter: &mut TokIter) -> (r: Result<Token, ParseError>)
        ensures
            final(iter).tokens@ == old(iter).tokens@,
            final(iter).index == if old(iter).index < usize::MAX {
                old(iter).index + 1
            } else {
                old(iter).index as int
            },
            !at_end(*old(iter)) ==> r is Ok && r->Ok_0@ == cur(*old(iter)),
            at_end(*old(iter)) ==> r is Err && r->Err_0@ == spec_consumer_eof(),
    {
        let t = iter.this();
        iter.next();
        t
    }
}

/// Expects and consumes one specific identifier.
pub struct ExpectIdent(pub String);

impl ExpectIdent {
    /// On `Ident` matching the expected name: advances and succeeds. On any
    /// other token: a grammar error naming the expected and the found token,
    /// at the found token's span, without advancing.
    pub fn consume(&self, iter: &mut TokIter) -> (r: Result<(), ParseError>)
        ensures
            final(iter).tokens@ == old(iter).tokens@,
            at_end(*old(iter)) ==> r is Err && r->Err_0@ == spec_consumer_eof() && final(iter).index == old(iter).index,
            !at_end(*old(iter)) ==> match cur(*old(iter)).tt {
                SpecTokenType::Ident(s) => if s == self.0@ {
                    r is Ok && final(iter).index == old(iter).index + 1
                } else {
                    r is Err && final(iter).index == old(iter).index && r->Err_0@
                        == spec_parsing_err(
                        "expected '"@ + self.0@ + "', found "@ + s,
                        cur(*old(iter)).loc,
                    )
                },
                _ => r is Err && final(iter).index == old(iter).index && r->Err_0@
                    == spec_parsing_err(
                    "expected '"@ + self.0@ + "', found "@ + tt_desc(cur(*old(iter)).tt),
                    cur(*old(iter)).loc,
                ),
            },
    {
        let n = iter.tokens.len();
        proof {
            assert(iter.tokens@.len() == n);
        }
        let Token { tt, loc } = match iter.this() {
            Ok(t) => t,
            Err(e) => {
                return Err(e);
            },
        };
        if let TokenType::Ident(s) = tt {
            if s == self.0 {
                iter.next();
                Ok(())
            } else {
                let msg = String::from_str("expected '").concat(self.0.as_str()).concat(
                    "', found ",
                ).concat(s.as_str());
                Err(ParseET::ParsingError(msg).at(loc))
            }
        } else {
            let msg = String::from_str("expected '").concat(self.0.as_str()).concat(
                "', found ",
            ).concat(tt_desc_exec(&tt).as_str());
            Err(ParseET::ParsingError(msg).at(loc))
        }
    }
}

/// Fetches and consumes any identifier.
pub struct GetIdent;

impl GetIdent {
    /// On `Ident`: advances and returns the name with its span. Otherwise: a
    /// grammar error at the found token's span, without advancing.
    pub fn consume(&self, iter: &mut TokIter) -> (r: Result<Ident, ParseError>)
        ensures
            final(iter).tokens@ == old(iter).tokens@,
            at_end(*old(iter)) ==> r is Err && r->Err_0@ == spec_consumer_eof() && final(iter).index == old(iter).index,
            !at_end(*old(iter)) ==> match cur(*old(iter)).tt {
                SpecTokenType::Ident(s) => r is Ok && final(iter).index == old(iter).index + 1
                    && r->Ok_0.0@ == s && r->Ok_0.1@ == cur(*old(iter)).loc,
                _ => r is Err && final(iter).index == old(iter).index && r->Err_0@
                    == spec_parsing_err(
                    "expected Ident, found "@ + tt_desc(cur(*old(iter)).tt),
                    cur(*old(iter)).loc,
                ),
            },
    {
        let n = iter.tokens.len();
        proof {
            assert(iter.tokens@.len() == n);
        }
        let Token { tt, loc } = match iter.this() {
            Ok(t) => t,
            Err(e) => {
                return Err(e);
            },
        };
        if let TokenType::Ident(s) = tt {
            iter.next();
            Ok(Ident(s, loc))
        } else {
            let msg = String::from_str("expected Ident, found ").concat(tt_desc_exec(&tt).as_str());
            Err(ParseET::ParsingError(msg).at(loc))
        }
    }
}

/// Expects and consumes one specific punctuation character, whatever its glue
/// state.
pub struct ExpectParticle(pub char);

impl ExpectParticle {
    /// On `Particle` carrying the expected character: advances. Otherwise: a
    /// grammar error at the found token's span, without advancing.
    pub fn consume(&self, iter: &mut TokIter) -> (r: Result<(), ParseError>)
        ensures
            final(iter).tokens@ == old(iter).tokens@,
            at_end(*old(iter)) ==> r is Err && r->Err_0@ == spec_consumer_eof() && final(iter).index == old(iter).index,
            !at_end(*old(iter)) ==> match cur(*old(iter)).tt {
                SpecTokenType::Particle(c, g) => if c == self.0 {
                    r is Ok && final(iter).index == old(iter).index + 1
                } else {
                    r is Err && final(iter).index == old(iter).index && r->Err_0@
                        == spec_parsing_err(
                        "expected '"@ + seq![self.0] + "', found '"@ + seq![c] + "'"@,
                        cur(*old(iter)).loc,
                    )
                },
                _ => r is Err && final(iter).index == old(iter).index && r->Err_0@
                    == spec_parsing_err(
                    "expected '"@ + seq![self.0] + "', found "@ + tt_desc(cur(*old(iter)).tt),
                    cur(*old(iter)).loc,
                ),
            },
    {
        let n = iter.tokens.len();
        proof {
            assert(iter.tokens@.len() == n);
        }
        let Token { tt, loc } = match iter.this() {
            Ok(t) => t,
            Err(e) => {
                return Err(e);
            },
        };
        let mut ev: Vec<char> = Vec::new();
        ev.push(self.0);
        proof {
            assert(ev@ =~= seq![self.0]);
        }
        let e_str = crate::chars::string_from_chars(&ev);
        if let TokenType::Particle(c, _) = tt {
            if c == self.0 {
                iter.next();
                Ok(())
            } else {
                let mut fv: Vec<char> = Vec::new();
                fv.push(c);
                proof {
                    assert(fv@ =~= seq![c]);
                }
                let msg = String::from_str("expected '").concat(e_str.as_str()).concat(
                    "', found '",
                ).concat(crate::chars::string_from_chars(&fv).as_str()).concat("'");
                Err(ParseET::ParsingError(msg).at(loc))
            }
        } else {
            let msg = String::from_str("expected '").concat(e_str.as_str()).concat(
                "', found ",
            ).concat(tt_desc_exec(&tt).as_str());
            Err(ParseET::ParsingError(msg).at(loc))
        }
    }
}

/// Expects and consumes one specific punctuation character in one exact glue
/// state.
pub struct ExpectParticleExact(pub char, pub bool);

impl ExpectParticleExact {
    /// On `Particle` carrying the expected character and glue state:
    /// advances. Otherwise: a grammar error at the found token's span, without
    /// advancing. The error carries no context frame: earlier diagnostics
    /// wrapped this failure as "while parsing ident", a label left over from
    /// another consumer, and that stray frame is deliberately not kept.
    pub fn consume(&self, iter: &mut TokIter) -> (r: Result<(), ParseError>)
        ensures
            final(iter).tokens@ == old(iter).tokens@,
            at_end(*old(iter)) ==> r is Err && r->Err_0@ == spec_consumer_eof() && final(iter).index == old(iter).index,
            !at_end(*old(iter)) ==> match cur(*old(iter)).tt {
                SpecTokenType::Particle(c, g) => if c == self.0 && g == self.1 {
                    r is Ok && final(iter).index == old(iter).index + 1
                } else {
                    r is Err && final(iter).index == old(iter).index && r->Err_0@
                        == spec_parsing_err(
                        "expected "@ + tt_desc(SpecTokenType::Particle(self.0, self.1))
                            + ", found "@ + tt_desc(cur(*old(iter)).tt),
                        cur(*old(iter)).loc,
                    )
                },
                _ => r is Err && final(iter).index == old(iter).index && r->Err_0@
                    == spec_parsing_err(
                    "expected "@ + tt_desc(SpecTokenType::Particle(self.0, self.1)) + ", found "@
                        + tt_desc(cur(*old(iter)).tt),
                    cur(*old(iter)).loc,
                ),
            },
    {
        let n = iter.tokens.len();
        proof {
            assert(iter.tokens@.len() == n);
        }
        let Token { tt, loc } = match iter.this() {
            Ok(t) => t,
            Err(e) => {
                return Err(e);
            },
        };
        let matched = if let TokenType::Particle(c, g) = &tt {
            *c == self.0 && *g == self.1
        } else {
            false
        };
        if matched {
            iter.next();
            Ok(())
        } else {
            let expected = TokenType::Particle(self.0, self.1);
            let msg = String::from_str("expected ").concat(tt_desc_exec(&expected).as_str()).concat(
                ", found ",
            ).concat(tt_desc_exec(&tt).as_str());
            Err(ParseET::ParsingError(msg).at(loc))
        }
    }
}

/// Fetches and consumes any punctuation character, returning it with its glue
/// flag.
pub struct GetParticle;

impl GetParticle {
    /// On `Particle`: advances and returns the character and glue flag.
    /// Otherwise: a grammar error at the found token's span, without advancing.
    pub fn consume(&self, iter: &mut TokIter) -> (r: Result<(char, bool), ParseError>)
        ensures
            final(iter).tokens@ == old(iter).tokens@,
            at_end(*old(iter)) ==> r is Err && r->Err_0@ == spec_consumer_eof() && final(iter).index == old(iter).index,
            !at_end(*old(iter)) ==> match cur(*old(iter)).tt {
                SpecTokenType::Particle(c, g) => r is Ok && final(iter).index == old(iter).index
                    + 1 && r->Ok_0 == (c, g),
                _ => r is Err && final(iter).index == old(iter).index && r->Err_0@
                    == spec_parsing_err(
                    "expected Particle, found "@ + tt_desc(cur(*old(iter)).tt),
                    cur(*old(iter)).loc,
                ),
            },
    {
        let n = iter.tokens.len();
        proof {
            assert(iter.tokens@.len() == n);
        }
        let Token { tt, loc } = match iter.this() {
            Ok(t) => t,
            Err(e) => {
                return Err(e);
            },
        };
        if let TokenType::Particle(p, g) = tt {
            iter.next();
            Ok((p, g))
        } else {
            let msg = String::from_str("expected Particle, found ").concat(
                tt_desc_exec(&tt).as_str(),
            );
            Err(ParseET::ParsingError(msg).at(loc))
        }
    }
}

/// Fetches and consumes only a glued punctuation character.
pub struct GetGluedParticle;

impl GetGluedParticle {
    /// On a glued `Particle`: advances and returns the character. Otherwise:
    /// a grammar error at the found token's span, without advancing.
    pub fn consume(&self, iter: &mut TokIter) -> (r: Result<char, ParseError>)
        ensures
            final(iter).tokens@ == old(iter).tokens@,
            at_end(*old(iter)) ==> r is Err && r->Err_0@ == spec_consumer_eof() && final(iter).index == old(iter).index,
            !at_end(*old(iter)) ==> match cur(*old(iter)).tt {
                SpecTokenType::Particle(c, g) => if g {
                    r is Ok && final(iter).index == old(iter).index + 1 && r->Ok_0 == c
                } else {
                    r is Err && final(iter).index == old(iter).index && r->Err_0@
                        == spec_parsing_err(
                        "expected glued Particle, found "@ + tt_desc(cur(*old(iter)).tt),
                        cur(*old(iter)).loc,
                    )
                },
                _ => r is Err && final(iter).index == old(iter).index && r->Err_0@
                    == spec_parsing_err(
                    "expected glued Particle, found "@ + tt_desc(cur(*old(iter)).tt),
                    cur(*old(iter)).loc,
                ),
            },
    {
        let n = iter.tokens.len();
        proof {
            assert(iter.tokens@.len() == n);
        }
        let Token { tt, loc } = match iter.this() {
            Ok(t) => t,
            Err(e) => {
                return Err(e);
            },
        };
        let matched = if let TokenType::Particle(_, g) = &tt {
            *g
        } else {
            false
        };
        if matched {
            if let TokenType::Particle(p, _) = tt {
                iter.next();
                Ok(p)
            } else {
                proof {
                    assert(false);
                }
                Err(ParseET::EOF.error())
            }
        } else {
            let msg = String::from_str("expected glued Particle, found ").concat(
                tt_desc_exec(&tt).as_str(),
            );
            Err(ParseET::ParsingError(msg).at(loc))
        }
    }
}

/// Expects and consumes one exact literal value.
pub struct ExpectLiteral(pub Literal);

impl ExpectLiteral {
    /// On `Literal` equal to the expected value: advances. Otherwise: a
    /// grammar error at the found token's span, without advancing.
    pub fn consume(&self, iter: &mut TokIter) -> (r: Result<(), ParseError>)
        ensures
            final(iter).tokens@ == old(iter).tokens@,
            at_end(*old(iter)) ==> r is Err && r->Err_0@ == spec_consumer_eof() && final(iter).index == old(iter).index,
            !at_end(*old(iter)) ==> match cur(*old(iter)).tt {
                SpecTokenType::Literal(l) => if l == self.0@ {
                    r is Ok && final(iter).index == old(iter).index + 1
                } else {
                    r is Err && final(iter).index == old(iter).index && r->Err_0@
                        == spec_parsing_err(
                        "expected "@ + lit_desc(self.0@) + ", found "@ + lit_desc(l),
                        cur(*old(iter)).loc,
                    )
                },
                _ => r is Err && final(iter).index == old(iter).index && r->Err_0@
                    == spec_parsing_err(
                    "expected "@ + lit_desc(self.0@) + ", found "@ + tt_desc(cur(*old(iter)).tt),
                    cur(*old(iter)).loc,
                ),
            },
    {
        let n = iter.tokens.len();
        proof {
            assert(iter.tokens@.len() == n);
        }
        let Token { tt, loc } = match iter.this() {
            Ok(t) => t,
            Err(e) => {
                return Err(e);
            },
        };
        if let TokenType::Literal(lit) = tt {
            if lit == self.0 {
                iter.next();
                Ok(())
            } else {
                let msg = String::from_str("expected ").concat(
                    lit_desc_exec(&self.0).as_str(),
                ).concat(", found ").concat(lit_desc_exec(&lit).as_str());
                Err(ParseET::ParsingError(msg).at(loc))
            }
        } else {
            let msg = String::from_str("expected ").concat(lit_desc_exec(&self.0).as_str()).concat(
                ", found ",
            ).concat(tt_desc_exec(&tt).as_str());
            Err(ParseET::ParsingError(msg).at(loc))
        }
    }
}

/// Fetches and consumes any literal.
pub struct GetLiteral;

impl GetLiteral {
    /// On `Literal`: advances and returns the value with its span. Otherwise:
    /// a grammar error at the found token's span, without advancing.
    pub fn consume(&self, iter: &mut TokIter) -> (r: Result<AstLiteral, ParseError>)
        ensures
            final(iter).tokens@ == old(iter).tokens@,
            at_end(*old(iter)) ==> r is Err && r->Err_0@ == spec_consumer_eof() && final(iter).index == old(iter).index,
            !at_end(*old(iter)) ==> match cur(*old(iter)).tt {
                SpecTokenType::Literal(l) => r is Ok && final(iter).index == old(iter).index + 1
                    && r->Ok_0.0@ == l && r->Ok_0.1@ == cur(*old(iter)).loc,
                _ => r is Err && final(iter).index == old(iter).index && r->Err_0@
                    == spec_parsing_err(
                    "expected Literal, found "@ + tt_desc(cur(*old(iter)).tt),
                    cur(*old(iter)).loc,
                ),
            },
    {
        let n = iter.tokens.len();
        proof {
            assert(iter.tokens@.len() == n);
        }
        let Token { tt, loc } = match iter.this() {
            Ok(t) => t,
            Err(e) => {
                return Err(e);
            },
        };
        if let TokenType::Literal(lit) = tt {
            iter.next();
            Ok(AstLiteral(lit, loc))
        } else {
            let msg = String::from_str("expected Literal, found ").concat(
                tt_desc_exec(&tt).as_str(),
            );
            Err(ParseET::ParsingError(msg).at(loc))
        }
    }
}

} // verus!
