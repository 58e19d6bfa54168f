//! The structured error model: tagged failure kinds, an optional location,
//! and an ordered trail of "while doing X" context frames accumulated as an
//! error propagates outward.

use vstd::prelude::*;
use crate::source::{Span, SpecSpan};
use crate::tokens::{Literal, SpecLiteral, NumLit, SpecNumLit};

verus! {

/// The closed set of failure kinds.
#[derive(Debug)]
pub enum ParseET {
    EOF,
    EmptyInput,
    IOError(String),
    TokenizationError(String),
    LiteralError(Literal, String),
    ParsingError(String),
    CompilationError(String),
    AlreadyDefinedError(String, String, Span),
    VariableNotFound(String),
}

/// Mathematical image of a `ParseET`.
pub ghost enum SpecParseET {
    EOF,
    EmptyInput,
    IOError(Seq<char>),
    TokenizationError(Seq<char>),
    LiteralError(SpecLiteral, Seq<char>),
    ParsingError(Seq<char>),
    CompilationError(Seq<char>),
    AlreadyDefinedError(Seq<char>, Seq<char>, SpecSpan),
    VariableNotFound(Seq<char>),
}

impl View for ParseET {
    type V = SpecParseET;

    open spec fn view(&self) -> SpecParseET {
        match self {
            ParseET::EOF => SpecParseET::EOF,
            ParseET::EmptyInput => SpecParseET::EmptyInput,
            ParseET::IOError(m) => SpecParseET::IOError(m@),
            ParseET::TokenizationError(m) => SpecParseET::TokenizationError(m@),
            ParseET::LiteralError(l, m) => SpecParseET::LiteralError(l@, m@),
            ParseET::ParsingError(m) => SpecParseET::ParsingError(m@),
            ParseET::CompilationError(m) => SpecParseET::CompilationError(m@),
            ParseET::AlreadyDefinedError(w, n, s) => SpecParseET::AlreadyDefinedError(w@, n@, s@),
            ParseET::VariableNotFound(n) => SpecParseET::VariableNotFound(n@),
        }
    }
}

/// A failure: its kind, where it happened (when known), and the contextual
/// cause trail, innermost frame first.
#[derive(Debug)]
pub struct ParseError {
    pub et: ParseET,
    pub loc: Option<Span>,
    pub context: Vec<String>,
}

/// Mathematical image of a `ParseError`.
pub ghost struct SpecParseError {
    pub et: SpecParseET,
    pub loc: Option<SpecSpan>,
    pub context: Seq<Seq<char>>,
}

impl View for ParseError {
    type V = SpecParseError;

    open spec fn view(&self) -> SpecParseError {
        SpecParseError {
            et: self.et@,
            loc: match self.loc {
                Option::Some(s) => Option::Some(s@),
                Option::None => Option::None,
            },
            context: self.context@.map_values(|s: String| s@),
        }
    }
}

/// The error with one more context frame appended.
pub open spec fn spec_when(e: SpecParseError, reason: Seq<char>) -> SpecParseError {
    SpecParseError { et: e.et, loc: e.loc, context: e.context.push(reason) }
}

/// The error with its location set (overwriting any earlier one).
pub open spec fn spec_at(e: SpecParseError, loc: SpecSpan) -> SpecParseError {
    SpecParseError { et: e.et, loc: Option::Some(loc), context: e.context }
}

impl ParseError {
    /// Appends a "while `reason`" context frame.
    pub fn when(self, reason: &str) -> (r: ParseError)
        ensures
            r@ == spec_when(self@, reason@),
    {
        let ParseError { et, loc, mut context } = self;
        context.push(reason.to_owned());
        let r = ParseError { et, loc, context };
        proof {
            assert(r@.context =~= spec_when(self@, reason@).context);
        }
        r
    }

    /// Attaches (or overwrites) the location of the failure.
    pub fn at(self, loc: Span) -> (r: ParseError)
        ensures
            r@ == spec_at(self@, loc@),
    {
        let ParseError { et, loc: _, context } = self;
        ParseError { et, loc: Some(loc), context }
    }
}

impl ParseET {
    /// Wraps the kind into an error with no location and no context yet.
    pub fn error(self) -> (r: ParseError)
        ensures
            r@ == (SpecParseError { et: self@, loc: Option::None, context: Seq::empty() }),
    {
        let r = ParseError { et: self, loc: None, context: Vec::new() };
        proof {
            assert(r@.context =~= Seq::<Seq<char>>::empty());
        }
        r
    }

    /// Wraps the kind into an error located at `loc`, with no context yet.
    pub fn at(self, loc: Span) -> (r: ParseError)
        ensures
            r@ == (SpecParseError {
                et: self@,
                loc: Option::Some(loc@),
                context: Seq::empty(),
            }),
    {
        let r = ParseError { et: self, loc: Some(loc), context: Vec::new() };
        proof {
            assert(r@.context =~= Seq::<Seq<char>>::empty());
        }
        r
    }
}

/// The word a literal error's headline uses for the malformed literal's
/// shape. A boolean shape is reported as "Float", exactly as this library's
/// diagnostics have always read; the message text still carries the detail.
pub open spec fn lit_category(l: SpecLiteral) -> Seq<char> {
    match l {
        SpecLiteral::String(_) => "String"@,
        SpecLiteral::Char(_) => "Char"@,
        SpecLiteral::Number(n, _) => match n {
            SpecNumLit::Integer(_) => "Integer"@,
            SpecNumLit::Float(_) => "Float"@,
        },
        SpecLiteral::Bool(_) => "Float"@,
    }
}

/// The kind-specific headline of a diagnostic.
pub open spec fn headline(et: SpecParseET) -> Seq<char> {
    match et {
        SpecParseET::EOF => "Input error:\n    reached end of file"@,
        SpecParseET::EmptyInput => "Input error:\n    input was empty"@,
        SpecParseET::IOError(m) => "IO error:\n    "@ + m,
        SpecParseET::TokenizationError(m) => "Tokenization error:\n    "@ + m,
        SpecParseET::LiteralError(l, m) => lit_category(l) + " literal error:\n    "@ + m,
        SpecParseET::ParsingError(m) => "Parsing error:\n    "@ + m,
        SpecParseET::CompilationError(m) => "Compilation error:\n    "@ + m,
        SpecParseET::AlreadyDefinedError(w, n, _) => "Multiple definitions error:\n    "@ + w
            + " "@ + n + " was already defined"@,
        SpecParseET::VariableNotFound(id) => "Name error:\n    could not find variable "@ + id,
    }
}

/// The contextual cause trail, one "while" frame per line, in storage order.
pub open spec fn ctx_trail(ctx: Seq<Seq<char>>) -> Seq<char>
    decreases ctx.len(),
{
    if ctx.len() == 0 {
        Seq::empty()
    } else {
        "\n    while "@ + ctx[0] + ctx_trail(ctx.skip(1))
    }
}

/// A location block: the buffer's name, the covered offsets, and the rendered
/// source excerpt with two lines of context.
pub open spec fn loc_block(loc: SpecSpan) -> Seq<char> {
    "\n\n"@ + loc.source.name + ": "@ + crate::chars::dec_of(loc.start as nat) + (if loc.start
        == loc.end {
        Seq::<char>::empty()
    } else {
        ".."@ + crate::chars::dec_of(loc.end as nat)
    }) + "\n"@ + crate::source::spec_render_span_code(loc, 2)
}

/// A span whose excerpt can be rendered: both ends inside the text, and the
/// text small enough for the padded line arithmetic.
pub open spec fn spec_span_renderable(s: SpecSpan) -> bool {
    0 <= s.start <= s.end < s.source.text.len() && s.source.text.len() + 3 <= usize::MAX
}

/// The full rendered diagnostic: headline, cause trail, for a multiple-
/// definition error the original definition's location block, and the
/// failure's own location block when one is attached. A location block is
/// rendered only for a span that lies inside its text: a diagnostic that
/// carries only a placeholder span still renders its headline and trail.
pub open spec fn spec_render_error(e: SpecParseError) -> Seq<char> {
    headline(e.et) + ctx_trail(e.context) + (match e.et {
        SpecParseET::AlreadyDefinedError(_, _, l) => if spec_span_renderable(l) {
            loc_block(l)
        } else {
            Seq::<char>::empty()
        },
        _ => Seq::<char>::empty(),
    }) + (match e.loc {
        Option::Some(l) => if spec_span_renderable(l) {
            loc_block(l)
        } else {
            Seq::<char>::empty()
        },
        Option::None => Seq::<char>::empty(),
    })
}

/// Executable check for `spec_span_renderable`.
fn span_renderable(s: &Span) -> (r: bool)
    ensures
        r == spec_span_renderable(s@),
{
    let n = s.source.text.as_str().unicode_len();
    s.start <= s.end && s.end < n && n <= usize::MAX - 3
}

/// The kind-specific headline, executable form.
fn headline_exec(et: &ParseET) -> (r: String)
    ensures
        r@ == headline(et@),
{
    match et {
        ParseET::EOF => String::from_str("Input error:\n    reached end of file"),
        ParseET::EmptyInput => String::from_str("Input error:\n    input was empty"),
        ParseET::IOError(m) => String::from_str("IO error:\n    ").concat(m.as_str()),
        ParseET::TokenizationError(m) => String::from_str("Tokenization error:\n    ").concat(
            m.as_str(),
        ),
        ParseET::LiteralError(l, m) => {
            let cat = match l {
                Literal::String(_) => "String",
                Literal::Char(_) => "Char",
                Literal::Number(NumLit::Integer(_), _) => "Integer",
                Literal::Number(NumLit::Float(_), _) => "Float",
                Literal::Bool(_) => "Float",
            };
            String::from_str(cat).concat(" literal error:\n    ").concat(m.as_str())
        },
        ParseET::ParsingError(m) => String::from_str("Parsing error:\n    ").concat(m.as_str()),
        ParseET::CompilationError(m) => String::from_str("Compilation error:\n    ").concat(
            m.as_str(),
        ),
        ParseET::AlreadyDefinedError(w, n, _) => String::from_str(
            "Multiple definitions error:\n    ",
        ).concat(w.as_str()).concat(" ").concat(n.as_str()).concat(" was already defined"),
        ParseET::VariableNotFound(id) => String::from_str(
            "Name error:\n    could not find variable ",
        ).concat(id.as_str()),
    }
}

/// A location block, executable form.
fn loc_block_exec(loc: &Span) -> (r: String)
    requires
        spec_span_renderable(loc@),
    ensures
        r@ == loc_block(loc@),
{
    let mut out = String::from_str("\n\n").concat(loc.source.name.as_str()).concat(": ").concat(
        crate::chars::string_from_chars(&crate::chars::dec_string(loc.start as u128)).as_str(),
    );
    if loc.start != loc.end {
        out = out.concat("..").concat(
            crate::chars::string_from_chars(&crate::chars::dec_string(loc.end as u128)).as_str(),
        );
    }
    out.concat("\n").concat(loc.render_span_code(2).as_str())
}

impl ParseError {
    /// Renders the diagnostic: the kind-specific headline, the cause trail,
    /// and the location blocks with source excerpts. A location whose span
    /// lies outside its buffer (such as a placeholder) gets no block; the
    /// headline and trail are always rendered.
    pub fn render(&self) -> (r: String)
        ensures
            r@ == spec_render_error(self@),
    {
        let mut out = headline_exec(&self.et);
        let ghost cv = self@.context;
        let mut i: usize = 0;
        proof {
            assert(cv.skip(0) =~= cv);
        }
        while i < self.context.len()
            invariant
                i <= self.context@.len(),
                cv == self@.context,
                cv.len() == self.context@.len(),
                forall|j: int| 0 <= j < cv.len() ==> cv[j] == #[trigger] self.context@[j]@,
                out@ + ctx_trail(cv.skip(i as int)) == headline(self@.et) + ctx_trail(cv),
            decreases self.context@.len() - i,
        {
            let ghost out0 = out@;
            out = out.concat("\n    while ").concat(self.context[i].as_str());
            i = i + 1;
            proof {
                assert(cv.skip(i - 1)[0] == cv[i - 1]);
                assert(cv.skip(i - 1).skip(1) =~= cv.skip(i as int));
                assert(out0 + ("\n    while "@ + cv[i - 1] + ctx_trail(cv.skip(i as int))) =~= out@
                    + ctx_trail(cv.skip(i as int)));
            }
        }
        proof {
            assert(cv.skip(cv.len() as int) =~= Seq::<Seq<char>>::empty());
            assert(out@ + Seq::<char>::empty() =~= out@);
        }
        if let ParseET::AlreadyDefinedError(_, _, original) = &self.et {
            if span_renderable(original) {
                out = out.concat(loc_block_exec(original).as_str());
            }
        }
        if let Some(l) = &self.loc {
            if span_renderable(l) {
                out = out.concat(loc_block_exec(l).as_str());
            }
        }
        out
    }
}

/// On failure, appends a "while `reason`" context frame; success passes through.
pub fn e_when<T>(r: Result<T, ParseError>, reason: &str) -> (res: Result<T, ParseError>)
    ensures
        r is Ok ==> res is Ok && res->Ok_0 == r->Ok_0,
        r is Err ==> res is Err && res->Err_0@ == spec_when(r->Err_0@, reason@),
{
    match r {
        Ok(v) => Ok(v),
        Err(e) => Err(e.when(reason)),
    }
}

/// On failure, attaches the location `loc`; success passes through.
pub fn e_at<T>(r: Result<T, ParseError>, loc: Span) -> (res: Result<T, ParseError>)
    ensures
        r is Ok ==> res is Ok && res->Ok_0 == r->Ok_0,
        r is Err ==> res is Err && res->Err_0@ == spec_at(r->Err_0@, loc@),
{
    match r {
        Ok(v) => Ok(v),
        Err(e) => Err(e.at(loc)),
    }
}

} // verus!
