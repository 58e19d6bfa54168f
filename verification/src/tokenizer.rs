//! The tokenizer and its two literal sub-parsers: the numeric-literal parser
//! and the string-escape decoder.

use vstd::prelude::*;
use crate::chars::{
    is_dec_digit, is_ascii_letter, is_word_char, is_hex_letter, digit_value_of, is_white_space,
    is_scalar_value, numeric_char, dec_digit, ascii_letter, word_char, hex_letter, digit_value,
    white_space, is_numeric_char, char_from_u32, string_from_chars, str_chars,
};
use crate::error::{ParseError, ParseET, SpecParseError, SpecParseET, e_when, spec_when, spec_at};
use crate::source::{Source, SpecSource, Span, SpecSpan};
use crate::tokens::{
    Token, TokenType, Literal, NumLit, NumLitTy, SpecToken, SpecTokenType, SpecLiteral, SpecNumLit,
};

verus! {

// ---------------------------------------------------------------------------
// Numeric literals
// ---------------------------------------------------------------------------
//
// A raw digit run is interpreted in five steps: strip `_` separators, detect
// the radix prefix, detect float shape, split off the type suffix, and parse
// the remaining body as an integer of the detected radix or as a decimal
// float body.

/// The run with every `_` digit-group separator removed.
pub open spec fn strip_separators(s: Seq<char>) -> Seq<char>
    decreases s.len(),
{
    if s.len() == 0 {
        Seq::empty()
    } else if s.last() == '_' {
        strip_separators(s.drop_last())
    } else {
        strip_separators(s.drop_last()).push(s.last())
    }
}

/// The radix selected by the letter of a `0?` prefix.
pub open spec fn radix_of_prefix_letter(c: char) -> Option<u32> {
    if c == 'b' {
        Option::Some(2u32)
    } else if c == 'q' {
        Option::Some(4u32)
    } else if c == 'o' {
        Option::Some(8u32)
    } else if c == 'z' {
        Option::Some(12u32)
    } else if c == 'x' {
        Option::Some(16u32)
    } else {
        Option::None
    }
}

/// A run longer than two characters starting with `0` and a known radix letter.
pub open spec fn has_radix_prefix(s: Seq<char>) -> bool {
    s.len() > 2 && s[0] == '0' && radix_of_prefix_letter(s[1]) is Some
}

/// The radix of the run: selected by the prefix, 10 otherwise.
pub open spec fn radix_of(s: Seq<char>) -> u32 {
    if has_radix_prefix(s) {
        radix_of_prefix_letter(s[1])->0
    } else {
        10
    }
}

/// The run with its radix prefix (if any) removed.
pub open spec fn after_radix_prefix(s: Seq<char>) -> Seq<char> {
    if has_radix_prefix(s) {
        s.skip(2)
    } else {
        s
    }
}

/// A character that can still belong to the numeric body (as opposed to
/// opening the type suffix): anything numeric; a dot when the literal is
/// float-shaped; any hexadecimal letter when the radix is 16 and the literal
/// is not float-shaped. At other radixes a hexadecimal letter opens the
/// suffix, so `f32`/`f64` can follow a decimal body; after a radix-16 body an
/// `f`-led suffix is unreachable, since the `f` is read as a digit.
pub open spec fn num_body_char_ok(c: char, float_like: bool, radix: u32) -> bool {
    numeric_char(c) || (float_like && c == '.') || (!float_like && is_hex_letter(c) && radix == 16)
}

/// The index of the first character of `s` at or after `i` that cannot belong
/// to the numeric body; the length of `s` when every one can.
pub open spec fn body_end_from(s: Seq<char>, float_like: bool, radix: u32, i: int) -> int
    decreases s.len() - i,
{
    if i < 0 || i >= s.len() {
        s.len() as int
    } else if num_body_char_ok(s[i], float_like, radix) {
        body_end_from(s, float_like, radix, i + 1)
    } else {
        i
    }
}

/// The type suffix named by a tail, if it is one of the fixed vocabulary
/// `u8,u16,u32,u64,u128,uptr,i8,i16,i32,i64,i128,iptr,f32,f64`.
pub open spec fn suffix_ty(t: Seq<char>) -> Option<NumLitTy> {
    if t.len() == 2 && t[0] == 'u' && t[1] == '8' {
        Option::Some(NumLitTy::U8)
    } else if t.len() == 3 && t[0] == 'u' && t[1] == '1' && t[2] == '6' {
        Option::Some(NumLitTy::U16)
    } else if t.len() == 3 && t[0] == 'u' && t[1] == '3' && t[2] == '2' {
        Option::Some(NumLitTy::U32)
    } else if t.len() == 3 && t[0] == 'u' && t[1] == '6' && t[2] == '4' {
        Option::Some(NumLitTy::U64)
    } else if t.len() == 4 && t[0] == 'u' && t[1] == '1' && t[2] == '2' && t[3] == '8' {
        Option::Some(NumLitTy::U128)
    } else if t.len() == 4 && t[0] == 'u' && t[1] == 'p' && t[2] == 't' && t[3] == 'r' {
        Option::Some(NumLitTy::UPtr)
    } else if t.len() == 2 && t[0] == 'i' && t[1] == '8' {
        Option::Some(NumLitTy::I8)
    } else if t.len() == 3 && t[0] == 'i' && t[1] == '1' && t[2] == '6' {
        Option::Some(NumLitTy::I16)
    } else if t.len() == 3 && t[0] == 'i' && t[1] == '3' && t[2] == '2' {
        Option::Some(NumLitTy::I32)
    } else if t.len() == 3 && t[0] == 'i' && t[1] == '6' && t[2] == '4' {
        Option::Some(NumLitTy::I64)
    } else if t.len() == 4 && t[0] == 'i' && t[1] == '1' && t[2] == '2' && t[3] == '8' {
        Option::Some(NumLitTy::I128)
    } else if t.len() == 4 && t[0] == 'i' && t[1] == 'p' && t[2] == 't' && t[3] == 'r' {
        Option::Some(NumLitTy::IPtr)
    } else if t.len() == 3 && t[0] == 'f' && t[1] == '3' && t[2] == '2' {
        Option::Some(NumLitTy::F32)
    } else if t.len() == 3 && t[0] == 'f' && t[1] == '6' && t[2] == '4' {
        Option::Some(NumLitTy::F64)
    } else {
        Option::None
    }
}

/// A digit usable under `radix`.
pub open spec fn digit_ok(c: char, radix: u32) -> bool {
    digit_value_of(c) is Some && digit_value_of(c)->0 < radix
}

/// The value of a digit, 0 for a non-digit.
pub open spec fn digit_val_or0(c: char) -> nat {
    match digit_value_of(c) {
        Option::Some(d) => d as nat,
        Option::None => 0,
    }
}

/// The unbounded value of a digit run read most-significant first.
pub open spec fn int_val(s: Seq<char>, radix: u32) -> nat
    decreases s.len(),
{
    if s.len() == 0 {
        0
    } else {
        (int_val(s.drop_last(), radix) * radix + digit_val_or0(s.last())) as nat
    }
}

/// A body that parses as a 128-bit unsigned integer of the given radix:
/// non-empty, all digits valid under the radix, value within range.
pub open spec fn int_parse_ok(s: Seq<char>, radix: u32) -> bool {
    s.len() > 0 && (forall|i: int| 0 <= i < s.len() ==> digit_ok(s[i], radix)) && int_val(s, radix)
        <= u128::MAX
}

/// A body that parses as a decimal floating-point value: non-empty, only
/// ASCII digits and at most one dot, and at least one digit.
pub open spec fn float_body_ok(s: Seq<char>) -> bool {
    s.len() > 0 && (forall|i: int| 0 <= i < s.len() ==> is_dec_digit(s[i]) || s[i] == '.') && (
    forall|i: int, j: int| 0 <= i < j < s.len() && s[i] == '.' ==> s[j] != '.') && (exists|i: int|
        0 <= i < s.len() && is_dec_digit(s[i]))
}

/// A literal-error value with the given malformed shape and message, not yet
/// located.
pub open spec fn spec_lit_err(shape: SpecNumLit, msg: Seq<char>) -> SpecParseError {
    SpecParseError {
        et: SpecParseET::LiteralError(SpecLiteral::Number(shape, Option::None), msg),
        loc: Option::None,
        context: Seq::empty(),
    }
}

/// The decimal digits of the radices a prefix can select.
pub open spec fn radix_digits(radix: u32) -> Seq<char> {
    if radix == 2 {
        "2"@
    } else if radix == 4 {
        "4"@
    } else if radix == 8 {
        "8"@
    } else if radix == 12 {
        "12"@
    } else {
        "16"@
    }
}

/// What interpreting a raw digit run yields: the numeric value with its
/// optional suffix tag, or the exact literal error the run is rejected with.
pub open spec fn spec_num_lit(raw: Seq<char>) -> Result<
    (SpecNumLit, Option<NumLitTy>),
    SpecParseError,
> {
    let s = strip_separators(raw);
    let radix = radix_of(s);
    let body0 = after_radix_prefix(s);
    let fl = body0.contains('.');
    if fl && radix != 10 {
        Result::Err(
            spec_lit_err(
                SpecNumLit::Float(Seq::empty()),
                "expected radix 10 for floating point literal, found "@ + radix_digits(radix),
            ),
        )
    } else {
        let end = body_end_from(body0, fl, radix, 0);
        let body = body0.take(end);
        let tail = body0.skip(end);
        if end != body0.len() && suffix_ty(tail) is None {
            Result::Err(
                spec_lit_err(
                    if fl {
                        SpecNumLit::Float(Seq::empty())
                    } else {
                        SpecNumLit::Integer(0)
                    },
                    "unsupported type suffix: '"@ + tail + "'"@,
                ),
            )
        } else {
            let ty: Option<NumLitTy> = if end == body0.len() {
                Option::None
            } else {
                suffix_ty(tail)
            };
            let flty = ty == Option::Some(NumLitTy::F32) || ty == Option::Some(NumLitTy::F64);
            if fl && ty is Some && !flty {
                Result::Err(
                    spec_lit_err(
                        SpecNumLit::Float(Seq::empty()),
                        "expected floating point type for floating point literal, found '"@ + tail
                            + "'"@,
                    ),
                )
            } else if fl || flty {
                if float_body_ok(body) {
                    Result::Ok((SpecNumLit::Float(body), ty))
                } else {
                    Result::Err(
                        spec_lit_err(SpecNumLit::Float(Seq::empty()), "invalid float literal"@),
                    )
                }
            } else {
                if int_parse_ok(body, radix) {
                    Result::Ok((SpecNumLit::Integer(int_val(body, radix) as int), ty))
                } else {
                    Result::Err(
                        spec_lit_err(SpecNumLit::Integer(0), "invalid integer literal"@),
                    )
                }
            }
        }
    }
}

/// Removes the `_` separators of a digit run.
fn strip_uscores(v: &Vec<char>) -> (r: Vec<char>)
    ensures
        r@ == strip_separators(v@),
{
    let mut r: Vec<char> = Vec::new();
    let mut i: usize = 0;
    while i < v.len()
        invariant
            i <= v@.len(),
            r@ == strip_separators(v@.take(i as int)),
        decreases v@.len() - i,
    {
        proof {
            assert(v@.take(i + 1).drop_last() =~= v@.take(i as int));
            assert(v@.take(i + 1).last() == v@[i as int]);
        }
        if v[i] != '_' {
            r.push(v[i]);
        }
        i = i + 1;
    }
    proof {
        assert(v@.take(v@.len() as int) =~= v@);
    }
    r
}

/// The elements of `v` from `n` on.
fn vec_skip(v: &Vec<char>, n: usize) -> (r: Vec<char>)
    requires
        n <= v@.len(),
    ensures
        r@ == v@.skip(n as int),
{
    let mut r: Vec<char> = Vec::new();
    let mut i: usize = n;
    while i < v.len()
        invariant
            n <= i <= v@.len(),
            r@ == v@.subrange(n as int, i as int),
        decreases v@.len() - i,
    {
        r.push(v[i]);
        i = i + 1;
        proof {
            assert(r@ =~= v@.subrange(n as int, i as int));
        }
    }
    proof {
        assert(v@.subrange(n as int, v@.len() as int) =~= v@.skip(n as int));
    }
    r
}

/// The first `n` elements of `v`.
fn vec_take(v: &Vec<char>, n: usize) -> (r: Vec<char>)
    requires
        n <= v@.len(),
    ensures
        r@ == v@.take(n as int),
{
    let mut r: Vec<char> = Vec::new();
    let mut i: usize = 0;
    while i < n
        invariant
            i <= n <= v@.len(),
            r@ == v@.subrange(0, i as int),
        decreases n - i,
    {
        r.push(v[i]);
        i = i + 1;
        proof {
            assert(r@ =~= v@.subrange(0, i as int));
        }
    }
    r
}

/// Whether `v` holds the character `c`.
fn contains_char(v: &Vec<char>, c: char) -> (r: bool)
    ensures
        r == v@.contains(c),
{
    let mut i: usize = 0;
    while i < v.len()
        invariant
            i <= v@.len(),
            forall|j: int| 0 <= j < i ==> v@[j] != c,
        decreases v@.len() - i,
    {
        if v[i] == c {
            return true;
        }
        i = i + 1;
    }
    false
}

/// Executable form of `suffix_ty`.
fn suffix_lookup(t: &Vec<char>) -> (r: Option<NumLitTy>)
    ensures
        r == suffix_ty(t@),
{
    let n = t.len();
    if n == 2 && t[0] == 'u' && t[1] == '8' {
        Some(NumLitTy::U8)
    } else if n == 3 && t[0] == 'u' && t[1] == '1' && t[2] == '6' {
        Some(NumLitTy::U16)
    } else if n == 3 && t[0] == 'u' && t[1] == '3' && t[2] == '2' {
        Some(NumLitTy::U32)
    } else if n == 3 && t[0] == 'u' && t[1] == '6' && t[2] == '4' {
        Some(NumLitTy::U64)
    } else if n == 4 && t[0] == 'u' && t[1] == '1' && t[2] == '2' && t[3] == '8' {
        Some(NumLitTy::U128)
    } else if n == 4 && t[0] == 'u' && t[1] == 'p' && t[2] == 't' && t[3] == 'r' {
        Some(NumLitTy::UPtr)
    } else if n == 2 && t[0] == 'i' && t[1] == '8' {
        Some(NumLitTy::I8)
    } else if n == 3 && t[0] == 'i' && t[1] == '1' && t[2] == '6' {
        Some(NumLitTy::I16)
    } else if n == 3 && t[0] == 'i' && t[1] == '3' && t[2] == '2' {
        Some(NumLitTy::I32)
    } else if n == 3 && t[0] == 'i' && t[1] == '6' && t[2] == '4' {
        Some(NumLitTy::I64)
    } else if n == 4 && t[0] == 'i' && t[1] == '1' && t[2] == '2' && t[3] == '8' {
        Some(NumLitTy::I128)
    } else if n == 4 && t[0] == 'i' && t[1] == 'p' && t[2] == 't' && t[3] == 'r' {
        Some(NumLitTy::IPtr)
    } else if n == 3 && t[0] == 'f' && t[1] == '3' && t[2] == '2' {
        Some(NumLitTy::F32)
    } else if n == 3 && t[0] == 'f' && t[1] == '6' && t[2] == '4' {
        Some(NumLitTy::F64)
    } else {
        None
    }
}

/// Executable form of `float_body_ok`.
fn float_body_check(v: &Vec<char>) -> (r: bool)
    ensures
        r == float_body_ok(v@),
{
    if v.len() == 0 {
        return false;
    }
    let mut i: usize = 0;
    let mut saw_digit: bool = false;
    let mut dot_at: usize = 0;
    let mut saw_dot: bool = false;
    while i < v.len()
        invariant
            i <= v@.len(),
            forall|j: int| 0 <= j < i ==> is_dec_digit(v@[j]) || v@[j] == '.',
            saw_digit <==> exists|j: int| 0 <= j < i && is_dec_digit(v@[j]),
            saw_dot ==> dot_at < i && v@[dot_at as int] == '.',
            forall|j: int| 0 <= j < i && v@[j] == '.' ==> saw_dot && j == dot_at,
        decreases v@.len() - i,
    {
        let c = v[i];
        if c == '.' {
            if saw_dot {
                return false;
            }
            saw_dot = true;
            dot_at = i;
        } else if dec_digit(c) {
            saw_digit = true;
        } else {
            return false;
        }
        i = i + 1;
    }
    saw_digit
}

/// Larger digit runs only grow in value: a prefix never exceeds the whole.
proof fn lemma_int_val_mono(s: Seq<char>, radix: u32, i: int, j: int)
    requires
        1 <= radix,
        0 <= i <= j <= s.len(),
    ensures
        int_val(s.take(i), radix) <= int_val(s.take(j), radix),
    decreases j - i,
{
    if i < j {
        lemma_int_val_mono(s, radix, i, j - 1);
        assert(s.take(j).drop_last() =~= s.take(j - 1));
        let a = int_val(s.take(j - 1), radix);
        assert(a * radix >= a) by (nonlinear_arith)
            requires
                radix >= 1,
                a >= 0,
        ;
    }
}

/// Parses a digit run as a 128-bit unsigned integer under `radix`; `None`
/// exactly when the run is empty, holds an invalid digit, or overflows.
fn int_parse(v: &Vec<char>, radix: u32) -> (r: Option<u128>)
    requires
        2 <= radix <= 16,
    ensures
        r is Some <==> int_parse_ok(v@, radix),
        r is Some ==> r->0 == int_val(v@, radix),
{
    if v.len() == 0 {
        return None;
    }
    let mut i: usize = 0;
    let mut value: u128 = 0;
    while i < v.len()
        invariant
            2 <= radix <= 16,
            i <= v@.len(),
            forall|j: int| 0 <= j < i ==> digit_ok(v@[j], radix),
            value == int_val(v@.take(i as int), radix),
            int_val(v@.take(i as int), radix) <= u128::MAX,
        decreases v@.len() - i,
    {
        let c = v[i];
        let d = match digit_value(c) {
            Some(d) => d,
            None => {
                return None;
            },
        };
        if d >= radix {
            return None;
        }
        proof {
            assert(v@.take(i + 1).drop_last() =~= v@.take(i as int));
            assert(v@.take(i + 1).last() == v@[i as int]);
        }
        let next = match value.checked_mul(radix as u128) {
            Some(m) => m.checked_add(d as u128),
            None => None,
        };
        match next {
            Some(n) => {
                value = n;
            },
            None => {
                proof {
                    assert(int_val(v@.take(i + 1), radix) > u128::MAX);
                    lemma_int_val_mono(v@, radix, i + 1, v@.len() as int);
                    assert(v@.take(v@.len() as int) =~= v@);
                }
                return None;
            },
        }
        i = i + 1;
    }
    proof {
        assert(v@.take(v@.len() as int) =~= v@);
    }
    Some(value)
}

/// Interprets a raw digit run (as collected by the tokenizer: digits, word
/// characters and dots) as a numeric literal: its value and optional type
/// suffix, or the literal error that rejects the run.
pub fn str_to_num_lit(num: String) -> (r: Result<(NumLit, Option<NumLitTy>), ParseError>)
    ensures
        r is Ok <==> spec_num_lit(num@) is Ok,
        r is Ok ==> (r->Ok_0.0@, r->Ok_0.1) == spec_num_lit(num@)->Ok_0,
        r is Err ==> r->Err_0@ == spec_num_lit(num@)->Err_0,
{
    let raw = str_chars(num.as_str());
    let s = strip_uscores(&raw);
    let ghost sseq = s@;

    // Radix detection.
    let has_prefix = s.len() > 2 && s[0] == '0' && (s[1] == 'b' || s[1] == 'q' || s[1] == 'o'
        || s[1] == 'z' || s[1] == 'x');
    proof {
        assert(has_prefix == has_radix_prefix(sseq));
    }
    let radix: u32 = if has_prefix {
        match s[1] {
            'b' => 2,
            'q' => 4,
            'o' => 8,
            'z' => 12,
            _ => 16,
        }
    } else {
        10
    };
    let body0 = if has_prefix {
        vec_skip(&s, 2)
    } else {
        s
    };
    proof {
        assert(radix == radix_of(sseq));
        assert(body0@ == after_radix_prefix(sseq));
    }

    // Float shape.
    let fl = contains_char(&body0, '.');
    if fl && radix != 10 {
        let msg = String::from_str("expected radix 10 for floating point literal, found ").concat(
            match radix {
                2 => "2",
                4 => "4",
                8 => "8",
                12 => "12",
                _ => "16",
            },
        );
        return Err(
            ParseET::LiteralError(
                Literal::Number(NumLit::Float(String::new()), None),
                msg,
            ).error(),
        );
    }

    // Suffix extraction.
    let mut end: usize = 0;
    loop
        invariant_except_break
            end <= body0@.len(),
            body_end_from(body0@, fl, radix, 0) == body_end_from(body0@, fl, radix, end as int),
        ensures
            0 <= end <= body0@.len(),
            end == body_end_from(body0@, fl, radix, 0),
        decreases body0@.len() - end,
    {
        if end >= body0.len() {
            break;
        }
        let c = body0[end];
        let ok = is_numeric_char(c) || (fl && c == '.') || (!fl && hex_letter(c) && radix == 16);
        if !ok {
            break;
        }
        end = end + 1;
    }
    let body = vec_take(&body0, end);
    let tail = vec_skip(&body0, end);

    let ty: Option<NumLitTy> = if end == body0.len() {
        None
    } else {
        match suffix_lookup(&tail) {
            Some(t) => Some(t),
            None => {
                let msg = String::from_str("unsupported type suffix: '").concat(
                    string_from_chars(&tail).as_str(),
                ).concat("'");
                return Err(
                    ParseET::LiteralError(
                        Literal::Number(
                            if fl {
                                NumLit::Float(String::new())
                            } else {
                                NumLit::Integer(0)
                            },
                            None,
                        ),
                        msg,
                    ).error(),
                );
            },
        }
    };
    let flty = match ty {
        Some(NumLitTy::F32) => true,
        Some(NumLitTy::F64) => true,
        _ => false,
    };
    if fl && ty.is_some() && !flty {
        let msg = String::from_str(
            "expected floating point type for floating point literal, found '",
        ).concat(string_from_chars(&tail).as_str()).concat("'");
        return Err(
            ParseET::LiteralError(
                Literal::Number(NumLit::Float(String::new()), None),
                msg,
            ).error(),
        );
    }

    // Final parse.
    if fl || flty {
        if float_body_check(&body) {
            Ok((NumLit::Float(string_from_chars(&body)), ty))
        } else {
            Err(
                ParseET::LiteralError(
                    Literal::Number(NumLit::Float(String::new()), None),
                    String::from_str("invalid float literal"),
                ).error(),
            )
        }
    } else {
        match int_parse(&body, radix) {
            Some(value) => Ok((NumLit::Integer(value), ty)),
            None => Err(
                ParseET::LiteralError(
                    Literal::Number(NumLit::Integer(0), None),
                    String::from_str("invalid integer literal"),
                ).error(),
            ),
        }
    }
}

// ---------------------------------------------------------------------------
// String escapes
// ---------------------------------------------------------------------------
//
// A raw string-literal body is decoded character by character; `\` opens an
// escape: the single-character forms `n r t " '`, `\xHH` for one ASCII or
// Latin-1 code point, and `\u{H..H}` for one Unicode scalar value. A trailing
// `\` with nothing after it is dropped silently.

/// The number of characters at or after `i` that precede the first occurrence
/// of `c` (all remaining characters when `c` does not occur).
pub open spec fn count_until(s: Seq<char>, i: int, c: char) -> nat
    decreases s.len() - i,
{
    if i < 0 || i >= s.len() {
        0
    } else if s[i] == c {
        0
    } else {
        1 + count_until(s, i + 1, c)
    }
}

/// A brace-delimited hexadecimal run that fits a 32-bit code point value.
pub open spec fn u_hex_ok(v: Seq<char>) -> bool {
    v.len() > 0 && (forall|j: int| 0 <= j < v.len() ==> digit_ok(v[j], 16)) && int_val(v, 16)
        <= u32::MAX
}

/// Prefixes a decoded character onto the rest of a decoding.
pub open spec fn decoded_cons(c: char, r: Result<Seq<char>, Seq<char>>) -> Result<
    Seq<char>,
    Seq<char>,
> {
    match r {
        Result::Ok(t) => Result::Ok(seq![c] + t),
        Result::Err(m) => Result::Err(m),
    }
}

/// What decoding the body from position `i` on yields: the decoded characters,
/// or the message of the literal error that rejects the body.
pub open spec fn spec_unescape_from(s: Seq<char>, i: int) -> Result<Seq<char>, Seq<char>>
    decreases s.len() - i,
{
    if i < 0 || i >= s.len() {
        Result::Ok(Seq::empty())
    } else if s[i] != '\\' {
        decoded_cons(s[i], spec_unescape_from(s, i + 1))
    } else if i + 1 >= s.len() {
        // a trailing unescaped backslash is dropped silently
        Result::Ok(Seq::empty())
    } else {
        let e = s[i + 1];
        if e == 'n' {
            decoded_cons('\n', spec_unescape_from(s, i + 2))
        } else if e == 'r' {
            decoded_cons('\r', spec_unescape_from(s, i + 2))
        } else if e == 't' {
            decoded_cons('\t', spec_unescape_from(s, i + 2))
        } else if e == '"' {
            decoded_cons('"', spec_unescape_from(s, i + 2))
        } else if e == '\'' {
            decoded_cons('\'', spec_unescape_from(s, i + 2))
        } else if e == 'x' {
            if i + 3 < s.len() {
                if digit_ok(s[i + 2], 16) && digit_ok(s[i + 3], 16) {
                    decoded_cons(
                        (((digit_val_or0(s[i + 2]) * 16 + digit_val_or0(s[i + 3])) as u32) as char),
                        spec_unescape_from(s, i + 4),
                    )
                } else {
                    Result::Err(
                        "invalid ascii literal '\\x"@ + seq![s[i + 2], s[i + 3]] + "'"@,
                    )
                }
            } else {
                Result::Err("unterminated ascii literal"@)
            }
        } else if e == 'u' {
            if i + 2 < s.len() && s[i + 2] == '{' {
                let j = i + 3 + count_until(s, i + 3, '}');
                if j >= s.len() {
                    Result::Err("unterminated unicode literal"@)
                } else {
                    let v = s.subrange(i + 3, j);
                    if u_hex_ok(v) && is_scalar_value(int_val(v, 16) as u32) {
                        decoded_cons(
                            ((int_val(v, 16) as u32) as char),
                            spec_unescape_from(s, j + 1),
                        )
                    } else {
                        Result::Err("invalid unicode literal '\\u{"@ + v + "}'"@)
                    }
                }
            } else {
                Result::Err("expected '{{' in unicode literal"@)
            }
        } else {
            Result::Err("invalid escape sequence '\\"@ + seq![e] + "'"@)
        }
    }
}

/// Decoding a body that holds no backslash gives the body back unchanged: on
/// escape-free strings the decoder is the identity.
pub proof fn lemma_unescape_no_escapes_identity(s: Seq<char>)
    requires
        forall|i: int| 0 <= i < s.len() ==> s[i] != '\\',
    ensures
        spec_unescape_from(s, 0) == Result::<Seq<char>, Seq<char>>::Ok(s),
{
    lemma_unescape_no_escapes_from(s, 0);
    assert(s.subrange(0, s.len() as int) =~= s);
}

/// The decoding of an escape-free tail is that tail unchanged.
proof fn lemma_unescape_no_escapes_from(s: Seq<char>, i: int)
    requires
        0 <= i <= s.len(),
        forall|k: int| 0 <= k < s.len() ==> s[k] != '\\',
    ensures
        spec_unescape_from(s, i) == Result::<Seq<char>, Seq<char>>::Ok(s.subrange(i, s.len() as int)),
    decreases s.len() - i,
{
    if i >= s.len() {
        assert(s.subrange(i, s.len() as int) =~= Seq::<char>::empty());
    } else {
        lemma_unescape_no_escapes_from(s, i + 1);
        assert(seq![s[i]] + s.subrange(i + 1, s.len() as int) =~= s.subrange(i, s.len() as int));
    }
}

/// The rejection of a string-literal body with message `msg`, located at `loc`.
pub open spec fn spec_string_lit_err(msg: Seq<char>, loc: SpecSpan) -> SpecParseError {
    SpecParseError {
        et: SpecParseET::LiteralError(SpecLiteral::String(Seq::empty()), msg),
        loc: Option::Some(loc),
        context: Seq::empty(),
    }
}

/// Prefixes already-decoded characters onto the rest of a decoding.
pub open spec fn decoded_with_prefix(p: Seq<char>, r: Result<Seq<char>, Seq<char>>) -> Result<
    Seq<char>,
    Seq<char>,
> {
    match r {
        Result::Ok(t) => Result::Ok(p + t),
        Result::Err(m) => Result::Err(m),
    }
}

/// Decodes a raw string-literal body: every escape is replaced by the
/// character it names, everything else passes through unchanged. A rejected
/// body yields the exact literal error, located at `loc`.
pub fn unescape_str(str: &str, loc: &Span) -> (r: Result<String, ParseError>)
    ensures
        spec_unescape_from(str@, 0) is Ok ==> r is Ok && r->Ok_0@ == spec_unescape_from(
            str@,
            0,
        )->Ok_0,
        spec_unescape_from(str@, 0) is Err ==> r is Err && r->Err_0@ == spec_string_lit_err(
            spec_unescape_from(str@, 0)->Err_0,
            loc@,
        ),
{
    let s = str_chars(str);
    let mut out: Vec<char> = Vec::new();
    let mut i: usize = 0;
    proof {
        assert(decoded_with_prefix(out@, spec_unescape_from(s@, 0)) == spec_unescape_from(s@, 0))
            by {
            match spec_unescape_from(s@, 0) {
                Result::Ok(t) => {
                    assert(out@ + t =~= t);
                },
                Result::Err(_) => {},
            }
        }
    }
    while i < s.len()
        invariant
            s@ == str@,
            i <= s@.len(),
            spec_unescape_from(s@, 0) == decoded_with_prefix(out@, spec_unescape_from(s@, i as int)),
        decreases s@.len() - i,
    {
        let ghost pre = out@;
        let ghost i0 = i as int;
        let c = s[i];
        if c != '\\' {
            out.push(c);
            i = i + 1;
            proof {
                lemma_step(s@, pre, i0, c, i as int);
            }
        } else if s.len() - i == 1 {
            // trailing backslash: dropped
            i = i + 1;
        } else {
            let e = s[i + 1];
            if e == 'n' {
                out.push('\n');
                i = i + 2;
                proof {
                    lemma_step(s@, pre, i0, '\n', i as int);
                }
            } else if e == 'r' {
                out.push('\r');
                i = i + 2;
                proof {
                    lemma_step(s@, pre, i0, '\r', i as int);
                }
            } else if e == 't' {
                out.push('\t');
                i = i + 2;
                proof {
                    lemma_step(s@, pre, i0, '\t', i as int);
                }
            } else if e == '"' {
                out.push('"');
                i = i + 2;
                proof {
                    lemma_step(s@, pre, i0, '"', i as int);
                }
            } else if e == '\'' {
                out.push('\'');
                i = i + 2;
                proof {
                    lemma_step(s@, pre, i0, '\'', i as int);
                }
            } else if e == 'x' {
                if s.len() - i > 3 {
                    let d1 = digit_value(s[i + 2]);
                    let d2 = digit_value(s[i + 3]);
                    let mut hex_ok = false;
                    let mut value: u32 = 0;
                    match (d1, d2) {
                        (Some(a), Some(b)) => {
                            if a < 16 && b < 16 {
                                hex_ok = true;
                                value = a * 16 + b;
                            }
                        },
                        _ => {},
                    }
                    if hex_ok {
                        match char_from_u32(value) {
                            Some(dc) => {
                                out.push(dc);
                                i = i + 4;
                                proof {
                                    lemma_step(s@, pre, i0, dc, i as int);
                                }
                            },
                            None => {
                                proof {
                                    assert(false);
                                }
                            },
                        }
                    } else {
                        let mut v: Vec<char> = Vec::new();
                        v.push(s[i + 2]);
                        v.push(s[i + 3]);
                        proof {
                            assert(v@ =~= seq![s@[i0 + 2], s@[i0 + 3]]);
                        }
                        let msg = String::from_str("invalid ascii literal '\\x").concat(
                            string_from_chars(&v).as_str(),
                        ).concat("'");
                        return Err(
                            ParseET::LiteralError(
                                Literal::String(String::new()),
                                msg,
                            ).at(loc.duplicate()),
                        );
                    }
                } else {
                    return Err(
                        ParseET::LiteralError(
                            Literal::String(String::new()),
                            String::from_str("unterminated ascii literal"),
                        ).at(loc.duplicate()),
                    );
                }
            } else if e == 'u' {
                if s.len() - i > 2 && s[i + 2] == '{' {
                    let mut j: usize = i + 3;
                    while j < s.len() && s[j] != '}'
                        invariant
                            0 <= i0 == i as int,
                            i0 + 3 <= j <= s@.len(),
                            count_until(s@, i0 + 3, '}') == (j - (i0 + 3)) + count_until(
                                s@,
                                j as int,
                                '}',
                            ),
                        decreases s@.len() - j,
                    {
                        j = j + 1;
                    }
                    proof {
                        assert(count_until(s@, j as int, '}') == 0);
                        assert(j == i0 + 3 + count_until(s@, i0 + 3, '}'));
                    }
                    if j >= s.len() {
                        return Err(
                            ParseET::LiteralError(
                                Literal::String(String::new()),
                                String::from_str("unterminated unicode literal"),
                            ).at(loc.duplicate()),
                        );
                    }
                    let mut v: Vec<char> = Vec::new();
                    let mut k: usize = i + 3;
                    while k < j
                        invariant
                            0 <= i0 == i as int,
                            i0 + 3 <= k <= j < s@.len(),
                            v@ == s@.subrange(i0 + 3, k as int),
                        decreases j - k,
                    {
                        v.push(s[k]);
                        k = k + 1;
                        proof {
                            assert(v@ =~= s@.subrange(i0 + 3, k as int));
                        }
                    }
                    let parsed = int_parse(&v, 16);
                    let mut ok32 = false;
                    let mut value: u32 = 0;
                    match parsed {
                        Some(val) => {
                            if val <= 0xFFFF_FFFFu128 {
                                ok32 = true;
                                value = val as u32;
                            }
                        },
                        None => {},
                    }
                    proof {
                        assert(ok32 == u_hex_ok(s@.subrange(i0 + 3, j as int)));
                    }
                    let mut decoded: Option<char> = None;
                    if ok32 {
                        decoded = char_from_u32(value);
                    }
                    match decoded {
                        Some(dc) => {
                            out.push(dc);
                            i = j + 1;
                            proof {
                                lemma_step(s@, pre, i0, dc, i as int);
                            }
                        },
                        None => {
                            let msg = String::from_str("invalid unicode literal '\\u{").concat(
                                string_from_chars(&v).as_str(),
                            ).concat("}'");
                            return Err(
                                ParseET::LiteralError(
                                    Literal::String(String::new()),
                                    msg,
                                ).at(loc.duplicate()),
                            );
                        },
                    }
                } else {
                    return Err(
                        ParseET::LiteralError(
                            Literal::String(String::new()),
                            String::from_str("expected '{{' in unicode literal"),
                        ).at(loc.duplicate()),
                    );
                }
            } else {
                let mut v: Vec<char> = Vec::new();
                v.push(e);
                proof {
                    assert(v@ =~= seq![s@[i0 + 1]]);
                }
                let msg = String::from_str("invalid escape sequence '\\").concat(
                    string_from_chars(&v).as_str(),
                ).concat("'");
                return Err(
                    ParseET::LiteralError(
                        Literal::String(String::new()),
                        msg,
                    ).at(loc.duplicate()),
                );
            }
        }
    }
    proof {
        assert(spec_unescape_from(s@, i as int) == Result::<Seq<char>, Seq<char>>::Ok(
            Seq::<char>::empty(),
        ));
        assert(out@ + Seq::<char>::empty() =~= out@);
    }
    Ok(string_from_chars(&out))
}

// ---------------------------------------------------------------------------
// The character cursor and the run collector
// ---------------------------------------------------------------------------

/// A cursor over the characters of one source buffer.
pub struct SourceIter {
    pub source: Source,
    pub chars: Vec<char>,
    pub index: usize,
}

impl SourceIter {
    /// The characters mirror the buffer's text.
    pub open spec fn wf(&self) -> bool {
        self.chars@ == self.source@.text
    }

    /// A cursor standing on the first character of `source`.
    pub fn new(source: Source) -> (r: SourceIter)
        ensures
            r.wf(),
            r.source@ == source@,
            r.index == 0,
    {
        let chars = str_chars(source.text.as_str());
        SourceIter { source, chars, index: 0 }
    }

    /// The one-position span at the cursor.
    pub fn here(&self) -> (r: Span)
        ensures
            r@ == (SpecSpan { source: self.source@, start: self.index as int, end: self.index as int }),
    {
        Span { source: self.source.duplicate(), start: self.index, end: self.index }
    }
}

/// The stop conditions the tokenizer collects runs under. Each names the
/// construct being collected; they differ in which character ends the run and
/// in whether running out of input is an error or just the end of the run.
pub enum CollectCond {
    /// Until an unescaped closing quote; end of input is an error.
    StringBody,
    /// Until the end of the line; end of input ends the run.
    LineComment,
    /// Until a `*`; end of input is an error.
    BlockSegment,
    /// While letters, digits and underscores last; end of input ends the run.
    IdentRun,
    /// Until a closing single quote; end of input is an error.
    CharLit,
}

/// The number of backslashes standing immediately before position `i`.
pub open spec fn backslashes_before(s: Seq<char>, i: int) -> nat
    decreases i,
{
    if i <= 0 || i > s.len() {
        0
    } else if s[i - 1] == '\\' {
        1 + backslashes_before(s, i - 1)
    } else {
        0
    }
}

/// What a stop condition says at position `i`: `None` for an end-of-input
/// error, `Some(true)` to keep collecting, `Some(false)` to stop.
pub open spec fn cond_eval(cond: CollectCond, s: Seq<char>, i: int) -> Option<bool> {
    match cond {
        CollectCond::StringBody => if i < 0 || i >= s.len() {
            Option::None
        } else if s[i] == '"' {
            Option::Some(backslashes_before(s, i) % 2 == 1)
        } else {
            Option::Some(true)
        },
        CollectCond::LineComment => if i < 0 || i >= s.len() {
            Option::Some(false)
        } else {
            Option::Some(s[i] != '\n')
        },
        CollectCond::BlockSegment => if i < 0 || i >= s.len() {
            Option::None
        } else {
            Option::Some(s[i] != '*')
        },
        CollectCond::IdentRun => if i < 0 || i >= s.len() {
            Option::Some(false)
        } else {
            Option::Some(is_word_char(s[i]))
        },
        CollectCond::CharLit => if i < 0 || i >= s.len() {
            Option::None
        } else {
            Option::Some(s[i] != '\'')
        },
    }
}

/// The length of the run collected from `i` on: the number of characters
/// before the stop condition first says stop, or `None` when it runs out of
/// input first.
pub open spec fn run_len(cond: CollectCond, s: Seq<char>, i: int) -> Option<nat>
    decreases s.len() - i,
{
    if i < 0 || i >= s.len() {
        match cond_eval(cond, s, i) {
            Option::None => Option::None,
            Option::Some(_) => Option::Some(0nat),
        }
    } else {
        match cond_eval(cond, s, i) {
            Option::None => Option::None,
            Option::Some(false) => Option::Some(0nat),
            Option::Some(true) => match run_len(cond, s, i + 1) {
                Option::None => Option::None,
                Option::Some(n) => Option::Some(n + 1),
            },
        }
    }
}

/// The end-of-input failure, bare: no location, no context yet.
pub open spec fn spec_eof_err() -> SpecParseError {
    SpecParseError { et: SpecParseET::EOF, loc: Option::None, context: Seq::empty() }
}

/// Executable form of `cond_eval` at the cursor.
fn cond_exec(iter: &SourceIter, cond: &CollectCond) -> (r: Option<bool>)
    ensures
        r == cond_eval(*cond, iter.chars@, iter.index as int),
{
    let n = iter.chars.len();
    match cond {
        CollectCond::StringBody => {
            if iter.index >= n {
                None
            } else if iter.chars[iter.index] == '"' {
                let mut k = iter.index;
                let mut odd = false;
                while k > 0 && iter.chars[k - 1] == '\\'
                    invariant
                        k <= iter.index < iter.chars@.len(),
                        backslashes_before(iter.chars@, iter.index as int) == (iter.index - k)
                            + backslashes_before(iter.chars@, k as int),
                        odd == ((iter.index - k) % 2 == 1),
                    decreases k,
                {
                    odd = !odd;
                    k = k - 1;
                }
                proof {
                    assert(backslashes_before(iter.chars@, k as int) == 0);
                }
                Some(odd)
            } else {
                Some(true)
            }
        },
        CollectCond::LineComment => {
            if iter.index >= n {
                Some(false)
            } else {
                Some(iter.chars[iter.index] != '\n')
            }
        },
        CollectCond::BlockSegment => {
            if iter.index >= n {
                None
            } else {
                Some(iter.chars[iter.index] != '*')
            }
        },
        CollectCond::IdentRun => {
            if iter.index >= n {
                Some(false)
            } else {
                Some(word_char(iter.chars[iter.index]))
            }
        },
        CollectCond::CharLit => {
            if iter.index >= n {
                None
            } else {
                Some(iter.chars[iter.index] != '\'')
            }
        },
    }
}

/// Collects a run of characters under a stop condition, starting at the
/// cursor. With `skip_first` the character under the cursor is left out of
/// the run (it is the construct's opener); with `consume_break` the cursor
/// ends on the character that stopped the run, otherwise on the run's last
/// character. Returns the collected characters and the span from the entry
/// position to the final cursor position; an end-of-input failure of the stop
/// condition is returned bare, for the caller to wrap with context.
pub fn collect_until(iter: &mut SourceIter, skip_first: bool, consume_break: bool, cond: CollectCond) -> (r: Result<(String, Span), ParseError>)
    requires
        old(iter).wf(),
        old(iter).index < old(iter).chars@.len(),
        skip_first == consume_break,
        !skip_first ==> cond_eval(cond, old(iter).chars@, old(iter).index as int) == Option::Some(
            true,
        ),
    ensures
        final(iter).wf(),
        final(iter).source@ == old(iter).source@,
        final(iter).chars@ == old(iter).chars@,
        ({
            let text = old(iter).chars@;
            let begin = old(iter).index + if skip_first { 1int } else { 0int };
            match run_len(cond, text, begin) {
                Option::None => r is Err && r->Err_0@ == spec_eof_err(),
                Option::Some(n) => {
                    let stop = begin + n;
                    let fin = if consume_break { stop } else { stop - 1 };
                    r is Ok && r->Ok_0.0@ == text.subrange(begin, stop) && r->Ok_0.1@ == (SpecSpan {
                        source: old(iter).source@,
                        start: old(iter).index as int,
                        end: fin,
                    }) && final(iter).index == fin && old(iter).index <= fin <= text.len()
                        && cond_eval(cond, text, stop) == Option::Some(false)
                },
            }
        }),
{
    let ghost text = iter.chars@;
    let n0 = iter.chars.len();
    let start0 = iter.index;
    if skip_first {
        iter.index = iter.index + 1;
    }
    let ghost begin = iter.index as int;
    let mut result: Vec<char> = Vec::new();
    loop
        invariant_except_break
            iter.wf(),
            iter.source@ == old(iter).source@,
            iter.chars@ == text,
            text == old(iter).chars@,
            text.len() <= usize::MAX,
            old(iter).index < text.len(),
            begin == old(iter).index + if skip_first { 1int } else { 0int },
            skip_first == consume_break,
            !skip_first ==> cond_eval(cond, text, begin) == Option::Some(true),
            0 <= begin <= iter.index <= text.len(),
            result@ == text.subrange(begin, iter.index as int),
            run_len(cond, text, begin) == match run_len(cond, text, iter.index as int) {
                Option::None => Option::<nat>::None,
                Option::Some(n) => Option::Some((n + iter.index - begin) as nat),
            },
        ensures
            iter.wf(),
            iter.source@ == old(iter).source@,
            iter.chars@ == text,
            text.len() <= usize::MAX,
            0 <= begin <= iter.index <= text.len(),
            result@ == text.subrange(begin, iter.index as int),
            run_len(cond, text, begin) == Option::Some((iter.index - begin) as nat),
            cond_eval(cond, text, iter.index as int) == Option::Some(false),
        decreases text.len() - iter.index,
    {
        match cond_exec(iter, &cond) {
            None => {
                return Err(ParseET::EOF.error());
            },
            Some(false) => {
                break;
            },
            Some(true) => {
                proof {
                    assert(iter.index < text.len());
                }
                result.push(iter.chars[iter.index]);
                iter.index = iter.index + 1;
                proof {
                    assert(result@ =~= text.subrange(begin, iter.index as int));
                }
            },
        }
    }
    let stop = iter.index;
    if consume_break {
        // the cursor ends on the breaking character itself: the outer step
        // past it is taken by the driving loop
    } else {
        proof {
            assert(run_len(cond, text, begin) == Option::Some((stop - begin) as nat));
            assert(stop > begin);
        }
        iter.index = iter.index - 1;
    }
    let fin = iter.index;
    let span = Span { source: iter.source.duplicate(), start: start0, end: fin };
    Ok((string_from_chars(&result), span))
}

// ---------------------------------------------------------------------------
// The tokenizer
// ---------------------------------------------------------------------------

/// The span over `src` from `a` to `b`.
pub open spec fn sp(src: SpecSource, a: int, b: int) -> SpecSpan {
    SpecSpan { source: src, start: a, end: b }
}

/// Prefixes one token onto the rest of a tokenization.
pub open spec fn tok_cons(t: SpecToken, r: Result<Seq<SpecToken>, SpecParseError>) -> Result<
    Seq<SpecToken>,
    SpecParseError,
> {
    match r {
        Result::Ok(ts) => Result::Ok(seq![t] + ts),
        Result::Err(e) => Result::Err(e),
    }
}

/// Prefixes already-produced tokens onto the rest of a tokenization.
pub open spec fn toks_with_prefix(p: Seq<SpecToken>, r: Result<Seq<SpecToken>, SpecParseError>) -> Result<
    Seq<SpecToken>,
    SpecParseError,
> {
    match r {
        Result::Ok(ts) => Result::Ok(p + ts),
        Result::Err(e) => Result::Err(e),
    }
}

/// The views of produced tokens.
pub open spec fn toks_view(ts: Seq<Token>) -> Seq<SpecToken> {
    ts.map_values(|t: Token| t@)
}

/// Scanning a block comment's tail, with the cursor standing where a `*`-run
/// collection starts: the offset (from that position) of the `/` that closes
/// the comment, or the end-of-input failure with its context trail.
pub open spec fn block_rest(text: Seq<char>, i: int) -> Result<nat, SpecParseError>
    decreases text.len() - i,
{
    match run_len(CollectCond::BlockSegment, text, i + 1) {
        Option::None => Result::Err(
            spec_when(
                spec_when(spec_eof_err(), "tokenizing single line comment"@),
                "tokenizing comment"@,
            ),
        ),
        Option::Some(n) => {
            let star = i + 1 + n;
            if star + 1 >= text.len() {
                Result::Err(spec_when(spec_eof_err(), "tokenizing comment"@))
            } else if text[star + 1] == '/' {
                Result::Ok((n + 2) as nat)
            } else {
                match block_rest(text, star + 1) {
                    Result::Ok(k) => Result::Ok((n + 2 + k) as nat),
                    Result::Err(e) => Result::Err(e),
                }
            }
        },
    }
}

/// What tokenizing `text` from position `i` on yields, `prev` saying whether
/// the token produced last was a particle (for glue detection): the remaining
/// located tokens over source `src`, or the first failure.
#[verifier::opaque]
pub open spec fn spec_tokenize_from(text: Seq<char>, src: SpecSource, i: int, prev: bool) -> Result<
    Seq<SpecToken>,
    SpecParseError,
>
    decreases (if 0 <= i <= text.len() { text.len() - i } else { 0int }),
{
    if i < 0 || i >= text.len() {
        Result::Ok(Seq::empty())
    } else {
        let c = text[i];
        if c == '"' {
            match run_len(CollectCond::StringBody, text, i + 1) {
                Option::None => Result::Err(
                    spec_when(spec_eof_err(), "tokenizing string literal"@),
                ),
                Option::Some(n) => {
                    let stop = i + 1 + n;
                    let body = text.subrange(i + 1, stop);
                    match spec_unescape_from(body, 0) {
                        Result::Err(m) => Result::Err(spec_string_lit_err(m, sp(src, i, stop))),
                        Result::Ok(decoded) => tok_cons(
                            SpecToken {
                                tt: SpecTokenType::Literal(SpecLiteral::String(decoded)),
                                loc: sp(src, i, stop),
                            },
                            spec_tokenize_from(text, src, stop + 1, false),
                        ),
                    }
                },
            }
        } else if c == '/' {
            if i + 1 >= text.len() {
                Result::Err(spec_when(spec_eof_err(), "tokenizing comment"@))
            } else if text[i + 1] == '/' {
                match run_len(CollectCond::LineComment, text, i + 2) {
                    Option::None => Result::Err(
                        spec_when(
                            spec_when(spec_eof_err(), "tokenizing single line comment"@),
                            "tokenizing comment"@,
                        ),
                    ),
                    Option::Some(n) => spec_tokenize_from(text, src, i + 2 + n + 1, prev),
                }
            } else if text[i + 1] == '*' {
                match block_rest(text, i + 1) {
                    Result::Err(e) => Result::Err(e),
                    Result::Ok(k) => spec_tokenize_from(text, src, i + 1 + k + 1, prev),
                }
            } else {
                let glued = i > 0 && !(is_word_char(text[i - 1]) || text[i - 1] == ' ');
                tok_cons(
                    SpecToken { tt: SpecTokenType::Particle('/', glued), loc: sp(src, i, i) },
                    spec_tokenize_from(text, src, i + 1, true),
                )
            }
        } else if c == '\'' {
            match run_len(CollectCond::CharLit, text, i + 1) {
                Option::None => Result::Err(spec_when(spec_eof_err(), "tokenizing char literal"@)),
                Option::Some(n) => {
                    let stop = i + 1 + n;
                    let body = text.subrange(i + 1, stop);
                    if body.len() != 1 {
                        Result::Err(
                            SpecParseError {
                                et: SpecParseET::TokenizationError(
                                    "Expected char, found: '"@ + body + "'"@,
                                ),
                                loc: Option::Some(sp(src, i, stop)),
                                context: Seq::empty(),
                            },
                        )
                    } else {
                        tok_cons(
                            SpecToken {
                                tt: SpecTokenType::Literal(SpecLiteral::Char(body[0])),
                                loc: sp(src, i, stop),
                            },
                            spec_tokenize_from(text, src, stop + 1, false),
                        )
                    }
                },
            }
        } else if is_white_space(c) {
            spec_tokenize_from(text, src, i + 1, prev)
        } else if is_ascii_letter(c) || c == '_' {
            match run_len(CollectCond::IdentRun, text, i + 1) {
                Option::None => Result::Err(spec_when(spec_eof_err(), "tokenizing identifier"@)),
                Option::Some(n) => {
                    let stop = i + 1 + n;
                    let body = text.subrange(i, stop);
                    let tt = if body == "true"@ {
                        SpecTokenType::Literal(SpecLiteral::Bool(true))
                    } else if body == "false"@ {
                        SpecTokenType::Literal(SpecLiteral::Bool(false))
                    } else {
                        SpecTokenType::Ident(body)
                    };
                    tok_cons(
                        SpecToken { tt, loc: sp(src, i, stop - 1) },
                        spec_tokenize_from(text, src, stop, false),
                    )
                },
            }
        } else if is_dec_digit(c) {
            match run_len(CollectCond::IdentRun, text, i + 1) {
                Option::None => Result::Err(
                    spec_when(spec_eof_err(), "tokenizing number literal"@),
                ),
                Option::Some(n) => {
                    let stop = i + 1 + n;
                    let body = text.subrange(i, stop);
                    match spec_num_lit(body) {
                        Result::Err(e) => Result::Err(spec_at(e, sp(src, i, stop - 1))),
                        Result::Ok(lt) => tok_cons(
                            SpecToken {
                                tt: SpecTokenType::Literal(SpecLiteral::Number(lt.0, lt.1)),
                                loc: sp(src, i, stop - 1),
                            },
                            spec_tokenize_from(text, src, stop, false),
                        ),
                    }
                },
            }
        } else {
            tok_cons(
                SpecToken { tt: SpecTokenType::Particle(c, prev), loc: sp(src, i, i) },
                spec_tokenize_from(text, src, i + 1, true),
            )
        }
    }
}

/// Tokenization from two positions at or past the end yields no more tokens
/// either way.
proof fn lemma_tail_indices(text: Seq<char>, src: SpecSource, j1: int, j2: int, prev: bool)
    requires
        j1 == j2 || (j1 >= text.len() && j2 >= text.len()),
    ensures
        spec_tokenize_from(text, src, j1, prev) == spec_tokenize_from(text, src, j2, prev),
{
    reveal(spec_tokenize_from);
}

/// A failure of the remaining tokenization is the failure of the whole.
proof fn lemma_err_propagates(
    text: Seq<char>,
    src: SpecSource,
    pre: Seq<SpecToken>,
    i: int,
    prev: bool,
    e: SpecParseError,
)
    requires
        spec_tokenize_from(text, src, 0, false) == toks_with_prefix(
            pre,
            spec_tokenize_from(text, src, i, prev),
        ),
        spec_tokenize_from(text, src, i, prev) == Result::<Seq<SpecToken>, SpecParseError>::Err(e),
    ensures
        spec_tokenize_from(text, src, 0, false) == Result::<Seq<SpecToken>, SpecParseError>::Err(e),
{
}

/// One tokenization step: when tokenizing from `i` yields token `t` followed
/// by the tokens from `i2`, the prefix absorbs `t`.
proof fn lemma_tok_push(
    text: Seq<char>,
    src: SpecSource,
    pre: Seq<SpecToken>,
    i: int,
    prev: bool,
    t: SpecToken,
    i2: int,
    prev2: bool,
)
    requires
        spec_tokenize_from(text, src, i, prev) == tok_cons(
            t,
            spec_tokenize_from(text, src, i2, prev2),
        ),
        spec_tokenize_from(text, src, 0, false) == toks_with_prefix(
            pre,
            spec_tokenize_from(text, src, i, prev),
        ),
    ensures
        spec_tokenize_from(text, src, 0, false) == toks_with_prefix(
            pre.push(t),
            spec_tokenize_from(text, src, i2, prev2),
        ),
{
    match spec_tokenize_from(text, src, i2, prev2) {
        Result::Ok(ts) => {
            assert(pre + (seq![t] + ts) =~= pre.push(t) + ts);
        },
        Result::Err(_) => {},
    }
}

/// Lexes one string literal at the cursor (which stands on the opening
/// quote), leaving the cursor on the closing quote.
fn lex_string(iter: &mut SourceIter) -> (r: Result<Token, ParseError>)
    requires
        old(iter).wf(),
        old(iter).index < old(iter).chars@.len(),
        old(iter).chars@[old(iter).index as int] == '"',
    ensures
        final(iter).wf(),
        final(iter).source@ == old(iter).source@,
        final(iter).chars@ == old(iter).chars@,
        r is Ok ==> old(iter).index <= final(iter).index <= old(iter).chars@.len(),
        r is Ok ==> forall|pv: bool| #![auto]
            spec_tokenize_from(old(iter).chars@, old(iter).source@, old(iter).index as int, pv)
                == tok_cons(
                r->Ok_0@,
                spec_tokenize_from(
                    old(iter).chars@,
                    old(iter).source@,
                    final(iter).index + 1,
                    false,
                ),
            ),
        r is Err ==> forall|pv: bool| #![auto]
            spec_tokenize_from(old(iter).chars@, old(iter).source@, old(iter).index as int, pv)
                == Result::<Seq<SpecToken>, SpecParseError>::Err(r->Err_0@),
{
    let ghost text = iter.chars@;
    let ghost src = iter.source@;
    let ghost i0 = iter.index as int;
    match e_when(
        collect_until(iter, true, true, CollectCond::StringBody),
        "tokenizing string literal",
    ) {
        Err(e) => {
            proof {
                reveal(spec_tokenize_from);
                assert(run_len(CollectCond::StringBody, text, i0 + 1) is None);
            }
            Err(e)
        },
        Ok((body, span)) => {
            match unescape_str(body.as_str(), &span) {
                Err(e) => {
                    proof {
                        reveal(spec_tokenize_from);
                    }
                    Err(e)
                },
                Ok(decoded) => {
                    let tk = TokenType::Literal(Literal::String(decoded)).at(span);
                    proof {
                        reveal(spec_tokenize_from);
                    }
                    Ok(tk)
                },
            }
        },
    }
}

/// Lexes one character literal at the cursor (which stands on the opening
/// single quote), leaving the cursor on the closing quote.
fn lex_char(iter: &mut SourceIter) -> (r: Result<Token, ParseError>)
    requires
        old(iter).wf(),
        old(iter).index < old(iter).chars@.len(),
        old(iter).chars@[old(iter).index as int] == '\'',
    ensures
        final(iter).wf(),
        final(iter).source@ == old(iter).source@,
        final(iter).chars@ == old(iter).chars@,
        r is Ok ==> old(iter).index <= final(iter).index <= old(iter).chars@.len(),
        r is Ok ==> forall|pv: bool| #![auto]
            spec_tokenize_from(old(iter).chars@, old(iter).source@, old(iter).index as int, pv)
                == tok_cons(
                r->Ok_0@,
                spec_tokenize_from(
                    old(iter).chars@,
                    old(iter).source@,
                    final(iter).index + 1,
                    false,
                ),
            ),
        r is Err ==> forall|pv: bool| #![auto]
            spec_tokenize_from(old(iter).chars@, old(iter).source@, old(iter).index as int, pv)
                == Result::<Seq<SpecToken>, SpecParseError>::Err(r->Err_0@),
{
    let ghost text = iter.chars@;
    let ghost src = iter.source@;
    let ghost i0 = iter.index as int;
    match e_when(collect_until(iter, true, true, CollectCond::CharLit), "tokenizing char literal") {
        Err(e) => {
            proof {
                reveal(spec_tokenize_from);
                assert(run_len(CollectCond::CharLit, text, i0 + 1) is None);
            }
            Err(e)
        },
        Ok((body, span)) => {
            if body.as_str().unicode_len() != 1 {
                let msg = String::from_str("Expected char, found: '").concat(body.as_str()).concat(
                    "'",
                );
                let err = ParseET::TokenizationError(msg).at(span);
                proof {
                    reveal(spec_tokenize_from);
                }
                return Err(err);
            }
            let ch = body.as_str().get_char(0);
            let tk = TokenType::Literal(Literal::Char(ch)).at(span);
            proof {
                reveal(spec_tokenize_from);
            }
            Ok(tk)
        },
    }
}

/// Lexes one identifier, `true`/`false` literal, at the cursor (which stands
/// on the first word character), leaving the cursor on the run's last
/// character.
fn lex_ident(iter: &mut SourceIter) -> (r: Result<Token, ParseError>)
    requires
        old(iter).wf(),
        old(iter).index < old(iter).chars@.len(),
        is_ascii_letter(old(iter).chars@[old(iter).index as int]) || old(iter).chars@[old(
            iter,
        ).index as int] == '_',
    ensures
        final(iter).wf(),
        final(iter).source@ == old(iter).source@,
        final(iter).chars@ == old(iter).chars@,
        r is Ok ==> old(iter).index <= final(iter).index <= old(iter).chars@.len(),
        r is Ok ==> forall|pv: bool| #![auto]
            spec_tokenize_from(old(iter).chars@, old(iter).source@, old(iter).index as int, pv)
                == tok_cons(
                r->Ok_0@,
                spec_tokenize_from(
                    old(iter).chars@,
                    old(iter).source@,
                    final(iter).index + 1,
                    false,
                ),
            ),
        r is Err ==> forall|pv: bool| #![auto]
            spec_tokenize_from(old(iter).chars@, old(iter).source@, old(iter).index as int, pv)
                == Result::<Seq<SpecToken>, SpecParseError>::Err(r->Err_0@),
{
    let ghost text = iter.chars@;
    let ghost src = iter.source@;
    let ghost i0 = iter.index as int;
    proof {
        assert(cond_eval(CollectCond::IdentRun, text, i0) == Option::Some(true));
    }
    match e_when(
        collect_until(iter, false, false, CollectCond::IdentRun),
        "tokenizing identifier",
    ) {
        Err(e) => {
            proof {
                reveal(spec_tokenize_from);
            }
            Err(e)
        },
        Ok((body, span)) => {
            let t_true = String::from_str("true");
            let t_false = String::from_str("false");
            let tk = if body == t_true {
                TokenType::Literal(Literal::Bool(true)).at(span)
            } else if body == t_false {
                TokenType::Literal(Literal::Bool(false)).at(span)
            } else {
                TokenType::Ident(body).at(span)
            };
            proof {
                reveal(spec_tokenize_from);
            }
            Ok(tk)
        },
    }
}

/// Lexes one numeric literal at the cursor (which stands on the first digit),
/// leaving the cursor on the collected run's last character.
fn lex_number(iter: &mut SourceIter) -> (r: Result<Token, ParseError>)
    requires
        old(iter).wf(),
        old(iter).index < old(iter).chars@.len(),
        is_dec_digit(old(iter).chars@[old(iter).index as int]),
    ensures
        final(iter).wf(),
        final(iter).source@ == old(iter).source@,
        final(iter).chars@ == old(iter).chars@,
        r is Ok ==> old(iter).index <= final(iter).index <= old(iter).chars@.len(),
        r is Ok ==> forall|pv: bool| #![auto]
            spec_tokenize_from(old(iter).chars@, old(iter).source@, old(iter).index as int, pv)
                == tok_cons(
                r->Ok_0@,
                spec_tokenize_from(
                    old(iter).chars@,
                    old(iter).source@,
                    final(iter).index + 1,
                    false,
                ),
            ),
        r is Err ==> forall|pv: bool| #![auto]
            spec_tokenize_from(old(iter).chars@, old(iter).source@, old(iter).index as int, pv)
                == Result::<Seq<SpecToken>, SpecParseError>::Err(r->Err_0@),
{
    let ghost text = iter.chars@;
    let ghost src = iter.source@;
    let ghost i0 = iter.index as int;
    proof {
        assert(cond_eval(CollectCond::IdentRun, text, i0) == Option::Some(true));
    }
    match e_when(
        collect_until(iter, false, false, CollectCond::IdentRun),
        "tokenizing number literal",
    ) {
        Err(e) => {
            proof {
                reveal(spec_tokenize_from);
            }
            Err(e)
        },
        Ok((body, span)) => {
            match str_to_num_lit(body) {
                Err(e) => {
                    let err = e.at(span);
                    proof {
                        reveal(spec_tokenize_from);
                    }
                    Err(err)
                },
                Ok((lit, ty)) => {
                    let tk = TokenType::Literal(Literal::Number(lit, ty)).at(span);
                    proof {
                        reveal(spec_tokenize_from);
                    }
                    Ok(tk)
                },
            }
        },
    }
}

/// Handles a `/` at the cursor: skips a line or block comment (no token,
/// cursor left on the comment's last consumed character), or produces the
/// division particle (cursor unmoved).
fn handle_slash(iter: &mut SourceIter) -> (r: Result<Option<Token>, ParseError>)
    requires
        old(iter).wf(),
        old(iter).index < old(iter).chars@.len(),
        old(iter).chars@[old(iter).index as int] == '/',
    ensures
        final(iter).wf(),
        final(iter).source@ == old(iter).source@,
        final(iter).chars@ == old(iter).chars@,
        r is Ok ==> old(iter).index <= final(iter).index <= old(iter).chars@.len(),
        r is Ok && r->Ok_0 is None ==> forall|pv: bool| #![auto]
            spec_tokenize_from(old(iter).chars@, old(iter).source@, old(iter).index as int, pv)
                == spec_tokenize_from(
                old(iter).chars@,
                old(iter).source@,
                final(iter).index + 1,
                pv,
            ),
        r is Ok && r->Ok_0 is Some ==> forall|pv: bool| #![auto]
            spec_tokenize_from(old(iter).chars@, old(iter).source@, old(iter).index as int, pv)
                == tok_cons(
                r->Ok_0->0@,
                spec_tokenize_from(
                    old(iter).chars@,
                    old(iter).source@,
                    final(iter).index + 1,
                    true,
                ),
            ),
        r is Err ==> forall|pv: bool| #![auto]
            spec_tokenize_from(old(iter).chars@, old(iter).source@, old(iter).index as int, pv)
                == Result::<Seq<SpecToken>, SpecParseError>::Err(r->Err_0@),
{
    let ghost text = iter.chars@;
    let ghost src = iter.source@;
    let ghost i0 = iter.index as int;
    let n = iter.chars.len();
    if n - iter.index == 1 {
        proof {
            reveal(spec_tokenize_from);
        }
        return Err(ParseET::EOF.error().when("tokenizing comment"));
    }
    let c2 = iter.chars[iter.index + 1];
    if c2 == '/' {
        iter.index = iter.index + 1;
        match e_when(
            collect_until(iter, true, true, CollectCond::LineComment),
            "tokenizing single line comment",
        ) {
            Err(e) => {
                let err = e.when("tokenizing comment");
                proof {
                    reveal(spec_tokenize_from);
                }
                return Err(err);
            },
            Ok(_) => {},
        }
        proof {
            reveal(spec_tokenize_from);
        }
        Ok(None)
    } else if c2 == '*' {
        iter.index = iter.index + 1;
        let ghost entry = iter.index as int;
        loop
            invariant_except_break
                iter.wf(),
                iter.source@ == src,
                iter.chars@ == text,
                src == old(iter).source@,
                text == old(iter).chars@,
                n == text.len(),
                0 <= i0,
                i0 == old(iter).index as int,
                entry == i0 + 1,
                i0 + 2 <= text.len(),
                text[i0] == '/',
                text[i0 + 1] == '*',
                0 <= entry <= iter.index < text.len(),
                match block_rest(text, iter.index as int) {
                    Result::Ok(k) => block_rest(text, entry) == Result::<nat, SpecParseError>::Ok(
                        (k + iter.index - entry) as nat,
                    ),
                    Result::Err(e) => block_rest(text, entry) == Result::<
                        nat,
                        SpecParseError,
                    >::Err(e),
                },
            ensures
                iter.wf(),
                iter.source@ == src,
                iter.chars@ == text,
                0 <= entry <= iter.index < text.len(),
                block_rest(text, entry) == Result::<nat, SpecParseError>::Ok(
                    (iter.index - entry) as nat,
                ),
            decreases text.len() - iter.index,
        {
            let ghost j = iter.index as int;
            match e_when(
                collect_until(iter, true, true, CollectCond::BlockSegment),
                "tokenizing single line comment",
            ) {
                Err(e) => {
                    proof {
                        reveal(spec_tokenize_from);
                        assert(run_len(CollectCond::BlockSegment, text, j + 1) is None);
                        assert(block_rest(text, j) == Result::<nat, SpecParseError>::Err(
                            spec_when(e@, "tokenizing comment"@),
                        ));
                    }
                    return Err(e.when("tokenizing comment"));
                },
                Ok(_) => {},
            }
            // the cursor stands on the `*` that ended the segment
            if n - iter.index == 1 {
                proof {
                    reveal(spec_tokenize_from);
                    assert(block_rest(text, j) == Result::<nat, SpecParseError>::Err(
                        spec_when(spec_eof_err(), "tokenizing comment"@),
                    ));
                }
                return Err(ParseET::EOF.error().when("tokenizing comment"));
            }
            iter.index = iter.index + 1;
            if iter.chars[iter.index] == '/' {
                break;
            }
        }
        proof {
            reveal(spec_tokenize_from);
        }
        Ok(None)
    } else {
        let glued = if iter.index > 0 {
            let t = iter.chars[iter.index - 1];
            !(word_char(t) || t == ' ')
        } else {
            false
        };
        let tk = TokenType::Particle('/', glued).at(iter.here());
        proof {
            reveal(spec_tokenize_from);
        }
        Ok(Some(tk))
    }
}

/// Turns the source text into its sequence of located tokens, or the first
/// lexical failure, exactly as `spec_tokenize_from` describes from position 0.
pub fn tokenize(source: Source) -> (r: Result<Vec<Token>, ParseError>)
    ensures
        r is Ok <==> spec_tokenize_from(source@.text, source@, 0, false) is Ok,
        r is Ok ==> toks_view(r->Ok_0@) == spec_tokenize_from(source@.text, source@, 0, false)->Ok_0,
        r is Err ==> r->Err_0@ == spec_tokenize_from(source@.text, source@, 0, false)->Err_0,
{
    let ghost src = source@;
    let ghost text = source@.text;
    let mut iter = SourceIter::new(source);
    let n = iter.chars.len();
    let mut tokens: Vec<Token> = Vec::new();
    let mut prevp: bool = false;
    proof {
        assert(toks_view(tokens@) =~= Seq::<SpecToken>::empty());
        match spec_tokenize_from(text, src, 0, false) {
            Result::Ok(ts) => {
                assert(toks_view(tokens@) + ts =~= ts);
            },
            Result::Err(_) => {},
        }
    }
    while iter.index < n
        invariant
            iter.wf(),
            iter.source@ == src,
            iter.chars@ == text,
            n == text.len(),
            text == src.text,
            src == source@,
            spec_tokenize_from(text, src, 0, false) == toks_with_prefix(
                toks_view(tokens@),
                spec_tokenize_from(text, src, iter.index as int, prevp),
            ),
        decreases (if iter.index <= text.len() { text.len() - iter.index } else { 0int }),
    {
        let ghost i0 = iter.index as int;
        let ghost prev0 = prevp;
        let ghost pre = toks_view(tokens@);
        let c = iter.chars[iter.index];
        if c == '"' {
            match lex_string(&mut iter) {
                Err(e) => {
                    proof {
                        lemma_err_propagates(text, src, pre, i0, prev0, e@);
                    }
                    return Err(e);
                },
                Ok(tk) => {
                    let ghost st = tk@;
                    tokens.push(tk);
                    prevp = false;
                    proof {
                        lemma_tok_push(text, src, pre, i0, prev0, st, iter.index + 1, false);
                        assert(toks_view(tokens@) =~= pre.push(st));
                    }
                },
            }
        } else if c == '/' {
            match handle_slash(&mut iter) {
                Err(e) => {
                    proof {
                        lemma_err_propagates(text, src, pre, i0, prev0, e@);
                    }
                    return Err(e);
                },
                Ok(None) => {
                    // a comment: no token
                },
                Ok(Some(tk)) => {
                    let ghost st = tk@;
                    tokens.push(tk);
                    prevp = true;
                    proof {
                        lemma_tok_push(text, src, pre, i0, prev0, st, iter.index + 1, true);
                        assert(toks_view(tokens@) =~= pre.push(st));
                    }
                },
            }
        } else if c == '\'' {
            match lex_char(&mut iter) {
                Err(e) => {
                    proof {
                        lemma_err_propagates(text, src, pre, i0, prev0, e@);
                    }
                    return Err(e);
                },
                Ok(tk) => {
                    let ghost st = tk@;
                    tokens.push(tk);
                    prevp = false;
                    proof {
                        lemma_tok_push(text, src, pre, i0, prev0, st, iter.index + 1, false);
                        assert(toks_view(tokens@) =~= pre.push(st));
                    }
                },
            }
        } else if white_space(c) {
            // no token
            proof {
                reveal(spec_tokenize_from);
                assert(spec_tokenize_from(text, src, i0, prev0) == spec_tokenize_from(
                    text,
                    src,
                    i0 + 1,
                    prev0,
                ));
            }
        } else if ascii_letter(c) || c == '_' {
            match lex_ident(&mut iter) {
                Err(e) => {
                    proof {
                        lemma_err_propagates(text, src, pre, i0, prev0, e@);
                    }
                    return Err(e);
                },
                Ok(tk) => {
                    let ghost st = tk@;
                    tokens.push(tk);
                    prevp = false;
                    proof {
                        lemma_tok_push(text, src, pre, i0, prev0, st, iter.index + 1, false);
                        assert(toks_view(tokens@) =~= pre.push(st));
                    }
                },
            }
        } else if dec_digit(c) {
            match lex_number(&mut iter) {
                Err(e) => {
                    proof {
                        lemma_err_propagates(text, src, pre, i0, prev0, e@);
                    }
                    return Err(e);
                },
                Ok(tk) => {
                    let ghost st = tk@;
                    tokens.push(tk);
                    prevp = false;
                    proof {
                        lemma_tok_push(text, src, pre, i0, prev0, st, iter.index + 1, false);
                        assert(toks_view(tokens@) =~= pre.push(st));
                    }
                },
            }
        } else {
            let tk = TokenType::Particle(c, prevp).at(iter.here());
            let ghost st = tk@;
            tokens.push(tk);
            prevp = true;
            proof {
                reveal(spec_tokenize_from);
                assert(spec_tokenize_from(text, src, i0, prev0) == tok_cons(
                    st,
                    spec_tokenize_from(text, src, i0 + 1, true),
                ));
                lemma_tok_push(text, src, pre, i0, prev0, st, i0 + 1, true);
                assert(toks_view(tokens@) =~= pre.push(st));
            }
        }
        let ghost before = iter.index as int;
        proof {
            assert(i0 <= before);
            assert(i0 < n);
        }
        if iter.index < usize::MAX {
            iter.index = iter.index + 1;
        }
        proof {
            lemma_tail_indices(text, src, before + 1, iter.index as int, prevp);
            assert(i0 < iter.index as int);
        }
    }
    proof {
        reveal(spec_tokenize_from);
        assert(spec_tokenize_from(text, src, iter.index as int, prevp) == Result::<
            Seq<SpecToken>,
            SpecParseError,
        >::Ok(Seq::empty()));
        match spec_tokenize_from(text, src, 0, false) {
            Result::Ok(ts) => {
                assert(toks_view(tokens@) + Seq::<SpecToken>::empty() =~= toks_view(tokens@));
            },
            Result::Err(_) => {},
        }
    }
    Ok(tokens)
}

/// One decoding step: when decoding from `i0` yields `c` followed by the
/// decoding from `i1`, the prefix absorbs `c`.
proof fn lemma_step(s: Seq<char>, pre: Seq<char>, i0: int, c: char, i1: int)
    requires
        spec_unescape_from(s, i0) == decoded_cons(c, spec_unescape_from(s, i1)),
        spec_unescape_from(s, 0) == decoded_with_prefix(pre, spec_unescape_from(s, i0)),
    ensures
        spec_unescape_from(s, 0) == decoded_with_prefix(pre.push(c), spec_unescape_from(s, i1)),
{
    match spec_unescape_from(s, i1) {
        Result::Ok(t) => {
            assert(pre + (seq![c] + t) =~= pre.push(c) + t);
        },
        Result::Err(_) => {},
    }
}

} // verus!
