//! Character classification and the few bridges between character sequences
//! and `String` that the lexer needs.

use vstd::prelude::*;

verus! {

/// An ASCII decimal digit.
pub open spec fn is_dec_digit(c: char) -> bool {
    48 <= c as u32 && c as u32 <= 57
}

/// An ASCII letter.
pub open spec fn is_ascii_letter(c: char) -> bool {
    (65 <= c as u32 && c as u32 <= 90) || (97 <= c as u32 && c as u32 <= 122)
}

/// An ASCII letter, ASCII digit, or underscore: the identifier alphabet.
pub open spec fn is_word_char(c: char) -> bool {
    is_dec_digit(c) || is_ascii_letter(c) || c == '_'
}

/// A hexadecimal letter.
pub open spec fn is_hex_letter(c: char) -> bool {
    (97 <= c as u32 && c as u32 <= 102) || (65 <= c as u32 && c as u32 <= 70)
}

/// The digit value a radix-aware numeral parser gives `c`: ASCII digits count
/// 0 to 9, ASCII letters (either case) count 10 to 35; anything else is no
/// digit at all.
pub open spec fn digit_value_of(c: char) -> Option<u32> {
    if is_dec_digit(c) {
        Option::Some((c as u32 - 48) as u32)
    } else if 97 <= c as u32 && c as u32 <= 122 {
        Option::Some((c as u32 - 87) as u32)
    } else if 65 <= c as u32 && c as u32 <= 90 {
        Option::Some((c as u32 - 55) as u32)
    } else {
        Option::None
    }
}

/// A character with the Unicode `White_Space` property.
pub open spec fn is_white_space(c: char) -> bool {
    let u = c as u32;
    (9 <= u && u <= 13)  // tab, line feed, vertical tab, form feed, carriage return
    || u == 32  // space
    || u == 0x85  // next line
    || u == 0xA0  // no-break space
    || u == 0x1680  // ogham space mark
    || (0x2000 <= u && u <= 0x200A)  // en quad .. hair space
    || u == 0x2028  // line separator
    || u == 0x2029  // paragraph separator
    || u == 0x202F  // narrow no-break space
    || u == 0x205F  // medium mathematical space
    || u == 0x3000  // ideographic space
}

/// Executable check for `is_dec_digit`.
pub fn dec_digit(c: char) -> (r: bool)
    ensures
        r == is_dec_digit(c),
{
    let u = c as u32;
    48 <= u && u <= 57
}

/// Executable check for `is_ascii_letter`.
pub fn ascii_letter(c: char) -> (r: bool)
    ensures
        r == is_ascii_letter(c),
{
    let u = c as u32;
    (65 <= u && u <= 90) || (97 <= u && u <= 122)
}

/// Executable check for `is_word_char`.
pub fn word_char(c: char) -> (r: bool)
    ensures
        r == is_word_char(c),
{
    dec_digit(c) || ascii_letter(c) || c == '_'
}

/// Executable check for `is_hex_letter`.
pub fn hex_letter(c: char) -> (r: bool)
    ensures
        r == is_hex_letter(c),
{
    let u = c as u32;
    (97 <= u && u <= 102) || (65 <= u && u <= 70)
}

/// Executable form of `digit_value_of`.
pub fn digit_value(c: char) -> (r: Option<u32>)
    ensures
        r == digit_value_of(c),
{
    let u = c as u32;
    if 48 <= u && u <= 57 {
        Some(u - 48)
    } else if 97 <= u && u <= 122 {
        Some(u - 87)
    } else if 65 <= u && u <= 90 {
        Some(u - 55)
    } else {
        None
    }
}

/// Executable check for `is_white_space`.
pub fn white_space(c: char) -> (r: bool)
    ensures
        r == is_white_space(c),
{
    let u = c as u32;
    (9 <= u && u <= 13) || u == 32 || u == 0x85 || u == 0xA0 || u == 0x1680 || (0x2000 <= u && u
        <= 0x200A) || u == 0x2028 || u == 0x2029 || u == 0x202F || u == 0x205F || u == 0x3000
}

/// Whether a code point value is a Unicode scalar value, i.e. a valid `char`.
pub open spec fn is_scalar_value(u: u32) -> bool {
    u < 0xD800 || (0xE000 <= u && u <= 0x10FFFF)
}

/// What `char::is_numeric` returns: true exactly on characters of the Unicode
/// numeric general categories. Named here because the full category table is
/// not worth restating; the facts the lexer needs are stated where the call
/// is made.
pub uninterp spec fn numeric_char(c: char) -> bool;

/// Relies on `char::is_numeric`: the result depends on the character alone;
/// the ASCII decimal digits are numeric, and no other ASCII character is.
#[verifier::external_body]
pub fn is_numeric_char(c: char) -> (r: bool)
    ensures
        r == numeric_char(c),
        is_dec_digit(c) ==> r,
        (c as u32) < 128 && !is_dec_digit(c) ==> !r,
{
    c.is_numeric()
}

/// Relies on `char::from_u32`: returns the character with the given code
/// point value exactly when that value is a Unicode scalar value.
#[verifier::external_body]
pub fn char_from_u32(u: u32) -> (r: Option<char>)
    ensures
        r is Some <==> is_scalar_value(u),
        r is Some ==> r->0 as u32 == u && r->0 == u as char,
{
    char::from_u32(u)
}

/// Relies on `String::from_iter` over characters: the resulting string holds
/// exactly the given characters in order.
#[verifier::external_body]
pub fn string_from_chars(v: &Vec<char>) -> (r: String)
    ensures
        r@ == v@,
{
    v.iter().collect()
}

/// The character of a decimal digit value.
pub open spec fn digit_char(d: nat) -> char {
    ((48 + d) as u32) as char
}

/// The decimal digits of `n`, most significant first.
pub open spec fn dec_of(n: nat) -> Seq<char>
    decreases n,
{
    if n < 10 {
        seq![digit_char(n)]
    } else {
        dec_of(n / 10).push(digit_char(n % 10))
    }
}

/// `c` repeated `n` times.
pub open spec fn char_repeat(c: char, n: nat) -> Seq<char>
    decreases n,
{
    if n == 0 {
        Seq::empty()
    } else {
        char_repeat(c, (n - 1) as nat).push(c)
    }
}

/// A vector of `c` repeated `n` times.
pub fn repeat_char(c: char, n: usize) -> (r: Vec<char>)
    ensures
        r@ == char_repeat(c, n as nat),
{
    let mut r: Vec<char> = Vec::new();
    let mut i: usize = 0;
    while i < n
        invariant
            i <= n,
            r@ == char_repeat(c, i as nat),
        decreases n - i,
    {
        r.push(c);
        i = i + 1;
    }
    r
}

/// The decimal rendering of `v`.
pub fn dec_string(v: u128) -> (r: Vec<char>)
    ensures
        r@ == dec_of(v as nat),
{
    let mut acc: Vec<char> = Vec::new();
    let mut v2: u128 = v;
    loop
        invariant_except_break
            v2 > 0 ==> dec_of(v as nat) == dec_of(v2 as nat) + acc@,
            v2 == 0 ==> dec_of(v as nat) == (if v == 0 { seq![digit_char(0)] } else { acc@ }),
        ensures
            dec_of(v as nat) == (if v == 0 { seq![digit_char(0)] } else { acc@ }),
        decreases v2,
    {
        if v2 == 0 {
            break;
        }
        let d = (v2 % 10) as u32;
        let dc = match char_from_u32(48 + d) {
            Some(c) => c,
            None => ' ',
        };
        let ghost acc0 = acc@;
        acc.insert(0, dc);
        proof {
            assert(acc@ =~= seq![dc] + acc0);
        }
        let v3 = v2 / 10;
        proof {
            if v3 > 0 {
                assert(dec_of(v2 as nat) == dec_of(v3 as nat).push(digit_char((v2 % 10) as nat)));
                assert(dec_of(v3 as nat).push(dc) + acc0 =~= dec_of(v3 as nat) + (seq![dc] + acc0));
            } else {
                assert(dec_of(v2 as nat) == seq![digit_char(v2 as nat)]);
                assert(seq![dc] + acc0 =~= seq![dc] + acc0);
            }
        }
        v2 = v3;
    }
    if v == 0 {
        let mut r: Vec<char> = Vec::new();
        let dc = match char_from_u32(48) {
            Some(c) => c,
            None => ' ',
        };
        r.push(dc);
        proof {
            assert(r@ =~= seq![digit_char(0)]);
        }
        r
    } else {
        acc
    }
}

/// The characters of `s`, as a vector.
pub fn str_chars(s: &str) -> (r: Vec<char>)
    ensures
        r@ == s@,
{
    let n = s.unicode_len();
    let mut r: Vec<char> = Vec::new();
    let mut i: usize = 0;
    while i < n
        invariant
            n == s@.len(),
            i <= n,
            r@ == s@.subrange(0, i as int),
        decreases n - i,
    {
        r.push(s.get_char(i));
        i = i + 1;
        proof {
            assert(r@ =~= s@.subrange(0, i as int));
        }
    }
    proof {
        assert(r@ =~= s@);
    }
    r
}

} // verus!
