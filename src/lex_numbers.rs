use vstd::prelude::*;
use crate::char_stream::CharStream;
use crate::errors::LexerError;
use crate::text_util::{push_char, push_str, string_of};
use crate::tokens::{TokenKind, IntLiteral, FloatLiteral};

verus! {

pub open spec fn spec_is_digit(c: char) -> bool {
    '0' <= c && c <= '9'
}

pub open spec fn spec_is_hex_digit(c: char) -> bool {
    ('0' <= c && c <= '9') || ('a' <= c && c <= 'f') || ('A' <= c && c <= 'F')
}

pub open spec fn spec_is_octal_digit(c: char) -> bool {
    '0' <= c && c <= '7'
}

pub open spec fn spec_is_binary_digit(c: char) -> bool {
    c == '0' || c == '1'
}

/// Whether `c` is a digit in `base`; no character is a digit in a base
/// other than 2, 8, 10 or 16.
pub open spec fn spec_is_acceptable_digit(c: char, base: u32) -> bool {
    if base == 10 {
        spec_is_digit(c)
    } else if base == 16 {
        spec_is_hex_digit(c)
    } else if base == 8 {
        spec_is_octal_digit(c)
    } else if base == 2 {
        spec_is_binary_digit(c)
    } else {
        false
    }
}

pub fn is_digit(c: char) -> (r: bool)
    ensures
        r == spec_is_digit(c),
{
    '0' <= c && c <= '9'
}

pub fn is_hex_digit(c: char) -> (r: bool)
    ensures
        r == spec_is_hex_digit(c),
{
    ('0' <= c && c <= '9') || ('a' <= c && c <= 'f') || ('A' <= c && c <= 'F')
}

pub fn is_octal_digit(c: char) -> (r: bool)
    ensures
        r == spec_is_octal_digit(c),
{
    '0' <= c && c <= '7'
}

pub fn is_binary_digit(c: char) -> (r: bool)
    ensures
        r == spec_is_binary_digit(c),
{
    c == '0' || c == '1'
}

pub fn is_acceptable_digit(c: char, base: u32) -> (r: bool)
    ensures
        r == spec_is_acceptable_digit(c, base),
{
    if base == 10 {
        is_digit(c)
    } else if base == 16 {
        is_hex_digit(c)
    } else if base == 8 {
        is_octal_digit(c)
    } else if base == 2 {
        is_binary_digit(c)
    } else {
        false
    }
}

/// The value of a single hexadecimal, decimal, octal or binary digit.
pub open spec fn digit_value(c: char) -> nat {
    if '0' <= c && c <= '9' {
        (c as u32 - '0' as u32) as nat
    } else if 'a' <= c && c <= 'f' {
        (c as u32 - 'a' as u32 + 10) as nat
    } else if 'A' <= c && c <= 'F' {
        (c as u32 - 'A' as u32 + 10) as nat
    } else {
        0
    }
}

/// The number that `digits` spell in `base`, most significant digit first.
pub open spec fn digits_value(digits: Seq<char>, base: nat) -> nat
    decreases digits.len(),
{
    if digits.len() == 0 {
        0
    } else {
        digits_value(digits.drop_last(), base) * base + digit_value(digits.last())
    }
}

proof fn lemma_digits_value_grows(digits: Seq<char>, base: nat, i: int)
    requires
        base >= 1,
        0 <= i <= digits.len(),
    ensures
        digits_value(digits.subrange(0, i), base) <= digits_value(digits, base),
    decreases digits.len() - i,
{
    if i < digits.len() {
        lemma_digits_value_grows(digits, base, i + 1);
        let p = digits.subrange(0, i + 1);
        assert(p.drop_last() =~= digits.subrange(0, i));
        let v = digits_value(digits.subrange(0, i), base);
        assert(v * base >= v) by (nonlinear_arith)
            requires base >= 1;
    } else {
        assert(digits.subrange(0, i) =~= digits);
    }
}

/// The value of `digits` in `base` when it fits in a `usize`; `None` when
/// there are no digits or the value does not fit.
pub fn parse_digits(digits: &String, base: u32) -> (r: Option<usize>)
    requires
        2 <= base <= 16,
    ensures
        match r {
            Some(v) => digits@.len() > 0 && v == digits_value(digits@, base as nat),
            None => digits@.len() == 0 || digits_value(digits@, base as nat) > usize::MAX,
        },
{
    let s = digits.as_str();
    let n = s.unicode_len();
    if n == 0 {
        return None;
    }
    let mut v: usize = 0;
    let mut i: usize = 0;
    while i < n
        invariant
            n == digits@.len(),
            s@ == digits@,
            2 <= base <= 16,
            i <= n,
            v == digits_value(digits@.subrange(0, i as int), base as nat),
        decreases n - i,
    {
        let c = s.get_char(i);
        let d: u32 = if '0' <= c && c <= '9' {
            c as u32 - '0' as u32
        } else if 'a' <= c && c <= 'f' {
            c as u32 - 'a' as u32 + 10
        } else if 'A' <= c && c <= 'F' {
            c as u32 - 'A' as u32 + 10
        } else {
            0
        };
        let ghost prefix = digits@.subrange(0, i as int + 1);
        proof {
            assert(prefix.drop_last() =~= digits@.subrange(0, i as int));
            assert(prefix.last() == c);
        }
        assert(d < 16);
        assert(d as nat == digit_value(c));
        proof {
            assert((v as u128) * (base as u128) <= (usize::MAX as u128) * 16) by (nonlinear_arith)
                requires v <= usize::MAX, base <= 16;
        }
        let wide: u128 = (v as u128) * (base as u128) + (d as u128);
        if wide > usize::MAX as u128 {
            proof {
                lemma_digits_value_grows(digits@, base as nat, i as int + 1);
            }
            return None;
        }
        v = wide as usize;
        i = i + 1;
    }
    assert(digits@.subrange(0, n as int) =~= digits@);
    Some(v)
}

pub open spec fn char_at(text: Seq<char>, i: nat) -> Option<char> {
    if i < text.len() { Some(text[i as int]) } else { None }
}

/// The length of the run of digits in `base` that starts at index `i`.
pub open spec fn digit_run(text: Seq<char>, i: nat, base: u32) -> nat
    decreases text.len() - i,
{
    if i < text.len() && spec_is_acceptable_digit(text[i as int], base) {
        1 + digit_run(text, i + 1, base)
    } else {
        0
    }
}

/// What a numeric literal scans to: an integer (base, digits, end index), a
/// float (integral digits, fractional digits, exponent, end index), or a
/// fault found when `at` characters of the text have been consumed.
pub enum NumScan {
    NotNumber,
    Int(u32, Seq<char>, nat),
    Float(Seq<char>, Seq<char>, Seq<char>, nat),
    Bad(nat, Seq<char>),
}

/// The message for a leading zero followed by the digit `n`.
pub open spec fn bad_zero_message(n: char) -> Seq<char> {
    "Initial 0 must be followed by x, o, or b; followed by '"@ + seq![n] + "' instead"@
}

pub open spec fn based_float_message() -> Seq<char> {
    "Cannot prefix floating point numbers with 0x, 0o, or 0b"@
}

pub open spec fn exponent_message() -> Seq<char> {
    "Scientific notation needs at least one digit after 'e'"@
}

pub open spec fn int_size_message() -> Seq<char> {
    "Number has no digits or does not fit in a machine word"@
}

/// Scans what follows the decimal point of a float whose fractional digits
/// start at index `i`: digits, then an optional exponent `e`, `-`, digits.
pub open spec fn fraction_scan(text: Seq<char>, integral: Seq<char>, i: nat) -> NumScan {
    let k = i + digit_run(text, i, 10);
    let fraction = text.subrange(i as int, k as int);
    if char_at(text, k) == Some('e') {
        let (sign, from) = if char_at(text, k + 1) == Some('-') {
            (seq!['-'], k + 2)
        } else {
            (Seq::<char>::empty(), k + 1)
        };
        let p = digit_run(text, from, 10);
        if p == 0 {
            NumScan::Bad(from, exponent_message())
        } else {
            NumScan::Float(integral, fraction, sign + text.subrange(from as int, (from + p) as int), from + p)
        }
    } else {
        NumScan::Float(integral, fraction, Seq::empty(), k)
    }
}

pub open spec fn spec_is_ascii_alphabetic(c: char) -> bool {
    ('a' <= c && c <= 'z') || ('A' <= c && c <= 'Z')
}

/// How a numeric literal whose first character `c` stands just before index
/// `s` of `text` scans.
pub open spec fn number_scan(text: Seq<char>, s: nat, c: char) -> NumScan {
    if !spec_is_digit(c) {
        NumScan::NotNumber
    } else if c == '0' {
        match char_at(text, s) {
            Some(n) => if n == '.' && (char_at(text, s + 1) matches Some(d) && spec_is_digit(d)) {
                fraction_scan(text, seq!['0'], s + 1)
            } else if n == 'x' || n == 'o' || n == 'b' {
                let base: u32 = if n == 'x' { 16 } else if n == 'o' { 8 } else { 2 };
                let j = s + 1 + digit_run(text, s + 1, base);
                if char_at(text, j) == Some('.') {
                    NumScan::Bad(j, based_float_message())
                } else {
                    NumScan::Int(base, text.subrange((s + 1) as int, j as int), j)
                }
            } else if spec_is_digit(n) {
                NumScan::Bad(s, bad_zero_message(n))
            } else {
                NumScan::Int(10, seq!['0'], s)
            },
            None => NumScan::Int(10, seq!['0'], s),
        }
    } else {
        let j = s + digit_run(text, s, 10);
        let integral = seq![c] + text.subrange(s as int, j as int);
        if char_at(text, j) == Some('.') && (char_at(text, j + 1) matches Some(d) && spec_is_digit(d)) {
            fraction_scan(text, integral, j + 1)
        } else {
            NumScan::Int(10, integral, j)
        }
    }
}

proof fn lemma_digit_run(text: Seq<char>, i: nat, j: nat, base: u32)
    requires
        i <= j <= text.len(),
        forall|k: int| i <= k < j ==> spec_is_acceptable_digit(#[trigger] text[k], base),
        j < text.len() ==> !spec_is_acceptable_digit(text[j as int], base),
    ensures
        digit_run(text, i, base) == j - i,
    decreases j - i,
{
    if i < j {
        lemma_digit_run(text, i + 1, j, base);
    }
}

/// Reads the run of digits in `base` that comes next.
fn read_digits(stream: &mut CharStream, base: u32) -> (r: String)
    requires
        old(stream).wf(),
        base == 2 || base == 8 || base == 10 || base == 16,
    ensures
        final(stream).wf(),
        final(stream).text() == old(stream).text(),
        final(stream).consumed() == old(stream).consumed() + digit_run(old(stream).text(), old(stream).consumed(), base),
        r@ == old(stream).text().subrange(old(stream).consumed() as int, final(stream).consumed() as int),
{
    let ghost text = old(stream).text();
    let ghost start = old(stream).consumed();
    let r = if base == 16 {
        stream.read_while(&is_hex_digit)
    } else if base == 8 {
        stream.read_while(&is_octal_digit)
    } else if base == 2 {
        stream.read_while(&is_binary_digit)
    } else {
        stream.read_while(&is_digit)
    };
    proof {
        stream.lemma_wf();
        assert forall|k: int| start <= k < stream.consumed()
            implies spec_is_acceptable_digit(#[trigger] text[k], base) by {
            assert(r@[k - start] == text[k]);
        }
        lemma_digit_run(text, start, stream.consumed(), base);
    }
    r
}

fn int_token(stream: &CharStream, base: u32, digits: String) -> (r: Result<Option<TokenKind>, LexerError>)
    requires
        stream.wf(),
        base == 2 || base == 8 || base == 10 || base == 16,
    ensures
        match r {
            Ok(Some(TokenKind::IntLiteral(lit))) => lit.base == base && lit.digits@ == digits@
                && digits@.len() > 0 && lit.raw_value == digits_value(digits@, base as nat),
            Err(e) => (digits@.len() == 0 || digits_value(digits@, base as nat) > usize::MAX)
                && e.position == stream.spec_position() && e.message@ == int_size_message(),
            _ => false,
        },
{
    match IntLiteral::new(base, digits) {
        Some(lit) => Ok(Some(TokenKind::IntLiteral(lit))),
        None => Err(LexerError {
            position: stream.position(),
            message: string_of("Number has no digits or does not fit in a machine word"),
        }),
    }
}

/// Reads the fractional digits and the optional exponent of a float whose
/// decimal point was already consumed.
fn fraction_token(stream: &mut CharStream, integral: String) -> (r: Result<Option<TokenKind>, LexerError>)
    requires
        old(stream).wf(),
    ensures
        final(stream).wf(),
        final(stream).text() == old(stream).text(),
        final(stream).consumed() >= old(stream).consumed(),
        match fraction_scan(old(stream).text(), integral@, old(stream).consumed()) {
            NumScan::Float(i, f, p, end) => {
                &&& final(stream).consumed() == end
                &&& r matches Ok(Some(TokenKind::FloatLiteral(lit)))
                &&& lit.integral_digits@ == i && lit.fractional_digits@ == f && lit.power@ == p
            },
            NumScan::Bad(at, message) => {
                &&& final(stream).consumed() == at
                &&& r matches Err(e)
                &&& e.position == final(stream).spec_position()
                &&& e.message@ == message
            },
            _ => false,
        },
{
    let ghost text = old(stream).text();
    let ghost i0 = old(stream).consumed();
    let fractional = read_digits(stream, 10);
    let ghost k = stream.consumed();
    proof { stream.lemma_wf(); }
    assert(k == i0 + digit_run(text, i0, 10));
    if stream.peek_char() == Some('e') {
        assert(char_at(text, k) == Some('e'));
        let _ = stream.read_char();
        let mut power = String::new();
        let minus = stream.read_if_char('-');
        assert(minus == (char_at(text, k + 1) == Some('-')));
        if minus {
            push_char(&mut power, '-');
        }
        let ghost from = stream.consumed();
        let exponent = read_digits(stream, 10);
        if exponent.as_str().unicode_len() == 0 {
            assert(from == if minus { k + 2 } else { k + 1 });
            proof { stream.lemma_wf(); }
            assert(exponent@.len() == 0);
            assert(digit_run(text, from, 10) == 0);
            assert(fraction_scan(text, integral@, i0) == NumScan::Bad(from, exponent_message()));
            return Err(LexerError {
                position: stream.position(),
                message: string_of("Scientific notation needs at least one digit after 'e'"),
            });
        }
        push_str(&mut power, exponent.as_str());
        proof {
            let sign = if minus { seq!['-'] } else { Seq::<char>::empty() };
            assert(power@ =~= sign + exponent@);
        }
        Ok(Some(TokenKind::FloatLiteral(FloatLiteral {
            integral_digits: integral,
            fractional_digits: fractional,
            power,
        })))
    } else {
        let power = String::new();
        assert(power@ =~= Seq::<char>::empty());
        Ok(Some(TokenKind::FloatLiteral(FloatLiteral {
            integral_digits: integral,
            fractional_digits: fractional,
            power,
        })))
    }
}

fn is_ascii_alphabetic(c: char) -> (r: bool)
    ensures
        r == spec_is_ascii_alphabetic(c),
{
    ('a' <= c && c <= 'z') || ('A' <= c && c <= 'Z')
}

fn next_is_digit(stream: &CharStream, offset: usize) -> (r: bool)
    requires
        stream.wf(),
    ensures
        r == (stream.ahead(offset as nat) matches Some(d) && spec_is_digit(d)),
{
    match stream.peek_char_at_offset(offset) {
        Some(d) => is_digit(d),
        None => false,
    }
}

/// Reads a numeric literal whose first character `c` was already consumed:
/// `0x`, `0o` and `0b` select bases 16, 8 and 2; a decimal point belongs to
/// the literal only in base 10 and only when a digit follows it.
pub fn match_number(stream: &mut CharStream, c: char) -> (r: Result<Option<TokenKind>, LexerError>)
    requires
        old(stream).wf(),
    ensures
        final(stream).wf(),
        final(stream).text() == old(stream).text(),
        final(stream).consumed() >= old(stream).consumed(),
        match number_scan(old(stream).text(), old(stream).consumed(), c) {
            NumScan::NotNumber => r == Ok::<Option<TokenKind>, LexerError>(None)
                && final(stream).consumed() == old(stream).consumed(),
            NumScan::Int(base, digits, end) => final(stream).consumed() == end && match r {
                Ok(Some(TokenKind::IntLiteral(lit))) => lit.base == base && lit.digits@ == digits
                    && digits.len() > 0 && lit.raw_value == digits_value(digits, base as nat),
                Err(e) => (digits.len() == 0 || digits_value(digits, base as nat) > usize::MAX)
                    && e.position == final(stream).spec_position() && e.message@ == int_size_message(),
                _ => false,
            },
            NumScan::Float(i, f, p, end) => {
                &&& final(stream).consumed() == end
                &&& r matches Ok(Some(TokenKind::FloatLiteral(lit)))
                &&& lit.integral_digits@ == i && lit.fractional_digits@ == f && lit.power@ == p
            },
            NumScan::Bad(at, message) => {
                &&& final(stream).consumed() == at
                &&& r matches Err(e)
                &&& e.position == final(stream).spec_position()
                &&& e.message@ == message
            },
        },
{
    if !is_digit(c) {
        return Ok(None);
    }
    proof { old(stream).lemma_wf(); }
    if c == '0' {
        match stream.peek_char() {
            Some(n) => {
                if n == '.' && next_is_digit(stream, 1) {
                    let _ = stream.read_char();
                    let integral = string_of("0");
                    proof {
                        reveal_strlit("0");
                        assert(integral@ =~= seq!['0']);
                    }
                    return fraction_token(stream, integral);
                } else if n == 'x' || n == 'o' || n == 'b' {
                    let _ = stream.read_char();
                    let base: u32 = if n == 'x' { 16 } else if n == 'o' { 8 } else { 2 };
                    let digits = read_digits(stream, base);
                    if stream.peek_char() == Some('.') {
                        return Err(LexerError {
                            position: stream.position(),
                            message: string_of("Cannot prefix floating point numbers with 0x, 0o, or 0b"),
                        });
                    }
                    return int_token(stream, base, digits);
                } else if is_digit(n) {
                    let mut message = string_of("Initial 0 must be followed by x, o, or b; followed by '");
                    push_char(&mut message, n);
                    push_str(&mut message, "' instead");
                    proof {
                        assert(message@ =~= bad_zero_message(n));
                    }
                    return Err(LexerError { position: stream.position(), message });
                } else {
                    let digits = string_of("0");
                    proof {
                        reveal_strlit("0");
                        assert(digits@ =~= seq!['0']);
                    }
                    return int_token(stream, 10, digits);
                }
            },
            None => {
                let digits = string_of("0");
                proof {
                    reveal_strlit("0");
                    assert(digits@ =~= seq!['0']);
                }
                return int_token(stream, 10, digits);
            },
        }
    }
    let mut integral = String::new();
    push_char(&mut integral, c);
    let more = read_digits(stream, 10);
    push_str(&mut integral, more.as_str());
    if stream.peek_char() == Some('.') && next_is_digit(stream, 1) {
        let _ = stream.read_char();
        fraction_token(stream, integral)
    } else {
        int_token(stream, 10, integral)
    }
}

} // verus!
