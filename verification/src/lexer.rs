//! The tokenizer: scans a byte buffer left to right, skipping whitespace and
//! line comments, and emits classified tokens with byte spans.
//!
//! The scanning rules, in matching priority order with longest match first:
//! identifiers and the keyword, radix-prefixed integer literals (`0x`, `0b`,
//! `0o`), float literals, decimal integer literals, two-character operators,
//! single-character operators and punctuation. Underscores in integer
//! literals of every radix are insignificant digit separators; a lexeme that
//! starts with an underscore is an identifier. An integer literal whose
//! value exceeds the unsigned 128-bit range is reported as a recoverable
//! overflow error, and a byte that no rule matches as an unexpected
//! character; in both cases the scanner resynchronises past the offending
//! lexeme so that scanning may continue.

use vstd::prelude::*;

use crate::token::Token;

verus! {

/// A half-open byte range `[start, end)` into the source buffer, attached to
/// each emitted token.
#[derive(Clone, Copy, Debug, PartialEq, Eq, Structural)]
pub struct Span {
    pub start: usize,
    pub end: usize,
}

/// A recoverable scanning failure.
#[derive(Clone, Copy, Debug, PartialEq, Eq, Structural)]
pub enum LexError {
    /// No rule matches the byte at this offset.
    UnexpectedCharacter { offset: usize },
    /// An integer literal (any radix) exceeds the unsigned 128-bit range.
    IntegerOverflow { span: Span },
    /// A float-shaped lexeme failed numeric parsing. The grammar admits only
    /// well-formed float shapes and the scanner leaves their numeric reading
    /// to the consumer, so it never produces this error; it stands in the
    /// taxonomy for consumers that do read the digits and must report an
    /// internal-invariant violation.
    MalformedFloat { span: Span },
}

/// The classification of the lexeme at one significant position: a token, or
/// one of the two scanning failures.
#[derive(Clone, Copy, Debug, PartialEq, Eq, Structural)]
pub enum Scanned {
    Tok(Token),
    UnexpectedChar,
    IntOverflow,
}

/// Whitespace: space, tab, carriage return, newline.
pub open spec fn is_ws(b: u8) -> bool {
    b == 32 || b == 9 || b == 13 || b == 10
}

/// A decimal digit.
pub open spec fn is_digit(b: u8) -> bool {
    48 <= b && b <= 57
}

/// A byte that may start an identifier: a letter or an underscore.
pub open spec fn is_ident_start(b: u8) -> bool {
    (65 <= b && b <= 90) || (97 <= b && b <= 122) || b == 95
}

/// A byte that may continue an identifier.
pub open spec fn is_ident_cont(b: u8) -> bool {
    is_ident_start(b) || is_digit(b)
}

/// The numeric value of a digit byte, hex letters in either case included;
/// 16 for a byte that is a digit in no supported base.
pub open spec fn digit_val(b: u8) -> int {
    if 48 <= b && b <= 57 {
        b - 48
    } else if 65 <= b && b <= 70 {
        b - 55
    } else if 97 <= b && b <= 102 {
        b - 87
    } else {
        16
    }
}

/// A digit of the given base.
pub open spec fn is_radix_digit(b: u8, base: int) -> bool {
    digit_val(b) < base
}

/// A digit of the given base or an underscore separator.
pub open spec fn is_digit_or_sep(b: u8, base: int) -> bool {
    b == 95 || is_radix_digit(b, base)
}

/// The first significant position at or after `pos`: the scanner consumes
/// runs of whitespace and line comments (`//` up to and including the
/// terminating newline, or to the end of the buffer).
pub open spec fn spec_skip(src: Seq<u8>, pos: int) -> int
    recommends
        0 <= pos <= src.len(),
    decreases src.len() - pos, 1int
        when 0 <= pos <= src.len()
{
    if pos < src.len() && is_ws(src[pos]) {
        spec_skip(src, pos + 1)
    } else if pos + 1 < src.len() && src[pos] == 47u8 && src[pos + 1] == 47u8 {
        spec_skip_comment(src, pos + 2)
    } else {
        pos
    }
}

/// Skipping while inside a line comment: consume up to and including the
/// next newline, then resume ordinary skipping.
pub open spec fn spec_skip_comment(src: Seq<u8>, pos: int) -> int
    recommends
        0 <= pos <= src.len(),
    decreases src.len() - pos, 0int
        when 0 <= pos <= src.len()
{
    if pos >= src.len() {
        pos
    } else if src[pos] == 10u8 {
        spec_skip(src, pos + 1)
    } else {
        spec_skip_comment(src, pos + 1)
    }
}

/// The end of the run of base digits and underscores starting at `pos`.
pub open spec fn spec_run_end(src: Seq<u8>, pos: int, base: int) -> int
    recommends
        0 <= pos <= src.len(),
    decreases src.len() - pos
        when 0 <= pos <= src.len()
{
    if pos < src.len() && is_digit_or_sep(src[pos], base) {
        spec_run_end(src, pos + 1, base)
    } else {
        pos
    }
}

/// The end of the run of plain decimal digits (no underscores) starting at
/// `pos`.
pub open spec fn spec_digit_run_end(src: Seq<u8>, pos: int) -> int
    recommends
        0 <= pos <= src.len(),
    decreases src.len() - pos
        when 0 <= pos <= src.len()
{
    if pos < src.len() && is_digit(src[pos]) {
        spec_digit_run_end(src, pos + 1)
    } else {
        pos
    }
}

/// The end of the run of identifier characters starting at `pos`.
pub open spec fn spec_ident_end(src: Seq<u8>, pos: int) -> int
    recommends
        0 <= pos <= src.len(),
    decreases src.len() - pos
        when 0 <= pos <= src.len()
{
    if pos < src.len() && is_ident_cont(src[pos]) {
        spec_ident_end(src, pos + 1)
    } else {
        pos
    }
}

/// The value of the digit run `src[start..end]` read in the given base,
/// underscores skipped as insignificant separators.
pub open spec fn spec_digits_value(src: Seq<u8>, start: int, end: int, base: int) -> int
    decreases end - start,
{
    if end <= start {
        0
    } else if src[end - 1] == 95u8 {
        spec_digits_value(src, start, end - 1, base)
    } else {
        spec_digits_value(src, start, end - 1, base) * base + digit_val(src[end - 1])
    }
}

/// Whether `src[start..end]` holds at least one digit of the given base.
pub open spec fn spec_has_digit(src: Seq<u8>, start: int, end: int, base: int) -> bool
    decreases end - start,
{
    if end <= start {
        false
    } else {
        is_radix_digit(src[end - 1], base) || spec_has_digit(src, start, end - 1, base)
    }
}

/// Whether `src[start..end]` spells the reserved keyword `let`.
pub open spec fn spec_is_keyword(src: Seq<u8>, start: int, end: int) -> bool {
    end - start == 3 && src[start] == 108u8 && src[start + 1] == 101u8 && src[start + 2] == 116u8
}

/// The base selected by a well-formed radix-prefixed literal at `pos`: 16,
/// 2 or 8 when `0x`/`0b`/`0o` is followed by a run of digits and underscores
/// holding at least one digit of that base; 0 when no such literal matches.
pub open spec fn spec_radix_base(src: Seq<u8>, pos: int) -> int
    recommends
        0 <= pos < src.len(),
{
    if pos + 1 < src.len() && src[pos] == 48u8 {
        let b = src[pos + 1];
        let base: int = if b == 120u8 {
            16
        } else if b == 98u8 {
            2
        } else if b == 111u8 {
            8
        } else {
            0
        };
        if base != 0 && spec_has_digit(src, pos + 2, spec_run_end(src, pos + 2, base), base) {
            base
        } else {
            0
        }
    } else {
        0
    }
}

/// The end of the float literal at `pos` (an optional run of digits, a dot,
/// and a mandatory nonempty run of fractional digits), or `pos` itself when
/// none matches there.
pub open spec fn spec_float_end(src: Seq<u8>, pos: int) -> int
    recommends
        0 <= pos <= src.len(),
{
    let ip = spec_digit_run_end(src, pos);
    if ip < src.len() && src[ip] == 46u8 && spec_digit_run_end(src, ip + 1) > ip + 1 {
        spec_digit_run_end(src, ip + 1)
    } else {
        pos
    }
}

/// Whether a float literal matches at `pos`.
pub open spec fn spec_is_float(src: Seq<u8>, pos: int) -> bool {
    spec_float_end(src, pos) > pos
}

/// The two-character operator spelled by the pair of bytes, if any.
pub open spec fn spec_op2(a: u8, b: u8) -> Option<Token> {
    if a == 38u8 && b == 38u8 {
        Some(Token::AndAnd)
    } else if a == 124u8 && b == 124u8 {
        Some(Token::OrOr)
    } else if a == 61u8 && b == 61u8 {
        Some(Token::Eq)
    } else if a == 33u8 && b == 61u8 {
        Some(Token::Ne)
    } else if a == 60u8 && b == 61u8 {
        Some(Token::Le)
    } else if a == 62u8 && b == 61u8 {
        Some(Token::Ge)
    } else {
        None
    }
}

/// The single-character operator or punctuation mark spelled by the byte,
/// if any.
pub open spec fn spec_op1(a: u8) -> Option<Token> {
    if a == 43u8 {
        Some(Token::Plus)
    } else if a == 45u8 {
        Some(Token::Minus)
    } else if a == 42u8 {
        Some(Token::Asterisk)
    } else if a == 47u8 {
        Some(Token::Divide)
    } else if a == 94u8 {
        Some(Token::Xor)
    } else if a == 33u8 {
        Some(Token::Not)
    } else if a == 38u8 {
        Some(Token::And)
    } else if a == 124u8 {
        Some(Token::Or)
    } else if a == 61u8 {
        Some(Token::Assign)
    } else if a == 60u8 {
        Some(Token::Lt)
    } else if a == 62u8 {
        Some(Token::Gt)
    } else if a == 59u8 {
        Some(Token::Semicolon)
    } else if a == 40u8 {
        Some(Token::LeftParen)
    } else if a == 41u8 {
        Some(Token::RightParen)
    } else if a == 91u8 {
        Some(Token::LeftSquare)
    } else if a == 93u8 {
        Some(Token::RightSquare)
    } else if a == 123u8 {
        Some(Token::LeftBrace)
    } else if a == 125u8 {
        Some(Token::RightBrace)
    } else {
        None
    }
}

/// The classification of the lexeme at significant position `pos` (`pos` is
/// a fixed point of skipping and lies inside the buffer), in matching
/// priority order: keyword or identifier, radix-prefixed integer, float,
/// decimal integer, two-character operator, single-character operator, and
/// otherwise an unexpected character.
pub open spec fn spec_scan_token(src: Seq<u8>, pos: int) -> Scanned
    recommends
        0 <= pos < src.len(),
{
    let b = src[pos];
    if is_ident_start(b) {
        if spec_is_keyword(src, pos, spec_ident_end(src, pos)) {
            Scanned::Tok(Token::Let)
        } else {
            Scanned::Tok(Token::Ident)
        }
    } else if spec_radix_base(src, pos) != 0 {
        let base = spec_radix_base(src, pos);
        let v = spec_digits_value(src, pos + 2, spec_run_end(src, pos + 2, base), base);
        if v <= u128::MAX {
            Scanned::Tok(Token::Integer(v as u128))
        } else {
            Scanned::IntOverflow
        }
    } else if spec_is_float(src, pos) {
        Scanned::Tok(Token::Float)
    } else if is_digit(b) {
        let v = spec_digits_value(src, pos, spec_run_end(src, pos, 10), 10);
        if v <= u128::MAX {
            Scanned::Tok(Token::Integer(v as u128))
        } else {
            Scanned::IntOverflow
        }
    } else if pos + 1 < src.len() && spec_op2(b, src[pos + 1]) is Some {
        Scanned::Tok(spec_op2(b, src[pos + 1]).unwrap())
    } else if spec_op1(b) is Some {
        Scanned::Tok(spec_op1(b).unwrap())
    } else {
        Scanned::UnexpectedChar
    }
}

/// The end of the lexeme at significant position `pos`, which is also where
/// scanning resumes: one past the offending byte for an unexpected
/// character, one past the whole literal for an overflowing integer.
pub open spec fn spec_scan_end(src: Seq<u8>, pos: int) -> int
    recommends
        0 <= pos < src.len(),
{
    let b = src[pos];
    if is_ident_start(b) {
        spec_ident_end(src, pos)
    } else if spec_radix_base(src, pos) != 0 {
        spec_run_end(src, pos + 2, spec_radix_base(src, pos))
    } else if spec_is_float(src, pos) {
        spec_float_end(src, pos)
    } else if is_digit(b) {
        spec_run_end(src, pos, 10)
    } else if pos + 1 < src.len() && spec_op2(b, src[pos + 1]) is Some {
        pos + 2
    } else {
        pos + 1
    }
}

fn is_ws_b(b: u8) -> (r: bool)
    ensures
        r == is_ws(b),
{
    b == 32u8 || b == 9u8 || b == 13u8 || b == 10u8
}

fn is_digit_b(b: u8) -> (r: bool)
    ensures
        r == is_digit(b),
{
    48u8 <= b && b <= 57u8
}

fn is_ident_start_b(b: u8) -> (r: bool)
    ensures
        r == is_ident_start(b),
{
    (65u8 <= b && b <= 90u8) || (97u8 <= b && b <= 122u8) || b == 95u8
}

fn is_ident_cont_b(b: u8) -> (r: bool)
    ensures
        r == is_ident_cont(b),
{
    is_ident_start_b(b) || is_digit_b(b)
}

fn digit_val_b(b: u8) -> (r: u8)
    ensures
        r as int == digit_val(b),
{
    if 48u8 <= b && b <= 57u8 {
        b - 48u8
    } else if 65u8 <= b && b <= 70u8 {
        b - 55
    } else if 97u8 <= b && b <= 102u8 {
        b - 87
    } else {
        16
    }
}

fn is_digit_or_sep_b(b: u8, base: u8) -> (r: bool)
    ensures
        r == is_digit_or_sep(b, base as int),
{
    b == 95u8 || digit_val_b(b) < base
}

/// The lower and upper bounds of a digit-or-separator run.
pub proof fn lemma_run_end_bounds(src: Seq<u8>, pos: int, base: int)
    requires
        0 <= pos <= src.len(),
    ensures
        pos <= spec_run_end(src, pos, base) <= src.len(),
    decreases src.len() - pos,
{
    if pos < src.len() && is_digit_or_sep(src[pos], base) {
        lemma_run_end_bounds(src, pos + 1, base);
    }
}

/// The lower and upper bounds of a plain decimal digit run.
pub proof fn lemma_digit_run_end_bounds(src: Seq<u8>, pos: int)
    requires
        0 <= pos <= src.len(),
    ensures
        pos <= spec_digit_run_end(src, pos) <= src.len(),
    decreases src.len() - pos,
{
    if pos < src.len() && is_digit(src[pos]) {
        lemma_digit_run_end_bounds(src, pos + 1);
    }
}

/// The lower and upper bounds of an identifier run.
pub proof fn lemma_ident_end_bounds(src: Seq<u8>, pos: int)
    requires
        0 <= pos <= src.len(),
    ensures
        pos <= spec_ident_end(src, pos) <= src.len(),
    decreases src.len() - pos,
{
    if pos < src.len() && is_ident_cont(src[pos]) {
        lemma_ident_end_bounds(src, pos + 1);
    }
}

/// The end of the run of base digits and underscores starting at `pos`.
fn run_end(src: &Vec<u8>, pos: usize, base: u8) -> (r: usize)
    requires
        pos <= src@.len(),
    ensures
        r as int == spec_run_end(src@, pos as int, base as int),
        pos <= r <= src@.len(),
        pos < src@.len() && is_digit_or_sep(src@[pos as int], base as int) ==> r > pos,
{
    let mut i: usize = pos;
    while i < src.len() && is_digit_or_sep_b(src[i], base)
        invariant
            pos <= i <= src@.len(),
            spec_run_end(src@, pos as int, base as int) == spec_run_end(src@, i as int, base as int),
        decreases src@.len() - i,
    {
        i = i + 1;
    }
    proof {
        if pos < src@.len() && is_digit_or_sep(src@[pos as int], base as int) {
            lemma_run_end_bounds(src@, pos as int + 1, base as int);
        }
    }
    i
}

/// The end of the run of plain decimal digits starting at `pos`.
fn digit_run_end(src: &Vec<u8>, pos: usize) -> (r: usize)
    requires
        pos <= src@.len(),
    ensures
        r as int == spec_digit_run_end(src@, pos as int),
        pos <= r <= src@.len(),
        pos < src@.len() && is_digit(src@[pos as int]) ==> r > pos,
{
    let mut i: usize = pos;
    while i < src.len() && is_digit_b(src[i])
        invariant
            pos <= i <= src@.len(),
            spec_digit_run_end(src@, pos as int) == spec_digit_run_end(src@, i as int),
        decreases src@.len() - i,
    {
        i = i + 1;
    }
    proof {
        if pos < src@.len() && is_digit(src@[pos as int]) {
            lemma_digit_run_end_bounds(src@, pos as int + 1);
        }
    }
    i
}

/// The end of the run of identifier characters starting at `pos`.
fn ident_end(src: &Vec<u8>, pos: usize) -> (r: usize)
    requires
        pos <= src@.len(),
    ensures
        r as int == spec_ident_end(src@, pos as int),
        pos <= r <= src@.len(),
        pos < src@.len() && is_ident_cont(src@[pos as int]) ==> r > pos,
{
    let mut i: usize = pos;
    while i < src.len() && is_ident_cont_b(src[i])
        invariant
            pos <= i <= src@.len(),
            spec_ident_end(src@, pos as int) == spec_ident_end(src@, i as int),
        decreases src@.len() - i,
    {
        i = i + 1;
    }
    proof {
        if pos < src@.len() && is_ident_cont(src@[pos as int]) {
            lemma_ident_end_bounds(src@, pos as int + 1);
        }
    }
    i
}

/// Whether `src[start..end]` holds at least one digit of the given base.
fn has_digit_in(src: &Vec<u8>, start: usize, end: usize, base: u8) -> (r: bool)
    requires
        start <= end <= src@.len(),
    ensures
        r == spec_has_digit(src@, start as int, end as int, base as int),
{
    let mut i: usize = end;
    while i > start
        invariant
            start <= i <= end <= src@.len(),
            spec_has_digit(src@, start as int, end as int, base as int) == spec_has_digit(
                src@,
                start as int,
                i as int,
                base as int,
            ),
        decreases i,
    {
        if digit_val_b(src[i - 1]) < base {
            return true;
        }
        i = i - 1;
    }
    false
}

/// Whether `src[start..end]` spells the reserved keyword `let`.
fn is_keyword_at(src: &Vec<u8>, start: usize, end: usize) -> (r: bool)
    requires
        start <= end <= src@.len(),
    ensures
        r == spec_is_keyword(src@, start as int, end as int),
{
    end - start == 3 && src[start] == 108u8 && src[start + 1] == 101u8 && src[start + 2] == 116u8
}

/// The base selected by a well-formed radix-prefixed literal at `pos`, or 0.
fn radix_base_at(src: &Vec<u8>, pos: usize) -> (r: u8)
    requires
        pos < src@.len(),
    ensures
        r as int == spec_radix_base(src@, pos as int),
        r == 0 || r == 2 || r == 8 || r == 16,
{
    let n: usize = src.len();
    if pos + 1 < n && src[pos] == 48u8 {
        let p: u8 = src[pos + 1];
        let base: u8 = if p == 120u8 {
            16
        } else if p == 98u8 {
            2
        } else if p == 111u8 {
            8
        } else {
            0
        };
        if base != 0 {
            let dend: usize = run_end(src, pos + 2, base);
            if has_digit_in(src, pos + 2, dend, base) {
                base
            } else {
                0
            }
        } else {
            0
        }
    } else {
        0
    }
}

/// The value of a digit run is never negative.
proof fn lemma_digits_value_nonneg(src: Seq<u8>, start: int, end: int, base: int)
    requires
        base >= 2,
    ensures
        spec_digits_value(src, start, end, base) >= 0,
    decreases end - start,
{
    if end > start {
        lemma_digits_value_nonneg(src, start, end - 1, base);
        let v = spec_digits_value(src, start, end - 1, base);
        if src[end - 1] != 95u8 {
            assert(v * base >= 0) by (nonlinear_arith)
                requires
                    v >= 0,
                    base >= 2,
            ;
        }
    }
}

/// Reading one more byte of a digit run never decreases its value.
proof fn lemma_digits_value_extend(src: Seq<u8>, start: int, end: int, base: int)
    requires
        base >= 2,
        start <= end,
    ensures
        spec_digits_value(src, start, end + 1, base) >= spec_digits_value(src, start, end, base),
{
    lemma_digits_value_nonneg(src, start, end, base);
    let v = spec_digits_value(src, start, end, base);
    if src[end] != 95u8 {
        assert(v * base >= v) by (nonlinear_arith)
            requires
                v >= 0,
                base >= 2,
        ;
    }
}

/// Reads the digit run `src[start..end]` in the given base, underscores
/// skipped: the value when it fits in 128 bits, `None` when it overflows.
fn parse_digits(src: &Vec<u8>, start: usize, end: usize, base: u8) -> (r: Option<u128>)
    requires
        start <= end <= src@.len(),
        2 <= base <= 16,
    ensures
        (match r {
            Some(v) => v as int == spec_digits_value(src@, start as int, end as int, base as int),
            None => spec_digits_value(src@, start as int, end as int, base as int) > u128::MAX,
        }),
{
    let mut acc: u128 = 0;
    let mut overflowed: bool = false;
    let mut i: usize = start;
    while i < end
        invariant
            start <= i <= end <= src@.len(),
            2 <= base <= 16,
            !overflowed ==> acc as int == spec_digits_value(src@, start as int, i as int, base as int),
            overflowed ==> spec_digits_value(src@, start as int, i as int, base as int) > u128::MAX,
        decreases end - i,
    {
        let b: u8 = src[i];
        if b != 95u8 {
            let d: u8 = digit_val_b(b);
            if overflowed {
                proof {
                    lemma_digits_value_extend(src@, start as int, i as int, base as int);
                }
            } else {
                let next: Option<u128> = match acc.checked_mul(base as u128) {
                    Some(m) => m.checked_add(d as u128),
                    None => None,
                };
                match next {
                    Some(v) => {
                        acc = v;
                    },
                    None => {
                        overflowed = true;
                    },
                }
            }
        }
        i = i + 1;
    }
    if overflowed {
        None
    } else {
        Some(acc)
    }
}

/// The two-character operator spelled by the pair of bytes, if any.
fn op2_token(a: u8, b: u8) -> (r: Option<Token>)
    ensures
        r == spec_op2(a, b),
{
    if a == 38u8 && b == 38u8 {
        Some(Token::AndAnd)
    } else if a == 124u8 && b == 124u8 {
        Some(Token::OrOr)
    } else if a == 61u8 && b == 61u8 {
        Some(Token::Eq)
    } else if a == 33u8 && b == 61u8 {
        Some(Token::Ne)
    } else if a == 60u8 && b == 61u8 {
        Some(Token::Le)
    } else if a == 62u8 && b == 61u8 {
        Some(Token::Ge)
    } else {
        None
    }
}

/// The single-character operator or punctuation mark spelled by the byte,
/// if any.
fn op1_token(a: u8) -> (r: Option<Token>)
    ensures
        r == spec_op1(a),
{
    if a == 43u8 {
        Some(Token::Plus)
    } else if a == 45u8 {
        Some(Token::Minus)
    } else if a == 42u8 {
        Some(Token::Asterisk)
    } else if a == 47u8 {
        Some(Token::Divide)
    } else if a == 94u8 {
        Some(Token::Xor)
    } else if a == 33u8 {
        Some(Token::Not)
    } else if a == 38u8 {
        Some(Token::And)
    } else if a == 124u8 {
        Some(Token::Or)
    } else if a == 61u8 {
        Some(Token::Assign)
    } else if a == 60u8 {
        Some(Token::Lt)
    } else if a == 62u8 {
        Some(Token::Gt)
    } else if a == 59u8 {
        Some(Token::Semicolon)
    } else if a == 40u8 {
        Some(Token::LeftParen)
    } else if a == 41u8 {
        Some(Token::RightParen)
    } else if a == 91u8 {
        Some(Token::LeftSquare)
    } else if a == 93u8 {
        Some(Token::RightSquare)
    } else if a == 123u8 {
        Some(Token::LeftBrace)
    } else if a == 125u8 {
        Some(Token::RightBrace)
    } else {
        None
    }
}

/// A single forward-only tokenization pass over one immutable source
/// buffer: the scan cursor plus the buffer itself.
pub struct Lexer {
    src: Vec<u8>,
    pos: usize,
}

impl Lexer {
    /// The source buffer being scanned.
    pub closed spec fn src_bytes(self) -> Seq<u8> {
        self.src@
    }

    /// The scan cursor: the offset at which the next call resumes.
    pub closed spec fn cursor(self) -> int {
        self.pos as int
    }

    /// The cursor never leaves the buffer.
    pub open spec fn wf(self) -> bool {
        0 <= self.cursor() <= self.src_bytes().len()
    }

    /// Starts a tokenization pass over the given source buffer.
    pub fn new(src: Vec<u8>) -> (r: Lexer)
        ensures
            r.wf(),
            r.src_bytes() == src@,
            r.cursor() == 0,
    {
        Lexer { src, pos: 0 }
    }

    /// Moves the cursor to the next significant position: past whitespace
    /// and line comments.
    fn skip_insignificant(&mut self)
        requires
            old(self).wf(),
        ensures
            final(self).wf(),
            final(self).src == old(self).src,
            old(self).pos <= final(self).pos,
            final(self).pos as int == spec_skip(old(self).src@, old(self).pos as int),
    {
        loop
            invariant
                self.wf(),
                self.src == old(self).src,
                old(self).pos <= self.pos,
                spec_skip(old(self).src@, old(self).pos as int) == spec_skip(self.src@, self.pos as int),
            ensures
                self.wf(),
                self.src == old(self).src,
                old(self).pos <= self.pos,
                self.pos as int == spec_skip(old(self).src@, old(self).pos as int),
            decreases self.src@.len() - self.pos,
        {
            let n: usize = self.src.len();
            if self.pos >= n {
                break;
            }
            let b: u8 = self.src[self.pos];
            if is_ws_b(b) {
                self.pos = self.pos + 1;
            } else if b == 47u8 && self.pos + 1 < n && self.src[self.pos + 1] == 47u8 {
                self.pos = self.pos + 2;
                let ghost pmark: int = self.pos as int;
                while self.pos < self.src.len() && self.src[self.pos] != 10u8
                    invariant
                        self.wf(),
                        self.src == old(self).src,
                        pmark <= self.pos as int,
                        spec_skip(old(self).src@, old(self).pos as int) == spec_skip_comment(
                            self.src@,
                            self.pos as int,
                        ),
                    decreases self.src@.len() - self.pos,
                {
                    self.pos = self.pos + 1;
                }
                if self.pos < self.src.len() {
                    self.pos = self.pos + 1;
                }
            } else {
                break;
            }
        }
    }

    /// Scans and returns the next token with its span, an error for an
    /// overflowing integer literal or an unrecognised byte, or `None` at the
    /// end of the buffer. The cursor resumes after the consumed lexeme, one
    /// past the offending byte after an unexpected character, so that
    /// scanning may continue past either error.
    pub fn next_token(&mut self) -> (r: Option<Result<(Token, Span), LexError>>)
        requires
            old(self).wf(),
        ensures
            final(self).wf(),
            final(self).src_bytes() == old(self).src_bytes(),
            r is Some ==> old(self).cursor() < final(self).cursor(),
            ({
                let src = old(self).src_bytes();
                let start = spec_skip(src, old(self).cursor());
                if start >= src.len() {
                    r is None && final(self).cursor() == src.len()
                } else {
                    let end = spec_scan_end(src, start);
                    final(self).cursor() == end && (match spec_scan_token(src, start) {
                        Scanned::Tok(t) => r matches Some(Ok(p)) && p.0 == t && p.1.start == start
                            && p.1.end == end,
                        Scanned::UnexpectedChar => r matches Some(Err(
                            LexError::UnexpectedCharacter { offset },
                        )) && offset == start,
                        Scanned::IntOverflow => r matches Some(Err(
                            LexError::IntegerOverflow { span },
                        )) && span.start == start && span.end == end,
                    })
                }
            }),
    {
        self.skip_insignificant();
        let start: usize = self.pos;
        if start == self.src.len() {
            return None;
        }
        let b: u8 = self.src[start];
        if is_ident_start_b(b) {
            let end: usize = ident_end(&self.src, start);
            self.pos = end;
            let tok: Token = if is_keyword_at(&self.src, start, end) {
                Token::Let
            } else {
                Token::Ident
            };
            return Some(Ok((tok, Span { start, end })));
        }
        if is_digit_b(b) || b == 46u8 {
            let base: u8 = radix_base_at(&self.src, start);
            if base != 0 {
                let dend: usize = run_end(&self.src, start + 2, base);
                self.pos = dend;
                let span = Span { start, end: dend };
                return match parse_digits(&self.src, start + 2, dend, base) {
                    Some(v) => Some(Ok((Token::Integer(v), span))),
                    None => Some(Err(LexError::IntegerOverflow { span })),
                };
            }
            let ip: usize = digit_run_end(&self.src, start);
            if ip < self.src.len() && self.src[ip] == 46u8 {
                let fend: usize = digit_run_end(&self.src, ip + 1);
                if fend > ip + 1 {
                    self.pos = fend;
                    return Some(Ok((Token::Float, Span { start, end: fend })));
                }
            }
            if is_digit_b(b) {
                let dend: usize = run_end(&self.src, start, 10);
                self.pos = dend;
                let span = Span { start, end: dend };
                return match parse_digits(&self.src, start, dend, 10) {
                    Some(v) => Some(Ok((Token::Integer(v), span))),
                    None => Some(Err(LexError::IntegerOverflow { span })),
                };
            }
        }
        if start + 1 < self.src.len() {
            let t2: Option<Token> = op2_token(b, self.src[start + 1]);
            if let Some(t) = t2 {
                self.pos = start + 2;
                return Some(Ok((t, Span { start, end: start + 2 })));
            }
        }
        let t1: Option<Token> = op1_token(b);
        if let Some(t) = t1 {
            self.pos = start + 1;
            return Some(Ok((t, Span { start, end: start + 1 })));
        }
        self.pos = start + 1;
        Some(Err(LexError::UnexpectedCharacter { offset: start }))
    }
}

} // verus!
