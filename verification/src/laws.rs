//! Scanner-wide properties proved once and for all: the radix round trip
//! for integer literals in every supported base, the keyword/identifier
//! boundary, and maximal munch for the compound operators.

use vstd::prelude::*;

use crate::lexer::digit_val;
use crate::lexer::is_digit;
use crate::lexer::is_digit_or_sep;
use crate::lexer::is_ident_cont;
use crate::lexer::is_radix_digit;
use crate::lexer::spec_digit_run_end;
use crate::lexer::spec_digits_value;
use crate::lexer::spec_ident_end;
use crate::lexer::spec_op2;
use crate::lexer::spec_run_end;
use crate::lexer::spec_scan_end;
use crate::lexer::spec_scan_token;
use crate::lexer::spec_skip;
use crate::lexer::Scanned;
use crate::token::Token;
use vstd::arithmetic::div_mod::lemma_div_is_strictly_smaller;
use vstd::arithmetic::div_mod::lemma_div_pos_is_pos;
use vstd::arithmetic::div_mod::lemma_fundamental_div_mod;

verus! {

/// The byte spelling the digit `d`: `0`-`9`, then lower-case `a`-`f`.
pub open spec fn digit_byte(d: int) -> u8 {
    if d < 10 {
        (48 + d) as u8
    } else {
        (87 + d) as u8
    }
}

/// The digits of `n` in the given base, most significant first; zero is the
/// single digit `0`.
pub open spec fn spec_render(n: int, base: int) -> Seq<u8>
    recommends
        0 <= n,
        2 <= base <= 16,
    decreases n
        when 0 <= n && 2 <= base
        via spec_render_decreases
{
    if n < base {
        seq![digit_byte(n)]
    } else {
        spec_render(n / base, base).push(digit_byte(n % base))
    }
}

#[via_fn]
proof fn spec_render_decreases(n: int, base: int) {
    if 0 <= n && 2 <= base && !(n < base) {
        lemma_div_is_strictly_smaller(n, base);
        lemma_div_pos_is_pos(n, base);
    }
}

/// The canonical spelling of `n` as an integer literal: bare digits in base
/// 10, a `0x`/`0b`/`0o` prefix followed by the digits otherwise.
pub open spec fn spec_literal(n: int, base: int) -> Seq<u8> {
    if base == 10 {
        spec_render(n, 10)
    } else {
        let p: u8 = if base == 16 {
            120u8
        } else if base == 2 {
            98u8
        } else {
            111u8
        };
        seq![48u8, p] + spec_render(n, base)
    }
}

/// A spelled digit reads back as its value.
proof fn lemma_digit_byte(d: int)
    requires
        0 <= d < 16,
    ensures
        digit_val(digit_byte(d)) == d,
{
}

/// Every byte of a rendering is a digit of its base, and there is at least
/// one.
proof fn lemma_render_digits(n: int, base: int)
    requires
        0 <= n,
        2 <= base <= 16,
    ensures
        spec_render(n, base).len() >= 1,
        forall|i: int|
            0 <= i < spec_render(n, base).len() ==> is_radix_digit(
                #[trigger] spec_render(n, base)[i],
                base,
            ),
    decreases n,
{
    if n < base {
        lemma_digit_byte(n);
    } else {
        lemma_div_is_strictly_smaller(n, base);
        lemma_div_pos_is_pos(n, base);
        lemma_render_digits(n / base, base);
        lemma_digit_byte(n % base);
        let r1 = spec_render(n / base, base);
        let s = spec_render(n, base);
        assert forall|i: int| 0 <= i < s.len() implies is_radix_digit(#[trigger] s[i], base) by {
            if i < r1.len() {
                assert(s[i] == r1[i]);
            } else {
                assert(s[i] == digit_byte(n % base));
            }
        }
    }
}

/// The value of a digit run depends only on the bytes in it: reading the
/// same bytes at an offset into a larger buffer gives the same value.
proof fn lemma_value_shift(s: Seq<u8>, off: int, r: Seq<u8>, k: int, base: int)
    requires
        0 <= off,
        0 <= k <= r.len(),
        off + r.len() <= s.len(),
        forall|i: int| 0 <= i < r.len() ==> s[off + i] == #[trigger] r[i],
    ensures
        spec_digits_value(s, off, off + k, base) == spec_digits_value(r, 0, k, base),
    decreases k,
{
    if k > 0 {
        lemma_value_shift(s, off, r, k - 1, base);
        assert(s[off + (k - 1)] == r[k - 1]);
    }
}

/// Reading back the rendering of `n` in its base yields `n`.
proof fn lemma_render_value(n: int, base: int)
    requires
        0 <= n,
        2 <= base <= 16,
    ensures
        spec_digits_value(spec_render(n, base), 0, spec_render(n, base).len() as int, base) == n,
    decreases n,
{
    if n < base {
        lemma_digit_byte(n);
        let s = spec_render(n, base);
        assert(s == seq![digit_byte(n)]);
        assert(s.len() == 1);
        assert(s[0] == digit_byte(n));
        assert(s[0] != 95u8);
        assert(spec_digits_value(s, 0, 0, base) == 0);
    } else {
        lemma_div_is_strictly_smaller(n, base);
        lemma_div_pos_is_pos(n, base);
        let r1 = spec_render(n / base, base);
        let d: u8 = digit_byte(n % base);
        let s = spec_render(n, base);
        lemma_render_value(n / base, base);
        lemma_digit_byte(n % base);
        assert(s == r1.push(d));
        assert(s.len() == r1.len() + 1);
        assert forall|i: int| 0 <= i < r1.len() implies s[0 + i] == #[trigger] r1[i] by {
            assert(r1.push(d)[i] == r1[i]);
        }
        lemma_value_shift(s, 0, r1, r1.len() as int, base);
        assert(spec_digits_value(s, 0, r1.len() as int, base) == n / base);
        assert(s[s.len() - 1] == d);
        assert(s[s.len() - 1] != 95u8);
        lemma_fundamental_div_mod(n, base);
        assert(spec_digits_value(s, 0, s.len() as int, base) == (n / base) * base + (n % base));
    }
}

/// A run of digits and separators that reaches the end of the buffer ends
/// there.
proof fn lemma_run_end_all(s: Seq<u8>, pos: int, base: int)
    requires
        0 <= pos <= s.len(),
        forall|i: int| pos <= i < s.len() ==> is_digit_or_sep(#[trigger] s[i], base),
    ensures
        spec_run_end(s, pos, base) == s.len(),
    decreases s.len() - pos,
{
    if pos < s.len() {
        lemma_run_end_all(s, pos + 1, base);
    }
}

/// A run of plain decimal digits that reaches the end of the buffer ends
/// there.
proof fn lemma_digit_run_end_all(s: Seq<u8>, pos: int)
    requires
        0 <= pos <= s.len(),
        forall|i: int| pos <= i < s.len() ==> is_digit(#[trigger] s[i]),
    ensures
        spec_digit_run_end(s, pos) == s.len(),
    decreases s.len() - pos,
{
    if pos < s.len() {
        lemma_digit_run_end_all(s, pos + 1);
    }
}

/// Radix round trip: for every unsigned 128-bit integer `n` and each of the
/// four supported bases, scanning the canonical spelling of `n` in that base
/// consumes the whole spelling and yields the integer token with value `n`.
pub proof fn lemma_radix_round_trip(n: u128, base: int)
    requires
        base == 2 || base == 8 || base == 10 || base == 16,
    ensures
        spec_skip(spec_literal(n as int, base), 0) == 0,
        spec_scan_token(spec_literal(n as int, base), 0) == Scanned::Tok(Token::Integer(n)),
        spec_scan_end(spec_literal(n as int, base), 0) == spec_literal(n as int, base).len(),
{
    lemma_render_digits(n as int, base);
    lemma_render_value(n as int, base);
    let r = spec_render(n as int, base);
    if base == 10 {
        let s = spec_literal(n as int, 10);
        assert(s == r);
        assert forall|i: int| 0 <= i < s.len() implies is_digit(#[trigger] s[i]) by {
            assert(is_radix_digit(s[i], 10));
        }
        assert forall|i: int| 0 <= i < s.len() implies is_digit_or_sep(#[trigger] s[i], 10) by {
            assert(is_radix_digit(s[i], 10));
        }
        lemma_digit_run_end_all(s, 0);
        lemma_run_end_all(s, 0, 10);
        assert(spec_skip(s, 0) == 0);
        assert(spec_run_end(s, 0, 10) == s.len());
        assert(spec_digits_value(s, 0, s.len() as int, 10) == n as int);
        assert(spec_scan_token(s, 0) == Scanned::Tok(Token::Integer(n)));
        assert(spec_scan_end(s, 0) == s.len());
    } else {
        let s = spec_literal(n as int, base);
        let p: u8 = if base == 16 {
            120u8
        } else if base == 2 {
            98u8
        } else {
            111u8
        };
        assert(s == seq![48u8, p] + r);
        assert(s.len() == 2 + r.len());
        assert(s[0] == 48u8);
        assert(s[1] == p);
        assert forall|i: int| 0 <= i < r.len() implies s[2 + i] == #[trigger] r[i] by {}
        assert forall|i: int| 2 <= i < s.len() implies is_digit_or_sep(#[trigger] s[i], base) by {
            assert(s[i] == r[i - 2]);
            assert(is_radix_digit(r[i - 2], base));
        }
        lemma_run_end_all(s, 2, base);
        assert(spec_run_end(s, 2, base) == s.len());
        assert(s[s.len() - 1] == r[r.len() - 1]);
        assert(is_radix_digit(s[s.len() - 1], base));
        lemma_value_shift(s, 2, r, r.len() as int, base);
        assert(spec_digits_value(s, 2, s.len() as int, base) == n as int);
        assert(spec_skip(s, 0) == 0);
        assert(spec_scan_token(s, 0) == Scanned::Tok(Token::Integer(n)));
        assert(spec_scan_end(s, 0) == s.len());
    }
}

/// Keyword/identifier boundary: the exact keyword spelling scans as the
/// keyword token, and appending any further identifier character turns the
/// whole lexeme into an identifier instead.
pub proof fn lemma_keyword_boundary(c: u8)
    requires
        is_ident_cont(c),
    ensures
        spec_scan_token(seq![108u8, 101u8, 116u8], 0) == Scanned::Tok(Token::Let),
        spec_scan_end(seq![108u8, 101u8, 116u8], 0) == 3,
        spec_scan_token(seq![108u8, 101u8, 116u8, c], 0) == Scanned::Tok(Token::Ident),
        spec_scan_end(seq![108u8, 101u8, 116u8, c], 0) == 4,
{
    let s3 = seq![108u8, 101u8, 116u8];
    let s4 = seq![108u8, 101u8, 116u8, c];
    assert(spec_ident_end(s3, 3) == 3);
    assert(spec_ident_end(s3, 2) == 3);
    assert(spec_ident_end(s3, 1) == 3);
    assert(spec_ident_end(s3, 0) == 3);
    assert(spec_ident_end(s4, 4) == 4);
    assert(spec_ident_end(s4, 3) == 4);
    assert(spec_ident_end(s4, 2) == 4);
    assert(spec_ident_end(s4, 1) == 4);
    assert(spec_ident_end(s4, 0) == 4);
}

/// Maximal munch for every compound operator: a buffer spelling one of the
/// six two-character operators scans as that single compound token,
/// consuming both bytes, never as its one-character prefix.
pub proof fn lemma_maximal_munch_compound(a: u8, c: u8)
    requires
        spec_op2(a, c) is Some,
    ensures
        spec_scan_token(seq![a, c], 0) == Scanned::Tok(spec_op2(a, c).unwrap()),
        spec_scan_end(seq![a, c], 0) == 2,
{
    let s = seq![a, c];
    assert(spec_digit_run_end(s, 0) == 0);
}

/// Maximal munch for `&`: the two-byte input `&&` scans as the single
/// compound token (never as two `&`), while `&` followed by any byte other
/// than `&` scans as exactly the one-byte `&` token.
pub proof fn lemma_maximal_munch_amp(c: u8)
    requires
        c != 38,
    ensures
        spec_scan_token(seq![38u8, 38u8], 0) == Scanned::Tok(Token::AndAnd),
        spec_scan_end(seq![38u8, 38u8], 0) == 2,
        spec_scan_token(seq![38u8, c], 0) == Scanned::Tok(Token::And),
        spec_scan_end(seq![38u8, c], 0) == 1,
{
    let s2 = seq![38u8, 38u8];
    let s1 = seq![38u8, c];
    assert(spec_digit_run_end(s2, 0) == 0);
    assert(spec_digit_run_end(s1, 0) == 0);
}

} // verus!
