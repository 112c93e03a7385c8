//! Integer literals and numerals: reading a signed decimal literal, and
//! writing a number in decimal or hexadecimal.

use vstd::prelude::*;
use crate::text::push_chars;

verus! {

/// Whether `c` is one of the ten decimal digits.
pub open spec fn is_digit(c: char) -> bool {
    '0' <= c && c <= '9'
}

/// The value of the decimal digit `c`.
pub open spec fn digit_of(c: char) -> int {
    c as int - '0' as int
}

/// Whether `s` holds decimal digits only.
pub open spec fn all_digits(s: Seq<char>) -> bool {
    forall|i: int| 0 <= i < s.len() ==> is_digit(#[trigger] s[i])
}

/// The number that a string of decimal digits writes, most significant first.
pub open spec fn digits_value(s: Seq<char>) -> int
    decreases s.len(),
{
    if s.len() == 0 {
        0
    } else {
        10 * digits_value(s.drop_last()) + digit_of(s.last())
    }
}

/// The digits of a literal: what follows its sign, or all of it where it has
/// none.
pub open spec fn literal_digits(s: Seq<char>) -> Seq<char> {
    if s.len() > 0 && (s[0] == '-' || s[0] == '+') {
        s.skip(1)
    } else {
        s
    }
}

/// The number that a literal writes, whether or not it fits in 32 bits.
pub open spec fn literal_value(s: Seq<char>) -> int {
    if s.len() > 0 && s[0] == '-' {
        -digits_value(literal_digits(s))
    } else {
        digits_value(literal_digits(s))
    }
}

/// The 32-bit integer that `s` writes: an optional `+` or `-`, then one or
/// more decimal digits, with a value from `i32::MIN` to `i32::MAX`. Anything
/// else is no literal.
pub open spec fn literal(s: Seq<char>) -> Option<i32> {
    if literal_digits(s).len() > 0 && all_digits(literal_digits(s)) && i32::MIN <= literal_value(s)
        <= i32::MAX {
        Some(literal_value(s) as i32)
    } else {
        None
    }
}

/// The character for a digit below sixteen: `0` to `9`, then `a` to `f`.
pub open spec fn digit_char(d: int) -> char {
    if d < 10 {
        ('0' as int + d) as char
    } else {
        ('a' as int + d - 10) as char
    }
}

/// The numeral of `n` in the given base, most significant digit first and
/// without leading zeros.
pub open spec fn numeral(n: nat, base: nat) -> Seq<char>
    decreases n,
    via numeral_decreases
{
    if n < base || base < 2 {
        seq![digit_char(n as int)]
    } else {
        numeral(n / base, base).push(digit_char((n % base) as int))
    }
}

#[via_fn]
proof fn numeral_decreases(n: nat, base: nat) {
    if n >= base && base >= 2 {
        assert(n / base < n) by (nonlinear_arith)
            requires
                n >= base,
                base >= 2,
        ;
    }
}

/// The decimal numeral of `v`, with a leading `-` where it is negative.
pub open spec fn decimal(v: int) -> Seq<char> {
    if v < 0 {
        seq!['-'] + numeral((-v) as nat, 10)
    } else {
        numeral(v as nat, 10)
    }
}

/// A string of digits writes no negative number.
pub proof fn lemma_digits_value_nonnegative(s: Seq<char>)
    requires
        all_digits(s),
    ensures
        0 <= digits_value(s),
    decreases s.len(),
{
    if s.len() > 0 {
        assert(is_digit(s[s.len() - 1]));
        lemma_digits_value_nonnegative(s.drop_last());
    }
}

/// A string of digits writes at least as much as any of its prefixes.
pub proof fn lemma_digits_value_grows(s: Seq<char>, k: int)
    requires
        all_digits(s),
        0 <= k <= s.len(),
    ensures
        digits_value(s.take(k)) <= digits_value(s),
    decreases s.len(),
{
    if k == s.len() {
        assert(s.take(k) =~= s);
    } else {
        assert(is_digit(s[s.len() - 1]));
        assert(s.drop_last().take(k) =~= s.take(k));
        lemma_digits_value_grows(s.drop_last(), k);
        lemma_digits_value_nonnegative(s.drop_last());
    }
}

/// A numeral in base ten is a string of one or more digits that writes the
/// number.
pub proof fn lemma_numeral_value(n: nat)
    ensures
        numeral(n, 10).len() >= 1,
        all_digits(numeral(n, 10)),
        digits_value(numeral(n, 10)) == n,
    decreases n,
{
    let s = numeral(n, 10);
    if n < 10 {
        assert(s.drop_last() =~= Seq::<char>::empty());
        assert(digits_value(s.drop_last()) == 0);
    } else {
        lemma_numeral_value(n / 10);
        let head = numeral(n / 10, 10);
        assert(s.drop_last() =~= head);
        assert forall|i: int| 0 <= i < s.len() implies is_digit(#[trigger] s[i]) by {
            if i < head.len() {
                assert(s[i] == head[i]);
            }
        }
    }
}

/// Reading the decimal numeral of a 32-bit integer gives the integer back.
pub proof fn law_literal_of_decimal(v: i32)
    ensures
        literal(decimal(v as int)) == Some(v),
{
    let s = decimal(v as int);
    if v < 0 {
        let tail = numeral((-v) as nat, 10);
        lemma_numeral_value((-v) as nat);
        assert(s[0] == '-');
        assert(s.skip(1) =~= tail);
    } else {
        lemma_numeral_value(v as nat);
        assert(is_digit(s[0]));
    }
}

/// Reads `text` as a 32-bit integer literal.
pub fn parse_literal(text: &[char]) -> (r: Option<i32>)
    ensures
        r == literal(text@),
{
    let n = text.len();
    if n == 0 {
        return None;
    }
    let negative = text[0] == '-';
    let start: usize = if negative || text[0] == '+' {
        1
    } else {
        0
    };
    let ghost body = literal_digits(text@);
    assert(body == text@.skip(start as int)) by {
        assert(text@.skip(0) =~= text@);
    }
    if start == n {
        return None;
    }
    let mut value: i64 = 0;
    let mut i: usize = start;
    assert(body.take(0) =~= Seq::<char>::empty());
    while i < n
        invariant
            start <= i <= n,
            n == text@.len(),
            body == text@.skip(start as int),
            body == literal_digits(text@),
            all_digits(body.take(i - start)),
            value == digits_value(body.take(i - start)),
            0 <= value <= 0x8000_0000,
        decreases n - i,
    {
        let c = text[i];
        let ghost seen = body.take(i - start);
        let ghost more = body.take(i - start + 1);
        assert(body[i - start] == c);
        if !('0' <= c && c <= '9') {
            assert(!is_digit(body[i - start]));
            return None;
        }
        assert(more.drop_last() =~= seen);
        assert(more.last() == c);
        assert(all_digits(more)) by {
            assert forall|k: int| 0 <= k < more.len() implies is_digit(#[trigger] more[k]) by {
                if k < seen.len() {
                    assert(more[k] == seen[k]);
                }
            }
        }
        let digit: i64 = (c as u32 - '0' as u32) as i64;
        value = value * 10 + digit;
        if value > 0x8000_0000 {
            proof {
                if all_digits(body) {
                    lemma_digits_value_grows(body, i - start + 1);
                }
            }
            return None;
        }
        i += 1;
    }
    assert(body.take(n - start) =~= body);
    if negative {
        Some((-value) as i32)
    } else if value == 0x8000_0000 {
        None
    } else {
        Some(value as i32)
    }
}

/// The character for the digit `d`.
pub fn digit_to_char(d: u32) -> (r: char)
    requires
        d < 16,
    ensures
        r == digit_char(d as int),
{
    if d < 10 {
        (48u8 + d as u8) as char
    } else {
        (87u8 + d as u8) as char
    }
}

/// The digits of `n` in the given base, most significant first.
pub fn digits(n: u32, base: u32) -> (r: Vec<char>)
    requires
        2 <= base <= 16,
    ensures
        r@ == numeral(n as nat, base as nat),
{
    let mut low: Vec<char> = Vec::new();
    let mut rest: u32 = n;
    assert(numeral(rest as nat, base as nat) + low@.reverse() =~= numeral(n as nat, base as nat));
    while rest >= base
        invariant
            2 <= base <= 16,
            numeral(rest as nat, base as nat) + low@.reverse() == numeral(n as nat, base as nat),
        decreases rest,
    {
        let ghost before = low@;
        let d = digit_to_char(rest % base);
        low.push(d);
        assert(low@.reverse() =~= seq![d] + before.reverse());
        assert(numeral((rest / base) as nat, base as nat).push(d) + before.reverse() =~= numeral(
            (rest / base) as nat,
            base as nat,
        ) + low@.reverse());
        rest = rest / base;
    }
    let mut out: Vec<char> = Vec::new();
    out.push(digit_to_char(rest));
    let mut k: usize = low.len();
    while k > 0
        invariant
            k <= low.len(),
            out@ == numeral(rest as nat, base as nat) + low@.reverse().take(low.len() - k),
        decreases k,
    {
        k -= 1;
        let ghost before = out@;
        out.push(low[k]);
        assert(low@.reverse().take(low.len() - k) =~= low@.reverse().take(low.len() - k - 1).push(
            low@[k as int],
        ));
    }
    assert(low@.reverse().take(low.len() as int) =~= low@.reverse());
    out
}

/// Writes the decimal numeral of `v` at the end of `out`.
pub fn write_decimal(out: &mut String, v: i32)
    ensures
        final(out)@ == old(out)@ + decimal(v as int),
{
    if v < 0 {
        let magnitude: u32 = (-(v as i64)) as u32;
        let numeral = digits(magnitude, 10);
        out.push('-');
        push_chars(out, &numeral);
        assert(out@ =~= old(out)@ + decimal(v as int));
    } else {
        let numeral = digits(v as u32, 10);
        push_chars(out, &numeral);
    }
}

} // verus!
