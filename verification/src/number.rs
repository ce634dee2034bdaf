//! Numbers as text: decimal and octal rendering, parsing, and rounded sizes.

use crate::text::{cat2, cat3, chars_of};
use vstd::prelude::*;

verus! {

// ---------------------------------------------------------------------------
// Rendering
// ---------------------------------------------------------------------------

/// The character of a decimal digit.
pub open spec fn digit_char(d: int) -> char {
    ('0' as u32 + d) as char
}

/// The decimal digits of `n`, without leading zeros.
pub open spec fn decimal(n: int) -> Seq<char>
    decreases n,
{
    if n < 10 {
        seq![digit_char(n)]
    } else {
        decimal(n / 10).push(digit_char(n % 10))
    }
}

/// The decimal digits of `n` behind a minus sign where `n` is negative.
pub open spec fn signed_decimal(n: int) -> Seq<char> {
    if n < 0 {
        seq!['-'] + decimal(-n)
    } else {
        decimal(n)
    }
}

/// The four octal digits of a number below 0o10000.
pub open spec fn octal4(n: int) -> Seq<char> {
    seq![
        digit_char(n / 512 % 8),
        digit_char(n / 64 % 8),
        digit_char(n / 8 % 8),
        digit_char(n % 8),
    ]
}

fn digit(d: u8) -> (r: char)
    requires
        d < 10,
    ensures
        r == digit_char(d as int),
{
    let code: u8 = 48 + d;
    code as char
}

/// The decimal text of `n`.
pub fn wide_text(n: u128) -> (r: String)
    ensures
        r@ == decimal(n as int),
    decreases n,
{
    if n < 10 {
        let mut s = String::new();
        s.push(digit(n as u8));
        assert(s@ =~= seq![digit_char(n as int)]);
        s
    } else {
        let mut s = wide_text(n / 10);
        s.push(digit((n % 10) as u8));
        s
    }
}

/// The decimal text of `n`.
pub fn decimal_text(n: u64) -> (r: String)
    ensures
        r@ == decimal(n as int),
{
    wide_text(n as u128)
}

/// The decimal text of a signed number.
pub fn signed_text(n: i32) -> (r: String)
    ensures
        r@ == signed_decimal(n as int),
{
    if n < 0 {
        let mut s = String::new();
        s.push('-');
        assert(s@ =~= seq!['-']);
        let magnitude = decimal_text((-(n as i64)) as u64);
        s.append(magnitude.as_str());
        s
    } else {
        decimal_text(n as u64)
    }
}

/// The text of a number below 0o10000 as four octal digits.
pub fn octal4_text(n: u32) -> (r: String)
    requires
        n < 4096,
    ensures
        r@ == octal4(n as int),
{
    let mut s = String::new();
    s.push(digit((n / 512 % 8) as u8));
    s.push(digit((n / 64 % 8) as u8));
    s.push(digit((n / 8 % 8) as u8));
    s.push(digit((n % 8) as u8));
    assert(s@ =~= octal4(n as int));
    s
}

// ---------------------------------------------------------------------------
// Parsing
// ---------------------------------------------------------------------------

/// The value of a character as a digit: 0 to 9, then the letters in either case.
pub open spec fn digit_of(c: char, radix: int) -> Option<int> {
    let v = if '0' <= c <= '9' {
        c as int - '0' as int
    } else if 'a' <= c <= 'z' {
        c as int - 'a' as int + 10
    } else if 'A' <= c <= 'Z' {
        c as int - 'A' as int + 10
    } else {
        radix
    };
    if v < radix {
        Some(v)
    } else {
        None
    }
}

/// The value of a row of digits, or `None` where a character is no digit.
pub open spec fn digits_value(s: Seq<char>, radix: int) -> Option<int>
    decreases s.len(),
{
    if s.len() == 0 {
        Some(0)
    } else {
        match (digits_value(s.drop_last(), radix), digit_of(s.last(), radix)) {
            (Some(v), Some(d)) => Some(v * radix + d),
            _ => None,
        }
    }
}

/// The number that `s` writes: digits, with or without a plus sign before them, of a
/// value of at most `max`.
pub open spec fn parse_uint(s: Seq<char>, radix: int, max: int) -> Option<int> {
    let digits = if s.len() > 0 && s[0] == '+' {
        s.skip(1)
    } else {
        s
    };
    if digits.len() == 0 {
        None
    } else {
        match digits_value(digits, radix) {
            Some(v) => if v <= max {
                Some(v)
            } else {
                None
            },
            None => None,
        }
    }
}

/// The decimal number that `s` writes, of the range of `i32`: digits, with or without
/// one sign before them.
pub open spec fn parse_int32(s: Seq<char>) -> Option<int> {
    if s.len() > 0 && s[0] == '-' {
        if s.len() == 1 {
            None
        } else {
            match digits_value(s.skip(1), 10) {
                Some(v) => if v <= 0x8000_0000 {
                    Some(-v)
                } else {
                    None
                },
                None => None,
            }
        }
    } else {
        parse_uint(s, 10, i32::MAX as int)
    }
}

/// The value of a longer row of digits is at least that of a shorter one it starts with.
proof fn lemma_digits_prefix(s: Seq<char>, radix: int, n: int)
    requires
        0 <= n <= s.len(),
        radix >= 1,
        digits_value(s, radix) is Some,
    ensures
        digits_value(s.take(n), radix) is Some,
        0 <= digits_value(s.take(n), radix)->0 <= digits_value(s, radix)->0,
    decreases s.len(),
{
    if n == s.len() {
        assert(s.take(n) =~= s);
        if s.len() > 0 {
            lemma_digits_prefix(s.drop_last(), radix, s.len() - 1);
            assert(s.drop_last().take(s.len() - 1) =~= s.drop_last());
            let v = digits_value(s.drop_last(), radix)->0;
            assert(v * radix >= 0) by (nonlinear_arith)
                requires
                    v >= 0,
                    radix >= 1,
            ;
        }
    } else {
        lemma_digits_prefix(s.drop_last(), radix, n);
        assert(s.drop_last().take(n) =~= s.take(n));
        let v = digits_value(s.drop_last(), radix)->0;
        lemma_digits_prefix(s.drop_last(), radix, s.len() - 1);
        assert(v * radix >= v) by (nonlinear_arith)
            requires
                v >= 0,
                radix >= 1,
        ;
    }
}

fn digit_value(c: char, radix: u64) -> (r: Option<u64>)
    requires
        2 <= radix <= 36,
    ensures
        match r {
            Some(d) => digit_of(c, radix as int) == Some(d as int) && d < radix,
            None => digit_of(c, radix as int) is None,
        },
{
    let v: u64 = if '0' <= c && c <= '9' {
        c as u64 - '0' as u64
    } else if 'a' <= c && c <= 'z' {
        c as u64 - 'a' as u64 + 10
    } else if 'A' <= c && c <= 'Z' {
        c as u64 - 'A' as u64 + 10
    } else {
        radix
    };
    if v < radix {
        Some(v)
    } else {
        None
    }
}

/// The value of the digits from `from` on, where it is at most `max`.
fn digits_from(cs: &Vec<char>, from: usize, radix: u64, max: u64) -> (r: Option<u64>)
    requires
        from <= cs@.len(),
        2 <= radix <= 36,
    ensures
        match r {
            Some(v) => digits_value(cs@.skip(from as int), radix as int) == Some(v as int) && v
                <= max,
            None => match digits_value(cs@.skip(from as int), radix as int) {
                Some(v) => v > max,
                None => true,
            },
        },
{
    let ghost digits = cs@.skip(from as int);
    let mut value: u64 = 0;
    let mut i: usize = from;
    assert(digits.take(0).len() == 0);
    while i < cs.len()
        invariant
            from <= i <= cs@.len(),
            2 <= radix <= 36,
            digits == cs@.skip(from as int),
            digits_value(digits.take(i - from), radix as int) == Some(value as int),
            value <= max,
        decreases cs@.len() - i,
    {
        proof {
            let next = digits.take(i - from + 1);
            assert(next.drop_last() =~= digits.take(i - from));
            assert(next.last() == cs@[i as int]);
            if digits_value(digits, radix as int) is Some {
                lemma_digits_prefix(digits, radix as int, i - from + 1);
            }
        }
        match digit_value(cs[i], radix) {
            Some(d) => {
                assert(value as u128 * radix as u128 + d as u128 <= u128::MAX) by (nonlinear_arith)
                    requires
                        value <= u64::MAX,
                        radix <= 36,
                        d < 36,
                ;
                let wide: u128 = value as u128 * radix as u128 + d as u128;
                if wide > max as u128 {
                    return None;
                }
                value = wide as u64;
            },
            None => {
                return None;
            },
        }
        i += 1;
    }
    assert(digits.take(i - from) =~= digits);
    Some(value)
}

/// The number that `s` writes, as `parse_uint` says.
pub fn parse_uint_text(s: &str, radix: u64, max: u64) -> (r: Option<u64>)
    requires
        2 <= radix <= 36,
    ensures
        match r {
            Some(v) => parse_uint(s@, radix as int, max as int) == Some(v as int) && v <= max,
            None => parse_uint(s@, radix as int, max as int) is None,
        },
{
    let cs = chars_of(s);
    let from: usize = if cs.len() > 0 && cs[0] == '+' {
        1
    } else {
        0
    };
    assert(cs@.skip(0) =~= cs@);
    if from == cs.len() {
        return None;
    }
    digits_from(&cs, from, radix, max)
}

/// The decimal number of the range of `u64` that `s` writes.
pub fn parse_u64(s: &str) -> (r: Option<u64>)
    ensures
        match r {
            Some(v) => parse_uint(s@, 10, u64::MAX as int) == Some(v as int),
            None => parse_uint(s@, 10, u64::MAX as int) is None,
        },
{
    parse_uint_text(s, 10, u64::MAX)
}

/// The number of the range of `u32` that `s` writes.
pub fn parse_u32(s: &str, radix: u64) -> (r: Option<u32>)
    requires
        2 <= radix <= 36,
    ensures
        match r {
            Some(v) => parse_uint(s@, radix as int, u32::MAX as int) == Some(v as int),
            None => parse_uint(s@, radix as int, u32::MAX as int) is None,
        },
{
    match parse_uint_text(s, radix, u32::MAX as u64) {
        Some(v) => Some(v as u32),
        None => None,
    }
}

/// The decimal number of the range of `i32` that `s` writes.
pub fn parse_i32(s: &str) -> (r: Option<i32>)
    ensures
        match r {
            Some(v) => parse_int32(s@) == Some(v as int),
            None => parse_int32(s@) is None,
        },
{
    let cs = chars_of(s);
    if cs.len() > 0 && cs[0] == '-' {
        if cs.len() == 1 {
            return None;
        }
        match digits_from(&cs, 1, 10, 0x8000_0000) {
            Some(v) => Some((-(v as i64)) as i32),
            None => None,
        }
    } else {
        match parse_uint_text(s, 10, i32::MAX as u64) {
            Some(v) => Some(v as i32),
            None => None,
        }
    }
}

/// Reading back the decimal text of a number gives the number, wherever it fits.
pub proof fn lemma_decimal_reads_back(n: int, max: int)
    requires
        0 <= n <= max,
    ensures
        parse_uint(decimal(n), 10, max) == Some(n),
{
    lemma_decimal_digits(n);
}

/// Reading back the text of a number of the range of `i32` gives the number.
pub proof fn lemma_signed_reads_back(n: i32)
    ensures
        parse_int32(signed_decimal(n as int)) == Some(n as int),
{
    if n < 0 {
        lemma_decimal_digits(-(n as int));
        let s = signed_decimal(n as int);
        assert(s.skip(1) =~= decimal(-(n as int)));
    } else {
        lemma_decimal_digits(n as int);
    }
}

/// The text of a number consists of digits of its value.
pub proof fn lemma_decimal_digits(n: int)
    requires
        0 <= n,
    ensures
        decimal(n).len() > 0,
        digits_value(decimal(n), 10) == Some(n),
        forall|i: int| 0 <= i < decimal(n).len() ==> '0' <= #[trigger] decimal(n)[i] <= '9',
    decreases n,
{
    let s = decimal(n);
    if n < 10 {
        assert(s.drop_last().len() == 0);
        assert(digits_value(s.drop_last(), 10) == Some(0int));
        assert(s.last() == digit_char(n));
    } else {
        lemma_decimal_digits(n / 10);
        assert(s.drop_last() =~= decimal(n / 10));
        assert(s.last() == digit_char(n % 10));
    }
}

// ---------------------------------------------------------------------------
// Rounded sizes
// ---------------------------------------------------------------------------

/// `num / den` to the nearest whole number; of two that are equally near, the even one.
pub open spec fn round_half_even(num: int, den: int) -> int {
    let q = num / den;
    let r = num % den;
    if 2 * r < den {
        q
    } else if 2 * r > den {
        q + 1
    } else if q % 2 == 0 {
        q
    } else {
        q + 1
    }
}

/// The distance between neighbouring double-precision numbers at `b`, which is at least
/// one: numbers below 2^53 are held exactly.
pub open spec fn double_unit(b: int) -> int
    decreases b,
{
    if b < 0x20_0000_0000_0000 {
        1
    } else {
        2 * double_unit(b / 2)
    }
}

/// The double-precision number nearest to `b`.
pub open spec fn nearest_double(b: int) -> int {
    round_half_even(b, double_unit(b)) * double_unit(b)
}

/// Tenths as text, with one digit behind the point.
pub open spec fn tenths(n: int) -> Seq<char> {
    decimal(n / 10) + "."@ + decimal(n % 10)
}

/// Hundredths as text, with two digits behind the point.
pub open spec fn hundredths(n: int) -> Seq<char> {
    decimal(n / 100) + "."@ + seq![digit_char(n / 10 % 10), digit_char(n % 10)]
}

fn rounded(num: u128, den: u128) -> (r: u128)
    requires
        den > 0,
        num < u128::MAX,
    ensures
        r == round_half_even(num as int, den as int),
        r <= num / den + 1,
{
    let q: u128 = num / den;
    let r: u128 = num % den;
    proof {
        assert(q <= num) by (nonlinear_arith)
            requires
                q == num / den,
                den > 0,
        ;
    }
    if r < den - r {
        q
    } else if r > den - r {
        q + 1
    } else if q % 2 == 0 {
        q
    } else {
        q + 1
    }
}

fn unit_of(b: u64) -> (r: u64)
    ensures
        r == double_unit(b as int),
        r == 1 || r * 0x10_0000_0000_0000 <= b,
        r >= 1,
    decreases b,
{
    if b < 0x20_0000_0000_0000 {
        1
    } else {
        2 * unit_of(b / 2)
    }
}

/// The double-precision number nearest to `b`.
fn double_of(b: u64) -> (r: u128)
    ensures
        r == nearest_double(b as int),
        r <= 0x1_0000_0000_0000_0000 * 2,
{
    let unit: u128 = unit_of(b) as u128;
    let q: u128 = rounded(b as u128, unit);
    proof {
        assert(q * unit <= b + unit) by (nonlinear_arith)
            requires
                q <= b as u128 / unit + 1,
                unit >= 1,
                b >= 0,
        ;
        assert(unit <= b + 1);
    }
    q * unit
}

fn tenths_text(n: u64) -> (r: String)
    ensures
        r@ == tenths(n as int),
{
    cat3(decimal_text(n / 10).as_str(), ".", decimal_text(n % 10).as_str())
}

fn hundredths_text(n: u64) -> (r: String)
    ensures
        r@ == hundredths(n as int),
{
    let mut s = cat2(decimal_text(n / 100).as_str(), ".");
    let ghost whole = s@;
    s.push(digit((n / 10 % 10) as u8));
    s.push(digit((n % 10) as u8));
    assert(s@ =~= whole + seq![digit_char(n as int / 10 % 10), digit_char(n as int % 10)]);
    s
}

/// A number of bytes: as it is below 1024, then in KB and MB with one digit behind the
/// point, then in GB with two.
pub open spec fn human_bytes_text(b: int) -> Seq<char> {
    if b >= 0x4000_0000 {
        hundredths(round_half_even(nearest_double(b) * 100, 0x4000_0000)) + "GB"@
    } else if b >= 0x10_0000 {
        tenths(round_half_even(b * 10, 0x10_0000)) + "MB"@
    } else if b >= 1024 {
        tenths(round_half_even(b * 10, 1024)) + "KB"@
    } else {
        decimal(b) + "B"@
    }
}

/// A number of kilobytes: as it is below 1024, then in whole MB, then in GB with one
/// digit behind the point.
pub open spec fn human_kb_text(kb: int) -> Seq<char> {
    if kb >= 0x10_0000 {
        tenths(round_half_even(nearest_double(kb) * 10, 0x10_0000)) + "GB"@
    } else if kb >= 1024 {
        decimal(round_half_even(kb, 1024)) + "MB"@
    } else {
        decimal(kb) + "KB"@
    }
}

/// The text of a number of bytes.
pub fn human_bytes(b: u64) -> (r: String)
    ensures
        r@ == human_bytes_text(b as int),
{
    if b >= 0x4000_0000 {
        let n: u128 = rounded(double_of(b) * 100, 0x4000_0000);
        cat2(hundredths_text(n as u64).as_str(), "GB")
    } else if b >= 0x10_0000 {
        let n: u128 = rounded(b as u128 * 10, 0x10_0000);
        cat2(tenths_text(n as u64).as_str(), "MB")
    } else if b >= 1024 {
        let n: u128 = rounded(b as u128 * 10, 1024);
        cat2(tenths_text(n as u64).as_str(), "KB")
    } else {
        cat2(decimal_text(b).as_str(), "B")
    }
}

/// The text of a number of kilobytes.
pub fn human_kb(kb: u64) -> (r: String)
    ensures
        r@ == human_kb_text(kb as int),
{
    if kb >= 0x10_0000 {
        let n: u128 = rounded(double_of(kb) * 10, 0x10_0000);
        cat2(tenths_text(n as u64).as_str(), "GB")
    } else if kb >= 1024 {
        let n: u128 = rounded(kb as u128, 1024);
        cat2(decimal_text(n as u64).as_str(), "MB")
    } else {
        cat2(decimal_text(kb).as_str(), "KB")
    }
}

} // verus!
