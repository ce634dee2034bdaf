//! What writing and reading numbers is for: a number is read back from its digits, in either
//! base, and rounded sizes are as near as their digits allow.

use crate::number;
use vstd::prelude::*;

verus! {

/// The digits of a number in base 16, in capitals or not.
pub open spec fn hex(n: int, capitals: bool) -> Seq<char>
    decreases n,
{
    let d = n % 16;
    let c = if d < 10 {
        ('0' as u32 + d) as char
    } else if capitals {
        ('A' as u32 + (d - 10)) as char
    } else {
        ('a' as u32 + (d - 10)) as char
    };
    if n < 16 {
        seq![c]
    } else {
        hex(n / 16, capitals).push(c)
    }
}

/// So many zeros.
pub open spec fn zeros(k: nat) -> Seq<char> {
    Seq::new(k, |i: int| '0')
}

/// The characters that are digits, and what each is worth.
pub proof fn lemma_digits(c: char)
    ensures
        number::digit_of(c, 10) == if '0' <= c && c <= '9' {
            Some(c as int - 48)
        } else {
            None::<int>
        },
        number::digit_of(c, 16) == if '0' <= c && c <= '9' {
            Some(c as int - 48)
        } else if 'A' <= c && c <= 'F' {
            Some(c as int - 55)
        } else if 'a' <= c && c <= 'f' {
            Some(c as int - 87)
        } else {
            None::<int>
        },
{
}

proof fn lemma_hex_value(n: int, capitals: bool)
    requires
        0 <= n,
    ensures
        hex(n, capitals).len() > 0,
        number::digits_value(hex(n, capitals), 16) == Some(n),
        hex(n, capitals)[0] != '+',
    decreases n,
{
    let s = hex(n, capitals);
    lemma_digits(s.last());
    if n < 16 {
        assert(s.drop_last().len() == 0);
        assert(number::digits_value(s.drop_last(), 16) == Some(0int));
    } else {
        lemma_hex_value(n / 16, capitals);
        assert(s.drop_last() =~= hex(n / 16, capitals));
    }
}

/// The digits in base 16 are digits and the letters up to the sixth.
pub proof fn lemma_hex_characters(n: int, capitals: bool)
    requires
        0 <= n,
    ensures
        forall|i: int|
            0 <= i < hex(n, capitals).len() ==> {
                ||| '0' <= #[trigger] hex(n, capitals)[i] <= '9'
                ||| 'a' <= hex(n, capitals)[i] <= 'f'
                ||| 'A' <= hex(n, capitals)[i] <= 'F'
            },
    decreases n,
{
    let s = hex(n, capitals);
    let d = n % 16;
    let c = s.last();
    assert('0' <= c <= '9' || 'a' <= c <= 'f' || 'A' <= c <= 'F');
    if n >= 16 {
        lemma_hex_characters(n / 16, capitals);
        assert forall|i: int| 0 <= i < s.len() implies {
            ||| '0' <= #[trigger] s[i] <= '9'
            ||| 'a' <= s[i] <= 'f'
            ||| 'A' <= s[i] <= 'F'
        } by {
            if i < s.len() - 1 {
                assert(s[i] == hex(n / 16, capitals)[i]);
            }
        }
    }
}

/// Digits have no negative value.
pub proof fn lemma_not_negative(s: Seq<char>, radix: int)
    requires
        radix >= 1,
        number::digits_value(s, radix) is Some,
    ensures
        number::digits_value(s, radix)->0 >= 0,
    decreases s.len(),
{
    if s.len() > 0 {
        lemma_not_negative(s.drop_last(), radix);
        let v = number::digits_value(s.drop_last(), radix)->0;
        assert(v * radix >= 0) by (nonlinear_arith)
            requires
                v >= 0,
                radix >= 1,
        ;
    }
}

proof fn lemma_leading_zeros(k: nat, s: Seq<char>, radix: int)
    requires
        radix >= 2,
    ensures
        number::digits_value(zeros(k) + s, radix) == number::digits_value(s, radix),
    decreases s.len(), k,
{
    let all = zeros(k) + s;
    if s.len() > 0 {
        assert(all.drop_last() =~= zeros(k) + s.drop_last());
        assert(all.last() == s.last());
        lemma_leading_zeros(k, s.drop_last(), radix);
    } else if k > 0 {
        let fewer = (k - 1) as nat;
        assert(all.drop_last() =~= zeros(fewer) + s);
        assert(all.last() == '0');
        lemma_leading_zeros(fewer, s, radix);
        assert(number::digits_value(s, radix) == Some(0int));
        assert(0 * radix == 0);
    } else {
        assert(all =~= s);
    }
}

/// A number is read back from its decimal digits, however many zeros stand before them and
/// whether or not there is a plus sign. One that is too great is no number.
pub proof fn lemma_decimal_is_read(k: nat, n: int, max: int)
    requires
        0 <= n,
    ensures
        number::parse_uint(zeros(k) + number::decimal(n), 10, max) == if n <= max {
            Some(n)
        } else {
            None::<int>
        },
        number::parse_uint(seq!['+'] + number::decimal(n), 10, max) == if n <= max {
            Some(n)
        } else {
            None::<int>
        },
        number::parse_uint(number::decimal(n), 10, max) == if n <= max {
            Some(n)
        } else {
            None::<int>
        },
{
    let digits = number::decimal(n);
    let s = zeros(k) + digits;
    number::lemma_decimal_digits(n);
    lemma_leading_zeros(k, digits, 10);
    assert('0' <= digits[0] <= '9');
    assert(s[0] != '+');
    assert((seq!['+'] + digits).skip(1) =~= digits);
}

/// A number is read back from its digits in base 16, in capitals or not, however many zeros
/// stand before them. One that is too great is no number.
pub proof fn lemma_hex_is_read(k: nat, n: int, capitals: bool, max: int)
    requires
        0 <= n,
    ensures
        number::parse_uint(zeros(k) + hex(n, capitals), 16, max) == if n <= max {
            Some(n)
        } else {
            None::<int>
        },
{
    let s = zeros(k) + hex(n, capitals);
    lemma_hex_value(n, capitals);
    lemma_leading_zeros(k, hex(n, capitals), 16);
    assert(s[0] != '+');
}

/// A signed number of the range of `i32` is read back from its text, and one beyond the
/// range is no number.
pub proof fn lemma_signed_is_read(n: int)
    ensures
        number::parse_int32(number::signed_decimal(n)) == if i32::MIN <= n && n <= i32::MAX {
            Some(n)
        } else {
            None::<int>
        },
{
    if n < 0 {
        number::lemma_decimal_digits(-n);
        assert(number::signed_decimal(n).skip(1) =~= number::decimal(-n));
    } else {
        number::lemma_decimal_digits(n);
        assert('0' <= number::decimal(n)[0] <= '9');
    }
}

proof fn lemma_every_digit(s: Seq<char>, radix: int, i: int)
    requires
        number::digits_value(s, radix) is Some,
        0 <= i < s.len(),
    ensures
        number::digit_of(s[i], radix) is Some,
    decreases s.len(),
{
    if i < s.len() - 1 {
        lemma_every_digit(s.drop_last(), radix, i);
        assert(s.drop_last()[i] == s[i]);
    }
}

/// What is read as a number is digits alone, with or without a plus sign before them, and
/// has at least one.
pub proof fn lemma_only_digits_are_read(s: Seq<char>, radix: int, max: int)
    requires
        radix == 10 || radix == 16,
        number::parse_uint(s, radix, max) is Some,
    ensures
        0 <= number::parse_uint(s, radix, max)->0 <= max,
        s.len() > 0,
        s[0] == '+' ==> s.len() > 1,
        forall|i: int|
            0 < i < s.len() || (i == 0 && s[0] != '+') ==> {
                ||| '0' <= #[trigger] s[i] <= '9'
                ||| radix == 16 && ('a' <= s[i] <= 'f' || 'A' <= s[i] <= 'F')
            },
{
    let signed = s.len() > 0 && s[0] == '+';
    let digits = if signed {
        s.skip(1)
    } else {
        s
    };
    lemma_not_negative(digits, radix);
    assert forall|i: int|
        0 < i < s.len() || (i == 0 && s[0] != '+') implies {
        ||| '0' <= #[trigger] s[i] <= '9'
        ||| radix == 16 && ('a' <= s[i] <= 'f' || 'A' <= s[i] <= 'F')
    } by {
        let at = if signed {
            i - 1
        } else {
            i
        };
        assert(digits[at] == s[i]);
        lemma_every_digit(digits, radix, at);
        lemma_digits(s[i]);
    }
}

/// Digits are appended from the left: ten times a number and a digit is written as the
/// number and the digit, without zeros before them.
pub proof fn lemma_decimal_grows(n: int, d: int)
    requires
        0 <= d <= 9,
    ensures
        number::decimal(d).len() == 1,
        number::decimal(d)[0] as int == 48 + d,
        n > 0 ==> number::decimal(n * 10 + d) == number::decimal(n) + number::decimal(d),
{
    if n > 0 {
        assert((n * 10 + d) / 10 == n);
        assert((n * 10 + d) % 10 == d);
        assert(number::decimal(n).push(number::digit_char(d)) =~= number::decimal(n)
            + number::decimal(d));
    }
}

/// Different numbers have different texts.
pub proof fn lemma_decimal_tells_apart(a: int, b: int)
    requires
        0 <= a,
        0 <= b,
        number::decimal(a) == number::decimal(b),
    ensures
        a == b,
{
    number::lemma_decimal_digits(a);
    number::lemma_decimal_digits(b);
}

/// The four octal digits of a mode have its value.
pub proof fn lemma_octal_value(n: int, a: int, b: int, c: int, d: int)
    requires
        0 <= a < 8,
        0 <= b < 8,
        0 <= c < 8,
        0 <= d < 8,
        n == a * 512 + b * 64 + c * 8 + d,
    ensures
        number::octal4(n) == number::decimal(a) + number::decimal(b) + number::decimal(c)
            + number::decimal(d),
{
    assert(n / 512 == a);
    assert(n / 64 == a * 8 + b);
    assert(n / 8 == a * 64 + b * 8 + c);
    assert(n / 512 % 8 == a);
    assert(n / 64 % 8 == b);
    assert(n / 8 % 8 == c);
    assert(n % 8 == d);
    assert(number::octal4(n) =~= number::decimal(a) + number::decimal(b) + number::decimal(c)
        + number::decimal(d));
}

/// The number is at most half of `den` away from `num / den`, and even where it is just half.
pub open spec fn is_nearest(q: int, num: int, den: int) -> bool {
    &&& 2 * num <= 2 * q * den + den
    &&& 2 * q * den <= 2 * num + den
    &&& (2 * num == 2 * q * den + den || 2 * q * den == 2 * num + den) ==> q % 2 == 0
}

proof fn lemma_rounded(num: int, den: int)
    requires
        den > 0,
    ensures
        is_nearest(number::round_half_even(num, den), num, den),
{
    let q = num / den;
    let r = num % den;
    assert(num == q * den + r && 0 <= r && r < den) by (nonlinear_arith)
        requires
            q == num / den,
            r == num % den,
            den > 0,
    ;
    assert((q + 1) * den == q * den + den) by (nonlinear_arith);
    let n = number::round_half_even(num, den);
    assert(2 * n * den == 2 * (n * den)) by (nonlinear_arith);
}

/// Below 1024 bytes are shown as they are, and below a gigabyte with the tenth that is
/// nearest, in the greatest unit that they reach.
pub proof fn lemma_bytes_are_shown(b: int)
    requires
        0 <= b,
    ensures
        b < 1024 ==> number::human_bytes_text(b) == number::decimal(b) + "B"@,
        1024 <= b < 0x10_0000 ==> exists|t: int|
            is_nearest(t, b * 10, 1024) && number::human_bytes_text(b) == #[trigger] number::decimal(
                t / 10,
            ) + "."@ + number::decimal(t % 10) + "KB"@,
        0x10_0000 <= b < 0x4000_0000 ==> exists|t: int|
            is_nearest(t, b * 10, 0x10_0000) && number::human_bytes_text(b)
                == #[trigger] number::decimal(t / 10) + "."@ + number::decimal(t % 10) + "MB"@,
{
    if 1024 <= b && b < 0x10_0000 {
        let t = number::round_half_even(b * 10, 1024);
        lemma_rounded(b * 10, 1024);
        assert(number::human_bytes_text(b) == number::decimal(t / 10) + "."@ + number::decimal(
            t % 10,
        ) + "KB"@);
    } else if 0x10_0000 <= b && b < 0x4000_0000 {
        let t = number::round_half_even(b * 10, 0x10_0000);
        lemma_rounded(b * 10, 0x10_0000);
        assert(number::human_bytes_text(b) == number::decimal(t / 10) + "."@ + number::decimal(
            t % 10,
        ) + "MB"@);
    }
}

/// From a gigabyte on, as long as a number of bytes is held exactly, it is shown with the
/// hundredth of a gigabyte that is nearest, in two digits.
pub proof fn lemma_gigabytes_are_shown(b: int)
    requires
        0x4000_0000 <= b < 0x20_0000_0000_0000,
    ensures
        exists|t: int|
            is_nearest(t, b * 100, 0x4000_0000) && number::human_bytes_text(b)
                == #[trigger] number::decimal(t / 100) + "."@ + (number::decimal(t / 10 % 10)
                + number::decimal(t % 10)) + "GB"@,
{
    let t = number::round_half_even(b * 100, 0x4000_0000);
    lemma_rounded(b * 100, 0x4000_0000);
    lemma_exact(b);
    assert(seq![number::digit_char(t / 10 % 10), number::digit_char(t % 10)] =~= number::decimal(
        t / 10 % 10,
    ) + number::decimal(t % 10));
    assert(number::human_bytes_text(b) == number::decimal(t / 100) + "."@ + (number::decimal(
        t / 10 % 10,
    ) + number::decimal(t % 10)) + "GB"@);
}

proof fn lemma_exact(b: int)
    requires
        0 <= b < 0x20_0000_0000_0000,
    ensures
        number::nearest_double(b) == b,
{
    assert(number::double_unit(b) == 1);
    assert(b / 1 == b && b % 1 == 0);
}

/// Below 1024 kilobytes are shown as they are, below a gigabyte in the nearest number of
/// megabytes, and beyond, as long as they are held exactly, with the nearest tenth of a
/// gigabyte.
pub proof fn lemma_kilobytes_are_shown(kb: int)
    requires
        0 <= kb < 0x20_0000_0000_0000,
    ensures
        kb < 1024 ==> number::human_kb_text(kb) == number::decimal(kb) + "KB"@,
        1024 <= kb < 0x10_0000 ==> exists|t: int|
            is_nearest(t, kb, 1024) && number::human_kb_text(kb) == #[trigger] number::decimal(t)
                + "MB"@,
        0x10_0000 <= kb ==> exists|t: int|
            is_nearest(t, kb * 10, 0x10_0000) && number::human_kb_text(kb)
                == #[trigger] number::decimal(t / 10) + "."@ + number::decimal(t % 10) + "GB"@,
{
    if 1024 <= kb && kb < 0x10_0000 {
        let t = number::round_half_even(kb, 1024);
        lemma_rounded(kb, 1024);
        assert(number::human_kb_text(kb) == number::decimal(t) + "MB"@);
    } else if 0x10_0000 <= kb {
        let t = number::round_half_even(kb * 10, 0x10_0000);
        lemma_rounded(kb * 10, 0x10_0000);
        lemma_exact(kb);
        assert(number::human_kb_text(kb) == number::decimal(t / 10) + "."@ + number::decimal(
            t % 10,
        ) + "GB"@);
    }
}

/// The double-precision number that stands for a greater one is a multiple of a power of
/// two that keeps 53 digits, and none is nearer.
pub proof fn lemma_double_is_near(b: int)
    requires
        0 <= b,
    ensures
        number::double_unit(b) >= 1,
        b >= 0x20_0000_0000_0000 ==> number::double_unit(b) * 0x10_0000_0000_0000 <= b
            && b < number::double_unit(b) * 0x20_0000_0000_0000,
        number::nearest_double(b) % number::double_unit(b) == 0,
        2 * b <= 2 * number::nearest_double(b) + number::double_unit(b),
        2 * number::nearest_double(b) <= 2 * b + number::double_unit(b),
    decreases b,
{
    if b >= 0x20_0000_0000_0000 {
        lemma_double_is_near(b / 2);
    }
    let unit = number::double_unit(b);
    let q = number::round_half_even(b, unit);
    lemma_rounded(b, unit);
    assert((q * unit) % unit == 0) by (nonlinear_arith)
        requires
            unit >= 1,
    ;
    assert(2 * q * unit == 2 * (q * unit)) by (nonlinear_arith);
}

/// From a gigabyte on, a number of bytes is shown with the hundredth that is nearest to the
/// double-precision number that stands for it, and a number of kilobytes with the nearest tenth.
pub proof fn lemma_great_sizes_are_shown(b: int)
    ensures
        b >= 0x4000_0000 ==> exists|t: int|
            is_nearest(t, number::nearest_double(b) * 100, 0x4000_0000)
                && number::human_bytes_text(b) == #[trigger] number::decimal(t / 100) + "."@ + (
            number::decimal(t / 10 % 10) + number::decimal(t % 10)) + "GB"@,
        b >= 0x10_0000 ==> exists|t: int|
            is_nearest(t, number::nearest_double(b) * 10, 0x10_0000) && number::human_kb_text(b)
                == #[trigger] number::decimal(t / 10) + "."@ + number::decimal(t % 10) + "GB"@,
{
    let x = number::nearest_double(b);
    if b >= 0x4000_0000 {
        let t = number::round_half_even(x * 100, 0x4000_0000);
        lemma_rounded(x * 100, 0x4000_0000);
        assert(seq![number::digit_char(t / 10 % 10), number::digit_char(t % 10)]
            =~= number::decimal(t / 10 % 10) + number::decimal(t % 10));
        assert(number::human_bytes_text(b) == number::decimal(t / 100) + "."@ + (number::decimal(
            t / 10 % 10,
        ) + number::decimal(t % 10)) + "GB"@);
    }
    if b >= 0x10_0000 {
        let t = number::round_half_even(x * 10, 0x10_0000);
        lemma_rounded(x * 10, 0x10_0000);
        assert(number::human_kb_text(b) == number::decimal(t / 10) + "."@ + number::decimal(t % 10)
            + "GB"@);
    }
}

/// Of two double-precision numbers that are equally near, the one with the even last digit
/// stands for a number.
pub proof fn lemma_double_ties(b: int)
    requires
        0 <= b,
    ensures
        exists|q: int|
            #[trigger] is_nearest(q, b, number::double_unit(b)) && number::nearest_double(b) == q
                * number::double_unit(b),
{
    lemma_double_is_near(b);
    lemma_rounded(b, number::double_unit(b));
    assert(is_nearest(
        number::round_half_even(b, number::double_unit(b)),
        b,
        number::double_unit(b),
    ));
}

} // verus!
