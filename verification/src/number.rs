//! Numbers as text: decimal, padded and hexadecimal.

use vstd::prelude::*;
use crate::text::chars_of;

verus! {

// ---------------------------------------------------------------------------
// Decimal

/// The decimal digit of `n`.
pub open spec fn digit(n: int) -> char
    recommends
        0 <= n < 10,
{
    ('0' as int + n) as char
}

/// `n` in decimal, without leading zeros.
pub open spec fn decimal(n: nat) -> Seq<char>
    decreases n,
{
    if n < 10 {
        seq![digit(n as int)]
    } else {
        decimal(n / 10).push(digit((n % 10) as int))
    }
}

/// `n` in decimal, with a minus sign before a negative number.
pub open spec fn signed_decimal(n: int) -> Seq<char> {
    if n < 0 {
        seq!['-'] + decimal((-n) as nat)
    } else {
        decimal(n as nat)
    }
}

/// `n` in decimal, with a leading zero where it has one digit only.
pub open spec fn two_digits(n: nat) -> Seq<char> {
    if n < 10 {
        seq!['0'] + decimal(n)
    } else {
        decimal(n)
    }
}

/// Decimal digits and nothing else.
pub open spec fn all_digits(s: Seq<char>) -> bool {
    forall|i: int| 0 <= i < s.len() ==> '0' <= #[trigger] s[i] <= '9'
}

/// The number that decimal digits stand for.
pub open spec fn value(s: Seq<char>) -> nat
    decreases s.len(),
{
    if s.len() == 0 {
        0
    } else {
        value(s.drop_last()) * 10 + (s.last() as int - '0' as int) as nat
    }
}

/// The number that `s` stands for: decimal digits, at least one, behind a plus
/// sign or none, of a number that 64 bits hold.
pub open spec fn parsed(s: Seq<char>) -> Option<u64> {
    let t = if s.len() > 0 && s[0] == '+' {
        s.drop_first()
    } else {
        s
    };
    if t.len() > 0 && all_digits(t) && value(t) <= u64::MAX {
        Some(value(t) as u64)
    } else {
        None
    }
}

/// The decimal digit of `n`.
fn digit_char(n: u64) -> (c: char)
    requires
        n < 10,
    ensures
        c == digit(n as int),
{
    if n == 0 {
        '0'
    } else if n == 1 {
        '1'
    } else if n == 2 {
        '2'
    } else if n == 3 {
        '3'
    } else if n == 4 {
        '4'
    } else if n == 5 {
        '5'
    } else if n == 6 {
        '6'
    } else if n == 7 {
        '7'
    } else if n == 8 {
        '8'
    } else {
        '9'
    }
}

/// `n` in decimal.
pub fn to_decimal(n: u64) -> (text: String)
    ensures
        text@ == decimal(n as nat),
    decreases n,
{
    if n < 10 {
        let mut text: String = String::new();
        text.push(digit_char(n));
        text
    } else {
        let mut text: String = to_decimal(n / 10);
        text.push(digit_char(n % 10));
        text
    }
}

/// `n` in decimal, with a minus sign before a negative number.
pub fn to_signed_decimal(n: i32) -> (text: String)
    ensures
        text@ == signed_decimal(n as int),
{
    if n < 0 {
        let mut text: String = String::new();
        text.push('-');
        let size: u64 = (-(n as i64)) as u64;
        text.append(to_decimal(size).as_str());
        text
    } else {
        to_decimal(n as u64)
    }
}

/// `n` in decimal, with a leading zero where it has one digit only.
pub fn to_two_digits(n: u64) -> (text: String)
    ensures
        text@ == two_digits(n as nat),
{
    if n < 10 {
        let mut text: String = String::new();
        text.push('0');
        text.append(to_decimal(n).as_str());
        text
    } else {
        to_decimal(n)
    }
}

/// A longer number is not smaller.
proof fn lemma_value_grows(s: Seq<char>, i: int)
    requires
        0 <= i <= s.len(),
        all_digits(s),
    ensures
        value(s.take(i)) <= value(s),
    decreases s.len() - i,
{
    if i < s.len() {
        let t = s.take(i + 1);
        assert(t.drop_last() == s.take(i));
        assert('0' <= s[i] <= '9');
        assert(t.last() == s[i]);
        lemma_value_grows(s, i + 1);
    } else {
        assert(s.take(i) == s);
    }
}

/// Reads a number: decimal digits, at least one, behind a plus sign or none.
pub fn parse_u64(text: &str) -> (n: Option<u64>)
    ensures
        n == parsed(text@),
{
    let chars: Vec<char> = chars_of(text);
    let mut from: usize = 0;
    if chars.len() > 0 && chars[0] == '+' {
        from = 1;
    }
    let ghost t = text@.skip(from as int);
    proof {
        if from == 1 {
            assert(t == text@.drop_first());
        } else {
            assert(t == text@);
        }
    }
    if from == chars.len() {
        return None;
    }
    let mut n: u64 = 0;
    let mut i: usize = from;
    assert(t.take(0).len() == 0);
    while i < chars.len()
        invariant
            from <= i <= chars.len(),
            chars@ == text@,
            t == text@.skip(from as int),
            t.len() > 0,
            parsed(text@) == (if all_digits(t) && value(t) <= u64::MAX {
                Some(value(t) as u64)
            } else {
                None
            }),
            all_digits(t.take(i - from)),
            n == value(t.take(i - from)),
        decreases chars.len() - i,
    {
        let c: char = chars[i];
        if c < '0' || '9' < c {
            assert(t[i - from] == c);
            return None;
        }
        let d: u64 = (c as u32 - '0' as u32) as u64;
        proof {
            let next = t.take(i - from + 1);
            assert(next.drop_last() == t.take(i - from));
            assert(next.last() == c);
            assert(value(next) == n * 10 + d);
            assert forall|k: int| 0 <= k < next.len() implies '0' <= #[trigger] next[k] <= '9' by {
                if k < i - from {
                    assert(next[k] == t.take(i - from)[k]);
                }
            }
            if value(next) > u64::MAX && all_digits(t) {
                lemma_value_grows(t, i - from + 1);
            }
        }
        if n > 1844674407370955161 || (n == 1844674407370955161 && d > 5) {
            return None;
        }
        n = n * 10 + d;
        i = i + 1;
    }
    assert(t.take(i - from) == t);
    Some(n)
}

/// Decimal text is made of digits, starts with a zero only for zero itself,
/// and stands for the number that was written.
pub proof fn lemma_decimal(n: nat)
    ensures
        decimal(n).len() > 0,
        all_digits(decimal(n)),
        decimal(n)[0] == '0' <==> n == 0,
        value(decimal(n)) == n,
    decreases n,
{
    if n < 10 {
        assert(decimal(n).drop_last().len() == 0);
        assert(value(decimal(n).drop_last()) == 0);
    } else {
        lemma_decimal(n / 10);
        assert(decimal(n).drop_last() == decimal(n / 10));
        assert forall|i: int| 0 <= i < decimal(n).len() implies '0' <= #[trigger] decimal(n)[i]
            <= '9' by {
            if i < decimal(n / 10).len() {
                assert(decimal(n)[i] == decimal(n / 10)[i]);
            }
        }
    }
}

/// A number that is written and read again is the same number.
pub proof fn law_number_is_read_back(n: u64)
    ensures
        parsed(decimal(n as nat)) == Some(n),
{
    lemma_decimal(n as nat);
    assert('0' <= decimal(n as nat)[0]);
}

/// Two numbers that are written alike are the same number.
pub proof fn law_decimal_is_unique(a: nat, b: nat)
    requires
        decimal(a) == decimal(b),
    ensures
        a == b,
{
    lemma_decimal(a);
    lemma_decimal(b);
}

// ---------------------------------------------------------------------------
// Hexadecimal

/// The upper case hexadecimal digit of `n`.
pub open spec fn hex_digit(n: int) -> char
    recommends
        0 <= n < 16,
{
    if n < 10 {
        digit(n)
    } else {
        ('A' as int + n - 10) as char
    }
}

/// Two upper case hexadecimal digits for each byte, in order.
pub open spec fn hex(bytes: Seq<u8>) -> Seq<char> {
    Seq::new(
        2 * bytes.len(),
        |i: int|
            if i % 2 == 0 {
                hex_digit(bytes[i / 2] as int / 16)
            } else {
                hex_digit(bytes[i / 2] as int % 16)
            },
    )
}

/// The upper case hexadecimal digit of `n`.
fn hex_char(n: u8) -> (c: char)
    requires
        n < 16,
    ensures
        c == hex_digit(n as int),
{
    if n < 10 {
        digit_char(n as u64)
    } else if n == 10 {
        'A'
    } else if n == 11 {
        'B'
    } else if n == 12 {
        'C'
    } else if n == 13 {
        'D'
    } else if n == 14 {
        'E'
    } else {
        'F'
    }
}

/// Two upper case hexadecimal digits for each byte, in order.
pub fn to_hex(bytes: &[u8]) -> (text: String)
    ensures
        text@ == hex(bytes@),
{
    let mut text: String = String::new();
    let mut i: usize = 0;
    while i < bytes.len()
        invariant
            i <= bytes.len(),
            text@ == hex(bytes@.take(i as int)),
        decreases bytes.len() - i,
    {
        let ghost before = text@;
        text.push(hex_char(bytes[i] / 16));
        text.push(hex_char(bytes[i] % 16));
        proof {
            let next = hex(bytes@.take(i + 1));
            assert forall|k: int| 0 <= k < next.len() implies text@[k] == next[k] by {
                if k < 2 * i {
                    assert(text@[k] == before[k]);
                    assert(bytes@.take(i + 1)[k / 2] == bytes@.take(i as int)[k / 2]);
                }
            }
            assert(text@ =~= next);
        }
        i = i + 1;
    }
    assert(bytes@.take(i as int) == bytes@);
    text
}

/// A hexadecimal digit.
pub open spec fn is_hex_digit(c: char) -> bool {
    '0' <= c <= '9' || 'A' <= c <= 'F'
}

/// Bytes are written as twice as many hexadecimal digits.
pub proof fn law_hex_digits(bytes: Seq<u8>)
    ensures
        hex(bytes).len() == 2 * bytes.len(),
        forall|i: int| 0 <= i < hex(bytes).len() ==> is_hex_digit(#[trigger] hex(bytes)[i]),
{
}

/// Two byte sequences that are written alike are the same.
pub proof fn law_hex_is_unique(a: Seq<u8>, b: Seq<u8>)
    requires
        hex(a) == hex(b),
    ensures
        a == b,
{
    assert(hex(a).len() == 2 * a.len());
    assert(hex(b).len() == 2 * b.len());
    assert forall|i: int| 0 <= i < a.len() implies a[i] == b[i] by {
        let even = 2 * i;
        let odd = 2 * i + 1;
        assert(even % 2 == 0 && even / 2 == i && odd % 2 == 1 && odd / 2 == i);
        assert(hex(a)[even] == hex_digit(a[i] as int / 16));
        assert(hex(b)[even] == hex_digit(b[i] as int / 16));
        assert(hex(a)[odd] == hex_digit(a[i] as int % 16));
        assert(hex(b)[odd] == hex_digit(b[i] as int % 16));
        lemma_hex_digit_is_unique(a[i] as int / 16, b[i] as int / 16);
        lemma_hex_digit_is_unique(a[i] as int % 16, b[i] as int % 16);
    }
    assert(a =~= b);
}

/// Two numbers with the same hexadecimal digit are the same.
proof fn lemma_hex_digit_is_unique(a: int, b: int)
    requires
        0 <= a < 16,
        0 <= b < 16,
        hex_digit(a) == hex_digit(b),
    ensures
        a == b,
{
}

// ---------------------------------------------------------------------------
// Laws on the form of numbers

/// A number is written digit by digit: one more digit stands for ten times the
/// number, and that digit.
pub proof fn law_decimal_grows_by_digits(n: nat, d: nat)
    requires
        d < 10,
    ensures
        decimal(d).len() == 1,
        decimal(d)[0] as int == 48 + d,
        n > 0 ==> decimal(10 * n + d) == decimal(n) + decimal(d),
{
    if n > 0 {
        let m: nat = 10 * n + d;
        assert(m / 10 == n && m % 10 == d) by (nonlinear_arith)
            requires
                m == 10 * n + d,
                d < 10,
        ;
        assert(decimal(m) =~= decimal(n) + decimal(d));
    }
}

/// A number below zero is written with a minus sign, and no other is.
pub proof fn law_sign_is_written(n: int)
    ensures
        n >= 0 ==> signed_decimal(n) == decimal(n as nat),
        n < 0 ==> signed_decimal(n) == seq!['-'] + decimal((-n) as nat),
{
}

/// Two digits are written where the number has one or two, and no more than it
/// has where it has more.
pub proof fn law_two_digits_at_least(tens: nat, ones: nat)
    requires
        ones < 10,
    ensures
        tens < 10 ==> two_digits(10 * tens + ones) == decimal(tens) + decimal(ones),
        tens >= 10 ==> two_digits(10 * tens + ones) == decimal(10 * tens + ones),
{
    law_decimal_grows_by_digits(tens, ones);
    if tens == 0 {
        law_decimal_grows_by_digits(1, 0);
        assert(decimal(0) =~= seq!['0']);
    }
}

/// The value of digits that are written behind a zero is their own.
proof fn lemma_leading_zero(t: Seq<char>)
    ensures
        value(seq!['0'] + t) == value(t),
    decreases t.len(),
{
    let s = seq!['0'] + t;
    if t.len() == 0 {
        assert(s.drop_last() =~= Seq::<char>::empty());
        assert(value(s.drop_last()) == 0);
    } else {
        assert(s.drop_last() =~= seq!['0'] + t.drop_last());
        lemma_leading_zero(t.drop_last());
    }
}

/// What is read as a number: the decimal form of any number that 64 bits hold,
/// with a plus sign before it or not, and with zeros before it or not; nothing
/// that is too large, and nothing that holds anything else.
#[verifier::rlimit(30)]
pub proof fn law_numbers_are_read(n: nat, zeros: nat, other: Seq<char>, i: int)
    ensures
        n <= u64::MAX ==> parsed(Seq::new(zeros, |k: int| '0') + decimal(n)) == Some(n as u64),
        n <= u64::MAX ==> parsed(seq!['+'] + decimal(n)) == Some(n as u64),
        n > u64::MAX ==> parsed(decimal(n)) is None,
        parsed(Seq::empty()) is None,
        parsed(seq!['+']) is None,
        0 <= i < other.len() && !('0' <= other[i] <= '9') && !(i == 0 && other[0] == '+')
            ==> parsed(other) is None,
    decreases zeros,
{
    lemma_decimal(n);
    let d = decimal(n);
    assert('0' <= d[0] <= '9');
    let plus = seq!['+'] + d;
    assert(plus.drop_first() =~= d);
    assert(seq!['+'].drop_first() =~= Seq::<char>::empty());
    let padded = Seq::new(zeros, |k: int| '0') + d;
    if zeros == 0 {
        assert(padded =~= d);
    } else {
        let less = Seq::new((zeros - 1) as nat, |k: int| '0') + d;
        law_numbers_are_read(n, (zeros - 1) as nat, other, i);
        assert(padded =~= seq!['0'] + less);
        lemma_leading_zero(less);
        assert forall|k: int| 0 <= k < padded.len() implies '0' <= #[trigger] padded[k] <= '9' by {
            if k >= zeros {
                assert(padded[k] == d[k - zeros]);
            }
        }
        assert forall|k: int| 0 <= k < less.len() implies '0' <= #[trigger] less[k] <= '9' by {
            if k >= zeros - 1 {
                assert(less[k] == d[k - zeros + 1]);
            }
        }
        lemma_padded_value(zeros, d);
    }
    if 0 <= i < other.len() && !('0' <= other[i] <= '9') && !(i == 0 && other[0] == '+') {
        if other[0] == '+' {
            let t = other.drop_first();
            assert(t[i - 1] == other[i]);
        }
    }
}

/// Zeros before digits do not change their value.
proof fn lemma_padded_value(zeros: nat, t: Seq<char>)
    ensures
        value(Seq::new(zeros, |k: int| '0') + t) == value(t),
    decreases zeros,
{
    let padded = Seq::new(zeros, |k: int| '0') + t;
    if zeros == 0 {
        assert(padded =~= t);
    } else {
        let less = Seq::new((zeros - 1) as nat, |k: int| '0') + t;
        lemma_padded_value((zeros - 1) as nat, t);
        assert(padded =~= seq!['0'] + less);
        lemma_leading_zero(less);
    }
}

/// The number that a hexadecimal digit stands for.
pub open spec fn nibble(c: char) -> int {
    if '0' <= c <= '9' {
        c as int - 48
    } else {
        c as int - 55
    }
}

/// Bytes are read back from their hexadecimal digits, two for each byte.
pub proof fn law_bytes_are_read_back(bytes: Seq<u8>, i: int)
    requires
        0 <= i < bytes.len(),
    ensures
        hex(bytes).len() == 2 * bytes.len(),
        nibble(hex(bytes)[2 * i]) * 16 + nibble(hex(bytes)[2 * i + 1]) == bytes[i],
{
    let even = 2 * i;
    let odd = 2 * i + 1;
    assert(even % 2 == 0 && even / 2 == i && odd % 2 == 1 && odd / 2 == i);
    assert(hex(bytes)[even] == hex_digit(bytes[i] as int / 16));
    assert(hex(bytes)[odd] == hex_digit(bytes[i] as int % 16));
}

} // verus!
