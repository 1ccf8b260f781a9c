//! Decimal numbers in text: reading an integer from a string and writing one
//! to a string.

use crate::text::to_chars;
use vstd::prelude::*;

verus! {

/// The ASCII decimal digits.
pub open spec fn is_digit(c: char) -> bool {
    '0' <= c <= '9'
}

/// The value of a decimal digit.
pub open spec fn digit_value(c: char) -> nat {
    (c as int - '0' as int) as nat
}

/// Every character of `s` is a decimal digit.
pub open spec fn all_digits(s: Seq<char>) -> bool {
    forall|i: int| 0 <= i < s.len() ==> is_digit(#[trigger] s[i])
}

/// The number that the digits of `s` write in base ten.
pub open spec fn digits_value(s: Seq<char>) -> nat
    decreases s.len(),
{
    if s.len() == 0 {
        0
    } else {
        digits_value(s.drop_last()) * 10 + digit_value(s.last())
    }
}

/// What is left of `s` after an optional sign: a leading `+`, and a leading
/// `-` too where `signed` holds.
pub open spec fn after_sign(s: Seq<char>, signed: bool) -> Seq<char> {
    if s.len() > 0 && (s[0] == '+' || (signed && s[0] == '-')) {
        s.skip(1)
    } else {
        s
    }
}

/// The unsigned 32-bit number that `s` writes: an optional `+`, then one or
/// more decimal digits and nothing else, with a value that fits the type.
pub open spec fn parse_u32(s: Seq<char>) -> Option<u32> {
    let digits = after_sign(s, false);
    if digits.len() > 0 && all_digits(digits) && digits_value(digits) <= u32::MAX {
        Some(digits_value(digits) as u32)
    } else {
        None
    }
}

/// The signed 32-bit number that `s` writes: an optional `+` or `-`, then
/// one or more decimal digits and nothing else, with a value that fits the
/// type.
pub open spec fn parse_i32(s: Seq<char>) -> Option<i32> {
    let digits = after_sign(s, true);
    let value = if s.len() > 0 && s[0] == '-' {
        -(digits_value(digits) as int)
    } else {
        digits_value(digits) as int
    };
    if digits.len() > 0 && all_digits(digits) && i32::MIN <= value <= i32::MAX {
        Some(value as i32)
    } else {
        None
    }
}

/// The value of a digit string is at least the value of each of its prefixes.
pub proof fn lemma_digits_value_prefix(s: Seq<char>, k: int)
    requires
        all_digits(s),
        0 <= k <= s.len(),
    ensures
        digits_value(s.take(k)) <= digits_value(s),
    decreases s.len(),
{
    if k == s.len() {
        assert(s.take(k) =~= s);
    } else {
        lemma_digits_value_prefix(s.drop_last(), k);
        assert(s.drop_last().take(k) =~= s.take(k));
    }
}

/// Reads `chars[from..]` as a run of decimal digits with a value of at most
/// `limit`.
fn read_digits(chars: &Vec<char>, from: usize, limit: u64) -> (r: Option<u64>)
    requires
        from <= chars.len(),
        limit <= 0x1_0000_0000,
    ensures
        ({
            let digits = chars@.skip(from as int);
            r == if digits.len() > 0 && all_digits(digits) && digits_value(digits) <= limit {
                Some(digits_value(digits) as u64)
            } else {
                None
            }
        }),
{
    let ghost digits = chars@.skip(from as int);
    if from == chars.len() {
        return None;
    }
    let mut value: u64 = 0;
    let mut i: usize = from;
    while i < chars.len()
        invariant
            from <= i <= chars.len(),
            digits == chars@.skip(from as int),
            all_digits(digits.take(i - from)),
            value == digits_value(digits.take(i - from)),
            value <= limit <= 0x1_0000_0000,
        decreases chars.len() - i,
    {
        let c = chars[i];
        let ghost k = i - from;
        assert(digits[k] == c);
        if !('0' <= c && c <= '9') {
            return None;
        }
        let d: u64 = (c as u32 - '0' as u32) as u64;
        proof {
            assert(digits.take(k + 1).drop_last() =~= digits.take(k));
            assert(digits.take(k + 1).last() == c);
            assert(d == digit_value(c));
            assert forall|j: int| 0 <= j < k + 1 implies is_digit(
                #[trigger] digits.take(k + 1)[j],
            ) by {
                if j < k {
                    assert(digits.take(k)[j] == digits[j]);
                }
            }
        }
        let next: u64 = value * 10 + d;
        if next > limit {
            proof {
                if all_digits(digits) {
                    lemma_digits_value_prefix(digits, k + 1);
                }
            }
            return None;
        }
        value = next;
        i += 1;
    }
    assert(digits.take(i - from) =~= digits);
    Some(value)
}

/// Reads an unsigned 32-bit decimal number.
pub fn str_to_u32(s: &str) -> (r: Option<u32>)
    ensures
        r == parse_u32(s@),
{
    let chars = to_chars(s);
    let from: usize = if chars.len() > 0 && chars[0] == '+' {
        1
    } else {
        0
    };
    assert(chars@.skip(0) =~= chars@);
    match read_digits(&chars, from, 0xffff_ffff) {
        Some(value) => Some(value as u32),
        None => None,
    }
}

/// Reads a signed 32-bit decimal number.
pub fn str_to_i32(s: &str) -> (r: Option<i32>)
    ensures
        r == parse_i32(s@),
{
    let chars = to_chars(s);
    let negative = chars.len() > 0 && chars[0] == '-';
    let from: usize = if chars.len() > 0 && (chars[0] == '+' || chars[0] == '-') {
        1
    } else {
        0
    };
    assert(chars@.skip(0) =~= chars@);
    if negative {
        match read_digits(&chars, from, 0x8000_0000) {
            Some(value) => Some((0 - value as i64) as i32),
            None => None,
        }
    } else {
        match read_digits(&chars, from, 0x7fff_ffff) {
            Some(value) => Some(value as i32),
            None => None,
        }
    }
}

/// The character that writes the digit `d`.
pub open spec fn digit_char(d: nat) -> char {
    ('0' as int + d) as char
}

/// The decimal digits of `n`, the most significant first, without leading
/// zeros.
pub open spec fn decimal_digits(n: nat) -> Seq<char>
    decreases n,
{
    if n < 10 {
        seq![digit_char(n)]
    } else {
        decimal_digits(n / 10).push(digit_char(n % 10))
    }
}

/// The integer `n` written in base ten, with a leading `-` where it is
/// negative.
pub open spec fn decimal(n: int) -> Seq<char> {
    if n < 0 {
        seq!['-'] + decimal_digits((-n) as nat)
    } else {
        decimal_digits(n as nat)
    }
}

/// What `decimal_digits` gives is one or more decimal digits, and their
/// value is the number.
pub proof fn lemma_decimal_digits(n: nat)
    ensures
        decimal_digits(n).len() > 0,
        all_digits(decimal_digits(n)),
        digits_value(decimal_digits(n)) == n,
    decreases n,
{
    let s = decimal_digits(n);
    assert(digit_value(digit_char(n % 10)) == n % 10);
    assert(s.last() == digit_char(n % 10));
    if n >= 10 {
        lemma_decimal_digits(n / 10);
        assert(s.drop_last() =~= decimal_digits(n / 10));
    } else {
        assert(s.drop_last() =~= Seq::<char>::empty());
        assert(digits_value(s.drop_last()) == 0);
    }
}

/// A written number begins with `-` where it is negative, and with a digit
/// where it is not.
pub proof fn lemma_decimal_begins(n: int)
    ensures
        decimal(n).len() > 0,
        n < 0 ==> decimal(n)[0] == '-' && decimal(n).skip(1) == decimal_digits((-n) as nat),
        n >= 0 ==> is_digit(decimal(n)[0]),
{
    if n < 0 {
        lemma_decimal_digits((-n) as nat);
        assert(decimal(n).skip(1) =~= decimal_digits((-n) as nat));
    } else {
        lemma_decimal_digits(n as nat);
    }
}

/// The character of one decimal digit.
fn digit_to_char(d: u8) -> (c: char)
    requires
        d < 10,
    ensures
        c == digit_char(d as nat),
{
    (d + 48) as char
}

/// Appends `n`, written in base ten, to `out`.
pub fn push_decimal(out: &mut String, n: i64)
    ensures
        final(out)@ == old(out)@ + decimal(n as int),
{
    let mut rest: u64 = if n < 0 {
        out.push('-');
        (0 - (n + 1)) as u64 + 1
    } else {
        n as u64
    };
    let ghost magnitude: nat = rest as nat;
    let ghost head = out@;
    assert(old(out)@ + decimal(n as int) =~= head + decimal_digits(magnitude));
    // the digits, the least significant first
    let mut low: Vec<char> = Vec::new();
    while rest >= 10
        invariant
            decimal_digits(magnitude) == decimal_digits(rest as nat) + low@.reverse(),
        decreases rest,
    {
        let c = digit_to_char((rest % 10) as u8);
        proof {
            assert(low@.push(c).reverse() =~= seq![c] + low@.reverse());
            assert(decimal_digits(rest as nat) == decimal_digits((rest / 10) as nat).push(c));
            assert(decimal_digits((rest / 10) as nat).push(c) + low@.reverse()
                =~= decimal_digits((rest / 10) as nat) + (seq![c] + low@.reverse()));
        }
        low.push(c);
        rest = rest / 10;
    }
    out.push(digit_to_char(rest as u8));
    let mut i: usize = low.len();
    while i > 0
        invariant
            i <= low.len(),
            out@ == head + decimal_digits(rest as nat) + low@.reverse().take(low.len() - i),
        decreases i,
    {
        i -= 1;
        out.push(low[i]);
        proof {
            let r = low@.reverse();
            assert(r.take(low.len() - i) =~= r.take(low.len() - i - 1).push(low[i as int]));
        }
    }
    assert(low@.reverse().take(low.len() as int) =~= low@.reverse());
}

} // verus!
