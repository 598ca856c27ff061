//! Reading numbers out of text.
//!
//! A number is an optional `+` followed by at least one digit of the
//! radix, where the letters of either case stand for the digits from ten
//! on; the whole text has to be the number, and the number has to fit.

use vstd::prelude::*;

verus! {

/// The value of `c` as a digit, whatever the radix.
pub open spec fn digit_of(c: char) -> Option<int> {
    if '0' <= c <= '9' {
        Some(c as int - '0' as int)
    } else if 'a' <= c <= 'z' {
        Some(c as int - 'a' as int + 10)
    } else if 'A' <= c <= 'Z' {
        Some(c as int - 'A' as int + 10)
    } else {
        None
    }
}

/// Whether `c` is a digit of the radix.
pub open spec fn is_digit(c: char, radix: int) -> bool {
    digit_of(c) matches Some(d) && d < radix
}

/// Whether `s` holds digits of the radix and nothing else.
pub open spec fn all_digits(s: Seq<char>, radix: int) -> bool {
    forall|i: int| 0 <= i < s.len() ==> is_digit(#[trigger] s[i], radix)
}

/// The number that the digits of `s` write in the radix, most
/// significant digit first.
pub open spec fn digits_value(s: Seq<char>, radix: int) -> int
    decreases s.len(),
{
    if s.len() == 0 {
        0
    } else {
        digits_value(s.drop_last(), radix) * radix + digit_of(s.last()).unwrap()
    }
}

/// `s` without the one `+` that may stand in front of a number.
pub open spec fn unsigned_part(s: Seq<char>) -> Seq<char> {
    if s.len() > 0 && s[0] == '+' {
        s.drop_first()
    } else {
        s
    }
}

/// The number that `s` writes in the radix, if it writes one that fits.
pub open spec fn number_in(s: Seq<char>, radix: int) -> Option<usize> {
    let digits = unsigned_part(s);
    if digits.len() > 0 && all_digits(digits, radix) && digits_value(digits, radix) <= usize::MAX {
        Some(digits_value(digits, radix) as usize)
    } else {
        None
    }
}

/// A longer run of digits writes no smaller a number than its start.
pub proof fn lemma_digits_value_grows(s: Seq<char>, radix: int, n: int)
    requires
        radix >= 1,
        all_digits(s, radix),
        0 <= n <= s.len(),
    ensures
        0 <= digits_value(s.take(n), radix) <= digits_value(s, radix),
    decreases s.len(),
{
    if s.len() == 0 {
        assert(s.take(n) =~= s);
    } else if n == s.len() {
        assert(s.take(n) =~= s);
        lemma_digits_value_grows(s.drop_last(), radix, n - 1);
        assert(all_digits(s.drop_last(), radix));
        assert(is_digit(s.last(), radix));
        let front = digits_value(s.drop_last(), radix);
        assert(0 <= digits_value(s.drop_last().take(n - 1), radix) <= front);
        assert(front * radix >= 0) by (nonlinear_arith)
            requires
                front >= 0,
                radix >= 1,
        ;
    } else {
        assert(all_digits(s.drop_last(), radix));
        lemma_digits_value_grows(s.drop_last(), radix, n);
        assert(s.drop_last().take(n) =~= s.take(n));
        lemma_digits_value_grows(s.drop_last(), radix, s.len() - 1);
        assert(s.drop_last().take(s.len() - 1) =~= s.drop_last());
        assert(is_digit(s.last(), radix));
        let front = digits_value(s.drop_last(), radix);
        assert(front * radix >= front) by (nonlinear_arith)
            requires
                front >= 0,
                radix >= 1,
        ;
    }
}

/// The characters of `s`, one by one.
pub fn chars_of(s: &str) -> (chars: Vec<char>)
    ensures
        chars@ == s@,
{
    let n = s.unicode_len();
    let mut chars: Vec<char> = Vec::new();
    let mut i: usize = 0;
    while i < n
        invariant
            i <= n,
            n == s@.len(),
            chars@ == s@.take(i as int),
        decreases n - i,
    {
        chars.push(s.get_char(i));
        assert(s@.take(i + 1) =~= s@.take(i as int).push(s@[i as int]));
        i += 1;
    }
    assert(s@.take(n as int) =~= s@);
    chars
}

/// Whether two texts hold the same characters.
pub fn same_text(a: &str, b: &str) -> (same: bool)
    ensures
        same == (a@ == b@),
{
    let left = a.to_owned();
    let right = b.to_owned();
    left == right
}

/// The value of `c` as a digit of the radix.
pub fn digit(c: char, radix: usize) -> (value: Option<usize>)
    requires
        radix <= 36,
    ensures
        value is Some <==> is_digit(c, radix as int),
        value matches Some(d) ==> digit_of(c) == Some(d as int),
{
    let code = c as u32;
    let value: u32 = if '0' as u32 <= code && code <= '9' as u32 {
        code - '0' as u32
    } else if 'a' as u32 <= code && code <= 'z' as u32 {
        code - 'a' as u32 + 10
    } else if 'A' as u32 <= code && code <= 'Z' as u32 {
        code - 'A' as u32 + 10
    } else {
        return None;
    };
    if (value as usize) < radix {
        Some(value as usize)
    } else {
        None
    }
}

/// Reads the number that `chars[from..]` writes in the radix.
pub fn parse_number(chars: &Vec<char>, from: usize, radix: usize) -> (number: Option<usize>)
    requires
        from <= chars.len(),
        2 <= radix <= 36,
    ensures
        number == number_in(chars@.skip(from as int), radix as int),
{
    let ghost text = chars@.skip(from as int);
    let mut start = from;
    if start < chars.len() && chars[start] == '+' {
        start += 1;
    }
    let ghost digits = chars@.skip(start as int);
    assert(digits =~= unsigned_part(text));
    if start == chars.len() {
        return None;
    }
    let mut value: usize = 0;
    let mut i: usize = start;
    while i < chars.len()
        invariant
            start <= i <= chars.len(),
            2 <= radix <= 36,
            from <= start,
            digits == chars@.skip(start as int),
            digits == unsigned_part(chars@.skip(from as int)),
            all_digits(digits.take(i - start), radix as int),
            value == digits_value(digits.take(i - start), radix as int),
        decreases chars.len() - i,
    {
        let ghost sofar = digits.take(i - start);
        let ghost next = digits.take(i - start + 1);
        assert(next.drop_last() =~= sofar);
        assert(next.last() == chars@[i as int]);
        let d = match digit(chars[i], radix) {
            Some(d) => d,
            None => {
                assert(digits[i - start] == chars@[i as int]);
                assert(!all_digits(digits, radix as int));
                return None;
            },
        };
        assert(all_digits(next, radix as int)) by {
            assert forall|j: int| 0 <= j < next.len() implies is_digit(
                #[trigger] next[j],
                radix as int,
            ) by {
                if j < sofar.len() {
                    assert(next[j] == sofar[j]);
                }
            }
        }
        if value > (usize::MAX - d) / radix {
            proof {
                if all_digits(digits, radix as int) {
                    lemma_digits_value_grows(digits, radix as int, i - start + 1);
                }
                assert(value * radix + d > usize::MAX) by (nonlinear_arith)
                    requires
                        value > (usize::MAX - d) / (radix as int),
                        radix >= 1,
                        d <= usize::MAX,
                ;
                assert(digits_value(next, radix as int) == value * radix + d);
            }
            return None;
        }
        assert(value * radix + d <= usize::MAX) by (nonlinear_arith)
            requires
                value <= (usize::MAX - d) / (radix as int),
                radix >= 1,
                d <= usize::MAX,
        ;
        value = value * radix + d;
        i += 1;
    }
    assert(digits.take(chars.len() - start) =~= digits);
    Some(value)
}

} // verus!
