//! Decimal numerals: writing an unsigned or signed integer as text and reading
//! an unsigned one back from the front of a character sequence.
use vstd::prelude::*;

verus! {

/// Whether `c` is one of the ten ASCII decimal digits.
pub open spec fn is_digit(c: char) -> bool {
    '0' <= c && c <= '9'
}

/// The digit character that stands for `d`, for `d` below ten.
pub open spec fn digit_char(d: nat) -> char
    recommends
        d < 10,
{
    ((d + 48) as u8) as char
}

/// The number that the digit character `c` stands for.
pub open spec fn digit_val(c: char) -> nat
    recommends
        is_digit(c),
{
    (c as u32 - 48) as nat
}

/// The decimal numeral of `n`: most significant digit first, no leading zero
/// except for zero itself.
pub open spec fn decimal(n: nat) -> Seq<char>
    decreases n,
{
    if n < 10 {
        seq![digit_char(n)]
    } else {
        decimal(n / 10).push(digit_char(n % 10))
    }
}

/// The decimal numeral of a possibly negative `v`: a minus sign in front of
/// the numeral of its magnitude when `v` is negative.
pub open spec fn signed_decimal(v: int) -> Seq<char> {
    if v < 0 {
        seq!['-'] + decimal((-v) as nat)
    } else {
        decimal(v as nat)
    }
}

/// The number that a run of digits denotes; zero for the empty run.
pub open spec fn digits_value(s: Seq<char>) -> nat
    decreases s.len(),
{
    if s.len() == 0 {
        0
    } else {
        digits_value(s.drop_last()) * 10 + digit_val(s.last())
    }
}

/// The length of the longest prefix of `s` that consists of digits.
pub open spec fn digit_run(s: Seq<char>) -> nat
    decreases s.len(),
{
    if s.len() > 0 && is_digit(s[0]) {
        1 + digit_run(s.drop_first())
    } else {
        0
    }
}

/// Reading a number off the front of `s`: the longest run of digits there must
/// not be empty and must denote a number of at most `max`. The result is that
/// number and what follows the run.
pub open spec fn read_number(s: Seq<char>, max: nat) -> Option<(nat, Seq<char>)> {
    let k = digit_run(s) as int;
    let v = digits_value(s.take(k));
    if k == 0 || v > max {
        None
    } else {
        Some((v, s.skip(k)))
    }
}

/// A numeral is never empty and holds digits only.
pub proof fn lemma_decimal_is_digits(n: nat)
    ensures
        decimal(n).len() >= 1,
        forall|i: int| 0 <= i < decimal(n).len() ==> is_digit(#[trigger] decimal(n)[i]),
    decreases n,
{
    if n >= 10 {
        lemma_decimal_is_digits(n / 10);
    }
}

/// A numeral denotes the number it was written for.
pub proof fn lemma_decimal_value(n: nat)
    ensures
        digits_value(decimal(n)) == n,
    decreases n,
{
    if n < 10 {
        assert(digits_value(decimal(n).drop_last()) == 0);
    } else {
        lemma_decimal_value(n / 10);
        assert(decimal(n).drop_last() =~= decimal(n / 10));
    }
}

/// The digit run of `s` has length `k` when the first `k` characters are
/// digits and the one after them, if any, is not.
pub proof fn lemma_digit_run(s: Seq<char>, k: int)
    requires
        0 <= k <= s.len(),
        forall|i: int| 0 <= i < k ==> is_digit(#[trigger] s[i]),
        k == s.len() || !is_digit(s[k]),
    ensures
        digit_run(s) == k,
    decreases k,
{
    if k > 0 {
        lemma_digit_run(s.drop_first(), k - 1);
    }
}

/// The digit run of `s` is at least `k` long when the first `k` characters
/// are digits.
pub proof fn lemma_digit_run_at_least(s: Seq<char>, k: int)
    requires
        0 <= k <= s.len(),
        forall|i: int| 0 <= i < k ==> is_digit(#[trigger] s[i]),
    ensures
        digit_run(s) >= k,
        digit_run(s) <= s.len(),
    decreases s.len(),
{
    if s.len() > 0 && is_digit(s[0]) {
        if k > 0 {
            lemma_digit_run_at_least(s.drop_first(), k - 1);
        } else {
            lemma_digit_run_at_least(s.drop_first(), 0);
        }
    }
}

/// A longer prefix of a sequence denotes at least as much as a shorter one.
pub proof fn lemma_digits_value_grows(s: Seq<char>, i: int, j: int)
    requires
        0 <= i <= j <= s.len(),
    ensures
        digits_value(s.take(i)) <= digits_value(s.take(j)),
    decreases j - i,
{
    if i < j {
        lemma_digits_value_grows(s, i, j - 1);
        assert(s.take(j).drop_last() =~= s.take(j - 1));
        assert(digits_value(s.take(j - 1)) * 10 >= digits_value(s.take(j - 1))) by (nonlinear_arith);
    }
}

/// Reading gives back what was written: in front of a tail that does not go
/// on with a digit, the numeral of `n` is read as `n`, and the tail is left.
pub proof fn lemma_read_decimal(n: nat, tail: Seq<char>, max: nat)
    requires
        n <= max,
        tail.len() == 0 || !is_digit(tail[0]),
    ensures
        read_number(decimal(n) + tail, max) == Some((n, tail)),
{
    let d = decimal(n);
    let s = d + tail;
    lemma_decimal_is_digits(n);
    lemma_decimal_value(n);
    assert forall|i: int| 0 <= i < d.len() implies is_digit(#[trigger] s[i]) by {
    }
    lemma_digit_run(s, d.len() as int);
    assert(s.take(d.len() as int) =~= d);
}

/// The character for the digit `d`.
pub fn digit_of(d: u8) -> (c: char)
    requires
        d < 10,
    ensures
        c == digit_char(d as nat),
{
    (d + 48) as char
}

/// The value of `c` if it is a digit.
pub fn digit_value(c: char) -> (d: Option<u8>)
    ensures
        d is Some <==> is_digit(c),
        d matches Some(v) ==> v == digit_val(c) && v < 10,
{
    let u: u32 = c as u32;
    if 48 <= u && u <= 57 {
        Some((u - 48) as u8)
    } else {
        None
    }
}

/// Appends the decimal numeral of `n` to `out`.
pub fn push_decimal(out: &mut String, n: u64)
    ensures
        final(out)@ == old(out)@ + decimal(n as nat),
    decreases n,
{
    if n >= 10 {
        push_decimal(out, n / 10);
    }
    out.push(digit_of((n % 10) as u8));
}

/// Appends the decimal numeral of `v`, with a minus sign if it is negative.
pub fn push_signed_decimal(out: &mut String, v: i32)
    ensures
        final(out)@ == old(out)@ + signed_decimal(v as int),
{
    if v < 0 {
        out.push('-');
        let magnitude: u64 = (-(v as i64)) as u64;
        push_decimal(out, magnitude);
    } else {
        push_decimal(out, v as u64);
    }
}

/// Reads a number off `chars` at `start`. Gives the number and the index of
/// the first character after its digits, or `None` when no digit stands at
/// `start` or the digits denote more than a `u64` holds.
pub fn read_number_at(chars: &Vec<char>, start: usize) -> (r: Option<(u64, usize)>)
    requires
        start <= chars.len(),
    ensures
        match r {
            Some((v, end)) => {
                &&& start < end <= chars.len()
                &&& read_number(chars@.skip(start as int), u64::MAX as nat) == Some(
                    (v as nat, chars@.skip(end as int)),
                )
            },
            None => read_number(chars@.skip(start as int), u64::MAX as nat) is None,
        },
{
    let ghost s = chars@.skip(start as int);
    let mut i: usize = start;
    let mut acc: u64 = 0;
    while i < chars.len()
        invariant
            start <= i <= chars.len(),
            s == chars@.skip(start as int),
            forall|j: int| 0 <= j < i - start ==> is_digit(#[trigger] s[j]),
            acc == digits_value(s.take(i - start)),
        ensures
            i == chars.len() || !is_digit(chars@[i as int]),
        decreases chars.len() - i,
    {
        match digit_value(chars[i]) {
            None => {
                break ;
            },
            Some(d) => {
                proof {
                    assert(s.take(i - start + 1).drop_last() =~= s.take(i - start));
                }
                if acc > (u64::MAX - d as u64) / 10 {
                    proof {
                        lemma_digit_run_at_least(s, i - start + 1);
                        lemma_digits_value_grows(s, i - start + 1, digit_run(s) as int);
                    }
                    return None;
                }
                acc = acc * 10 + d as u64;
                i = i + 1;
            },
        }
    }
    proof {
        lemma_digit_run(s, i - start);
    }
    if i == start {
        None
    } else {
        Some((acc, i))
    }
}

} // verus!
