//! Decimal numerals: writing unsigned numbers and reading them back.
use vstd::prelude::*;

use crate::text::{to_chars, to_text};

verus! {

/// The character of a decimal digit.
pub open spec fn digit(d: int) -> char {
    (48 + d) as char
}

/// The lower case hexadecimal digit of a number below sixteen.
pub open spec fn hex_lower(d: int) -> char {
    if d < 10 {
        (48 + d) as char
    } else {
        (87 + d) as char
    }
}

/// The decimal numeral of `n`, without leading zeros.
pub open spec fn decimal(n: nat) -> Seq<char>
    decreases n,
{
    if n < 10 {
        seq![digit(n as int)]
    } else {
        decimal(n / 10).push(digit((n % 10) as int))
    }
}

/// Every character is a decimal digit.
pub open spec fn all_digits(s: Seq<char>) -> bool {
    forall|i: int| 0 <= i < s.len() ==> '0' <= #[trigger] s[i] <= '9'
}

/// The number that a sequence of digits stands for.
pub open spec fn digits_value(s: Seq<char>) -> nat
    decreases s.len(),
{
    if s.len() == 0 {
        0
    } else {
        10 * digits_value(s.drop_last()) + (s.last() as nat - 48) as nat
    }
}

/// A numeral without the plus sign that may open it.
pub open spec fn unsigned_part(s: Seq<char>) -> Seq<char> {
    if s.len() > 0 && s[0] == '+' {
        s.drop_first()
    } else {
        s
    }
}

/// The number that a numeral stands for: at least one digit, after an optional
/// plus sign, and no more than `max`.
pub open spec fn parsed_number(s: Seq<char>, max: nat) -> Option<nat> {
    let digits = unsigned_part(s);
    if digits.len() > 0 && all_digits(digits) && digits_value(digits) <= max {
        Some(digits_value(digits))
    } else {
        None
    }
}

/// More digits never make a smaller number.
proof fn lemma_value_grows(s: Seq<char>, n: int)
    requires
        all_digits(s),
        0 <= n <= s.len(),
    ensures
        digits_value(s.take(n)) <= digits_value(s),
    decreases s.len(),
{
    if n == s.len() {
        assert(s.take(n) == s);
    } else {
        lemma_value_grows(s.drop_last(), n);
        assert(s.drop_last().take(n) == s.take(n));
    }
}

/// Reading a written number gives it back.
pub proof fn lemma_decimal_round_trip(n: nat)
    ensures
        decimal(n).len() > 0,
        all_digits(decimal(n)),
        digits_value(decimal(n)) == n,
        unsigned_part(decimal(n)) == decimal(n),
        forall|max: nat| n <= max ==> #[trigger] parsed_number(decimal(n), max) == Some(n),
    decreases n,
{
    let s = decimal(n);
    if n < 10 {
        assert(s.drop_last() == Seq::<char>::empty());
        assert(digits_value(s.drop_last()) == 0);
    } else {
        lemma_decimal_round_trip(n / 10);
        assert(s.drop_last() == decimal(n / 10));
    }
    assert('0' <= s[0] <= '9');
}

/// The decimal numeral of `n`.
pub fn decimal_text(n: u64) -> (r: String)
    ensures
        r@ == decimal(n as nat),
{
    let mut reversed: Vec<char> = Vec::new();
    let mut rest: u64 = n;
    while rest >= 10
        invariant
            decimal(n as nat) == decimal(rest as nat) + reversed@.reverse(),
        decreases rest,
    {
        let d = (rest % 10) as u8;
        let ghost before = reversed@;
        reversed.push((48 + d) as char);
        proof {
            let tail = seq![digit(d as int)] + before.reverse();
            assert(reversed@.reverse() == tail);
            assert(decimal(rest as nat) == decimal((rest / 10) as nat).push(digit(d as int)));
            assert(decimal((rest / 10) as nat).push(digit(d as int)) + before.reverse() == decimal(
                (rest / 10) as nat,
            ) + tail);
        }
        rest = rest / 10;
    }
    let ghost before = reversed@;
    reversed.push((48 + rest as u8) as char);
    proof {
        assert(reversed@.reverse() == seq![digit(rest as int)] + before.reverse());
    }
    let mut out: Vec<char> = Vec::new();
    let count = reversed.len();
    for i in 0..count
        invariant
            count == reversed@.len(),
            out@ == reversed@.reverse().take(i as int),
    {
        out.push(reversed[count - 1 - i]);
    }
    assert(reversed@.reverse().take(count as int) == reversed@.reverse());
    to_text(out.as_slice())
}

/// The number that a numeral stands for, if it is no more than `max`.
pub fn parse_number(s: &[char], max: u64) -> (r: Option<u64>)
    ensures
        match r {
            Some(n) => parsed_number(s@, max as nat) == Some(n as nat),
            None => parsed_number(s@, max as nat) is None,
        },
{
    let n = s.len();
    let start: usize = if n > 0 && s[0] == '+' {
        1
    } else {
        0
    };
    let ghost digits = unsigned_part(s@);
    assert(digits == s@.skip(start as int));
    if start == n {
        return None;
    }
    let mut value: u64 = 0;
    assert(digits.take(0) == Seq::<char>::empty());
    for i in start..n
        invariant
            start < n == s@.len(),
            digits == unsigned_part(s@),
            digits == s@.skip(start as int),
            forall|j: int| 0 <= j < i - start ==> '0' <= #[trigger] digits[j] <= '9',
            value as nat == digits_value(digits.take(i - start)),
            value <= max,
    {
        let c = s[i];
        assert(digits[i - start] == c);
        if c < '0' || c > '9' {
            assert(!all_digits(digits));
            return None;
        }
        let ghost next = digits.take(i - start + 1);
        assert(next.drop_last() == digits.take(i - start));
        let d = c as u64 - 48;
        proof {
            if all_digits(digits) {
                lemma_value_grows(digits, i - start + 1);
            }
        }
        if value > (u64::MAX - d) / 10 {
            assert(10 * digits_value(digits.take(i - start)) + d > u64::MAX);
            return None;
        }
        value = value * 10 + d;
        if value > max {
            return None;
        }
    }
    assert(digits.take(n - start) == digits);
    assert(all_digits(digits));
    Some(value)
}

/// The number in a string, if it is no more than `max`.
pub fn parse_text(s: &str, max: u64) -> (r: Option<u64>)
    ensures
        match r {
            Some(n) => parsed_number(s@, max as nat) == Some(n as nat),
            None => parsed_number(s@, max as nat) is None,
        },
{
    let chars = to_chars(s);
    parse_number(chars.as_slice(), max)
}

/// A number is written with its decimal digits, the highest first and without leading
/// zeros, and read back as itself.
pub proof fn law_numbers_are_written_in_decimal(n: nat, max: nat)
    ensures
        all_digits(decimal(n)),
        digits_value(decimal(n)) == n,
        decimal(n)[0] == '0' ==> n == 0 && decimal(n).len() == 1,
        n <= max ==> parsed_number(decimal(n), max) == Some(n),
        n > max ==> parsed_number(decimal(n), max) is None,
    decreases n,
{
    lemma_decimal_round_trip(n);
    if n >= 10 {
        law_numbers_are_written_in_decimal(n / 10, max);
        lemma_decimal_round_trip(n / 10);
        assert(decimal(n)[0] == decimal(n / 10)[0]);
    }
}

/// A numeral is read as the number that its digits write, from the highest to the
/// lowest, with a plus sign before them or without. What is empty, or holds anything
/// else, or writes more than the greatest number that is wanted, is none.
pub proof fn law_numerals_are_read(digits: Seq<char>, last: char, other: Seq<char>, max: nat)
    requires
        all_digits(digits),
        '0' <= last <= '9',
    ensures
        digits_value(digits.push(last)) == 10 * digits_value(digits) + (last as int - 48),
        digits_value(Seq::empty()) == 0,
        digits.len() > 0 ==> parsed_number(digits, max) == if digits_value(digits) <= max {
            Some(digits_value(digits))
        } else {
            None
        },
        digits.len() > 0 ==> parsed_number(seq!['+'] + digits, max) == parsed_number(digits, max),
        parsed_number(Seq::empty(), max) is None,
        parsed_number(seq!['+'], max) is None,
        parsed_number(other, max) is Some ==> other.len() > 0 && (all_digits(other) || (other[0]
            == '+' && other.len() > 1 && all_digits(other.drop_first()))),
{
    let more = digits.push(last);
    assert(more.drop_last() =~= digits);
    if digits.len() > 0 {
        assert('0' <= digits[0] <= '9');
        let signed = seq!['+'] + digits;
        assert(signed.drop_first() =~= digits);
    }
    assert(seq!['+'].drop_first() =~= Seq::<char>::empty());
}

} // verus!
