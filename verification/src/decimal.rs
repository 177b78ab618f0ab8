//! Decimal text of integers.

use vstd::prelude::*;

verus! {

/// The decimal digit of a value below ten.
pub open spec fn digit_char(value: nat) -> char {
    (48 + value) as char
}

/// The decimal digits of `value`, with no leading zero.
pub open spec fn digits_of(value: nat) -> Seq<char>
    decreases value,
{
    if value < 10 {
        seq![digit_char(value)]
    } else {
        digits_of(value / 10).push(digit_char(value % 10))
    }
}

/// The decimal text of an integer: its digits, after a minus sign where it is negative.
pub open spec fn int_text(value: int) -> Seq<char> {
    if value < 0 {
        seq!['-'] + digits_of((-value) as nat)
    } else {
        digits_of(value as nat)
    }
}

pub open spec fn is_digit(c: char) -> bool {
    '0' <= c <= '9'
}

/// At least one character, and every one a decimal digit.
pub open spec fn is_digits(text: Seq<char>) -> bool {
    &&& text.len() > 0
    &&& forall|i: int| 0 <= i < text.len() ==> is_digit(#[trigger] text[i])
}

/// The number that a sequence of decimal digits denotes.
pub open spec fn value_of(text: Seq<char>) -> nat
    decreases text.len(),
{
    if text.len() == 0 {
        0
    } else {
        value_of(text.drop_last()) * 10 + (text.last() as nat - 48) as nat
    }
}

/// Reading an unsigned number of at most `max`: digits, after an optional plus sign.
pub open spec fn spec_parse_unsigned(text: Seq<char>, max: nat) -> Option<nat> {
    let digits: Seq<char> = if text.len() > 0 && text[0] == '+' {
        text.skip(1)
    } else {
        text
    };
    if is_digits(digits) && value_of(digits) <= max {
        Some(value_of(digits))
    } else {
        None
    }
}

/// Reading a 64-bit signed number: digits, after an optional plus or minus sign.
pub open spec fn spec_parse_i64(text: Seq<char>) -> Option<int> {
    if text.len() > 0 && text[0] == '-' {
        let digits: Seq<char> = text.skip(1);
        if is_digits(digits) && -value_of(digits) >= i64::MIN {
            Some(-value_of(digits))
        } else {
            None
        }
    } else {
        match spec_parse_unsigned(text, i64::MAX as nat) {
            Some(value) => Some(value as int),
            None => None,
        }
    }
}

/// Appends the decimal digits of `value`.
pub fn push_u64(out: &mut String, value: u64)
    ensures
        final(out)@ == old(out)@ + int_text(value as int),
    decreases value,
{
    if value >= 10 {
        push_u64(out, value / 10);
    }
    out.push((48 + (value % 10) as u8) as char);
    assert(out@ =~= old(out)@ + digits_of(value as nat));
}

/// Appends the decimal text of `value`.
pub fn push_i64(out: &mut String, value: i64)
    ensures
        final(out)@ == old(out)@ + int_text(value as int),
{
    if value < 0 {
        out.push('-');
        let magnitude: u64 = (-(value + 1)) as u64 + 1;
        push_u64(out, magnitude);
        assert(out@ =~= old(out)@ + int_text(value as int));
    } else {
        push_u64(out, value as u64);
    }
}

/// The decimal text of an unsigned number.
pub fn u64_text(value: u64) -> (text: String)
    ensures
        text@ == int_text(value as int),
{
    let mut out: String = String::new();
    push_u64(&mut out, value);
    assert(out@ =~= int_text(value as int));
    out
}

/// The decimal text of a signed number.
pub fn i64_text(value: i64) -> (text: String)
    ensures
        text@ == int_text(value as int),
{
    let mut out: String = String::new();
    push_i64(&mut out, value);
    assert(out@ =~= int_text(value as int));
    out
}

/// A prefix of a number denotes at most that number.
proof fn lemma_prefix_value(text: Seq<char>, n: int)
    requires
        0 <= n <= text.len(),
    ensures
        value_of(text.take(n)) <= value_of(text),
    decreases text.len(),
{
    if n < text.len() {
        lemma_prefix_value(text.drop_last(), n);
        assert(text.drop_last().take(n) =~= text.take(n));
    } else {
        assert(text.take(n) =~= text);
    }
}

/// Reads digits from `start` on; gives nothing where there is none, where a character is not a
/// digit, or where the number exceeds `max`.
fn parse_digits(text: &[char], start: usize, max: u64) -> (result: Option<u64>)
    requires
        start <= text@.len(),
    ensures
        result matches Some(value) ==> is_digits(text@.skip(start as int)) && value_of(
            text@.skip(start as int),
        ) == value && value <= max,
        result is None ==> !(is_digits(text@.skip(start as int)) && value_of(
            text@.skip(start as int),
        ) <= max),
{
    let ghost digits: Seq<char> = text@.skip(start as int);
    if start == text.len() {
        return None;
    }
    let mut value: u64 = 0;
    let mut index: usize = start;
    while index < text.len()
        invariant
            start <= index <= text@.len(),
            digits == text@.skip(start as int),
            forall|j: int| 0 <= j < index - start ==> is_digit(#[trigger] digits[j]),
            value == value_of(digits.take(index - start)),
            value <= max,
        decreases text@.len() - index,
    {
        let c: char = text[index];
        assert(c == digits[index - start]);
        if c < '0' || '9' < c {
            return None;
        }
        let digit: u64 = (c as u32 - 48) as u64;
        proof {
            assert(digits.take(index - start + 1).drop_last() =~= digits.take(index - start));
            lemma_prefix_value(digits, index - start + 1);
        }
        value =
        match value.checked_mul(10) {
            Some(tenfold) => match tenfold.checked_add(digit) {
                Some(next) => next,
                None => return None,
            },
            None => return None,
        };
        if value > max {
            return None;
        }
        index += 1;
    }
    assert(digits.take(index - start) =~= digits);
    Some(value)
}

/// Reads an unsigned number of at most `max`.
pub fn parse_unsigned(text: &[char], max: u64) -> (result: Option<u64>)
    ensures
        match result {
            Some(value) => spec_parse_unsigned(text@, max as nat) == Some(value as nat),
            None => spec_parse_unsigned(text@, max as nat) is None,
        },
{
    if text.len() > 0 && text[0] == '+' {
        parse_digits(text, 1, max)
    } else {
        assert(text@.skip(0) =~= text@);
        parse_digits(text, 0, max)
    }
}

/// Reads a 64-bit signed number.
pub fn parse_i64(text: &[char]) -> (result: Option<i64>)
    ensures
        match result {
            Some(value) => spec_parse_i64(text@) == Some(value as int),
            None => spec_parse_i64(text@) is None,
        },
{
    if text.len() > 0 && text[0] == '-' {
        match parse_digits(text, 1, 9_223_372_036_854_775_808) {
            Some(magnitude) => {
                if magnitude == 9_223_372_036_854_775_808 {
                    Some(i64::MIN)
                } else {
                    Some(-(magnitude as i64))
                }
            },
            None => None,
        }
    } else {
        match parse_unsigned(text, 9_223_372_036_854_775_807) {
            Some(value) => Some(value as i64),
            None => None,
        }
    }
}

/// The digits of a number read back as that number.
pub proof fn lemma_digits_round_trip(value: nat)
    ensures
        is_digits(digits_of(value)),
        value_of(digits_of(value)) == value,
    decreases value,
{
    let text: Seq<char> = digits_of(value);
    if value < 10 {
        assert(text.drop_last() =~= Seq::<char>::empty());
        assert(value_of(text.drop_last()) == 0);
    } else {
        lemma_digits_round_trip(value / 10);
        assert(text.drop_last() =~= digits_of(value / 10));
    }
}

/// The text of an unsigned number within a bound reads back as that number.
pub proof fn lemma_unsigned_round_trip(value: nat, max: nat)
    requires
        value <= max,
    ensures
        spec_parse_unsigned(int_text(value as int), max) == Some(value),
{
    lemma_digits_round_trip(value);
    assert(is_digit(digits_of(value)[0]));
}

/// The text of a 64-bit signed number reads back as that number.
pub proof fn lemma_i64_round_trip(value: i64)
    ensures
        spec_parse_i64(int_text(value as int)) == Some(value as int),
{
    let text: Seq<char> = int_text(value as int);
    if value < 0 {
        lemma_digits_round_trip((-value) as nat);
        assert(text.skip(1) =~= digits_of((-value) as nat));
    } else {
        lemma_unsigned_round_trip(value as nat, i64::MAX as nat);
        lemma_digits_round_trip(value as nat);
        assert(is_digit(digits_of(value as nat)[0]));
    }
}

} // verus!
