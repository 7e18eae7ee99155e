//! What callers can rely on of numbers.

use crate::number::{
    decimal, decimal_text, law_decimal_is_parsed_back, law_numbers_are_digits, leading_digits,
    parse_u64, value_of, without_plus, NumberFault,
};
use crate::text::{lemma_span_end, lemma_span_end_unique};
use vstd::prelude::*;

verus! {

/// A number below ten is written as its digit; a larger one as its tenth, without the remainder,
/// and behind that the remainder.
pub proof fn law_numbers_are_written_digit_by_digit(
    n: u64,
    text: String,
    tenth: String,
    remainder: String,
)
    requires
        call_ensures(decimal_text, (n,), text),
        call_ensures(decimal_text, ((n / 10) as u64,), tenth),
        call_ensures(decimal_text, ((n % 10) as u64,), remainder),
    ensures
        remainder@.len() == 1,
        remainder@[0] as int == '0' as int + n % 10,
        n < 10 ==> text@ == remainder@,
        n >= 10 ==> text@ == tenth@ + remainder@,
{
    assert(remainder@ == decimal((n % 10) as nat));
    assert(tenth@ == decimal((n / 10) as nat));
}

/// A number is read back from how it is written.
pub proof fn law_written_numbers_are_read(
    n: u64,
    written: String,
    text: &str,
    read: Result<u64, NumberFault>,
)
    requires
        call_ensures(decimal_text, (n,), written),
        call_ensures(parse_u64, (text,), read),
        text@ == written@,
    ensures
        read == Ok::<u64, NumberFault>(n),
{
    law_decimal_is_parsed_back(n);
}

/// The digits at the front of a text that has a character that is no digit behind them.
proof fn lemma_leading_digits(digits: Seq<char>, n: int)
    requires
        0 <= n <= digits.len(),
        forall|i: int| 0 <= i < n ==> '0' <= #[trigger] digits[i] <= '9',
        n < digits.len() ==> !('0' <= digits[n] <= '9'),
    ensures
        leading_digits(digits) == n,
{
    lemma_span_end_unique(digits, 0, |c: char| !('0' <= c <= '9'), n);
}

/// One more digit makes a number ten times as large, and the digit larger, if that fits.
pub proof fn law_a_digit_more_is_ten_times_as_much(
    shorter: &str,
    longer: &str,
    digit: char,
    n: u64,
    read: Result<u64, NumberFault>,
    more: Result<u64, NumberFault>,
)
    requires
        call_ensures(parse_u64, (shorter,), read),
        call_ensures(parse_u64, (longer,), more),
        longer@ == shorter@.push(digit),
        '0' <= digit <= '9',
        read == Ok::<u64, NumberFault>(n),
    ensures
        10 * n + (digit as int - '0' as int) <= u64::MAX ==> (more matches Ok(m) && m == 10 * n + (
        digit as int - '0' as int)),
        10 * n + (digit as int - '0' as int) > u64::MAX ==> more == Err::<u64, NumberFault>(
            NumberFault::TooLarge,
        ),
{
    let short = without_plus(shorter@);
    let long = without_plus(longer@);
    assert(long =~= short.push(digit));
    law_numbers_are_digits(shorter@, n);
    assert(value_of(short) == n);
    assert forall|i: int| 0 <= i < long.len() implies '0' <= #[trigger] long[i] <= '9' by {
        if i < short.len() {
            assert(long[i] == short[i]);
        }
    }
    lemma_leading_digits(long, long.len() as int);
    assert(long.take(long.len() as int) == long);
    assert(long.drop_last() == short);
    assert(long.last() == digit);
}

/// A single digit is read as its value.
pub proof fn law_a_digit_is_its_value(text: &str, read: Result<u64, NumberFault>)
    requires
        call_ensures(parse_u64, (text,), read),
        text@.len() == 1,
        '0' <= text@[0] <= '9',
    ensures
        read matches Ok(n) && n == text@[0] as int - '0' as int,
{
    let digits = text@;
    assert(without_plus(digits) == digits);
    lemma_leading_digits(digits, 1);
    assert(digits.take(1) == digits);
    assert(digits.drop_last() == Seq::<char>::empty());
    assert(digits.last() == digits[0]);
    assert(value_of(Seq::<char>::empty()) == 0);
}

/// A plus sign before a text that is not empty and does not begin with one changes nothing.
pub proof fn law_a_plus_sign_does_not_count(
    text: &str,
    signed: &str,
    read: Result<u64, NumberFault>,
    again: Result<u64, NumberFault>,
)
    requires
        call_ensures(parse_u64, (text,), read),
        call_ensures(parse_u64, (signed,), again),
        text@.len() > 0,
        text@[0] != '+',
        signed@ == seq!['+'] + text@,
    ensures
        again == read,
{
    assert(without_plus(signed@) == text@);
}

/// A text is no number if it is empty, if it is a plus sign alone, or if something else than a
/// digit stands in it, but for a plus sign at its front. The fault is found where it first shows.
pub proof fn law_other_texts_are_no_numbers(text: &str, read: Result<u64, NumberFault>)
    requires
        call_ensures(parse_u64, (text,), read),
    ensures
        text@.len() == 0 ==> read == Err::<u64, NumberFault>(NumberFault::Empty),
        text@ == seq!['+'] ==> read == Err::<u64, NumberFault>(NumberFault::InvalidDigit),
        text@.len() > 0 && !('0' <= text@[0] <= '9') && text@[0] != '+' ==> read == Err::<
            u64,
            NumberFault,
        >(NumberFault::InvalidDigit),
        (exists|i: int| 0 < i < text@.len() && !('0' <= #[trigger] text@[i] <= '9'))
            ==> read is Err,
        read is Ok ==> text@.len() > 0 && text@ != seq!['+'],
{
    let digits = without_plus(text@);
    lemma_span_end(digits, 0, |c: char| !('0' <= c <= '9'));
    if text@ == seq!['+'] {
        assert(digits.len() == 0);
    }
    if text@.len() > 0 && !('0' <= text@[0] <= '9') && text@[0] != '+' {
        lemma_leading_digits(digits, 0);
        assert(digits.take(0) == Seq::<char>::empty());
        assert(value_of(Seq::<char>::empty()) == 0);
    }
    if exists|i: int| 0 < i < text@.len() && !('0' <= #[trigger] text@[i] <= '9') {
        let i = choose|i: int| 0 < i < text@.len() && !('0' <= #[trigger] text@[i] <= '9');
        if text@[0] == '+' {
            assert(digits[i - 1] == text@[i]);
        } else {
            assert(digits[i] == text@[i]);
        }
    }
}

/// Each fault has its own words.
pub proof fn law_faults_in_words(fault: NumberFault, text: String)
    requires
        call_ensures(NumberFault::to_text, (fault,), text),
    ensures
        fault == NumberFault::Empty ==> text@ == "cannot parse integer from empty string"@,
        fault == NumberFault::InvalidDigit ==> text@ == "invalid digit found in string"@,
        fault == NumberFault::TooLarge ==> text@ == "number too large to fit in target type"@,
{
}

} // verus!
