//! Numbers in decimal notation.

use crate::text::{chars_of, lemma_span_end, lemma_span_end_unique, span_end};
use vstd::prelude::*;

verus! {

/// The digit for a value below ten.
pub open spec fn digit(value: int) -> char {
    (48 + value) as char
}

/// A number in decimal notation, without leading zeros.
pub open spec fn decimal(n: nat) -> Seq<char>
    decreases n,
{
    if n < 10 {
        seq![digit(n as int)]
    } else {
        decimal(n / 10).push(digit((n % 10) as int))
    }
}

/// Whether every character is one of the ten digits.
pub open spec fn all_digits(text: Seq<char>) -> bool {
    forall|i: int| 0 <= i < text.len() ==> '0' <= #[trigger] text[i] <= '9'
}

/// The number that a sequence of digits stands for.
pub open spec fn value_of(digits: Seq<char>) -> int
    decreases digits.len(),
{
    if digits.len() == 0 {
        0
    } else {
        value_of(digits.drop_last()) * 10 + (digits.last() as int - 48)
    }
}

/// The text behind a leading plus sign, if there is one.
pub open spec fn without_plus(text: Seq<char>) -> Seq<char> {
    if text.len() > 0 && text[0] == '+' {
        text.subrange(1, text.len() as int)
    } else {
        text
    }
}

/// Why a text stands for no 64-bit number.
#[derive(Clone, Copy, Debug, PartialEq, Eq, Structural)]
pub enum NumberFault {
    /// There is no text.
    Empty,
    /// There is something that is not a digit, or nothing but a plus sign.
    InvalidDigit,
    /// The number does not fit in 64 bits.
    TooLarge,
}

impl NumberFault {
    /// The fault in words.
    pub open spec fn words(self) -> Seq<char> {
        match self {
            NumberFault::Empty => "cannot parse integer from empty string"@,
            NumberFault::InvalidDigit => "invalid digit found in string"@,
            NumberFault::TooLarge => "number too large to fit in target type"@,
        }
    }

    /// The fault in words.
    pub fn to_text(self) -> (text: String)
        ensures
            text@ == self.words(),
    {
        match self {
            NumberFault::Empty => "cannot parse integer from empty string".to_owned(),
            NumberFault::InvalidDigit => "invalid digit found in string".to_owned(),
            NumberFault::TooLarge => "number too large to fit in target type".to_owned(),
        }
    }
}

/// How many digits stand at the front of a text.
pub open spec fn leading_digits(text: Seq<char>) -> int {
    span_end(text, 0, |c: char| !('0' <= c <= '9'))
}

/// The 64-bit number that a text stands for: digits, at least one, perhaps behind a plus sign,
/// and nothing else. Where digits that are too many come before something that is no digit, the
/// digits are what is at fault.
pub open spec fn parsed_u64(text: Seq<char>) -> Result<u64, NumberFault> {
    let digits = without_plus(text);
    let run = leading_digits(digits);
    if text.len() == 0 {
        Err(NumberFault::Empty)
    } else if digits.len() == 0 {
        Err(NumberFault::InvalidDigit)
    } else if value_of(digits.take(run)) > u64::MAX {
        Err(NumberFault::TooLarge)
    } else if run < digits.len() {
        Err(NumberFault::InvalidDigit)
    } else {
        Ok(value_of(digits) as u64)
    }
}

/// More digits never make a smaller number.
proof fn lemma_value_grows(digits: Seq<char>, n: int)
    requires
        0 <= n <= digits.len(),
        all_digits(digits),
    ensures
        0 <= value_of(digits.take(n)) <= value_of(digits),
    decreases digits.len() - n, digits.len(),
{
    if n < digits.len() {
        assert(digits.drop_last().take(n) == digits.take(n));
        assert forall|i: int| 0 <= i < digits.drop_last().len() implies '0' <= (
        #[trigger] digits.drop_last()[i]) <= '9' by {
            assert(digits.drop_last()[i] == digits[i]);
        }
        lemma_value_grows(digits.drop_last(), n);
        assert(digits.last() == digits[digits.len() - 1]);
    } else {
        assert(digits.take(n) == digits);
        if digits.len() > 0 {
            assert forall|i: int| 0 <= i < digits.drop_last().len() implies '0' <= (
            #[trigger] digits.drop_last()[i]) <= '9' by {
                assert(digits.drop_last()[i] == digits[i]);
            }
            lemma_value_grows(digits.drop_last(), digits.len() - 1);
            assert(digits.drop_last().take(digits.len() - 1) == digits.drop_last());
            assert(digits.last() == digits[digits.len() - 1]);
        }
    }
}

/// Decimal notation is made of digits, at least one, and stands for the number.
pub proof fn lemma_decimal(n: nat)
    ensures
        decimal(n).len() > 0,
        all_digits(decimal(n)),
        value_of(decimal(n)) == n,
    decreases n,
{
    if n < 10 {
        assert(decimal(n).drop_last() == Seq::<char>::empty());
        assert(value_of(Seq::<char>::empty()) == 0);
    } else {
        lemma_decimal(n / 10);
        assert(decimal(n).drop_last() == decimal(n / 10));
    }
}

/// A text stands for a number exactly where it is digits, at least one, perhaps behind a plus
/// sign, and their value fits in 64 bits; and it stands for that value.
pub proof fn law_numbers_are_digits(text: Seq<char>, n: u64)
    ensures
        parsed_u64(text) == Ok::<u64, NumberFault>(n) <==> {
            let digits = without_plus(text);
            digits.len() > 0 && all_digits(digits) && value_of(digits) == n
        },
{
    let digits = without_plus(text);
    let run = leading_digits(digits);
    lemma_span_end(digits, 0, |c: char| !('0' <= c <= '9'));
    if run == digits.len() {
        assert(digits.take(run) == digits);
        lemma_value_grows(digits, 0);
    } else {
        assert(!('0' <= digits[run] <= '9'));
    }
}

/// A 64-bit number in decimal notation is read back as that number.
pub proof fn law_decimal_is_parsed_back(n: u64)
    ensures
        parsed_u64(decimal(n as nat)) == Ok::<u64, NumberFault>(n),
{
    lemma_decimal(n as nat);
    assert(decimal(n as nat)[0] != '+');
    law_numbers_are_digits(decimal(n as nat), n);
}

/// Different numbers are written differently.
pub proof fn law_decimal_is_injective(a: nat, b: nat)
    requires
        decimal(a) == decimal(b),
    ensures
        a == b,
{
    lemma_decimal(a);
    lemma_decimal(b);
}

/// The digit for a value below ten, as text.
fn digit_text(value: u64) -> (text: &'static str)
    requires
        value < 10,
    ensures
        text@ == seq![digit(value as int)],
{
    proof {
        reveal_strlit("0");
        reveal_strlit("1");
        reveal_strlit("2");
        reveal_strlit("3");
        reveal_strlit("4");
        reveal_strlit("5");
        reveal_strlit("6");
        reveal_strlit("7");
        reveal_strlit("8");
        reveal_strlit("9");
    }
    let text: &'static str = match value {
        0 => "0",
        1 => "1",
        2 => "2",
        3 => "3",
        4 => "4",
        5 => "5",
        6 => "6",
        7 => "7",
        8 => "8",
        _ => "9",
    };
    assert(text@ =~= seq![digit(value as int)]);
    text
}

/// `n` in decimal notation.
pub fn decimal_text(n: u64) -> (text: String)
    ensures
        text@ == decimal(n as nat),
    decreases n,
{
    if n < 10 {
        digit_text(n).to_owned()
    } else {
        let mut text: String = decimal_text(n / 10);
        text.append(digit_text(n % 10));
        assert(text@ =~= decimal(n as nat));
        text
    }
}

/// The 64-bit number that `text` stands for, or why it stands for none.
pub fn parse_u64(text: &str) -> (number: Result<u64, NumberFault>)
    ensures
        number == parsed_u64(text@),
{
    let chars: Vec<char> = chars_of(text);
    let ghost whole = text@;
    let ghost other = |c: char| !('0' <= c <= '9');
    let n: usize = chars.len();
    if n == 0 {
        return Err(NumberFault::Empty);
    }
    let start: usize = if chars[0] == '+' {
        1
    } else {
        0
    };
    let ghost digits = without_plus(whole);
    assert(digits == whole.subrange(start as int, n as int));
    if start == n {
        return Err(NumberFault::InvalidDigit);
    }
    let mut number: u64 = 0;
    let mut i: usize = start;
    assert(digits.take(0) == Seq::<char>::empty());
    while i < n
        invariant
            chars@ == whole,
            whole == text@,
            n == whole.len(),
            start <= i <= n,
            start < n,
            other == (|c: char| !('0' <= c <= '9')),
            digits == without_plus(whole),
            digits == whole.subrange(start as int, n as int),
            forall|j: int| 0 <= j < i - start ==> '0' <= #[trigger] digits[j] <= '9',
            number == value_of(digits.take(i - start)),
        decreases n - i,
    {
        let c: char = chars[i];
        let ghost k = i - start;
        assert(digits[k] == c);
        if c < '0' || c > '9' {
            proof {
                lemma_span_end_unique(digits, 0, other, k);
            }
            return Err(NumberFault::InvalidDigit);
        }
        let d: u64 = c as u64 - 48;
        proof {
            let run = leading_digits(digits);
            lemma_span_end(digits, 0, other);
            assert(k < run) by {
                if run <= k {
                    assert(other(digits[run]));
                }
            }
            assert(digits.take(run).take(k + 1) == digits.take(k + 1));
            lemma_value_grows(digits.take(run), k + 1);
            assert(digits.take(k + 1).drop_last() == digits.take(k));
            assert(digits.take(k + 1).last() == c);
        }
        let shifted: u64 = match number.checked_mul(10) {
            Some(x) => x,
            None => return Err(NumberFault::TooLarge),
        };
        number = match shifted.checked_add(d) {
            Some(x) => x,
            None => return Err(NumberFault::TooLarge),
        };
        i = i + 1;
    }
    proof {
        lemma_span_end_unique(digits, 0, other, digits.len() as int);
        assert(digits.take(n - start) == digits);
    }
    Ok(number)
}

} // verus!
