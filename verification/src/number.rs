//! Decimal numbers: writing them and reading them back.

use vstd::prelude::*;

verus! {

/// Why a text is not a decimal number of the wanted size.
#[derive(Debug, Clone, Copy, PartialEq, Eq, Structural)]
pub enum NumberError {
    Empty,
    InvalidDigit,
    TooLarge,
}

impl NumberError {
    /// The words in which the error is reported.
    pub open spec fn words(self) -> Seq<char> {
        match self {
            NumberError::Empty => "cannot parse integer from empty string"@,
            NumberError::InvalidDigit => "invalid digit found in string"@,
            NumberError::TooLarge => "number too large to fit in target type"@,
        }
    }

    pub fn message(&self) -> (message: String)
        ensures
            message@ == self.words(),
    {
        match self {
            NumberError::Empty => "cannot parse integer from empty string".to_string(),
            NumberError::InvalidDigit => "invalid digit found in string".to_string(),
            NumberError::TooLarge => "number too large to fit in target type".to_string(),
        }
    }
}

/// The character of one decimal digit.
pub open spec fn digit_char(digit: nat) -> char {
    (48 + digit) as char
}

/// A number in decimal notation, without leading zeros.
pub open spec fn decimal(n: nat) -> Seq<char>
    decreases n,
{
    if n < 10 {
        seq![digit_char(n)]
    } else {
        decimal(n / 10).push(digit_char(n % 10))
    }
}

/// Writes a number in decimal notation.
pub fn decimal_text(n: u64) -> (text: String)
    ensures
        text@ == decimal(n as nat),
    decreases n,
{
    let mut text = if n < 10 {
        String::new()
    } else {
        decimal_text(n / 10)
    };
    let digit: u8 = (n % 10) as u8;
    text.push((48u8 + digit) as char);
    assert(n < 10 ==> text@ =~= decimal(n as nat));
    text
}

pub open spec fn is_digit(c: char) -> bool {
    '0' <= c <= '9'
}

pub open spec fn digit_value(c: char) -> nat {
    (c as int - 48) as nat
}

/// Reads the digits of `s` behind those that gave `value`, up to the first character that
/// is no digit or that takes the number above `max`.
pub open spec fn continued_number(value: nat, s: Seq<char>, max: nat) -> Result<nat, NumberError>
    decreases s.len(),
{
    if s.len() == 0 {
        Ok(value)
    } else if !is_digit(s[0]) {
        Err(NumberError::InvalidDigit)
    } else if value * 10 + digit_value(s[0]) > max {
        Err(NumberError::TooLarge)
    } else {
        continued_number(value * 10 + digit_value(s[0]), s.skip(1), max)
    }
}

/// The unsigned number, at most `max`, that a text stands for: decimal digits, with a plus
/// sign before them or without one.
pub open spec fn parsed_number(s: Seq<char>, max: nat) -> Result<nat, NumberError> {
    if s.len() == 0 {
        Err(NumberError::Empty)
    } else if s.len() > 1 && s[0] == '+' {
        continued_number(0, s.skip(1), max)
    } else {
        continued_number(0, s, max)
    }
}

/// Reads an unsigned decimal number of at most `max`.
pub fn parse_number(chars: &[char], max: u32) -> (number: Result<u32, NumberError>)
    ensures
        match number {
            Ok(n) => parsed_number(chars@, max as nat) == Ok::<nat, NumberError>(n as nat),
            Err(e) => parsed_number(chars@, max as nat) == Err::<nat, NumberError>(e),
        },
{
    if chars.len() == 0 {
        return Err(NumberError::Empty);
    }
    let start: usize = if chars.len() > 1 && chars[0] == '+' {
        1
    } else {
        0
    };
    let mut value: u64 = 0;
    let mut i: usize = start;
    assert(chars@.skip(0) =~= chars@);
    while i < chars.len()
        invariant
            start <= i <= chars@.len(),
            value <= max,
            continued_number(0, chars@.skip(start as int), max as nat) == continued_number(
                value as nat,
                chars@.skip(i as int),
                max as nat,
            ),
            parsed_number(chars@, max as nat) == continued_number(
                0,
                chars@.skip(start as int),
                max as nat,
            ),
        decreases chars@.len() - i,
    {
        let c = chars[i];
        assert(chars@.skip(i as int)[0] == c);
        assert(chars@.skip(i as int).skip(1) =~= chars@.skip(i + 1));
        if c < '0' || c > '9' {
            return Err(NumberError::InvalidDigit);
        }
        let next: u64 = value * 10 + (c as u64 - 48);
        if next > max as u64 {
            return Err(NumberError::TooLarge);
        }
        value = next;
        i = i + 1;
    }
    assert(chars@.skip(i as int).len() == 0);
    Ok(value as u32)
}

/// A number that is written down in decimal notation is read back unchanged.
pub proof fn decimal_read_back(n: nat, max: nat)
    requires
        n <= max,
    ensures
        parsed_number(decimal(n), max) == Ok::<nat, NumberError>(n),
{
    lemma_decimal_digits(n);
    lemma_decimal_continued(n, Seq::empty(), max);
    assert(decimal(n) + Seq::<char>::empty() =~= decimal(n));
}

/// A number in decimal notation is a text of digits.
pub proof fn lemma_decimal_digits(n: nat)
    ensures
        decimal(n).len() > 0,
        forall|i: int| 0 <= i < decimal(n).len() ==> is_digit(#[trigger] decimal(n)[i]),
    decreases n,
{
    if n >= 10 {
        lemma_decimal_digits(n / 10);
    }
}

proof fn lemma_decimal_continued(n: nat, rest: Seq<char>, max: nat)
    requires
        n <= max,
    ensures
        continued_number(0, decimal(n) + rest, max) == continued_number(n, rest, max),
    decreases n,
{
    if n < 10 {
        let s = decimal(n) + rest;
        assert(s[0] == digit_char(n));
        assert(s.skip(1) =~= rest);
    } else {
        let last = seq![digit_char(n % 10)] + rest;
        assert(decimal(n) + rest =~= decimal(n / 10) + last);
        lemma_decimal_continued(n / 10, last, max);
        assert(last[0] == digit_char(n % 10));
        assert(last.skip(1) =~= rest);
    }
}

/// Whether a text is made of digits alone.
pub open spec fn all_digits(s: Seq<char>) -> bool {
    forall|i: int| 0 <= i < s.len() ==> '0' <= #[trigger] s[i] <= '9'
}

/// What the digits of a text are worth: the last one counts once, and all before it ten
/// times what they are worth by themselves.
pub open spec fn worth(digits: Seq<char>) -> int
    decreases digits.len(),
{
    if digits.len() == 0 {
        0
    } else {
        worth(digits.drop_last()) * 10 + (digits.last() as int - '0' as int)
    }
}

proof fn lemma_worth_grows(s: Seq<char>, k: int)
    requires
        all_digits(s),
        0 <= k <= s.len(),
    ensures
        0 <= worth(s.take(k)) <= worth(s),
    decreases s.len(),
{
    if k < s.len() {
        let shorter = s.drop_last();
        assert(all_digits(shorter)) by {
            assert forall|i: int| 0 <= i < shorter.len() implies '0' <= #[trigger] shorter[i]
                <= '9' by {
                assert(shorter[i] == s[i]);
            }
        }
        lemma_worth_grows(shorter, k);
        assert(shorter.take(k) =~= s.take(k));
        assert('0' <= s[s.len() - 1] <= '9');
    } else {
        assert(s.take(k) =~= s);
        if s.len() > 0 {
            let shorter = s.drop_last();
            assert(all_digits(shorter)) by {
                assert forall|i: int| 0 <= i < shorter.len() implies '0' <= #[trigger] shorter[i]
                    <= '9' by {
                    assert(shorter[i] == s[i]);
                }
            }
            lemma_worth_grows(shorter, 0);
            assert(shorter.take(0) =~= Seq::<char>::empty());
            assert('0' <= s[s.len() - 1] <= '9');
        }
    }
}

proof fn lemma_reading_goes_on(s: Seq<char>, k: int, max: nat)
    requires
        0 <= k <= s.len(),
        all_digits(s.take(k)),
        worth(s.take(k)) <= max,
    ensures
        worth(s.take(k)) >= 0,
        continued_number(0, s, max) == continued_number(worth(s.take(k)) as nat, s.skip(k), max),
    decreases k,
{
    let read = s.take(k);
    if k == 0 {
        assert(s.skip(0) =~= s);
    } else {
        lemma_worth_grows(read, k - 1);
        assert(read.take(k - 1) =~= s.take(k - 1));
        assert(read.take(k) =~= read);
        assert(read.drop_last() =~= s.take(k - 1));
        assert(all_digits(s.take(k - 1))) by {
            assert forall|i: int| 0 <= i < k - 1 implies '0' <= #[trigger] s.take(k - 1)[i]
                <= '9' by {
                assert(s.take(k - 1)[i] == read[i]);
            }
        }
        lemma_reading_goes_on(s, k - 1, max);
        let rest = s.skip(k - 1);
        assert(rest[0] == s[k - 1]);
        assert('0' <= read[k - 1] <= '9');
        assert(rest.skip(1) =~= s.skip(k));
    }
}

/// A text of digits, with a plus sign before them or without one, is the number that the
/// digits are worth, exactly where that is at most `max`; else it is too large.
pub proof fn digits_are_read(digits: Seq<char>, max: nat)
    requires
        all_digits(digits),
        digits.len() > 0,
    ensures
        worth(digits) >= 0,
        ({
            let number = if worth(digits) <= max {
                Ok::<nat, NumberError>(worth(digits) as nat)
            } else {
                Err::<nat, NumberError>(NumberError::TooLarge)
            };
            &&& parsed_number(digits, max) == number
            &&& parsed_number(seq!['+'] + digits, max) == number
        }),
{
    let signed = seq!['+'] + digits;
    assert(signed.skip(1) =~= digits);
    assert('0' <= digits[0] <= '9');
    lemma_worth_grows(digits, 0);
    assert(digits.take(digits.len() as int) =~= digits);
    lemma_stops(digits, digits.len() as int, max);
}

/// The digits before a character that is none decide how the text is refused: as too large
/// where they are worth more than `max`, and else for the character. A text without
/// characters is refused as empty.
pub proof fn other_characters_are_refused(digits: Seq<char>, other: char, rest: Seq<char>, max: nat)
    requires
        all_digits(digits),
        !('0' <= other <= '9'),
        digits.len() > 0 || other != '+' || rest.len() == 0,
    ensures
        parsed_number(digits.push(other) + rest, max) == Err::<nat, NumberError>(
            if worth(digits) <= max {
                NumberError::InvalidDigit
            } else {
                NumberError::TooLarge
            },
        ),
        parsed_number(Seq::empty(), max) == Err::<nat, NumberError>(NumberError::Empty),
{
    let s = digits.push(other) + rest;
    let k = digits.len() as int;
    assert(s.take(k) =~= digits);
    if k > 0 {
        assert('0' <= digits[0] <= '9');
        assert(s[0] == digits[0]);
    } else {
        assert(s[0] == other);
    }
    assert(s[k] == other);
    lemma_stops(s, k, max);
}

/// Reading stops behind the digits at the front, or among them once they are too many.
proof fn lemma_stops(s: Seq<char>, k: int, max: nat)
    requires
        0 <= k <= s.len(),
        all_digits(s.take(k)),
        k < s.len() ==> !('0' <= s[k] <= '9'),
    ensures
        worth(s.take(k)) > max ==> continued_number(0, s, max) == Err::<nat, NumberError>(
            NumberError::TooLarge,
        ),
        worth(s.take(k)) <= max && k < s.len() ==> continued_number(0, s, max) == Err::<
            nat,
            NumberError,
        >(NumberError::InvalidDigit),
        worth(s.take(k)) <= max && k == s.len() ==> continued_number(0, s, max) == Ok::<
            nat,
            NumberError,
        >(worth(s.take(k)) as nat),
{
    if worth(s.take(k)) <= max {
        lemma_reading_goes_on(s, k, max);
        if k < s.len() {
            assert(s.skip(k)[0] == s[k]);
        }
    } else {
        lemma_too_large(s, k, max);
    }
}

proof fn lemma_too_large(s: Seq<char>, k: int, max: nat)
    requires
        0 <= k <= s.len(),
        all_digits(s.take(k)),
        worth(s.take(k)) > max,
    ensures
        continued_number(0, s, max) == Err::<nat, NumberError>(NumberError::TooLarge),
    decreases k,
{
    let read = s.take(k);
    assert(k > 0);
    assert(read.drop_last() =~= s.take(k - 1));
    assert(all_digits(s.take(k - 1))) by {
        assert forall|i: int| 0 <= i < k - 1 implies '0' <= #[trigger] s.take(k - 1)[i] <= '9' by {
            assert(s.take(k - 1)[i] == read[i]);
        }
    }
    if worth(s.take(k - 1)) > max {
        lemma_too_large(s, k - 1, max);
    } else {
        lemma_reading_goes_on(s, k - 1, max);
        assert('0' <= read[k - 1] <= '9');
        assert(s.skip(k - 1)[0] == s[k - 1]);
    }
}

/// A number in decimal notation is made of digits that are worth the number, the first of
/// which is no zero unless it is the only one.
pub proof fn decimal_is_worth_its_number(n: nat)
    ensures
        all_digits(decimal(n)),
        worth(decimal(n)) == n,
        decimal(n).len() > 0,
        decimal(n).len() > 1 ==> decimal(n)[0] != '0',
    decreases n,
{
    reveal_with_fuel(worth, 2);
    reveal_with_fuel(decimal, 3);
    lemma_decimal_digits(n);
    if n >= 10 {
        decimal_is_worth_its_number(n / 10);
        assert(decimal(n).drop_last() =~= decimal(n / 10));
        if n / 10 < 10 {
            assert(decimal(n / 10)[0] == digit_char(n / 10));
        } else {
            lemma_decimal_digits(n / 10 / 10);
        }
        assert(decimal(n)[0] == decimal(n / 10)[0]);
    } else {
        assert(decimal(n).drop_last() =~= Seq::<char>::empty());
    }
}

/// What is read as zero is made of zeros.
pub proof fn lemma_zero(s: Seq<char>, max: nat)
    requires
        continued_number(0, s, max) == Ok::<nat, NumberError>(0),
    ensures
        forall|i: int| 0 <= i < s.len() ==> #[trigger] s[i] == '0',
    decreases s.len(),
{
    if s.len() > 0 {
        lemma_not_less(digit_value(s[0]), s.skip(1), max);
        assert(digit_value(s[0]) == 0);
        lemma_zero(s.skip(1), max);
        assert forall|i: int| 0 <= i < s.len() implies #[trigger] s[i] == '0' by {
            if i > 0 {
                assert(s[i] == s.skip(1)[i - 1]);
            }
        }
    }
}

proof fn lemma_not_less(value: nat, s: Seq<char>, max: nat)
    ensures
        continued_number(value, s, max) matches Ok(n) ==> n >= value,
    decreases s.len(),
{
    if s.len() > 0 && is_digit(s[0]) && value * 10 + digit_value(s[0]) <= max {
        lemma_not_less(value * 10 + digit_value(s[0]), s.skip(1), max);
    }
}

} // verus!
