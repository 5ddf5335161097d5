//! Levels written as decimal numbers.

use crate::direction::Level;
use crate::run::{lemma_run_len_bound, lemma_run_len_holds, lemma_run_len_is, run_len};
use vstd::prelude::*;

verus! {

/// Why a token is no level.
#[derive(Clone, Copy, Debug, PartialEq, Eq, Structural)]
pub enum LevelError {
    /// The token is empty.
    Empty,
    /// The token holds a character that is no digit where a digit must
    /// stand, or is a sign alone.
    InvalidDigit,
    /// The number is too large for a level.
    PosOverflow,
    /// The number is too small for a level.
    NegOverflow,
}

impl LevelError {
    /// The words that say what is wrong.
    pub open spec fn spec_description(self) -> Seq<char> {
        match self {
            LevelError::Empty => "cannot parse integer from empty string"@,
            LevelError::InvalidDigit => "invalid digit found in string"@,
            LevelError::PosOverflow => "number too large to fit in target type"@,
            LevelError::NegOverflow => "number too small to fit in target type"@,
        }
    }

    /// Says in words what is wrong.
    pub fn description(self) -> (text: &'static str)
        ensures
            text@ == self.spec_description(),
    {
        match self {
            LevelError::Empty => "cannot parse integer from empty string",
            LevelError::InvalidDigit => "invalid digit found in string",
            LevelError::PosOverflow => "number too large to fit in target type",
            LevelError::NegOverflow => "number too small to fit in target type",
        }
    }
}

/// Whether `c` is one of the decimal digits `0` to `9`.
pub open spec fn is_digit(c: char) -> bool {
    '0' <= c <= '9'
}

/// The number that the digit `c` stands for.
pub open spec fn digit_value(c: char) -> int {
    c as int - '0' as int
}

/// The number that a sequence of digits stands for, read in base ten. The
/// empty sequence stands for zero.
pub open spec fn digits_value(digits: Seq<char>) -> int
    decreases digits.len(),
{
    if digits.len() == 0 {
        0
    } else {
        10 * digits_value(digits.drop_last()) + digit_value(digits.last())
    }
}

/// The length of the longest prefix of `text` that is made of digits.
pub open spec fn digits_len(text: Seq<char>) -> nat {
    run_len(text, |c: char| !is_digit(c))
}

/// Whether a token starts with a sign.
pub open spec fn has_sign(token: Seq<char>) -> bool {
    token.len() > 0 && (token[0] == '-' || token[0] == '+')
}

/// What a token holds after its sign, if it has one.
pub open spec fn unsigned_part(token: Seq<char>) -> Seq<char> {
    if has_sign(token) {
        token.skip(1)
    } else {
        token
    }
}

/// The number that the leading digits of a token stand for, with the
/// token's sign.
pub open spec fn leading_value(token: Seq<char>) -> int {
    let body = unsigned_part(token);
    let magnitude = digits_value(body.take(digits_len(body) as int));
    if token.len() > 0 && token[0] == '-' {
        -magnitude
    } else {
        magnitude
    }
}

/// The level that a token stands for. A level is written as an optional
/// sign, `+` or `-`, and then one or more decimal digits, and must fit in
/// 64 bits. The token is read from left to right and the first fault
/// decides the error: digits that leave the range before any other
/// character is met give an overflow.
pub open spec fn level_of(token: Seq<char>) -> Result<Level, LevelError> {
    let body = unsigned_part(token);
    let value = leading_value(token);
    if token.len() == 0 {
        Err(LevelError::Empty)
    } else if body.len() == 0 {
        Err(LevelError::InvalidDigit)
    } else if value > i64::MAX {
        Err(LevelError::PosOverflow)
    } else if value < i64::MIN {
        Err(LevelError::NegOverflow)
    } else if digits_len(body) < body.len() {
        Err(LevelError::InvalidDigit)
    } else {
        Ok(value as i64)
    }
}

/// Every character of `text` is a digit.
pub open spec fn all_digits(text: Seq<char>) -> bool {
    forall|j: int| 0 <= j < text.len() ==> is_digit(#[trigger] text[j])
}

/// A sequence of digits stands for no less than any of its prefixes does,
/// and for no less than zero.
pub proof fn lemma_digits_value_grows(digits: Seq<char>, k: int)
    requires
        all_digits(digits),
        0 <= k <= digits.len(),
    ensures
        0 <= digits_value(digits.take(k)) <= digits_value(digits),
    decreases digits.len(),
{
    if digits.len() == 0 {
    } else if k == digits.len() {
        assert(digits.take(k) == digits);
        lemma_digits_value_grows(digits.drop_last(), 0);
    } else {
        let front = digits.drop_last();
        assert(front.take(k) == digits.take(k));
        lemma_digits_value_grows(front, k);
    }
}

/// Reads a level from a token: see [`level_of`].
pub fn parse_level(token: &[char]) -> (parsed: Result<Level, LevelError>)
    ensures
        parsed == level_of(token@),
{
    let n = token.len();
    if n == 0 {
        return Err(LevelError::Empty);
    }
    let negative = token[0] == '-';
    let start: usize = if token[0] == '-' || token[0] == '+' {
        1
    } else {
        0
    };
    if start == n {
        return Err(LevelError::InvalidDigit);
    }
    let ghost body = unsigned_part(token@);
    let ghost stop = |c: char| !is_digit(c);
    let mut value: i64 = 0;
    let mut i: usize = start;
    while i < n
        invariant
            n == token@.len(),
            start <= i <= n,
            start <= 1,
            body == token@.skip(start as int),
            body == unsigned_part(token@),
            stop == (|c: char| !is_digit(c)),
            negative == (token@[0] == '-'),
            all_digits(body.take(i - start)),
            value == (if negative {
                -digits_value(body.take(i - start))
            } else {
                digits_value(body.take(i - start))
            }),
        decreases n - i,
    {
        let c = token[i];
        if c < '0' || c > '9' {
            proof {
                assert forall|j: int| 0 <= j < i - start implies !stop(#[trigger] body[j]) by {
                    assert(body.take(i - start)[j] == body[j]);
                }
                lemma_run_len_is(body, stop, i - start);
            }
            return Err(LevelError::InvalidDigit);
        }
        let digit: i128 = (c as u32 - '0' as u32) as i128;
        let next: i128 = if negative {
            value as i128 * 10 - digit
        } else {
            value as i128 * 10 + digit
        };
        proof {
            let grown = body.take(i - start + 1);
            assert(grown.drop_last() == body.take(i - start));
            assert(all_digits(grown));
        }
        if next > i64::MAX as i128 || next < i64::MIN as i128 {
            proof {
                lemma_leading_value_covers(token@, i - start + 1);
            }
            return if negative {
                Err(LevelError::NegOverflow)
            } else {
                Err(LevelError::PosOverflow)
            };
        }
        value = next as i64;
        i += 1;
    }
    proof {
        assert(body.take(n - start) == body);
        lemma_run_len_is(body, stop, n - start);
    }
    Ok(value)
}

/// Where a token's first `k` characters after the sign are digits, its
/// leading digits stand for no less than those `k` do.
pub proof fn lemma_leading_value_covers(token: Seq<char>, k: int)
    requires
        0 <= k <= unsigned_part(token).len(),
        all_digits(unsigned_part(token).take(k)),
    ensures
        ({
            let body = unsigned_part(token);
            let run = body.take(digits_len(body) as int);
            0 <= digits_value(body.take(k)) <= digits_value(run)
        }),
{
    let body = unsigned_part(token);
    let stop = |c: char| !is_digit(c);
    let m = digits_len(body) as int;
    lemma_run_len_bound(body, stop);
    lemma_run_len_holds(body, stop);
    if m < k {
        assert(body.take(k)[m] == body[m]);
    }
    let run = body.take(m);
    assert(run.take(k) == body.take(k));
    lemma_digits_value_grows(run, k);
}

} // verus!
