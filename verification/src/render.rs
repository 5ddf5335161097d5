//! Reports written out as lines, and read back.

use crate::direction::Level;
use crate::level::{
    all_digits, digit_value, digits_value, is_digit, level_of, unsigned_part, LevelError,
};
use crate::parse::{is_level, line_levels, line_parses};
use crate::report::Report;
use crate::run::{lemma_run_len_bound, lemma_run_len_holds, lemma_run_len_is};
use crate::text::{is_whitespace, is_word, tokens_of, word_len};
use vstd::prelude::*;
use vstd::string::StringExecFns;

verus! {

/// The character that stands for the digit `d`.
pub open spec fn digit_char(d: int) -> char {
    ('0' as int + d) as char
}

/// A natural number written in base ten, without leading zeros.
pub open spec fn render_nat(n: nat) -> Seq<char>
    decreases n,
{
    if n < 10 {
        seq![digit_char(n as int)]
    } else {
        render_nat(n / 10).push(digit_char((n % 10) as int))
    }
}

/// A level written in base ten, with `-` in front where it is negative.
pub open spec fn render_level(level: Level) -> Seq<char> {
    if level < 0 {
        seq!['-'] + render_nat((-level) as nat)
    } else {
        render_nat(level as nat)
    }
}

/// The levels written out and joined by single spaces.
pub open spec fn line_of(levels: Seq<Level>) -> Seq<char>
    decreases levels.len(),
{
    if levels.len() == 0 {
        Seq::empty()
    } else if levels.len() == 1 {
        render_level(levels[0])
    } else {
        line_of(levels.drop_last()) + seq![' '] + render_level(levels.last())
    }
}

/// The text of a single digit.
fn digit_str(d: u64) -> (text: &'static str)
    requires
        d < 10,
    ensures
        text@ == seq![digit_char(d as int)],
{
    proof {
        reveal_strlit("0");
        reveal_strlit("1");
        reveal_strlit("2");
        reveal_strlit("3");
        reveal_strlit("4");
        reveal_strlit("5");
        reveal_strlit("6");
        reveal_strlit("7");
        reveal_strlit("8");
        reveal_strlit("9");
    }
    let text = match d {
        0 => "0",
        1 => "1",
        2 => "2",
        3 => "3",
        4 => "4",
        5 => "5",
        6 => "6",
        7 => "7",
        8 => "8",
        _ => "9",
    };
    text
}

/// Writes a natural number at the end of `out`.
fn push_nat(out: &mut String, n: u64)
    ensures
        final(out)@ == old(out)@ + render_nat(n as nat),
    decreases n,
{
    if n >= 10 {
        push_nat(out, n / 10);
    }
    out.append(digit_str(n % 10));
}

/// Writes a level at the end of `out`.
pub fn push_level(out: &mut String, level: Level)
    ensures
        final(out)@ == old(out)@ + render_level(level),
{
    if level < 0 {
        proof {
            reveal_strlit("-");
        }
        out.append("-");
        push_nat(out, (-(level as i128)) as u64);
    } else {
        push_nat(out, level as u64);
    }
}

impl Report {
    /// Writes the report as a line: its levels in base ten, joined by
    /// single spaces. Reading the line gives the report back.
    pub fn to_line(&self) -> (line: String)
        ensures
            line@ == line_of(self@),
            line_parses(line@),
            line_levels(line@) == self@,
    {
        proof {
            lemma_line_round_trip(self@);
        }
        let mut line = String::new();
        let mut k: usize = 0;
        while k < self.0.len()
            invariant
                k <= self@.len(),
                line@ == line_of(self@.take(k as int)),
            decreases self@.len() - k,
        {
            if k > 0 {
                proof {
                    reveal_strlit(" ");
                }
                line.append(" ");
            }
            assert(self@.take(k + 1).drop_last() == self@.take(k as int));
            push_level(&mut line, self.0[k]);
            k += 1;
        }
        assert(self@.take(k as int) == self@);
        line
    }
}

/// Each digit has its character, and the character stands for the digit.
pub proof fn lemma_digit_char(d: int)
    requires
        0 <= d <= 9,
    ensures
        is_digit(digit_char(d)),
        digit_value(digit_char(d)) == d,
        !is_whitespace(digit_char(d)),
{
}

/// A number written out is a sequence of one or more digits that stands
/// for the number.
pub proof fn lemma_render_nat(n: nat)
    ensures
        render_nat(n).len() > 0,
        all_digits(render_nat(n)),
        digits_value(render_nat(n)) == n,
    decreases n,
{
    let digits = render_nat(n);
    if n < 10 {
        lemma_digit_char(n as int);
        assert(digits_value(digits.drop_last()) == 0);
    } else {
        lemma_render_nat(n / 10);
        lemma_digit_char((n % 10) as int);
        assert(digits.drop_last() == render_nat(n / 10));
        assert(all_digits(digits));
    }
}

/// A level written out reads back as the same level.
pub proof fn lemma_level_round_trip(level: Level)
    ensures
        level_of(render_level(level)) == Ok::<Level, LevelError>(level),
{
    let token = render_level(level);
    let magnitude: nat = if level < 0 {
        (-level) as nat
    } else {
        level as nat
    };
    let digits = render_nat(magnitude);
    lemma_render_nat(magnitude);
    let body = unsigned_part(token);
    assert(body == digits);
    lemma_run_len_is(body, |c: char| !is_digit(c), body.len() as int);
    assert(body.take(body.len() as int) == body);
}

/// A level written out is a word.
pub proof fn lemma_render_level_is_word(level: Level)
    ensures
        is_word(render_level(level)),
{
    let token = render_level(level);
    let magnitude: nat = if level < 0 {
        (-level) as nat
    } else {
        level as nat
    };
    let digits = render_nat(magnitude);
    lemma_render_nat(magnitude);
    assert forall|j: int| 0 <= j < token.len() implies !is_whitespace(#[trigger] token[j]) by {
        if level >= 0 {
            assert(is_digit(digits[j]));
        } else if j > 0 {
            assert(is_digit(digits[j - 1]));
        }
    }
}

/// A word is its own single token.
pub proof fn lemma_tokens_of_word(word: Seq<char>)
    requires
        is_word(word),
    ensures
        tokens_of(word) == seq![word],
{
    lemma_run_len_is(word, |c: char| is_whitespace(c), word.len() as int);
    assert(word.take(word.len() as int) == word);
    assert(tokens_of(word.skip(word.len() as int)) == Seq::<Seq<char>>::empty());
}

/// The tokens of two texts joined by a whitespace character are the tokens
/// of the first and then those of the second.
pub proof fn lemma_tokens_split(front: Seq<char>, white: char, back: Seq<char>)
    requires
        is_whitespace(white),
    ensures
        tokens_of(front + seq![white] + back) == tokens_of(front) + tokens_of(back),
    decreases front.len(),
{
    let whole = front + seq![white] + back;
    let stop = |c: char| is_whitespace(c);
    if front.len() == 0 {
        assert(whole.drop_first() == back);
    } else if is_whitespace(front[0]) {
        assert(whole.drop_first() == front.drop_first() + seq![white] + back);
        lemma_tokens_split(front.drop_first(), white, back);
    } else {
        let n = word_len(front) as int;
        lemma_run_len_bound(front, stop);
        lemma_run_len_holds(front, stop);
        assert forall|j: int| 0 <= j < n implies !stop(#[trigger] whole[j]) by {
            assert(whole[j] == front[j]);
        }
        assert(stop(whole[n]));
        lemma_run_len_is(whole, stop, n);
        assert(whole.take(n) == front.take(n));
        assert(whole.skip(n) == front.skip(n) + seq![white] + back);
        lemma_tokens_split(front.skip(n), white, back);
    }
}

/// The tokens of levels written out as a line are the levels written out,
/// one token for each.
pub proof fn lemma_tokens_of_line(levels: Seq<Level>)
    ensures
        tokens_of(line_of(levels)) == levels.map_values(|level: Level| render_level(level)),
    decreases levels.len(),
{
    if levels.len() == 0 {
    } else if levels.len() == 1 {
        lemma_render_level_is_word(levels[0]);
        lemma_tokens_of_word(render_level(levels[0]));
    } else {
        let front = levels.drop_last();
        lemma_tokens_of_line(front);
        lemma_tokens_split(line_of(front), ' ', render_level(levels.last()));
        lemma_render_level_is_word(levels.last());
        lemma_tokens_of_word(render_level(levels.last()));
    }
}

/// Writing levels out as a line and reading the line gives the same levels
/// back.
pub proof fn lemma_line_round_trip(levels: Seq<Level>)
    ensures
        line_parses(line_of(levels)),
        line_levels(line_of(levels)) == levels,
{
    let tokens = tokens_of(line_of(levels));
    lemma_tokens_of_line(levels);
    assert forall|k: int| 0 <= k < tokens.len() implies level_of(#[trigger] tokens[k]) == Ok::<
        Level,
        LevelError,
    >(levels[k]) by {
        lemma_level_round_trip(levels[k]);
    }
    lemma_run_len_is(tokens, |token: Seq<char>| !is_level(token), tokens.len() as int);
}

/// Reading a line that is a report, writing its levels out and reading
/// them again gives the levels that the line stands for.
pub proof fn lemma_reread(line: Seq<char>)
    requires
        line_parses(line),
    ensures
        line_parses(line_of(line_levels(line))),
        line_levels(line_of(line_levels(line))) == line_levels(line),
{
    lemma_line_round_trip(line_levels(line));
}

} // verus!
