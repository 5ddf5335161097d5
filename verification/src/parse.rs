//! Reports written as lines of text.

use crate::direction::Level;
use crate::level::{level_of, parse_level, LevelError};
use crate::report::Report;
use crate::run::{lemma_run_len_is, run_len};
use crate::text::{
    all_within, chars_of, is_whitespace, lemma_blank_has_no_tokens, lemma_tokens_are_words,
    parts, token_spans, tokens_of, Span,
};
use vstd::prelude::*;
use vstd::slice::slice_subrange;
use vstd::string::StringExecFns;

verus! {

/// Whether a token stands for a level.
pub open spec fn is_level(token: Seq<char>) -> bool {
    level_of(token) is Ok
}

/// The number of tokens before the first one that stands for no level.
pub open spec fn leading_levels(tokens: Seq<Seq<char>>) -> nat {
    run_len(tokens, |token: Seq<char>| !is_level(token))
}

/// Whether a line is a report: each of its tokens stands for a level.
pub open spec fn line_parses(line: Seq<char>) -> bool {
    leading_levels(tokens_of(line)) == tokens_of(line).len()
}

/// The levels that the tokens of a line stand for, in order.
pub open spec fn line_levels(line: Seq<char>) -> Seq<Level> {
    tokens_of(line).map_values(|token: Seq<char>| level_of(token)->Ok_0)
}

/// No token of a line is empty, so no token fails for being empty.
pub proof fn lemma_no_token_is_empty(line: Seq<char>)
    ensures
        forall|k: int|
            0 <= k < tokens_of(line).len() ==> level_of(#[trigger] tokens_of(line)[k]) != Err::<
                Level,
                LevelError,
            >(LevelError::Empty),
{
    lemma_tokens_are_words(line);
}

/// A line that is empty or all whitespace is the empty report.
pub proof fn lemma_blank_line(line: Seq<char>)
    requires
        forall|j: int| 0 <= j < line.len() ==> is_whitespace(#[trigger] line[j]),
    ensures
        line_parses(line),
        line_levels(line) == Seq::<Level>::empty(),
{
    lemma_blank_has_no_tokens(line);
}

/// What is wrong with a line of characters: where its first faulty token
/// stands, and why that token is no level.
#[derive(Clone, Copy, Debug, PartialEq, Eq, Structural)]
pub struct Fault {
    /// Where the token stands in the line.
    pub span: Span,
    /// Why the token is no level.
    pub cause: LevelError,
}

/// Why a line is no report: its first faulty token, and why that token is
/// no level.
#[derive(Debug, PartialEq, Eq)]
pub struct ReportErr {
    /// The token as it stands in the line.
    pub token: String,
    /// Why the token is no level.
    pub cause: LevelError,
}

impl ReportErr {
    /// The words of the failure: the token in double quotes, and what is
    /// wrong with it.
    pub open spec fn spec_message(&self) -> Seq<char> {
        "parse level error for \""@ + self.token@ + "\": "@ + self.cause.spec_description()
    }

    /// Says in words which token failed and why.
    pub fn message(&self) -> (text: String)
        ensures
            text@ == self.spec_message(),
    {
        let mut text = String::from_str("parse level error for \"");
        text.append(self.token.as_str());
        text.append("\": ");
        text.append(self.cause.description());
        text
    }
}

impl Report {
    /// Reads a report from a line of characters. The line is split into
    /// tokens at whitespace and each token is read as a level; the first
    /// token that is no level makes the line fail. A line without tokens is
    /// the empty report.
    pub fn from_chars(line: &[char]) -> (parsed: Result<Report, Fault>)
        ensures
            parsed is Ok <==> line_parses(line@),
            match parsed {
                Ok(report) => report@ == line_levels(line@),
                Err(fault) => {
                    let tokens = tokens_of(line@);
                    let k = leading_levels(tokens) as int;
                    &&& k < tokens.len()
                    &&& fault.span.within(line@.len())
                    &&& fault.span.of(line@) == tokens[k]
                    &&& level_of(tokens[k]) == Err::<Level, LevelError>(fault.cause)
                    &&& fault.cause != LevelError::Empty
                },
            },
    {
        let spans = token_spans(line);
        let ghost tokens = tokens_of(line@);
        let ghost stop = |token: Seq<char>| !is_level(token);
        let ghost value = |token: Seq<char>| level_of(token)->Ok_0;
        let mut levels: Vec<Level> = Vec::new();
        let mut k: usize = 0;
        while k < spans.len()
            invariant
                k <= spans.len(),
                tokens == tokens_of(line@),
                tokens == parts(line@, spans@),
                all_within(spans@, line@.len()),
                stop == (|token: Seq<char>| !is_level(token)),
                value == (|token: Seq<char>| level_of(token)->Ok_0),
                forall|j: int| 0 <= j < k ==> !stop(#[trigger] tokens[j]),
                levels@ == tokens.take(k as int).map_values(value),
            decreases spans.len() - k,
        {
            let span = spans[k];
            let token = slice_subrange(line, span.start, span.end);
            match parse_level(token) {
                Ok(level) => {
                    levels.push(level);
                },
                Err(cause) => {
                    proof {
                        lemma_run_len_is(tokens, stop, k as int);
                        lemma_no_token_is_empty(line@);
                    }
                    return Err(Fault { span, cause });
                },
            }
            k += 1;
        }
        proof {
            lemma_run_len_is(tokens, stop, k as int);
        }
        Ok(Report(levels))
    }
}

impl std::str::FromStr for Report {
    type Err = ReportErr;

    /// Reads a report from a line of text: see [`Report::from_chars`].
    fn from_str(line: &str) -> (parsed: Result<Report, ReportErr>)
        ensures
            parsed is Ok <==> line_parses(line@),
            match parsed {
                Ok(report) => report@ == line_levels(line@),
                Err(fault) => {
                    let tokens = tokens_of(line@);
                    let k = leading_levels(tokens) as int;
                    &&& k < tokens.len()
                    &&& fault.token@ == tokens[k]
                    &&& level_of(tokens[k]) == Err::<Level, LevelError>(fault.cause)
                    &&& fault.cause != LevelError::Empty
                },
            },
    {
        let chars = chars_of(line);
        match Report::from_chars(chars.as_slice()) {
            Ok(report) => Ok(report),
            Err(fault) => {
                let token = line.substring_char(fault.span.start, fault.span.end).to_owned();
                Err(ReportErr { token, cause: fault.cause })
            },
        }
    }
}

} // verus!
