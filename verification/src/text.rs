//! Text as a sequence of characters: whitespace, tokens and lines.

use crate::run::{lemma_run_len_bound, lemma_run_len_holds, lemma_run_len_is, run_len};
use vstd::prelude::*;

verus! {

/// Whether `c` is whitespace: one of the code points that Unicode gives the
/// property `White_Space`.
pub open spec fn is_whitespace(c: char) -> bool {
    let code = c as u32;
    ||| 0x09 <= code <= 0x0D
    ||| code == 0x20
    ||| code == 0x85
    ||| code == 0xA0
    ||| code == 0x1680
    ||| 0x2000 <= code <= 0x200A
    ||| code == 0x2028
    ||| code == 0x2029
    ||| code == 0x202F
    ||| code == 0x205F
    ||| code == 0x3000
}

/// Tests a character for whitespace.
pub fn char_is_whitespace(c: char) -> (white: bool)
    ensures
        white == is_whitespace(c),
{
    let code = c as u32;
    (0x09 <= code && code <= 0x0D) || code == 0x20 || code == 0x85 || code == 0xA0 || code
        == 0x1680 || (0x2000 <= code && code <= 0x200A) || code == 0x2028 || code == 0x2029
        || code == 0x202F || code == 0x205F || code == 0x3000
}

/// The characters of a string, in order.
pub fn chars_of(s: &str) -> (chars: Vec<char>)
    ensures
        chars@ == s@,
{
    let mut chars: Vec<char> = Vec::new();
    for c in iter: s.chars()
        invariant
            iter.seq() == s@,
            chars@ == s@.take(iter.index() as int),
    {
        chars.push(c);
    }
    chars
}

/// The length of the token that starts `text`: its longest prefix without
/// whitespace.
pub open spec fn word_len(text: Seq<char>) -> nat {
    run_len(text, |c: char| is_whitespace(c))
}

/// The tokens of `text`: its maximal runs of characters that are not
/// whitespace, in order. Text that is empty or all whitespace has none.
pub open spec fn tokens_of(text: Seq<char>) -> Seq<Seq<char>>
    decreases text.len(),
{
    if text.len() == 0 {
        Seq::empty()
    } else if is_whitespace(text[0]) {
        tokens_of(text.drop_first())
    } else {
        let n = word_len(text) as int;
        proof {
            lemma_run_len_bound(text, |c: char| is_whitespace(c));
        }
        seq![text.take(n)] + tokens_of(text.skip(n))
    }
}

/// A word is text that is not empty and holds no whitespace.
pub open spec fn is_word(text: Seq<char>) -> bool {
    &&& text.len() > 0
    &&& forall|j: int| 0 <= j < text.len() ==> !is_whitespace(#[trigger] text[j])
}

/// Every token is a word.
pub proof fn lemma_tokens_are_words(text: Seq<char>)
    ensures
        forall|k: int| 0 <= k < tokens_of(text).len() ==> is_word(#[trigger] tokens_of(text)[k]),
    decreases text.len(),
{
    if text.len() == 0 {
    } else if is_whitespace(text[0]) {
        lemma_tokens_are_words(text.drop_first());
        assert(tokens_of(text) == tokens_of(text.drop_first()));
    } else {
        let stop = |c: char| is_whitespace(c);
        let n = word_len(text) as int;
        lemma_run_len_bound(text, stop);
        lemma_run_len_holds(text, stop);
        lemma_tokens_are_words(text.skip(n));
        let first = text.take(n);
        let rest = tokens_of(text.skip(n));
        assert(is_word(first));
        assert forall|k: int| 0 <= k < tokens_of(text).len() implies is_word(
            #[trigger] tokens_of(text)[k],
        ) by {
            if k > 0 {
                assert(tokens_of(text)[k] == rest[k - 1]);
            }
        }
    }
}

/// Text that is empty or all whitespace has no tokens.
pub proof fn lemma_blank_has_no_tokens(text: Seq<char>)
    requires
        forall|j: int| 0 <= j < text.len() ==> is_whitespace(#[trigger] text[j]),
    ensures
        tokens_of(text).len() == 0,
    decreases text.len(),
{
    if text.len() > 0 {
        let rest = text.drop_first();
        assert forall|j: int| 0 <= j < rest.len() implies is_whitespace(#[trigger] rest[j]) by {}
        lemma_blank_has_no_tokens(rest);
    }
}

/// The length of the first line of `text` without its terminator: the
/// number of characters before the first line feed.
pub open spec fn line_len(text: Seq<char>) -> nat {
    run_len(text, |c: char| c == '\n')
}

/// A line without the carriage return that it ends in, if it ends in one.
pub open spec fn without_cr(line: Seq<char>) -> Seq<char> {
    if line.len() > 0 && line.last() == '\r' {
        line.drop_last()
    } else {
        line
    }
}

/// The lines of `text`. A line ends at a line feed, or at a carriage return
/// directly followed by a line feed; the terminator is no part of the line.
/// The last line needs no terminator, and where the text ends in one, no
/// empty line follows it. A carriage return at the very end of the text
/// stays in the last line.
pub open spec fn lines_of(text: Seq<char>) -> Seq<Seq<char>>
    decreases text.len(),
{
    if text.len() == 0 {
        Seq::empty()
    } else {
        let n = line_len(text) as int;
        if n >= text.len() {
            seq![text]
        } else {
            seq![without_cr(text.take(n))] + lines_of(text.skip(n + 1))
        }
    }
}

/// A range of positions in a text, from `start` up to but without `end`.
#[derive(Clone, Copy, Debug, PartialEq, Eq, Structural)]
pub struct Span {
    /// The position of the first character.
    pub start: usize,
    /// The position after the last character.
    pub end: usize,
}

impl Span {
    /// The span lies within a text of `len` characters.
    pub open spec fn within(self, len: nat) -> bool {
        self.start <= self.end <= len
    }

    /// The part of `text` that the span covers.
    pub open spec fn of(self, text: Seq<char>) -> Seq<char> {
        text.subrange(self.start as int, self.end as int)
    }
}

/// The parts of `text` that `spans` cover, in order.
pub open spec fn parts(text: Seq<char>, spans: Seq<Span>) -> Seq<Seq<char>> {
    Seq::new(spans.len(), |k: int| spans[k].of(text))
}

/// Every span lies within a text of `len` characters.
pub open spec fn all_within(spans: Seq<Span>, len: nat) -> bool {
    forall|k: int| 0 <= k < spans.len() ==> (#[trigger] spans[k]).within(len)
}

/// Finds the tokens of `text`: see [`tokens_of`].
pub fn token_spans(text: &[char]) -> (spans: Vec<Span>)
    ensures
        all_within(spans@, text@.len()),
        parts(text@, spans@) == tokens_of(text@),
{
    let n = text.len();
    let mut spans: Vec<Span> = Vec::new();
    let mut pos: usize = 0;
    assert(text@.skip(0) == text@);
    while pos < n
        invariant
            n == text@.len(),
            pos <= n,
            all_within(spans@, text@.len()),
            tokens_of(text@) == parts(text@, spans@) + tokens_of(text@.skip(pos as int)),
        decreases n - pos,
    {
        let ghost rest = text@.skip(pos as int);
        if char_is_whitespace(text[pos]) {
            assert(rest.drop_first() == text@.skip(pos + 1));
            pos += 1;
        } else {
            let start = pos;
            pos += 1;
            while pos < n && !char_is_whitespace(text[pos])
                invariant
                    n == text@.len(),
                    start < pos <= n,
                    forall|j: int| start <= j < pos ==> !is_whitespace(#[trigger] text@[j]),
                decreases n - pos,
            {
                pos += 1;
            }
            proof {
                lemma_run_len_is(rest, |c: char| is_whitespace(c), pos - start);
                assert(rest.take(pos - start) == text@.subrange(start as int, pos as int));
                assert(rest.skip(pos - start) == text@.skip(pos as int));
            }
            spans.push(Span { start, end: pos });
        }
    }
    spans
}

/// Finds the lines of `text`: see [`lines_of`].
pub fn line_spans(text: &[char]) -> (spans: Vec<Span>)
    ensures
        all_within(spans@, text@.len()),
        parts(text@, spans@) == lines_of(text@),
{
    let n = text.len();
    let mut spans: Vec<Span> = Vec::new();
    let mut pos: usize = 0;
    assert(text@.skip(0) == text@);
    while pos < n
        invariant
            n == text@.len(),
            pos <= n,
            all_within(spans@, text@.len()),
            lines_of(text@) == parts(text@, spans@) + lines_of(text@.skip(pos as int)),
        decreases n - pos,
    {
        let ghost rest = text@.skip(pos as int);
        let start = pos;
        while pos < n && text[pos] != '\n'
            invariant
                n == text@.len(),
                start <= pos <= n,
                forall|j: int| start <= j < pos ==> #[trigger] text@[j] != '\n',
            decreases n - pos,
        {
            pos += 1;
        }
        let feed = pos;
        let end = if feed < n && start < feed && text[feed - 1] == '\r' {
            feed - 1
        } else {
            feed
        };
        proof {
            lemma_run_len_is(rest, |c: char| c == '\n', feed - start);
            if feed < n {
                assert(rest.skip(feed - start + 1) == text@.skip(feed + 1));
                assert(without_cr(rest.take(feed - start)) == text@.subrange(
                    start as int,
                    end as int,
                ));
            }
        }
        spans.push(Span { start, end });
        if pos < n {
            pos += 1;
        }
    }
    spans
}

} // verus!
