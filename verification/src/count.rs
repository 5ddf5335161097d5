//! Counting the safe reports of a text.

use crate::direction::Level;
use crate::parse::{line_levels, line_parses};
use crate::report::{dampened_safe, safe, Report};
use crate::run::{lemma_run_len_is, run_len};
use crate::text::{all_within, chars_of, line_spans, lines_of, parts};
use vstd::prelude::*;
use vstd::slice::slice_subrange;

verus! {

/// The number of lines before the first one that is no report.
pub open spec fn leading_reports(lines: Seq<Seq<char>>) -> nat {
    run_len(lines, |line: Seq<char>| !line_parses(line))
}

/// The reports of a text: its lines, each read as a report, up to the first
/// line that is no report. That line and all that follow it are ignored.
pub open spec fn parsed_reports(text: Seq<char>) -> Seq<Seq<Level>> {
    let lines = lines_of(text);
    lines.take(leading_reports(lines) as int).map_values(|line: Seq<char>| line_levels(line))
}

/// The levels of each report, in order.
pub open spec fn views(reports: Seq<Report>) -> Seq<Seq<Level>> {
    reports.map_values(|report: Report| report@)
}

/// How many of `reports` are safe.
pub open spec fn count_safe(reports: Seq<Seq<Level>>) -> nat {
    reports.filter(|levels: Seq<Level>| safe(levels)).len()
}

/// How many of `reports` are unsafe, but safe with dampening.
pub open spec fn count_rescued(reports: Seq<Seq<Level>>) -> nat {
    reports.filter(|levels: Seq<Level>| !safe(levels) && dampened_safe(levels)).len()
}

/// How many of `reports` are safe as they are or with dampening: the safe
/// ones, and of the others those that dampening makes safe.
pub open spec fn count_dampened_safe(reports: Seq<Seq<Level>>) -> nat {
    count_safe(reports) + count_rescued(reports)
}

/// Adding an item to a sequence adds it to what a filter keeps of the
/// sequence, if the filter accepts the item.
pub proof fn lemma_filter_push<A>(items: Seq<A>, item: A, keep: spec_fn(A) -> bool)
    ensures
        items.push(item).filter(keep) == (if keep(item) {
            items.filter(keep).push(item)
        } else {
            items.filter(keep)
        }),
{
    reveal_with_fuel(Seq::filter, 2);
    assert(items.push(item).drop_last() == items);
}

/// The dampened count is the number of reports that are safe or safe with
/// dampening; it is no less than the number of safe reports and no more
/// than the number of reports.
pub proof fn lemma_dampened_count(reports: Seq<Seq<Level>>)
    ensures
        count_dampened_safe(reports) == reports.filter(
            |levels: Seq<Level>| safe(levels) || dampened_safe(levels),
        ).len(),
        count_safe(reports) <= count_dampened_safe(reports) <= reports.len(),
    decreases reports.len(),
{
    let keep = |levels: Seq<Level>| safe(levels);
    let rescue = |levels: Seq<Level>| !safe(levels) && dampened_safe(levels);
    let either = |levels: Seq<Level>| safe(levels) || dampened_safe(levels);
    if reports.len() == 0 {
        reveal_with_fuel(Seq::filter, 1);
    } else {
        let front = reports.drop_last();
        lemma_dampened_count(front);
        assert(front.push(reports.last()) == reports);
        lemma_filter_push(front, reports.last(), keep);
        lemma_filter_push(front, reports.last(), rescue);
        lemma_filter_push(front, reports.last(), either);
    }
}

/// Reads the reports of a text: see [`parsed_reports`].
pub fn parse_reports(input: &str) -> (reports: Vec<Report>)
    ensures
        views(reports@) == parsed_reports(input@),
{
    let chars = chars_of(input);
    let text = chars.as_slice();
    let spans = line_spans(text);
    let ghost lines = lines_of(input@);
    let ghost stop = |line: Seq<char>| !line_parses(line);
    let ghost levels = |line: Seq<char>| line_levels(line);
    let mut reports: Vec<Report> = Vec::new();
    let mut k: usize = 0;
    while k < spans.len()
        invariant
            k <= spans.len(),
            text@ == input@,
            lines == lines_of(input@),
            lines == parts(text@, spans@),
            all_within(spans@, text@.len()),
            stop == (|line: Seq<char>| !line_parses(line)),
            levels == (|line: Seq<char>| line_levels(line)),
            forall|j: int| 0 <= j < k ==> !stop(#[trigger] lines[j]),
            views(reports@) == lines.take(k as int).map_values(levels),
        decreases spans.len() - k,
    {
        let span = spans[k];
        let line = slice_subrange(text, span.start, span.end);
        match Report::from_chars(line) {
            Ok(report) => {
                assert(lines.take(k + 1).map_values(levels) == lines.take(k as int).map_values(
                    levels,
                ).push(report@));
                reports.push(report);
            },
            Err(_) => {
                proof {
                    lemma_run_len_is(lines, stop, k as int);
                }
                return reports;
            },
        }
        k += 1;
    }
    proof {
        lemma_run_len_is(lines, stop, k as int);
    }
    reports
}

/// Counts the safe reports among `reports`.
pub fn count_safe_in(reports: &[Report]) -> (count: usize)
    ensures
        count == count_safe(views(reports@)),
{
    let ghost keep = |levels: Seq<Level>| safe(levels);
    let mut count: usize = 0;
    let mut k: usize = 0;
    assert(views(reports@.take(0)).filter(keep).len() == 0) by {
        reveal_with_fuel(Seq::filter, 1);
    }
    while k < reports.len()
        invariant
            k <= reports.len(),
            keep == (|levels: Seq<Level>| safe(levels)),
            count == views(reports@.take(k as int)).filter(keep).len(),
            count <= k,
        decreases reports.len() - k,
    {
        proof {
            assert(views(reports@.take(k + 1)) == views(reports@.take(k as int)).push(
                reports@[k as int]@,
            ));
            lemma_filter_push(views(reports@.take(k as int)), reports@[k as int]@, keep);
        }
        if reports[k].is_safe() {
            count += 1;
        }
        k += 1;
    }
    assert(reports@.take(k as int) == reports@);
    count
}

/// Counts the reports among `reports` that are safe, as they are or with
/// dampening. A safe report counts as it is: no dampening is tried on it.
pub fn count_dampened_safe_in(reports: &[Report]) -> (count: usize)
    ensures
        count == count_dampened_safe(views(reports@)),
{
    let ghost keep = |levels: Seq<Level>| safe(levels);
    let ghost rescue = |levels: Seq<Level>| !safe(levels) && dampened_safe(levels);
    let mut safe_count: usize = 0;
    let mut rescued: usize = 0;
    let mut k: usize = 0;
    assert(views(reports@.take(0)).filter(keep).len() == 0
        && views(reports@.take(0)).filter(rescue).len() == 0) by {
        reveal_with_fuel(Seq::filter, 1);
    }
    while k < reports.len()
        invariant
            k <= reports.len(),
            keep == (|levels: Seq<Level>| safe(levels)),
            rescue == (|levels: Seq<Level>| !safe(levels) && dampened_safe(levels)),
            safe_count == views(reports@.take(k as int)).filter(keep).len(),
            rescued == views(reports@.take(k as int)).filter(rescue).len(),
            safe_count + rescued <= k,
        decreases reports.len() - k,
    {
        proof {
            assert(views(reports@.take(k + 1)) == views(reports@.take(k as int)).push(
                reports@[k as int]@,
            ));
            lemma_filter_push(views(reports@.take(k as int)), reports@[k as int]@, keep);
            lemma_filter_push(views(reports@.take(k as int)), reports@[k as int]@, rescue);
        }
        if reports[k].is_safe() {
            safe_count += 1;
        } else if reports[k].is_safe_dampened() {
            rescued += 1;
        }
        k += 1;
    }
    assert(reports@.take(k as int) == reports@);
    safe_count + rescued
}

/// Counts the safe reports of a text: see [`parsed_reports`] and [`safe`].
pub fn count_safe_reports(input: &str) -> (count: usize)
    ensures
        count == count_safe(parsed_reports(input@)),
{
    let reports = parse_reports(input);
    count_safe_in(reports.as_slice())
}

/// Counts the reports of a text that are safe, as they are or with
/// dampening: see [`parsed_reports`] and [`count_dampened_safe`].
pub fn count_dampened_safe_reports(input: &str) -> (count: usize)
    ensures
        count == count_dampened_safe(parsed_reports(input@)),
{
    let reports = parse_reports(input);
    count_dampened_safe_in(reports.as_slice())
}

} // verus!
