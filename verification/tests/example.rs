use safe_reports::report::Report;
use safe_reports::{count_dampened_safe_reports, count_safe_reports, parse_reports};

const EXAMPLE_INPUT: &str = "7 6 4 2 1\n1 2 7 8 9\n9 7 6 2 1\n1 3 2 4 5\n8 6 4 4 1\n1 3 6 7 9";

#[test]
fn it_solves_example_part_1() {
    let safe_reports = count_safe_reports(EXAMPLE_INPUT);
    assert_eq!(safe_reports, 2);
}

#[test]
fn it_solves_example_part_2() {
    let safe_reports_with_dampening = count_dampened_safe_reports(EXAMPLE_INPUT);
    assert_eq!(safe_reports_with_dampening, 4);
}

#[test]
fn example_lines_are_read_in_order() {
    let reports = parse_reports(EXAMPLE_INPUT);
    assert_eq!(
        reports,
        vec![
            Report(vec![7, 6, 4, 2, 1]),
            Report(vec![1, 2, 7, 8, 9]),
            Report(vec![9, 7, 6, 2, 1]),
            Report(vec![1, 3, 2, 4, 5]),
            Report(vec![8, 6, 4, 4, 1]),
            Report(vec![1, 3, 6, 7, 9]),
        ]
    );
}

#[test]
fn example_safe_lines_are_the_first_and_the_last() {
    let verdicts: Vec<bool> = parse_reports(EXAMPLE_INPUT).iter().map(|r| r.is_safe()).collect();
    assert_eq!(verdicts, vec![true, false, false, false, false, true]);
}

#[test]
fn example_lines_safe_with_dampening() {
    let verdicts: Vec<bool> = parse_reports(EXAMPLE_INPUT)
        .iter()
        .map(|r| r.is_safe() || r.is_safe_dampened())
        .collect();
    assert_eq!(verdicts, vec![true, false, false, true, true, true]);
}

#[test]
fn counts_of_the_empty_text_are_zero() {
    assert_eq!(count_safe_reports(""), 0);
    assert_eq!(count_dampened_safe_reports(""), 0);
}

#[test]
fn a_final_line_feed_adds_no_report() {
    let with_feed = format!("{}\n", EXAMPLE_INPUT);
    assert_eq!(parse_reports(&with_feed).len(), 6);
    assert_eq!(count_safe_reports(&with_feed), 2);
    assert_eq!(count_dampened_safe_reports(&with_feed), 4);
}

#[test]
fn carriage_returns_before_line_feeds_are_dropped() {
    let text = EXAMPLE_INPUT.replace('\n', "\r\n");
    assert_eq!(parse_reports(&text), parse_reports(EXAMPLE_INPUT));
    assert_eq!(count_safe_reports(&text), 2);
    assert_eq!(count_dampened_safe_reports(&text), 4);
}

#[test]
fn reading_stops_at_the_first_line_that_is_no_report() {
    let text = "1 2 3\n3 2 1\n4 x 6\n1 2 3\n7 8 9";
    assert_eq!(parse_reports(text), vec![Report(vec![1, 2, 3]), Report(vec![3, 2, 1])]);
    assert_eq!(count_safe_reports(text), 2);
    assert_eq!(count_dampened_safe_reports(text), 2);
}

#[test]
fn a_faulty_first_line_leaves_nothing() {
    let text = "one two\n1 2 3\n";
    assert_eq!(parse_reports(text), Vec::<Report>::new());
    assert_eq!(count_safe_reports(text), 0);
    assert_eq!(count_dampened_safe_reports(text), 0);
}

#[test]
fn a_blank_line_is_an_empty_report_and_counts_as_safe() {
    let text = "1 5\n\n   \n1 2";
    let reports = parse_reports(text);
    assert_eq!(
        reports,
        vec![Report(vec![1, 5]), Report(vec![]), Report(vec![]), Report(vec![1, 2])]
    );
    assert_eq!(count_safe_reports(text), 3);
    assert_eq!(count_dampened_safe_reports(text), 4);
}

#[test]
fn dampened_count_is_safe_count_plus_rescued() {
    let reports = parse_reports(EXAMPLE_INPUT);
    let safe = reports.iter().filter(|r| r.is_safe()).count();
    let rescued = reports.iter().filter(|r| !r.is_safe() && r.is_safe_dampened()).count();
    assert_eq!(safe, 2);
    assert_eq!(rescued, 2);
    assert_eq!(count_dampened_safe_reports(EXAMPLE_INPUT), safe + rescued);
}

#[test]
fn counts_over_reports_given_directly() {
    let reports = vec![
        Report(vec![1, 2, 3]),
        Report(vec![1, 1, 2]),
        Report(vec![1, 9, 1, 9]),
        Report(vec![]),
    ];
    assert_eq!(safe_reports::count::count_safe_in(&reports), 2);
    assert_eq!(safe_reports::count::count_dampened_safe_in(&reports), 3);
    assert_eq!(safe_reports::count::count_safe_in(&[]), 0);
    assert_eq!(safe_reports::count::count_dampened_safe_in(&[]), 0);
}
