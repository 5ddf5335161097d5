use safe_reports::render::push_level;
use safe_reports::report::Report;

fn joined(levels: &[i64]) -> String {
    levels.iter().map(|l| l.to_string()).collect::<Vec<String>>().join(" ")
}

#[test]
fn levels_written_in_base_ten() {
    for (level, expected) in [
        (0i64, "0"),
        (7, "7"),
        (10, "10"),
        (-1, "-1"),
        (-10, "-10"),
        (1234567890, "1234567890"),
        (i64::MAX, "9223372036854775807"),
        (i64::MIN, "-9223372036854775808"),
    ] {
        let mut out = String::new();
        push_level(&mut out, level);
        assert_eq!(out, expected);
    }
}

#[test]
fn push_level_writes_at_the_end() {
    let mut out = String::from("level: ");
    push_level(&mut out, -305);
    push_level(&mut out, 9);
    assert_eq!(out, "level: -3059");
}

#[test]
fn reports_written_as_lines() {
    assert_eq!(Report(vec![]).to_line(), "");
    assert_eq!(Report(vec![5]).to_line(), "5");
    assert_eq!(Report(vec![7, 6, 4, 2, 1]).to_line(), "7 6 4 2 1");
    assert_eq!(Report(vec![-1, 0, 1]).to_line(), "-1 0 1");
    assert_eq!(
        Report(vec![i64::MIN, i64::MAX]).to_line(),
        "-9223372036854775808 9223372036854775807"
    );
}

#[test]
fn a_written_report_reads_back() {
    for levels in [
        vec![],
        vec![0],
        vec![7, 6, 4, 2, 1],
        vec![-1, -20, 300],
        vec![i64::MIN, -1, 0, 1, i64::MAX],
        vec![5, 5, 5],
    ] {
        let report = Report(levels);
        assert_eq!(report.to_line().parse::<Report>(), Ok(report));
    }
}

#[test]
fn reading_and_writing_keeps_the_levels_not_the_spacing() {
    let line = "  +7\t006   -0 4\u{3000}2 \r";
    let report = line.parse::<Report>().unwrap();
    assert_eq!(report, Report(vec![7, 6, 0, 4, 2]));
    assert_eq!(report.to_line(), "7 6 0 4 2");
    assert_eq!(report.to_line().parse::<Report>(), Ok(report));
}

#[test]
fn a_plain_line_is_written_back_as_it_was() {
    for line in ["7 6 4 2 1", "1 2 7 8 9", "-3 0 12", "5", ""] {
        assert_eq!(line.parse::<Report>().unwrap().to_line(), line);
    }
}

fn next(seed: &mut u64) -> u64 {
    *seed = seed.wrapping_mul(6364136223846793005).wrapping_add(1442695040888963407);
    *seed >> 11
}

#[test]
fn writing_agrees_with_the_standard_library_on_many_reports() {
    let mut seed: u64 = 7;
    for _ in 0..5000 {
        let len = (next(&mut seed) % 6) as usize;
        let mut levels: Vec<i64> = Vec::new();
        for _ in 0..len {
            let bits = next(&mut seed) % 64;
            let raw = next(&mut seed) ^ (next(&mut seed) << 32);
            levels.push((raw as i64) >> bits);
        }
        let report = Report(levels.clone());
        let line = report.to_line();
        assert_eq!(line, joined(&levels));
        assert_eq!(line.parse::<Report>(), Ok(report));
    }
}
