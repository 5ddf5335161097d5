use safe_reports::direction::Direction;
use safe_reports::report::{level_gap, Dampening, Report, MAX_DIFF, MIN_DIFF};

fn report(levels: &[i64]) -> Report {
    Report(levels.to_vec())
}

#[test]
fn step_bounds_are_one_and_three() {
    assert_eq!(MIN_DIFF, 1);
    assert_eq!(MAX_DIFF, 3);
}

#[test]
fn pair_trends() {
    assert_eq!(Direction::of_pair(1, 2), Direction::Increasing);
    assert_eq!(Direction::of_pair(2, 1), Direction::Decreasing);
    assert_eq!(Direction::of_pair(2, 2), Direction::Flat);
    assert_eq!(Direction::of_pair(i64::MIN, i64::MAX), Direction::Increasing);
    assert_eq!(Direction::of_pair(i64::MAX, i64::MIN), Direction::Decreasing);
}

#[test]
fn combine_keeps_agreement_and_turns_disagreement_into_both() {
    let all = [Direction::Increasing, Direction::Decreasing, Direction::Flat, Direction::Both];
    for a in all {
        for b in all {
            let expected = if a == b { b } else { Direction::Both };
            assert_eq!(a.combine(b), expected);
        }
    }
}

#[test]
fn both_absorbs_whatever_follows() {
    for next in [Direction::Increasing, Direction::Decreasing, Direction::Flat, Direction::Both] {
        assert_eq!(Direction::Both.combine(next), Direction::Both);
    }
}

#[test]
fn trend_of_reports() {
    assert_eq!(report(&[1, 2, 3]).get_dir(), Direction::Increasing);
    assert_eq!(report(&[1, 9, 100]).get_dir(), Direction::Increasing);
    assert_eq!(report(&[3, 2, 1]).get_dir(), Direction::Decreasing);
    assert_eq!(report(&[5, 5]).get_dir(), Direction::Flat);
    assert_eq!(report(&[5, 5, 5, 5]).get_dir(), Direction::Flat);
    assert_eq!(report(&[1, 2, 1]).get_dir(), Direction::Both);
    assert_eq!(report(&[2, 1, 2]).get_dir(), Direction::Both);
    assert_eq!(report(&[1, 2, 2]).get_dir(), Direction::Both);
    assert_eq!(report(&[2, 2, 3]).get_dir(), Direction::Both);
    assert_eq!(report(&[2, 2, 1]).get_dir(), Direction::Both);
}

#[test]
fn trend_stays_both_after_later_agreement() {
    assert_eq!(report(&[1, 2, 1, 0, -1, -2]).get_dir(), Direction::Both);
    assert_eq!(report(&[1, 1, 2, 3, 4, 5]).get_dir(), Direction::Both);
    assert_eq!(report(&[1, 2, 1, 2, 3, 4, 5]).get_dir(), Direction::Both);
}

#[test]
fn trend_of_short_reports_is_increasing() {
    assert_eq!(report(&[]).get_dir(), Direction::Increasing);
    assert_eq!(report(&[7]).get_dir(), Direction::Increasing);
    assert_eq!(report(&[i64::MIN]).get_dir(), Direction::Increasing);
}

#[test]
fn short_reports_are_safe() {
    assert!(report(&[]).is_safe());
    assert!(report(&[0]).is_safe());
    assert!(report(&[-4]).is_safe());
}

#[test]
fn gaps_between_levels() {
    assert_eq!(level_gap(1, 4), 3);
    assert_eq!(level_gap(4, 1), 3);
    assert_eq!(level_gap(-2, 2), 4);
    assert_eq!(level_gap(5, 5), 0);
    assert_eq!(level_gap(i64::MIN, i64::MAX), u64::MAX);
    assert_eq!(level_gap(i64::MAX, i64::MIN), u64::MAX);
    assert_eq!(level_gap(i64::MIN, 0), 1u64 << 63);
    assert_eq!(level_gap(0, i64::MAX), (1u64 << 63) - 1);
}

#[test]
fn bounded_steps() {
    assert!(report(&[1, 2, 4, 7]).has_bounded_steps());
    assert!(report(&[1, 2, 1, 4, 1]).has_bounded_steps());
    assert!(!report(&[1, 2, 2]).has_bounded_steps());
    assert!(!report(&[1, 5]).has_bounded_steps());
    assert!(!report(&[5, 1]).has_bounded_steps());
    assert!(report(&[]).has_bounded_steps());
    assert!(report(&[3]).has_bounded_steps());
}

#[test]
fn gentle_climbs_and_descents_are_safe() {
    assert!(report(&[1, 2]).is_safe());
    assert!(report(&[1, 2, 4, 7]).is_safe());
    assert!(report(&[1, 4, 7, 10, 13]).is_safe());
    assert!(report(&[7, 4, 2, 1]).is_safe());
    assert!(report(&[-1, -2, -5]).is_safe());
    assert!(report(&[-2, 1]).is_safe());
    assert!(report(&[i64::MAX - 3, i64::MAX]).is_safe());
    assert!(report(&[i64::MIN + 1, i64::MIN]).is_safe());
}

#[test]
fn a_step_of_zero_or_of_four_and_more_is_unsafe() {
    assert!(!report(&[1, 1]).is_safe());
    assert!(!report(&[1, 2, 2, 3]).is_safe());
    assert!(!report(&[1, 5]).is_safe());
    assert!(!report(&[5, 1]).is_safe());
    assert!(!report(&[1, 2, 3, 7]).is_safe());
    assert!(!report(&[9, 8, 4, 3]).is_safe());
    assert!(!report(&[0, 1000]).is_safe());
    assert!(!report(&[i64::MIN, i64::MAX]).is_safe());
    assert!(!report(&[i64::MAX, i64::MIN]).is_safe());
    assert!(!report(&[i64::MIN, 0, i64::MAX]).is_safe());
}

#[test]
fn a_reversal_is_unsafe() {
    assert!(!report(&[1, 2, 1]).is_safe());
    assert!(!report(&[3, 2, 3]).is_safe());
    assert!(!report(&[1, 3, 2, 4, 5]).is_safe());
    assert!(!report(&[5, 4, 3, 4]).is_safe());
}

#[test]
fn except_leaves_out_one_level() {
    let r = report(&[10, 20, 30, 40]);
    assert_eq!(r.except(0), report(&[20, 30, 40]));
    assert_eq!(r.except(1), report(&[10, 30, 40]));
    assert_eq!(r.except(2), report(&[10, 20, 40]));
    assert_eq!(r.except(3), report(&[10, 20, 30]));
    assert_eq!(r, report(&[10, 20, 30, 40]));
}

#[test]
fn except_past_the_end_leaves_out_nothing() {
    let r = report(&[10, 20, 30]);
    assert_eq!(r.except(3), r);
    assert_eq!(r.except(usize::MAX), r);
    assert_eq!(report(&[]).except(0), report(&[]));
}

#[test]
fn except_leaves_out_one_of_equal_levels_only() {
    let r = report(&[4, 4, 4]);
    assert_eq!(r.except(1), report(&[4, 4]));
    assert_eq!(report(&[4]).except(0), report(&[]));
}

#[test]
fn clone_keeps_the_levels() {
    let r = report(&[3, 1, 2]);
    assert_eq!(r.clone(), r);
}

#[test]
fn search_finds_the_first_level_that_can_go() {
    assert_eq!(
        report(&[1, 3, 2, 4, 5]).dampening_search(),
        Dampening { removed: Some(1), evaluations: 2 }
    );
    assert_eq!(
        report(&[8, 6, 4, 4, 1]).dampening_search(),
        Dampening { removed: Some(2), evaluations: 3 }
    );
    assert_eq!(
        report(&[1, 2, 3, 4, 9]).dampening_search(),
        Dampening { removed: Some(4), evaluations: 5 }
    );
    assert_eq!(
        report(&[9, 1, 2, 3]).dampening_search(),
        Dampening { removed: Some(0), evaluations: 1 }
    );
}

#[test]
fn search_evaluates_every_level_before_it_gives_up() {
    assert_eq!(
        report(&[1, 2, 7, 8, 9]).dampening_search(),
        Dampening { removed: None, evaluations: 5 }
    );
    assert_eq!(
        report(&[9, 7, 6, 2, 1]).dampening_search(),
        Dampening { removed: None, evaluations: 5 }
    );
    assert_eq!(
        report(&[1, 1, 1]).dampening_search(),
        Dampening { removed: None, evaluations: 3 }
    );
}

#[test]
fn search_on_the_empty_report_finds_nothing() {
    assert_eq!(report(&[]).dampening_search(), Dampening { removed: None, evaluations: 0 });
    assert!(!report(&[]).is_safe_dampened());
    assert!(report(&[]).is_safe());
}

#[test]
fn reports_of_one_or_two_levels_are_safe_with_dampening() {
    assert!(report(&[5]).is_safe_dampened());
    assert!(report(&[5, 5]).is_safe_dampened());
    assert!(report(&[5, 500]).is_safe_dampened());
    assert_eq!(
        report(&[5, 500]).dampening_search(),
        Dampening { removed: Some(0), evaluations: 1 }
    );
}

#[test]
fn a_safe_report_with_a_level_is_safe_with_dampening() {
    for levels in [vec![1i64], vec![1, 2], vec![1, 2, 3], vec![9, 6, 5, 2], vec![7, 6, 4, 2, 1]] {
        let r = Report(levels);
        assert!(r.is_safe());
        assert!(r.is_safe_dampened());
        assert_eq!(r.dampening_search(), Dampening { removed: Some(0), evaluations: 1 });
    }
}

#[test]
fn dampening_takes_out_one_level_only() {
    assert!(!report(&[1, 2, 9, 9, 3]).is_safe_dampened());
    assert!(!report(&[1, 1, 1, 2]).is_safe_dampened());
    assert!(report(&[1, 1, 2]).is_safe_dampened());
}

fn next(seed: &mut u64) -> u64 {
    *seed = seed.wrapping_mul(6364136223846793005).wrapping_add(1442695040888963407);
    *seed >> 33
}

fn plainly_safe(levels: &[i64]) -> bool {
    let up = levels.windows(2).all(|w| w[0] < w[1] && w[1] - w[0] <= 3);
    let down = levels.windows(2).all(|w| w[0] > w[1] && w[0] - w[1] <= 3);
    up || down
}

#[test]
fn verdicts_agree_with_a_plain_check_on_many_reports() {
    let mut seed: u64 = 2024;
    for _ in 0..20000 {
        let len = (next(&mut seed) % 7) as usize;
        let mut levels: Vec<i64> = Vec::new();
        let mut level = (next(&mut seed) % 20) as i64;
        for _ in 0..len {
            levels.push(level);
            level += (next(&mut seed) % 9) as i64 - 4;
        }
        let r = Report(levels.clone());
        assert_eq!(r.is_safe(), plainly_safe(&levels));
        let mut first = None;
        for i in 0..levels.len() {
            let mut rest = levels.clone();
            rest.remove(i);
            assert_eq!(r.except(i), Report(rest.clone()));
            if first.is_none() && plainly_safe(&rest) {
                first = Some(i);
            }
        }
        let found = r.dampening_search();
        assert_eq!(found.removed, first);
        assert_eq!(found.evaluations, first.map_or(levels.len(), |i| i + 1));
        assert!(found.evaluations <= levels.len());
        assert_eq!(r.is_safe_dampened(), first.is_some());
        if r.is_safe() && !levels.is_empty() {
            assert!(r.is_safe_dampened());
        }
    }
}
