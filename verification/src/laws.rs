//! What holds of every report: lemmas on safety and dampening.

use crate::direction::{direction_of, pair_direction, Direction, Level};
use crate::report::{dampened_safe, safe, step_at, steps_bounded, MAX_DIFF, MIN_DIFF};
use vstd::prelude::*;

verus! {

/// How far the level after position `i` lies above the level at `i`.
pub open spec fn rise_at(levels: Seq<Level>, i: int) -> int {
    levels[i + 1] - levels[i]
}

/// Every level lies above the one before it, by one, two or three.
pub open spec fn climbs_gently(levels: Seq<Level>) -> bool {
    forall|i: int| 0 <= i < levels.len() - 1 ==> 1 <= #[trigger] rise_at(levels, i) <= 3
}

/// Every level lies below the one before it, by one, two or three.
pub open spec fn descends_gently(levels: Seq<Level>) -> bool {
    forall|i: int| 0 <= i < levels.len() - 1 ==> -3 <= #[trigger] rise_at(levels, i) <= -1
}

/// Levels that rise by one to three at every step are safe.
pub proof fn lemma_gentle_climb_is_safe(levels: Seq<Level>)
    requires
        climbs_gently(levels),
    ensures
        safe(levels),
        direction_of(levels) == Direction::Increasing,
{
    assert forall|i: int| 0 <= i < levels.len() - 1 implies MIN_DIFF <= #[trigger] step_at(
        levels,
        i,
    ) <= MAX_DIFF by {
        assert(1 <= rise_at(levels, i) <= 3);
    }
    assert forall|i: int| 0 <= i < levels.len() - 1 implies #[trigger] pair_direction(levels, i)
        == Direction::Increasing by {
        assert(1 <= rise_at(levels, i) <= 3);
    }
}

/// Levels that fall by one to three at every step are safe.
pub proof fn lemma_gentle_descent_is_safe(levels: Seq<Level>)
    requires
        descends_gently(levels),
    ensures
        safe(levels),
        levels.len() >= 2 ==> direction_of(levels) == Direction::Decreasing,
{
    assert forall|i: int| 0 <= i < levels.len() - 1 implies MIN_DIFF <= #[trigger] step_at(
        levels,
        i,
    ) <= MAX_DIFF by {
        assert(-3 <= rise_at(levels, i) <= -1);
    }
    assert forall|i: int| 0 <= i < levels.len() - 1 implies #[trigger] pair_direction(levels, i)
        == Direction::Decreasing by {
        assert(-3 <= rise_at(levels, i) <= -1);
    }
    if levels.len() >= 2 {
        assert(pair_direction(levels, 0) == Direction::Decreasing);
    }
}

/// The safe sequences are those that rise by one to three at every step and
/// those that fall by one to three at every step.
pub proof fn lemma_safe_iff_gentle(levels: Seq<Level>)
    ensures
        safe(levels) <==> (climbs_gently(levels) || descends_gently(levels)),
{
    if climbs_gently(levels) {
        lemma_gentle_climb_is_safe(levels);
    }
    if descends_gently(levels) {
        lemma_gentle_descent_is_safe(levels);
    }
    if safe(levels) {
        if direction_of(levels) == Direction::Increasing {
            assert forall|i: int| 0 <= i < levels.len() - 1 implies 1 <= #[trigger] rise_at(
                levels,
                i,
            ) <= 3 by {
                assert(pair_direction(levels, i) == Direction::Increasing);
                assert(MIN_DIFF <= step_at(levels, i) <= MAX_DIFF);
            }
        } else {
            assert forall|i: int| 0 <= i < levels.len() - 1 implies -3 <= #[trigger] rise_at(
                levels,
                i,
            ) <= -1 by {
                assert(pair_direction(levels, i) == Direction::Decreasing);
                assert(MIN_DIFF <= step_at(levels, i) <= MAX_DIFF);
            }
        }
    }
}

/// A single pair of neighbours that are equal, or four or more apart,
/// makes the whole sequence unsafe.
pub proof fn lemma_bad_step_is_unsafe(levels: Seq<Level>, i: int)
    requires
        0 <= i < levels.len() - 1,
        step_at(levels, i) == 0 || step_at(levels, i) >= 4,
    ensures
        !steps_bounded(levels),
        !safe(levels),
{
}

/// A sequence that rises somewhere and falls somewhere has the trend
/// `Both` and is unsafe.
pub proof fn lemma_reversal_is_unsafe(levels: Seq<Level>, i: int, j: int)
    requires
        0 <= i < levels.len() - 1,
        0 <= j < levels.len() - 1,
        levels[i] < levels[i + 1],
        levels[j] > levels[j + 1],
    ensures
        direction_of(levels) == Direction::Both,
        !safe(levels),
{
    assert(pair_direction(levels, i) == Direction::Increasing);
    assert(pair_direction(levels, j) == Direction::Decreasing);
}

/// The sequences with the trend `Flat` are those of two or more levels
/// that are all equal.
pub proof fn lemma_flat_is_constant(levels: Seq<Level>)
    ensures
        direction_of(levels) == Direction::Flat <==> (levels.len() >= 2 && forall|i: int|
            0 <= i < levels.len() - 1 ==> #[trigger] rise_at(levels, i) == 0),
{
    if direction_of(levels) == Direction::Flat {
        assert forall|i: int| 0 <= i < levels.len() - 1 implies #[trigger] rise_at(levels, i)
            == 0 by {
            assert(pair_direction(levels, i) == Direction::Flat);
        }
    }
    if levels.len() >= 2 && forall|i: int|
        0 <= i < levels.len() - 1 ==> #[trigger] rise_at(levels, i) == 0 {
        assert forall|i: int| 0 <= i < levels.len() - 1 implies #[trigger] pair_direction(
            levels,
            i,
        ) == Direction::Flat by {
            assert(rise_at(levels, i) == 0);
        }
        assert(pair_direction(levels, 0) == Direction::Flat);
    }
}

/// A safe sequence stays safe when its first level, or its last, is taken
/// out.
pub proof fn lemma_safe_without_end(levels: Seq<Level>)
    requires
        safe(levels),
        levels.len() > 0,
    ensures
        safe(levels.remove(0)),
        safe(levels.remove(levels.len() - 1)),
{
    lemma_safe_iff_gentle(levels);
    let tail = levels.remove(0);
    let front = levels.remove(levels.len() - 1);
    assert forall|i: int| 0 <= i < tail.len() - 1 implies #[trigger] rise_at(tail, i) == rise_at(
        levels,
        i + 1,
    ) by {}
    assert forall|i: int| 0 <= i < front.len() - 1 implies #[trigger] rise_at(front, i)
        == rise_at(levels, i) by {}
    if climbs_gently(levels) {
        assert(climbs_gently(tail) && climbs_gently(front));
    } else {
        assert(descends_gently(tail) && descends_gently(front));
    }
    lemma_safe_iff_gentle(tail);
    lemma_safe_iff_gentle(front);
}

/// A safe report that holds a level is safe with dampening too: its first
/// level can be taken out. The empty report is safe and has no level to
/// take out.
pub proof fn lemma_safe_is_dampened_safe(levels: Seq<Level>)
    requires
        safe(levels),
        levels.len() > 0,
    ensures
        dampened_safe(levels),
{
    lemma_safe_without_end(levels);
}

/// A report of fewer than two levels is safe, and a report of one or two
/// levels is safe with dampening.
pub proof fn lemma_short_reports(levels: Seq<Level>)
    ensures
        levels.len() < 2 ==> safe(levels),
        levels.len() == 0 ==> !dampened_safe(levels),
        1 <= levels.len() <= 2 ==> dampened_safe(levels),
{
    if 1 <= levels.len() <= 2 {
        assert(safe(levels.remove(0)));
    }
}

/// Each report that a dampening search evaluates is one level shorter than
/// the report that is searched, and there is one for each of its levels.
pub proof fn lemma_candidates(levels: Seq<Level>, i: int)
    requires
        0 <= i < levels.len(),
    ensures
        levels.remove(i).len() == levels.len() - 1,
{
}

} // verus!
