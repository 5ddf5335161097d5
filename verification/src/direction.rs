//! The trend of a sequence of levels.

use vstd::prelude::*;

verus! {

/// A single level of a report.
pub type Level = i64;

/// The trend across the adjacent pairs of a sequence of levels.
#[derive(Clone, Copy, Debug, PartialEq, Eq, Structural)]
pub enum Direction {
    /// Every pair rises.
    Increasing,
    /// Every pair falls.
    Decreasing,
    /// Every pair holds two equal levels: no clear trend.
    Flat,
    /// The pairs disagree.
    Both,
}

impl Direction {
    /// The trend of the pair `(left, right)`.
    pub open spec fn spec_of_pair(left: Level, right: Level) -> Direction {
        if left < right {
            Direction::Increasing
        } else if left > right {
            Direction::Decreasing
        } else {
            Direction::Flat
        }
    }

    /// The running trend after one more pair: it stays while the pairs agree
    /// and is `Both` from the first disagreement on.
    pub open spec fn spec_combine(self, next: Direction) -> Direction {
        if self == next {
            next
        } else {
            Direction::Both
        }
    }

    /// Classifies one adjacent pair.
    #[verifier::when_used_as_spec(spec_of_pair)]
    pub fn of_pair(left: Level, right: Level) -> (dir: Direction)
        ensures
            dir == Direction::spec_of_pair(left, right),
    {
        if left < right {
            Direction::Increasing
        } else if left > right {
            Direction::Decreasing
        } else {
            Direction::Flat
        }
    }

    /// Folds the trend of one more pair into the running trend.
    #[verifier::when_used_as_spec(spec_combine)]
    pub fn combine(self, next: Direction) -> (dir: Direction)
        ensures
            dir == self.spec_combine(next),
    {
        if self == next {
            next
        } else {
            Direction::Both
        }
    }
}

/// The trend of the pair that starts at position `i` of `levels`.
pub open spec fn pair_direction(levels: Seq<Level>, i: int) -> Direction {
    Direction::spec_of_pair(levels[i], levels[i + 1])
}

/// Every adjacent pair of `levels` has the trend `dir`. A sequence of fewer
/// than two levels has no pairs, so this holds of it whatever `dir` is.
pub open spec fn all_pairs(levels: Seq<Level>, dir: Direction) -> bool {
    forall|i: int| 0 <= i < levels.len() - 1 ==> #[trigger] pair_direction(levels, i) == dir
}

/// The trend of a sequence of levels: the trend that all of its adjacent
/// pairs share, or `Both` where two pairs differ. A sequence of fewer than
/// two levels has no pairs and counts as `Increasing`.
pub open spec fn direction_of(levels: Seq<Level>) -> Direction {
    if all_pairs(levels, Direction::Increasing) {
        Direction::Increasing
    } else if all_pairs(levels, Direction::Decreasing) {
        Direction::Decreasing
    } else if all_pairs(levels, Direction::Flat) {
        Direction::Flat
    } else {
        Direction::Both
    }
}

/// The trends of the pairs of `levels`, reduced from left to right with
/// [`Direction::combine`], starting from the trend of the first pair.
pub open spec fn fold_pairs(levels: Seq<Level>) -> Direction
    decreases levels.len(),
{
    if levels.len() < 2 {
        Direction::Increasing
    } else if levels.len() == 2 {
        pair_direction(levels, 0)
    } else {
        fold_pairs(levels.drop_last()).spec_combine(pair_direction(levels, levels.len() - 2))
    }
}

/// Once the running trend is `Both` it stays `Both`, whatever follows.
pub proof fn lemma_both_absorbs(next: Direction)
    ensures
        Direction::Both.spec_combine(next) == Direction::Both,
{
}

/// The trend of exactly two levels is the trend of their pair.
pub proof fn lemma_direction_of_pair(levels: Seq<Level>)
    requires
        levels.len() == 2,
    ensures
        direction_of(levels) == pair_direction(levels, 0),
{
    let dir = pair_direction(levels, 0);
    assert forall|other: Direction| other != dir implies !all_pairs(levels, other) by {
        assert(pair_direction(levels, 0) != other);
    }
}

/// Appending a level folds the trend of the new last pair into the trend of
/// what came before.
pub proof fn lemma_direction_extend(levels: Seq<Level>)
    requires
        levels.len() >= 3,
    ensures
        direction_of(levels) == direction_of(levels.drop_last()).spec_combine(
            pair_direction(levels, levels.len() - 2),
        ),
{
    let front = levels.drop_last();
    let last = pair_direction(levels, levels.len() - 2);
    assert forall|i: int| 0 <= i < front.len() - 1 implies pair_direction(front, i)
        == pair_direction(levels, i) by {}
    assert forall|dir: Direction|
        all_pairs(levels, dir) <==> (all_pairs(front, dir) && last == dir) by {
        if all_pairs(levels, dir) {
            assert(all_pairs(front, dir));
        }
        if all_pairs(front, dir) && last == dir {
            assert(all_pairs(levels, dir));
        }
    }
    let first = pair_direction(front, 0);
    assert forall|dir: Direction| all_pairs(front, dir) implies dir == first by {
        assert(pair_direction(front, 0) == dir);
    }
}

/// The trend of a sequence is what the left-to-right reduction of its
/// pairs' trends computes.
pub proof fn lemma_direction_is_fold(levels: Seq<Level>)
    ensures
        direction_of(levels) == fold_pairs(levels),
    decreases levels.len(),
{
    if levels.len() < 2 {
    } else if levels.len() == 2 {
        lemma_direction_of_pair(levels);
    } else {
        lemma_direction_is_fold(levels.drop_last());
        lemma_direction_extend(levels);
    }
}

} // verus!
