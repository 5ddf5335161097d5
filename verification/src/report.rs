//! Reports and their safety.

use crate::direction::{
    direction_of, lemma_direction_extend, lemma_direction_of_pair, Direction, Level,
};
use vstd::prelude::*;

verus! {

/// The smallest step allowed between two neighbouring levels.
pub const MIN_DIFF: u64 = 1;

/// The largest step allowed between two neighbouring levels.
pub const MAX_DIFF: u64 = 3;

/// An ordered sequence of levels. It may be empty and may repeat values.
#[derive(Debug, PartialEq, Eq)]
pub struct Report(pub Vec<Level>);

impl Clone for Report {
    fn clone(&self) -> (copy: Self)
        ensures
            copy@ == self@,
    {
        Report(self.0.clone())
    }
}

impl View for Report {
    type V = Seq<Level>;

    open spec fn view(&self) -> Seq<Level> {
        self.0@
    }
}

/// The distance between two levels.
pub open spec fn gap(left: Level, right: Level) -> nat {
    if left <= right {
        (right - left) as nat
    } else {
        (left - right) as nat
    }
}

/// The distance between the level at position `i` of `levels` and the next.
pub open spec fn step_at(levels: Seq<Level>, i: int) -> nat {
    gap(levels[i], levels[i + 1])
}

/// Every step between neighbours lies between [`MIN_DIFF`] and [`MAX_DIFF`].
pub open spec fn steps_bounded(levels: Seq<Level>) -> bool {
    forall|i: int|
        0 <= i < levels.len() - 1 ==> MIN_DIFF <= #[trigger] step_at(levels, i) <= MAX_DIFF
}

/// A sequence of levels is safe when its steps are bounded and its trend is
/// `Increasing` or `Decreasing`.
pub open spec fn safe(levels: Seq<Level>) -> bool {
    &&& steps_bounded(levels)
    &&& (direction_of(levels) == Direction::Increasing || direction_of(levels)
        == Direction::Decreasing)
}

/// Some single level can be taken out of `levels` so that what is left is
/// safe.
pub open spec fn dampened_safe(levels: Seq<Level>) -> bool {
    exists|i: int| 0 <= i < levels.len() && #[trigger] safe(levels.remove(i))
}

/// What a dampening search found, and at what cost.
#[derive(Clone, Copy, Debug, PartialEq, Eq, Structural)]
pub struct Dampening {
    /// The first position whose level can be taken out to leave a safe
    /// report, if there is one.
    pub removed: Option<usize>,
    /// How many shortened reports the search evaluated.
    pub evaluations: usize,
}

/// Computes the distance between two levels.
pub fn level_gap(left: Level, right: Level) -> (distance: u64)
    ensures
        distance == gap(left, right),
{
    if left <= right {
        (right as i128 - left as i128) as u64
    } else {
        (left as i128 - right as i128) as u64
    }
}

impl Report {
    /// The trend of the report: the trends of its adjacent pairs, reduced
    /// from left to right. A report of fewer than two levels has no pairs
    /// and counts as `Increasing`. See [`direction_of`].
    pub fn get_dir(&self) -> (dir: Direction)
        ensures
            dir == direction_of(self@),
    {
        let n = self.0.len();
        if n < 2 {
            return Direction::Increasing;
        }
        let mut dir = Direction::of_pair(self.0[0], self.0[1]);
        proof {
            lemma_direction_of_pair(self@.take(2));
        }
        let mut i: usize = 2;
        while i < n
            invariant
                n == self@.len(),
                2 <= i <= n,
                dir == direction_of(self@.take(i as int)),
            decreases n - i,
        {
            let next = Direction::of_pair(self.0[i - 1], self.0[i]);
            proof {
                let grown = self@.take(i + 1);
                assert(grown.drop_last() == self@.take(i as int));
                lemma_direction_extend(grown);
            }
            dir = dir.combine(next);
            i += 1;
        }
        assert(self@.take(n as int) == self@);
        dir
    }

    /// Whether every step between neighbours lies between [`MIN_DIFF`] and
    /// [`MAX_DIFF`].
    pub fn has_bounded_steps(&self) -> (bounded: bool)
        ensures
            bounded == steps_bounded(self@),
    {
        let n = self.0.len();
        let mut bounded = true;
        let mut i: usize = 1;
        while i < n
            invariant
                n == self@.len(),
                1 <= i,
                i <= n || i == 1,
                bounded == (forall|j: int|
                    0 <= j < i - 1 ==> MIN_DIFF <= #[trigger] step_at(self@, j) <= MAX_DIFF),
            decreases n - i,
        {
            let distance = level_gap(self.0[i - 1], self.0[i]);
            assert(step_at(self@, i - 1) == distance);
            if distance < MIN_DIFF || distance > MAX_DIFF {
                bounded = false;
            }
            i += 1;
        }
        bounded
    }

    /// Whether the report is safe: its steps are bounded and its trend is
    /// `Increasing` or `Decreasing`. A report of fewer than two levels is
    /// safe.
    pub fn is_safe(&self) -> (verdict: bool)
        ensures
            verdict == safe(self@),
    {
        let safe_diff = self.has_bounded_steps();
        let same_dir = match self.get_dir() {
            Direction::Increasing | Direction::Decreasing => true,
            _ => false,
        };
        safe_diff && same_dir
    }

    /// A fresh report with the level at `index` left out and the others in
    /// their order. Where `index` is past the end, nothing is left out.
    pub fn except(&self, index: usize) -> (rest: Report)
        ensures
            rest@ == (if index < self@.len() {
                self@.remove(index as int)
            } else {
                self@
            }),
    {
        let n = self.0.len();
        let mut levels: Vec<Level> = Vec::new();
        let mut i: usize = 0;
        while i < n
            invariant
                n == self@.len(),
                i <= n,
                levels@ == (if i <= index {
                    self@.take(i as int)
                } else {
                    self@.take(i as int).remove(index as int)
                }),
            decreases n - i,
        {
            if i != index {
                levels.push(self.0[i]);
            }
            i += 1;
        }
        Report(levels)
    }

    /// Tries each position in ascending order: leaves its level out and
    /// evaluates what is left, until a safe report comes out. At most one
    /// shortened report is evaluated for each level, and each is one level
    /// shorter than the report.
    pub fn dampening_search(&self) -> (found: Dampening)
        ensures
            match found.removed {
                Some(index) => {
                    &&& index < self@.len()
                    &&& safe(self@.remove(index as int))
                    &&& forall|j: int| 0 <= j < index ==> !#[trigger] safe(self@.remove(j))
                    &&& found.evaluations == index + 1
                },
                None => {
                    &&& forall|j: int| 0 <= j < self@.len() ==> !#[trigger] safe(self@.remove(j))
                    &&& found.evaluations == self@.len()
                },
            },
            found.removed is Some <==> dampened_safe(self@),
            found.evaluations <= self@.len(),
    {
        let n = self.0.len();
        let mut evaluations: usize = 0;
        let mut i: usize = 0;
        while i < n
            invariant
                n == self@.len(),
                i <= n,
                evaluations == i,
                forall|j: int| 0 <= j < i ==> !#[trigger] safe(self@.remove(j)),
            decreases n - i,
        {
            let candidate = self.except(i);
            evaluations += 1;
            if candidate.is_safe() {
                return Dampening { removed: Some(i), evaluations };
            }
            i += 1;
        }
        Dampening { removed: None, evaluations }
    }

    /// Whether taking out one level can leave a safe report.
    pub fn is_safe_dampened(&self) -> (verdict: bool)
        ensures
            verdict == dampened_safe(self@),
    {
        self.dampening_search().removed.is_some()
    }
}

} // verus!
