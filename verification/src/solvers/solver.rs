//! What a rule reports, and what the driver hands back.

use vstd::prelude::*;
use crate::grid::grid::Grid;
use super::narrowing::narrows;

verus! {

/// What a run of a rule or of the driver came to. The four outcomes are
/// ordered `Nothing < Updated < Solved < Error`.
#[derive(Copy, Clone, Debug, PartialEq, Eq, Structural, Hash)]
pub enum SolveResult {
    /// The grid is as it was.
    Nothing,
    /// The grid changed.
    Updated,
    /// Every cell holds a value.
    Solved,
    /// The grid contradicts itself.
    Error,
}

impl SolveResult {
    /// The place of the outcome in the order, `0..=3`.
    pub open spec fn rank(self) -> int {
        match self {
            SolveResult::Nothing => 0,
            SolveResult::Updated => 1,
            SolveResult::Solved => 2,
            SolveResult::Error => 3,
        }
    }

    /// The greater of two outcomes.
    pub open spec fn join(self, other: SolveResult) -> SolveResult {
        if self.rank() >= other.rank() {
            self
        } else {
            other
        }
    }

    /// Whether the outcome ends a solve.
    pub open spec fn done(self) -> bool {
        self == SolveResult::Solved || self == SolveResult::Error
    }

    /// `Updated` for a change, `Nothing` for none.
    pub open spec fn of_changed(changed: bool) -> SolveResult {
        if changed {
            SolveResult::Updated
        } else {
            SolveResult::Nothing
        }
    }

    /// Returns the place of the outcome in the order.
    pub fn ordinal(self) -> (rank: u8)
        ensures
            rank == self.rank(),
    {
        match self {
            SolveResult::Nothing => 0,
            SolveResult::Updated => 1,
            SolveResult::Solved => 2,
            SolveResult::Error => 3,
        }
    }

    /// Returns the greater of the two outcomes.
    pub fn combine(self, other: SolveResult) -> (joined: SolveResult)
        ensures
            joined == self.join(other),
    {
        if self.ordinal() >= other.ordinal() {
            return self;
        }
        other
    }

    /// Returns whether the outcome ends a solve.
    pub fn is_done(self) -> (done: bool)
        ensures
            done == self.done(),
    {
        match self {
            SolveResult::Solved | SolveResult::Error => true,
            _ => false,
        }
    }

    /// Returns `Updated` if `changed`, otherwise `Nothing`.
    pub fn from_changed(changed: bool) -> (result: SolveResult)
        ensures
            result == SolveResult::of_changed(changed),
    {
        match changed {
            true => SolveResult::Updated,
            false => SolveResult::Nothing,
        }
    }

    /// The name of the outcome.
    pub open spec fn name_text(self) -> Seq<char> {
        match self {
            SolveResult::Nothing => "Nothing"@,
            SolveResult::Updated => "Updated"@,
            SolveResult::Solved => "Solved"@,
            SolveResult::Error => "Error"@,
        }
    }

    /// Returns the name of the outcome.
    pub fn name(self) -> (name: &'static str)
        ensures
            name@ == self.name_text(),
    {
        match self {
            SolveResult::Nothing => "Nothing",
            SolveResult::Updated => "Updated",
            SolveResult::Solved => "Solved",
            SolveResult::Error => "Error",
        }
    }

    /// Joining outcomes is idempotent, commutative and associative, and
    /// `Nothing` is its unit.
    pub proof fn lemma_join(a: SolveResult, b: SolveResult, c: SolveResult)
        ensures
            a.join(a) == a,
            a.join(b) == b.join(a),
            a.join(b).join(c) == a.join(b.join(c)),
            a.join(SolveResult::Nothing) == a,
            a.join(SolveResult::Error) == SolveResult::Error,
    {
    }
}

impl core::ops::BitOr for SolveResult {
    type Output = SolveResult;

    fn bitor(self, rhs: SolveResult) -> (joined: SolveResult) {
        self.combine(rhs)
    }
}

impl vstd::std_specs::ops::BitOrSpecImpl for SolveResult {
    open spec fn obeys_bitor_spec() -> bool {
        true
    }

    open spec fn bitor_req(self, rhs: SolveResult) -> bool {
        true
    }

    open spec fn bitor_spec(self, rhs: SolveResult) -> SolveResult {
        self.join(rhs)
    }
}

/// A rule: a transformation of the grid that reports what it came to.
pub trait Solver {
    /// The grid and the outcome that a run on the grid `g` gives.
    spec fn outcome(&self, g: Seq<u16>) -> (Seq<u16>, SolveResult);

    /// The name of the rule.
    spec fn title(&self) -> Seq<char>;

    /// Returns the name of the rule.
    fn name(&self) -> (name: &'static str)
        ensures
            name@ == self.title(),
    ;

    /// Runs the rule on `grid`. No cell gains a candidate and no value
    /// changes.
    fn solve(&self, grid: &mut Grid) -> (result: SolveResult)
        ensures
            (final(grid)@, result) == self.outcome(old(grid)@),
            narrows(old(grid)@, final(grid)@),
    ;
}

/// A grid together with the outcome of the run that left it.
#[derive(Debug, Clone, Copy)]
pub struct SolverResult {
    /// The outcome.
    pub result: SolveResult,
    /// The grid.
    pub grid: Grid,
}

impl SolverResult {
    /// Pairs `grid` with `result`.
    pub fn new(grid: Grid, result: SolveResult) -> (pair: SolverResult)
        ensures
            pair.grid == grid,
            pair.result == result,
    {
        Self { result, grid }
    }

    /// Returns the grid of `other` with the greater of the two outcomes.
    pub fn combine(&self, other: SolverResult) -> (pair: SolverResult)
        ensures
            pair.grid == other.grid,
            pair.result == self.result.join(other.result),
    {
        SolverResult::new(other.grid, self.result.combine(other.result))
    }

    /// Pairs `grid` with `Updated`.
    pub fn update(grid: Grid) -> (pair: SolverResult)
        ensures
            pair.grid == grid,
            pair.result == SolveResult::Updated,
    {
        SolverResult::new(grid, SolveResult::Updated)
    }

    /// Pairs `grid` with `Nothing`.
    pub fn nothing(grid: Grid) -> (pair: SolverResult)
        ensures
            pair.grid == grid,
            pair.result == SolveResult::Nothing,
    {
        SolverResult::new(grid, SolveResult::Nothing)
    }

    /// Pairs `grid` with `Solved`.
    pub fn solved(grid: Grid) -> (pair: SolverResult)
        ensures
            pair.grid == grid,
            pair.result == SolveResult::Solved,
    {
        SolverResult::new(grid, SolveResult::Solved)
    }
}

/// The grid that a solve left, its outcome, and the number of rounds that
/// it took.
#[derive(Debug, Clone, Copy)]
pub struct AnnotatedSolverResult {
    /// The outcome.
    pub result: SolveResult,
    /// The grid.
    pub grid: Grid,
    /// The number of rounds.
    pub iterations: usize,
}

} // verus!
