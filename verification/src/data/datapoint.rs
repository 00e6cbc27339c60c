//! One line of a benchmark: counts of outcomes and times in nanoseconds.

use vstd::prelude::*;
use vstd::string::*;
use crate::grid::utility::utility::{decimal_text, push_decimal};

verus! {

/// What a run over a set of grids came to.
pub struct DataPoint {
    /// Number of grids updated.
    pub updated: usize,
    /// Number of grids solved.
    pub solved: usize,
    /// Number of grids that had an error.
    pub error: usize,
    /// Number of grids that were not solved.
    pub nothing: usize,
    /// Total time to solve all grids.
    pub solve_time: u128,
    /// Average time to solve a grid.
    pub solve_time_per: u128,
    /// Total time to generate all grids.
    pub generation_time: u128,
    /// Average time to generate a grid.
    pub generation_time_per: u128,
    /// Number of grids in the run.
    pub size: usize,
    /// Number of rounds in the run.
    pub iterations: usize,
}

impl DataPoint {
    /// The ten numbers of the record in the order of a line of the table.
    pub open spec fn column(self, k: int) -> int {
        if k == 0 {
            self.size as int
        } else if k == 1 {
            self.generation_time as int
        } else if k == 2 {
            self.solve_time as int
        } else if k == 3 {
            self.generation_time_per as int
        } else if k == 4 {
            self.solve_time_per as int
        } else if k == 5 {
            self.iterations as int
        } else if k == 6 {
            self.solved as int
        } else if k == 7 {
            self.nothing as int
        } else if k == 8 {
            self.error as int
        } else {
            self.updated as int
        }
    }

    /// The greatest value that the column `k` can hold.
    pub open spec fn column_max(k: int) -> int {
        if 1 <= k <= 4 {
            u128::MAX as int
        } else {
            usize::MAX as int
        }
    }

    /// The first `n` columns of the record as a line of the table: the
    /// numbers in decimal with commas between them.
    pub open spec fn csv_text(self, n: int) -> Seq<char>
        decreases n,
    {
        if n <= 0 {
            Seq::empty()
        } else if n == 1 {
            decimal_text(self.column(0))
        } else {
            self.csv_text(n - 1).push(',') + decimal_text(self.column(n - 1))
        }
    }

    /// Creates a record of zeros.
    pub fn empty() -> (point: DataPoint)
        ensures
            forall|k: int| 0 <= k < 10 ==> #[trigger] point.column(k) == 0,
    {
        DataPoint {
            updated: 0,
            solved: 0,
            solve_time: 0,
            solve_time_per: 0,
            size: 0,
            nothing: 0,
            iterations: 0,
            generation_time: 0,
            generation_time_per: 0,
            error: 0,
        }
    }

    /// Returns the record as a line of the table.
    pub fn to_csv(&self) -> (line: String)
        ensures
            line@ == self.csv_text(10),
    {
        let mut line = String::new();
        proof {
            reveal_strlit(",");
        }
        push_decimal(&mut line, self.size as u128);
        assert(line@ =~= self.csv_text(1));
        line.append(",");
        push_decimal(&mut line, self.generation_time);
        assert(line@ =~= self.csv_text(2));
        line.append(",");
        push_decimal(&mut line, self.solve_time);
        assert(line@ =~= self.csv_text(3));
        line.append(",");
        push_decimal(&mut line, self.generation_time_per);
        assert(line@ =~= self.csv_text(4));
        line.append(",");
        push_decimal(&mut line, self.solve_time_per);
        assert(line@ =~= self.csv_text(5));
        line.append(",");
        push_decimal(&mut line, self.iterations as u128);
        assert(line@ =~= self.csv_text(6));
        line.append(",");
        push_decimal(&mut line, self.solved as u128);
        assert(line@ =~= self.csv_text(7));
        line.append(",");
        push_decimal(&mut line, self.nothing as u128);
        assert(line@ =~= self.csv_text(8));
        line.append(",");
        push_decimal(&mut line, self.error as u128);
        assert(line@ =~= self.csv_text(9));
        line.append(",");
        push_decimal(&mut line, self.updated as u128);
        assert(line@ =~= self.csv_text(10));
        line
    }

    /// Returns the head of the table.
    pub fn csv_headers() -> (line: String)
        ensures
            line@
                == "size,generation_time,solve_time,generation_time_per,solve_time_per,iterations,solved,nothing,error,updated"@,
    {
        String::from_str(
            "size,generation_time,solve_time,generation_time_per,solve_time_per,iterations,solved,nothing,error,updated",
        )
    }

    /// Returns the record whose every number is the mean, rounded down, of
    /// that number over `points`.
    pub fn avg(points: Vec<DataPoint>) -> (mean: DataPoint)
        requires
            points@.len() > 0,
            forall|k: int|
                0 <= k < 10 ==> #[trigger] column_sum(points@, k, points@.len() as int)
                    <= DataPoint::column_max(k),
        ensures
            forall|k: int|
                0 <= k < 10 ==> #[trigger] mean.column(k) == column_sum(
                    points@,
                    k,
                    points@.len() as int,
                ) / (points@.len() as int),
    {
        let mut avg = DataPoint::empty();
        let size = points.len();
        let mut i: usize = 0;
        while i < size
            invariant
                i <= size,
                size == points@.len(),
                forall|k: int|
                    0 <= k < 10 ==> #[trigger] column_sum(points@, k, size as int)
                        <= DataPoint::column_max(k),
                forall|k: int| 0 <= k < 10 ==> #[trigger] avg.column(k) == column_sum(points@, k, i as int),
            decreases size - i,
        {
            let point = &points[i];
            proof {
                assert forall|k: int| 0 <= k < 10 implies #[trigger] column_sum(
                    points@,
                    k,
                    i + 1,
                ) <= DataPoint::column_max(k) by {
                    lemma_column_sum_grows(points@, k, i + 1, size as int);
                    assert(column_sum(points@, k, size as int) <= DataPoint::column_max(k));
                }
                assert(avg.column(0) == column_sum(points@, 0, i as int));
                assert(avg.column(1) == column_sum(points@, 1, i as int));
                assert(avg.column(2) == column_sum(points@, 2, i as int));
                assert(avg.column(3) == column_sum(points@, 3, i as int));
                assert(avg.column(4) == column_sum(points@, 4, i as int));
                assert(avg.column(5) == column_sum(points@, 5, i as int));
                assert(avg.column(6) == column_sum(points@, 6, i as int));
                assert(avg.column(7) == column_sum(points@, 7, i as int));
                assert(avg.column(8) == column_sum(points@, 8, i as int));
                assert(avg.column(9) == column_sum(points@, 9, i as int));
                assert(column_sum(points@, 0, i + 1) <= DataPoint::column_max(0));
                assert(column_sum(points@, 1, i + 1) <= DataPoint::column_max(1));
                assert(column_sum(points@, 2, i + 1) <= DataPoint::column_max(2));
                assert(column_sum(points@, 3, i + 1) <= DataPoint::column_max(3));
                assert(column_sum(points@, 4, i + 1) <= DataPoint::column_max(4));
                assert(column_sum(points@, 5, i + 1) <= DataPoint::column_max(5));
                assert(column_sum(points@, 6, i + 1) <= DataPoint::column_max(6));
                assert(column_sum(points@, 7, i + 1) <= DataPoint::column_max(7));
                assert(column_sum(points@, 8, i + 1) <= DataPoint::column_max(8));
                assert(column_sum(points@, 9, i + 1) <= DataPoint::column_max(9));
            }
            avg.updated += point.updated;
            avg.solved += point.solved;
            avg.solve_time += point.solve_time;
            avg.solve_time_per += point.solve_time_per;
            avg.size += point.size;
            avg.nothing += point.nothing;
            avg.iterations += point.iterations;
            avg.generation_time += point.generation_time;
            avg.generation_time_per += point.generation_time_per;
            avg.error += point.error;
            i += 1;
        }
        proof {
            let n = size as int;
            assert(avg.column(0) == column_sum(points@, 0, n));
            assert(avg.column(1) == column_sum(points@, 1, n));
            assert(avg.column(2) == column_sum(points@, 2, n));
            assert(avg.column(3) == column_sum(points@, 3, n));
            assert(avg.column(4) == column_sum(points@, 4, n));
            assert(avg.column(5) == column_sum(points@, 5, n));
            assert(avg.column(6) == column_sum(points@, 6, n));
            assert(avg.column(7) == column_sum(points@, 7, n));
            assert(avg.column(8) == column_sum(points@, 8, n));
            assert(avg.column(9) == column_sum(points@, 9, n));
        }
        avg.updated /= size;
        avg.solved /= size;
        avg.solve_time /= size as u128;
        avg.solve_time_per /= size as u128;
        avg.size /= size;
        avg.nothing /= size;
        avg.iterations /= size;
        avg.generation_time /= size as u128;
        avg.generation_time_per /= size as u128;
        avg.error /= size;
        avg
    }
}

/// The sum of the column `k` over the first `n` of `points`.
pub open spec fn column_sum(points: Seq<DataPoint>, k: int, n: int) -> int
    decreases n,
{
    if n <= 0 {
        0
    } else {
        column_sum(points, k, n - 1) + points[n - 1].column(k)
    }
}

/// A sum over more records is no smaller.
pub proof fn lemma_column_sum_grows(points: Seq<DataPoint>, k: int, n: int, m: int)
    requires
        0 <= n <= m,
    ensures
        0 <= column_sum(points, k, n) <= column_sum(points, k, m),
    decreases m,
{
    if n < m {
        lemma_column_sum_grows(points, k, n, m - 1);
    } else if n > 0 {
        lemma_column_sum_grows(points, k, n - 1, m - 1);
    }
}

} // verus!
