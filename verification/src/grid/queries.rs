//! Counting over the cells of an area.

use vstd::prelude::*;
use super::cell::{
    count_determined_words, count_equal_words, count_possible_words, word_determined,
};
use super::cell_collection::{area_words, CellCollection};
use super::grid::Grid;
use super::mark::Mark;

verus! {

/// Returns the number of cells of `area` that hold a value and whose word
/// is `value`.
pub fn count_determine_value<T: CellCollection>(grid: &Grid, area: T, value: u16) -> (count: usize)
    requires
        area.wf(),
    ensures
        count == if word_determined(value) {
            count_equal_words(area_words(&area, grid@), value, area.size() as int)
        } else {
            0
        },
        count <= area.size(),
{
    let mut count: usize = 0;
    let n = area.max();
    let mut i: usize = 0;
    while i < n
        invariant
            area.wf(),
            n == area.size(),
            i <= n,
            count <= i,
            count == if word_determined(value) {
                count_equal_words(area_words(&area, grid@), value, i as int)
            } else {
                0
            },
        decreases n - i,
    {
        let coord = area.get_coord(i);
        assert(area_words(&area, grid@)[i as int] == grid@[coord@]);
        let cell = grid.get_cell_at(coord);
        if let Some(v) = cell.value() {
            if v == value {
                count += 1;
            }
        }
        i += 1;
    }
    count
}

/// Returns the number of cells of `area` that have `mark` as a candidate.
pub fn count_possible<T: CellCollection>(grid: &Grid, area: T, mark: Mark) -> (count: usize)
    requires
        area.wf(),
    ensures
        count == count_possible_words(area_words(&area, grid@), mark, area.size() as int),
        count <= area.size(),
{
    let mut count: usize = 0;
    let n = area.max();
    let mut i: usize = 0;
    while i < n
        invariant
            area.wf(),
            n == area.size(),
            i <= n,
            count <= i,
            count == count_possible_words(area_words(&area, grid@), mark, i as int),
        decreases n - i,
    {
        let coord = area.get_coord(i);
        assert(area_words(&area, grid@)[i as int] == grid@[coord@]);
        if grid.is_possible_at(coord, mark) {
            count += 1;
        }
        i += 1;
    }
    count
}

/// Returns the number of cells of `area` that hold a value.
pub fn count_determined<T: CellCollection>(grid: &Grid, area: T) -> (count: usize)
    requires
        area.wf(),
    ensures
        count == count_determined_words(area_words(&area, grid@), area.size() as int),
        count <= area.size(),
{
    let mut count: usize = 0;
    let n = area.max();
    let mut i: usize = 0;
    while i < n
        invariant
            area.wf(),
            n == area.size(),
            i <= n,
            count <= i,
            count == count_determined_words(area_words(&area, grid@), i as int),
        decreases n - i,
    {
        let coord = area.get_coord(i);
        assert(area_words(&area, grid@)[i as int] == grid@[coord@]);
        let cell = grid.get_cell_at(coord);
        if cell.is_determined() {
            count += 1;
        }
        i += 1;
    }
    count
}

} // verus!
