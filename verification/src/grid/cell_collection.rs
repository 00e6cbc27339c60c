//! What rows, columns, boxes and the whole grid have in common.

use vstd::prelude::*;
use super::coords::Coord;

verus! {

/// The words of the cells of a collection, in its order.
pub open spec fn area_words<T: CellCollection + ?Sized>(area: &T, grid: Seq<u16>) -> Seq<u16> {
    Seq::new(area.size(), |i: int| grid[area.coord_at(i)])
}

/// An ordered collection of cells of the grid, addressed by `0..size`.
pub trait CellCollection {
    /// Whether the collection lies inside the grid.
    spec fn wf(&self) -> bool;

    /// Number of cells in the collection.
    spec fn size(&self) -> nat;

    /// The row-major index of the `i`-th cell of the collection.
    spec fn coord_at(&self, i: int) -> int;

    /// Every cell of a collection inside the grid is a cell of the grid.
    proof fn lemma_coords_in_grid(&self, i: int)
        requires
            self.wf(),
            0 <= i < self.size(),
        ensures
            0 <= self.coord_at(i) < 81,
            self.size() <= 81,
    ;

    /// Returns the coordinate of the cell at `index`.
    fn get_coord(&self, index: usize) -> (coord: Coord)
        requires
            self.wf(),
            index < self.size(),
        ensures
            coord@ == self.coord_at(index as int),
    ;

    /// Returns the indices of the collection, `0..size`.
    fn iter(&self) -> (range: core::ops::Range<usize>)
        ensures
            range.start == 0,
            range.end == self.size(),
    ;

    /// Returns the number of cells in the collection.
    fn max(&self) -> (size: usize)
        ensures
            size == self.size(),
    ;
}

} // verus!
