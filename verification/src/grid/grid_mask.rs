//! The influence masks: for each cell, which cells share an area with it,
//! and the words that clear one digit from those cells.

use vstd::prelude::*;
use super::cell::Cell;
use super::coords::Coord;
use super::grid::Grid;
use super::mark::Mark;

verus! {

/// Whether the cells with the row-major indices `a` and `b` share a row, a
/// column or a box. Every cell influences itself.
pub open spec fn influences(a: int, b: int) -> bool {
    ||| a / 9 == b / 9
    ||| a % 9 == b % 9
    ||| (a / 27 == b / 27 && (a % 9) / 3 == (b % 9) / 3)
}

/// Whether `a` and `b` are two different cells that share an area.
pub open spec fn is_peer(a: int, b: int) -> bool {
    a != b && influences(a, b)
}

/// The word at place `i` of the mask that marks the cells under the
/// influence of `c`.
pub open spec fn influence_word(i: int, c: int) -> u16 {
    if influences(i, c) {
        0xFFFF
    } else {
        0
    }
}

/// The word at place `i` of the mask that removes `mark` around `c`: at `c`
/// itself it clears the whole candidate region, at a peer of `c` it clears
/// the bit of `mark`, elsewhere it keeps every bit.
pub open spec fn unset_influence_word(i: int, c: int, mark: Mark) -> u16 {
    if i == c {
        0x007F
    } else if influences(i, c) {
        !mark.bit()
    } else {
        0xFFFF
    }
}

/// The mask that marks the cells under the influence of `c`.
pub open spec fn influence_mask(c: int) -> Seq<u16> {
    Seq::new(81, |i: int| influence_word(i, c))
}

/// The mask that removes `mark` around `c`.
pub open spec fn unset_influence_mask(c: int, mark: Mark) -> Seq<u16> {
    Seq::new(81, |i: int| unset_influence_word(i, c, mark))
}

/// The mask of eighty-one times the word `w`.
pub open spec fn uniform_mask(w: u16) -> Seq<u16> {
    Seq::new(81, |i: int| w)
}

/// Returns whether the cells at the indices `a` and `b` share an area.
pub fn shares_area(a: usize, b: usize) -> (shared: bool)
    requires
        a < 81,
        b < 81,
    ensures
        shared == influences(a as int, b as int),
{
    a / 9 == b / 9 || a % 9 == b % 9 || (a / 27 == b / 27 && (a % 9) / 3 == (b % 9) / 3)
}

/// Influence is symmetric, and every cell influences itself.
pub proof fn lemma_influences(a: int, b: int)
    requires
        0 <= a < 81,
        0 <= b < 81,
    ensures
        influences(a, b) == influences(b, a),
        influences(a, a),
{
}

/// Returns the mask that removes the digit `value` around `coord`.
pub fn get_unset_influence_mask(coord: Coord, value: u16) -> (mask: Grid)
    requires
        1 <= value <= 9,
    ensures
        0 <= coord@ < 81,
        mask@ == unset_influence_mask(coord@, Mark::of_value(value as int)),
{
    let mark = Mark::from_value(value);
    let target = coord.get_index();
    let cleared = Cell::new_with_value(!mark.to_data());
    let mut mask = Grid::from([Cell::mask();81]);
    let mut index: usize = 0;
    while index < 81
        invariant
            index <= 81,
            target == coord@,
            target < 81,
            cleared@ == !mark.bit(),
            forall|i: int| 0 <= i < index ==> mask@[i] == unset_influence_word(i, coord@, mark),
        decreases 81 - index,
    {
        if index == target {
            mask.set_cell(index, &Cell::new_with_value(0x007F));
        } else if shares_area(index, target) {
            mask.set_cell(index, &cleared);
        } else {
            mask.set_cell(index, &Cell::mask());
        }
        index += 1;
    }
    assert(mask@ =~= unset_influence_mask(coord@, mark));
    mask
}

/// Returns the mask that removes `mark` from every cell.
pub fn get_unset_possible_mask(mark: Mark) -> (mask: Grid)
    ensures
        mask@ == uniform_mask(!mark.bit()),
{
    let d = mark.to_data();
    let mask = Grid::from([Cell::new_with_value(!d);81]);
    assert(mask@ =~= uniform_mask(!mark.bit()));
    mask
}

/// Returns the mask that removes the digit `value` from every cell.
pub fn get_unset_possible_mask_for_value(value: usize) -> (mask: Grid)
    requires
        1 <= value <= 9,
    ensures
        mask@ == uniform_mask(!Mark::of_value(value as int).bit()),
{
    get_unset_possible_mask(Mark::from_value(value as u16))
}

/// Returns the mask that holds the bit of `mark` in every cell.
pub fn get_set_possible_mask(mark: Mark) -> (mask: Grid)
    ensures
        mask@ == uniform_mask(mark.bit()),
{
    let d = mark.to_data();
    let mask = Grid::from([Cell::new_with_value(d);81]);
    assert(mask@ =~= uniform_mask(mark.bit()));
    mask
}

/// Returns the mask that holds the bit of the digit `value` in every cell.
pub fn get_set_possible_mask_for_value(value: usize) -> (mask: Grid)
    requires
        1 <= value <= 9,
    ensures
        mask@ == uniform_mask(Mark::of_value(value as int).bit()),
{
    get_set_possible_mask(Mark::from_value(value as u16))
}

/// Returns the mask that marks the cells under the influence of `coord`.
pub fn get_influence_mask(coord: Coord) -> (mask: Grid)
    ensures
        0 <= coord@ < 81,
        mask@ == influence_mask(coord@),
{
    let target = coord.get_index();
    let mut mask = Grid::empty();
    let mut index: usize = 0;
    while index < 81
        invariant
            index <= 81,
            target == coord@,
            target < 81,
            mask@.len() == 81,
            forall|i: int| 0 <= i < index ==> mask@[i] == influence_word(i, coord@),
        decreases 81 - index,
    {
        if shares_area(index, target) {
            mask.set_cell(index, &Cell::mask());
        } else {
            mask.set_cell(index, &Cell::new_empty());
        }
        index += 1;
    }
    assert(mask@ =~= influence_mask(coord@));
    mask
}

} // verus!
