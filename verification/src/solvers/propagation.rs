//! Deduction keeps a grid settled: once every value is a bare digit and no
//! cell offers a digit that a cell of one of its areas holds, a round of
//! the rules leaves it so.

use vstd::prelude::*;
use crate::grid::cell::{
    lemma_clear_bits, lemma_count_possible_words, lemma_digit_word, lemma_mark_bits,
    lemma_mask_bits, count_possible_words, first_possible_word, word_determined,
    word_is_digit, word_marks, word_possible,
};
use crate::grid::cell_collection::{area_words, CellCollection};
use crate::grid::column::Column;
use crate::grid::grid::{lemma_place_reads, place_spec, unset_possible_spec};
use crate::grid::grid_mask::{is_peer, lemma_influences};
use crate::grid::mark::Mark;
use crate::grid::row::Row;
use crate::grid::slice::{count_value_words, padded};
use crate::grid::square::Square;
use super::completeness::propagated;
use super::determined_solver::{
    areas_wf, hidden_area, hidden_areas, hidden_marks, hidden_step, lemma_board_areas_wf,
};
use super::mark_occupy::{
    occupy_band, occupy_columns, occupy_marks, occupy_rows, occupy_set, occupy_spec, occupy_step,
    unset_three_spec,
};
use super::mark_shapes::{box_row_word, only_one};
use super::mark_survivor::{one_left, survivor_spec, survivor_upto};
use super::narrowing::{canonical, lemma_narrows_canonical, lemma_place_narrows};
use super::solver_manager::round_grid;

verus! {

/// Whether the grid `g` is settled: it has eighty-one cells, every value
/// is a bare digit, and no cell offers a digit that a cell of one of its
/// areas holds.
#[verifier::opaque]
pub open spec fn settled(g: Seq<u16>) -> bool {
    g.len() == 81 && canonical(g) && propagated(g)
}

/// A settled grid that loses a candidate is settled.
pub proof fn lemma_unset_settled(g: Seq<u16>, c: int, mark: Mark)
    requires
        settled(g),
        0 <= c < 81,
    ensures
        settled(unset_possible_spec(g, c, mark)),
{
    reveal(settled);
    reveal(propagated);
    let h = unset_possible_spec(g, c, mark);
    let b = mark.bit();
    lemma_mark_bits(mark, mark);
    lemma_clear_bits(g[c], b, 0x000F);
    if word_determined(g[c]) {
        lemma_digit_word(g[c], b);
        lemma_clear_bits(g[c], b, 0);
        assert(h[c] == g[c]);
    }
    assert forall|i: int| 0 <= i < 81 && word_determined(#[trigger] h[i]) implies word_is_digit(
        h[i],
    ) by {
        assert(word_determined(g[i]));
    }
    assert forall|i: int, j: int|
        0 <= i < 81 && 0 <= j < 81 && is_peer(i, j) && word_is_digit(
            #[trigger] h[i],
        ) implies !word_possible(#[trigger] h[j], Mark::of_value(h[i] as int)) by {
        lemma_digit_word(h[i], 0);
        assert(word_determined(g[i]));
        assert(h[i] == g[i]);
        let m = Mark::of_value(h[i] as int);
        assert(!word_possible(g[j], m));
        lemma_clear_bits(g[j], b, m.bit());
    }
}

/// A settled grid in which an open cell gets a digit is settled.
pub proof fn lemma_place_settled(g: Seq<u16>, c: int, mark: Mark)
    requires
        settled(g),
        0 <= c < 81,
        !word_determined(g[c]),
    ensures
        settled(place_spec(g, c, mark)),
{
    reveal(settled);
    reveal(propagated);
    let h = place_spec(g, c, mark);
    let b = mark.bit();
    lemma_place_narrows(g, c, mark);
    lemma_narrows_canonical(g, h);
    lemma_mark_bits(mark, mark);
    Mark::lemma_round_trip(mark);
    assert forall|i: int, j: int|
        0 <= i < 81 && 0 <= j < 81 && is_peer(i, j) && word_is_digit(
            #[trigger] h[i],
        ) implies !word_possible(#[trigger] h[j], Mark::of_value(h[i] as int)) by {
        lemma_place_reads(g, c, mark, i);
        lemma_place_reads(g, c, mark, j);
        lemma_influences(j, c);
        lemma_influences(i, j);
        if i != c {
            lemma_digit_word(h[i], 0);
            lemma_clear_bits(g[i], b, 0x000F);
            assert(word_determined(g[i]));
            lemma_digit_word(g[i], b);
            lemma_clear_bits(g[i], b, 0);
            assert(h[i] == g[i]);
            let m = Mark::of_value(h[i] as int);
            assert(!word_possible(g[j], m));
            if j == c {
                lemma_digit_word(h[c], m.bit());
                lemma_mark_bits(m, m);
            } else {
                lemma_clear_bits(g[j], b, m.bit());
            }
        }
    }
}

/// A look of the naked-single rule at the cells `0..n` leaves a settled
/// grid settled.
pub proof fn lemma_survivor_settled(g: Seq<u16>, n: int)
    requires
        settled(g),
        0 <= n <= 81,
    ensures
        settled(survivor_upto(g, n)),
    decreases n,
{
    if n > 0 {
        lemma_survivor_settled(g, n - 1);
        let h = survivor_upto(g, n - 1);
        if one_left(h[n - 1]) {
            lemma_place_settled(h, n - 1, word_marks(h[n - 1])[0]);
        }
    }
}

/// A look of the hidden-single rule for a digit in an area leaves a
/// settled grid settled.
pub proof fn lemma_hidden_step_settled<T: CellCollection>(
    g: Seq<u16>,
    snap: Seq<u16>,
    area: &T,
    mark: Mark,
)
    requires
        settled(g),
        area.wf(),
        area.size() == 9,
        forall|i: int| 9 <= i < 16 ==> snap[i] == 0,
    ensures
        settled(hidden_step(g, snap, area, mark)),
{
    if count_value_words(snap, mark.value() as u16, 16) == 0 && count_possible_words(snap, mark, 16)
        == 1 {
        let index = first_possible_word(snap, mark, 16);
        lemma_mask_bits(0, 0, mark.bit());
        lemma_count_possible_words(snap, mark, 16);
        area.lemma_coords_in_grid(index);
        let c = area.coord_at(index);
        if !word_determined(g[c]) && word_possible(g[c], mark) {
            lemma_place_settled(g, c, mark);
        }
    }
}

/// A look for the digits `1..=k` in an area leaves a settled grid
/// settled.
pub proof fn lemma_hidden_marks_settled<T: CellCollection>(
    g: Seq<u16>,
    snap: Seq<u16>,
    area: &T,
    k: int,
)
    requires
        settled(g),
        area.wf(),
        area.size() == 9,
        forall|i: int| 9 <= i < 16 ==> snap[i] == 0,
        0 <= k <= 9,
    ensures
        settled(hidden_marks(g, snap, area, k)),
    decreases k,
{
    if k > 0 {
        lemma_hidden_marks_settled(g, snap, area, k - 1);
        lemma_hidden_step_settled(hidden_marks(g, snap, area, k - 1), snap, area, Mark::of_value(k));
    }
}

/// A look of the hidden-single rule at an area leaves a settled grid
/// settled.
pub proof fn lemma_hidden_area_settled<T: CellCollection>(g: Seq<u16>, area: &T)
    requires
        settled(g),
        area.wf(),
        area.size() == 9,
    ensures
        settled(hidden_area(g, area)),
{
    lemma_hidden_marks_settled(g, padded(area_words(area, g)), area, 9);
}

/// A look of the hidden-single rule at the first `n` of `areas` leaves a
/// settled grid settled.
pub proof fn lemma_hidden_areas_settled<T: CellCollection>(g: Seq<u16>, areas: Seq<T>, n: int)
    requires
        settled(g),
        areas_wf(areas),
        0 <= n <= areas.len(),
    ensures
        settled(hidden_areas(g, areas, n)),
    decreases n,
{
    if n > 0 {
        lemma_hidden_areas_settled(g, areas, n - 1);
        lemma_hidden_area_settled(hidden_areas(g, areas, n - 1), &areas[n - 1]);
    }
}

/// Taking a digit from three cells of a line leaves a settled grid
/// settled.
pub proof fn lemma_unset_three_settled<T: CellCollection>(
    g: Seq<u16>,
    start: int,
    set: &T,
    mark: Mark,
)
    requires
        settled(g),
        set.wf(),
        set.size() == 9,
        0 <= start <= 6,
    ensures
        settled(unset_three_spec(g, start, set, mark)),
{
    set.lemma_coords_in_grid(start);
    set.lemma_coords_in_grid(start + 1);
    set.lemma_coords_in_grid(start + 2);
    let g1 = unset_possible_spec(g, set.coord_at(start), mark);
    lemma_unset_settled(g, set.coord_at(start), mark);
    let g2 = unset_possible_spec(g1, set.coord_at(start + 1), mark);
    lemma_unset_settled(g1, set.coord_at(start + 1), mark);
    lemma_unset_settled(g2, set.coord_at(start + 2), mark);
}

/// A look of the locked-candidates rule at a digit in a line leaves a
/// settled grid settled.
pub proof fn lemma_occupy_step_settled<T: CellCollection>(
    g: Seq<u16>,
    line: Seq<u16>,
    other1: &T,
    other2: &T,
    mark: Mark,
)
    requires
        settled(g),
        other1.wf(),
        other1.size() == 9,
        other2.wf(),
        other2.size() == 9,
    ensures
        settled(occupy_step(g, line, other1, other2, mark)),
{
    if count_value_words(line, mark.value() as u16, 16) == 0 {
        match only_one(
            word_possible(box_row_word(line, 0), mark),
            word_possible(box_row_word(line, 1), mark),
            word_possible(box_row_word(line, 2), mark),
        ) {
            Some(t) => {
                lemma_unset_three_settled(g, 3 * t, other1, mark);
                lemma_unset_three_settled(
                    unset_three_spec(g, 3 * t, other1, mark),
                    3 * t,
                    other2,
                    mark,
                );
            },
            None => {},
        }
    }
}

/// A look at the digits `1..=k` in a line leaves a settled grid settled.
pub proof fn lemma_occupy_marks_settled<T: CellCollection>(
    g: Seq<u16>,
    line: Seq<u16>,
    other1: &T,
    other2: &T,
    k: int,
)
    requires
        settled(g),
        other1.wf(),
        other1.size() == 9,
        other2.wf(),
        other2.size() == 9,
        0 <= k <= 9,
    ensures
        settled(occupy_marks(g, line, other1, other2, k)),
    decreases k,
{
    if k > 0 {
        lemma_occupy_marks_settled(g, line, other1, other2, k - 1);
        lemma_occupy_step_settled(
            occupy_marks(g, line, other1, other2, k - 1),
            line,
            other1,
            other2,
            Mark::of_value(k),
        );
    }
}

/// A look of the locked-candidates rule at a band of three lines leaves a
/// settled grid settled.
pub proof fn lemma_occupy_band_settled<T: CellCollection>(g: Seq<u16>, l1: &T, l2: &T, l3: &T)
    requires
        settled(g),
        l1.wf(),
        l1.size() == 9,
        l2.wf(),
        l2.size() == 9,
        l3.wf(),
        l3.size() == 9,
    ensures
        settled(occupy_band(g, l1, l2, l3)),
{
    let g1 = occupy_set(g, l1, l2, l3);
    lemma_occupy_marks_settled(g, padded(area_words(l1, g)), l2, l3, 9);
    let g2 = occupy_set(g1, l2, l1, l3);
    lemma_occupy_marks_settled(g1, padded(area_words(l2, g1)), l1, l3, 9);
    lemma_occupy_marks_settled(g2, padded(area_words(l3, g2)), l1, l2, 9);
}

/// The first `n` bands of rows leave a settled grid settled.
pub proof fn lemma_occupy_rows_settled(g: Seq<u16>, n: int)
    requires
        settled(g),
        0 <= n <= 3,
    ensures
        settled(occupy_rows(g, n)),
    decreases n,
{
    if n > 0 {
        lemma_occupy_rows_settled(g, n - 1);
        lemma_occupy_band_settled(
            occupy_rows(g, n - 1),
            &Row { row: (3 * (n - 1)) as usize },
            &Row { row: (3 * (n - 1) + 1) as usize },
            &Row { row: (3 * (n - 1) + 2) as usize },
        );
    }
}

/// The first `n` bands of columns leave a settled grid settled.
pub proof fn lemma_occupy_columns_settled(g: Seq<u16>, n: int)
    requires
        settled(g),
        0 <= n <= 3,
    ensures
        settled(occupy_columns(g, n)),
    decreases n,
{
    if n > 0 {
        lemma_occupy_columns_settled(g, n - 1);
        lemma_occupy_band_settled(
            occupy_columns(g, n - 1),
            &Column { col: (3 * (n - 1)) as usize },
            &Column { col: (3 * (n - 1) + 1) as usize },
            &Column { col: (3 * (n - 1) + 2) as usize },
        );
    }
}

/// A round of the rules leaves a settled grid settled: locked candidates,
/// naked singles and hidden singles place a digit only with its
/// consequences and give no candidate back.
pub proof fn lemma_round_settled(g: Seq<u16>)
    requires
        settled(g),
    ensures
        settled(round_grid(g)),
{
    lemma_occupy_rows_settled(g, 3);
    lemma_occupy_columns_settled(occupy_rows(g, 3), 3);
    let g1 = occupy_spec(g);
    lemma_survivor_settled(g1, 81);
    let g2 = survivor_spec(g1);
    lemma_board_areas_wf();
    lemma_hidden_areas_settled(g2, Row::all(), 9);
    let g3 = hidden_areas(g2, Row::all(), 9);
    lemma_hidden_areas_settled(g3, Column::all(), 9);
    let g4 = hidden_areas(g3, Column::all(), 9);
    lemma_hidden_areas_settled(g4, Square::all(), 9);
}

} // verus!
