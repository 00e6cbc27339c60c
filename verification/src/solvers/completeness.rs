//! No false alarm: a puzzle that has a solution is never reported as an
//! error by deduction, and a grid that deduction fills is that solution.

use vstd::prelude::*;
use crate::grid::cell::{
    lemma_clear_bits, lemma_count_possible_words, lemma_digit_word,
    lemma_mark_bits, lemma_marks_upto, lemma_mask_bits, word_determined, word_is_digit,
    word_marks, word_possible, word_value,
};
use crate::grid::cell_collection::{area_words, CellCollection};
use crate::grid::column::Column;
use crate::grid::grid::{mark_off_spec, place_spec, unset_possible_spec};
use crate::grid::grid_mask::{is_peer, lemma_influences, unset_influence_word};
use crate::grid::mark::Mark;
use crate::grid::row::Row;
use crate::grid::slice::{count_value_words, lemma_count_value_words, padded};
use crate::grid::square::Square;
use super::is_solved::{all_determined, is_solved_spec, some_stuck, word_stuck};
use super::mark_simple::{simple_spec, simple_upto};
use super::narrowing::canonical;
use super::solver::SolveResult;
use super::soundness::{
    admits, cell_admits, covers, digit_in, digit_in_box, digit_in_column, digit_in_row, is_house,
    is_solution, lemma_admits_agrees, lemma_admits_complete, lemma_place_admits,
    lemma_unset_admits, sound,
    lemma_box_house, lemma_column_house, lemma_one_value, lemma_peers_differ, lemma_row_house,
    lemma_slice_admits, lemma_solution_digits, agrees_with,
};
use super::validator::{area_valid, cell_valid, grid_valid, lemma_grid_valid, mark_valid};

verus! {

/// Whether the puzzle `g` has a solution: a solved Sudoku that agrees
/// with `g`.
pub open spec fn solvable(g: Seq<u16>) -> bool {
    exists|s: Seq<int>| #[trigger] agrees_with(g, s) && is_solution(s)
}

/// A candidate whose placement leaves a puzzle without solution can go:
/// the grid without it admits every solution that the grid admits.
pub proof fn lemma_failed_trial_sound(g: Seq<u16>, c: int, mark: Mark)
    requires
        0 <= c < 81,
        !solvable(place_spec(g, c, mark)),
    ensures
        sound(g, unset_possible_spec(g, c, mark)),
{
    assert forall|s: Seq<int>| #[trigger] admits(g, s) && is_solution(s) implies admits(
        unset_possible_spec(g, c, mark),
        s,
    ) by {
        if s[c] == mark.value() {
            lemma_place_admits(g, c, mark, s);
            lemma_admits_agrees(place_spec(g, c, mark), s);
        }
        lemma_unset_admits(g, c, mark, s);
    }
}

/// Whether no cell of `g` offers a digit that a cell of one of its areas
/// holds.
#[verifier::opaque]
pub open spec fn propagated(g: Seq<u16>) -> bool {
    forall|i: int, j: int|
        0 <= i < 81 && 0 <= j < 81 && is_peer(i, j) && word_is_digit(#[trigger] g[i])
            ==> !word_possible(#[trigger] g[j], Mark::of_value(g[i] as int))
}

/// Simple peer elimination keeps the value bits of every cell.
pub proof fn lemma_simple_values(g: Seq<u16>, n: int, k: int)
    requires
        g.len() == 81,
        0 <= n <= 81,
        0 <= k < 81,
    ensures
        simple_upto(g, n).len() == 81,
        word_value(simple_upto(g, n)[k]) == word_value(g[k]),
    decreases n,
{
    if n > 0 {
        lemma_simple_values(g, n - 1, k);
        lemma_simple_values(g, n - 1, n - 1);
        let h = simple_upto(g, n - 1);
        let v = word_value(h[n - 1]);
        if 1 <= v <= 9 {
            let mark = Mark::of_value(v as int);
            let w = h[k];
            let x = unset_influence_word(k, n - 1, mark);
            let b = mark.bit();
            lemma_mark_bits(mark, mark);
            assert((w & 0x007F) & 0x000F == w & 0x000F && (w & 0xFFFF) & 0x000F == w & 0x000F && (w
                & !b) & 0x000F == w & 0x000F) by (bit_vector)
                requires
                    b & 0x000F == 0,
            ;
        }
    }
}

/// After the cells `0..n` were looked at, each of them that holds a digit
/// offers nothing.
pub proof fn lemma_simple_clears(g: Seq<u16>, n: int, i: int)
    requires
        g.len() == 81,
        0 <= i < n <= 81,
        1 <= word_value(g[i]) <= 9,
    ensures
        simple_upto(g, n)[i] & 0xFF80 == 0,
    decreases n,
{
    let h = simple_upto(g, n - 1);
    lemma_simple_values(g, n - 1, n - 1);
    lemma_simple_values(g, n - 1, i);
    let v = word_value(h[n - 1]);
    let w = h[i];
    if i < n - 1 {
        lemma_simple_clears(g, n - 1, i);
        if 1 <= v <= 9 {
            let x = unset_influence_word(i, n - 1, Mark::of_value(v as int));
            assert((w & x) & 0xFF80 == 0) by (bit_vector)
                requires
                    w & 0xFF80 == 0,
            ;
        }
    } else {
        assert((w & 0x007F) & 0xFF80 == 0) by (bit_vector);
    }
}

/// After the cells `0..n` were looked at, no cell offers the digit that
/// one of them holds in one of its areas.
pub proof fn lemma_simple_propagates(g: Seq<u16>, n: int, i: int, j: int)
    requires
        g.len() == 81,
        0 <= i < n <= 81,
        0 <= j < 81,
        is_peer(i, j),
        1 <= word_value(g[i]) <= 9,
    ensures
        !word_possible(simple_upto(g, n)[j], Mark::of_value(word_value(g[i]) as int)),
    decreases n,
{
    let mark = Mark::of_value(word_value(g[i]) as int);
    let h = simple_upto(g, n - 1);
    lemma_simple_values(g, n - 1, n - 1);
    lemma_simple_values(g, n - 1, j);
    let v = word_value(h[n - 1]);
    if i < n - 1 {
        lemma_simple_propagates(g, n - 1, i, j);
        if 1 <= v <= 9 {
            let other = Mark::of_value(v as int);
            lemma_mask_bits(h[j], unset_influence_word(j, n - 1, other), mark.bit());
        }
    } else {
        lemma_influences(j, i);
        lemma_clear_bits(h[j], mark.bit(), 0);
    }
}

/// After simple peer elimination no cell offers a digit that a cell of
/// one of its areas holds.
pub proof fn lemma_simple_propagated(g: Seq<u16>)
    requires
        g.len() == 81,
    ensures
        propagated(simple_spec(g)),
{
    reveal(propagated);
    let h = simple_spec(g);
    assert forall|i: int, j: int|
        0 <= i < 81 && 0 <= j < 81 && is_peer(i, j) && word_is_digit(
            #[trigger] h[i],
        ) implies !word_possible(#[trigger] h[j], Mark::of_value(h[i] as int)) by {
        lemma_simple_values(g, 81, i);
        lemma_digit_word(h[i], 0);
        lemma_simple_propagates(g, 81, i, j);
    }
}

/// A grid whose every cell holds a bare digit offers nothing.
pub proof fn lemma_full_propagated(g: Seq<u16>)
    requires
        g.len() == 81,
        all_determined(g),
        canonical(g),
    ensures
        propagated(g),
{
    reveal(propagated);
    assert forall|i: int, j: int|
        0 <= i < 81 && 0 <= j < 81 && is_peer(i, j) && word_is_digit(
            #[trigger] g[i],
        ) implies !word_possible(#[trigger] g[j], Mark::of_value(g[i] as int)) by {
        let mark = Mark::of_value(g[i] as int);
        lemma_mark_bits(mark, mark);
        assert(word_determined(g[j]));
        lemma_digit_word(g[j], mark.bit());
    }
}

/// In a grid that admits a solution and offers no digit beside a cell
/// that holds it, every digit is in order in every house: held once and
/// offered nowhere, or held nowhere and offered.
pub proof fn lemma_admits_area_valid<T: CellCollection>(g: Seq<u16>, s: Seq<int>, area: &T)
    requires
        admits(g, s),
        is_solution(s),
        propagated(g),
        is_house(area),
        covers(s, area),
    ensures
        area_valid(g, area),
{
    let snap = padded(area_words(area, g));
    lemma_slice_admits(g, area, s);
    lemma_solution_digits(s);
    assert forall|mark: Mark| #[trigger] mark_valid(snap, mark) by {
        let d = mark.value();
        Mark::lemma_round_trip(mark);
        assert(digit_in(s, area, d));
        let j = choose|j: int| 0 <= j < 9 && #[trigger] s[area.coord_at(j)] == d;
        area.lemma_coords_in_grid(j);
        assert(cell_admits(snap[j], d));
        assert(snap[j] == g[area.coord_at(j)]);
        assert forall|k: int| 0 <= k < 16 && k != j implies word_value(#[trigger] snap[k])
            != d as u16 by {
            if k < 9 {
                area.lemma_coords_in_grid(k);
                assert(cell_admits(snap[k], s[area.coord_at(k)]));
                assert(is_peer(area.coord_at(k), area.coord_at(j)));
                lemma_peers_differ(s, area.coord_at(k), area.coord_at(j));
                if word_determined(snap[k]) {
                    lemma_digit_word(snap[k], 0);
                }
            } else {
                lemma_mask_bits(0, 0, 0x000F);
            }
        }
        lemma_count_value_words(snap, d as u16, 16);
        lemma_count_possible_words(snap, mark, 16);
        if word_determined(snap[j]) {
            lemma_digit_word(snap[j], mark.bit());
            lemma_mark_bits(mark, mark);
            lemma_one_value(snap, d as u16, 16, j);
            assert forall|y: int| 0 <= y < 16 implies !word_possible(#[trigger] snap[y], mark) by {
                if y == j {
                } else if y < 9 {
                    area.lemma_coords_in_grid(y);
                    assert(is_peer(area.coord_at(j), area.coord_at(y)));
                    assert(snap[y] == g[area.coord_at(y)]);
                    reveal(propagated);
                    assert(g[area.coord_at(j)] == d);
                } else {
                    lemma_mask_bits(0, 0, mark.bit());
                }
            }
        } else {
            assert(word_possible(snap[j], mark));
        }
    }
}

/// A grid that admits a solution and offers no digit beside a cell that
/// holds it has the shape of a grid.
pub proof fn lemma_admits_valid(g: Seq<u16>, s: Seq<int>)
    requires
        admits(g, s),
        is_solution(s),
        propagated(g),
    ensures
        grid_valid(g),
{
    lemma_grid_valid(g);
    lemma_solution_digits(s);
    assert forall|i: int| 0 <= i < 81 implies cell_valid(#[trigger] g[i]) by {
        assert(cell_admits(g[i], s[i]));
        if !word_determined(g[i]) {
            lemma_marks_upto(g[i], 9);
            Mark::lemma_value_of_value(s[i]);
            assert(word_marks(g[i]).contains(Mark::of_value(s[i])));
        }
    }
    assert forall|k: int| 0 <= k < 9 implies area_valid(g, &#[trigger] Row::all()[k]) by {
        lemma_row_house(s, k);
        lemma_admits_area_valid(g, s, &Row { row: k as usize });
    }
    assert forall|k: int| 0 <= k < 9 implies area_valid(g, &#[trigger] Column::all()[k]) by {
        lemma_column_house(s, k);
        lemma_admits_area_valid(g, s, &Column { col: k as usize });
    }
    assert forall|k: int| 0 <= k < 9 implies area_valid(g, &#[trigger] Square::all()[k]) by {
        lemma_box_house(s, k);
        lemma_admits_area_valid(g, s, &Square::of_index(k));
    }
}

/// A grid that admits a solution is not reported as stuck, and if every
/// cell of it holds a value, it is that solution and has the shape of a
/// grid.
pub proof fn lemma_admits_solved(g: Seq<u16>, s: Seq<int>)
    requires
        admits(g, s),
        is_solution(s),
    ensures
        is_solved_spec(g) != SolveResult::Error,
        all_determined(g) ==> grid_valid(g) && forall|i: int|
            0 <= i < 81 ==> #[trigger] g[i] == s[i],
{
    lemma_admits_complete(g, s);
    if some_stuck(g) {
        let i = choose|i: int| 0 <= i < 81 && word_stuck(#[trigger] g[i]);
        assert(word_determined(g[i]) || crate::grid::cell::word_candidates(g[i]) != 0);
    }
    if all_determined(g) {
        lemma_solution_digits(s);
        assert forall|i: int| 0 <= i < 81 && word_determined(#[trigger] g[i]) implies word_is_digit(
            g[i],
        ) by {
            assert(cell_admits(g[i], s[i]));
        }
        lemma_full_propagated(g);
        lemma_admits_valid(g, s);
    }
}

/// The digits that a full grid holds, cell by cell.
pub open spec fn digits_of(g: Seq<u16>) -> Seq<int> {
    Seq::new(81, |i: int| g[i] as int)
}

/// Two words among the first `n` with the value `v` count two at least.
pub proof fn lemma_two_values(words: Seq<u16>, v: u16, n: int, a: int, b: int)
    requires
        0 <= a < b < n,
        word_value(words[a]) == v,
        word_value(words[b]) == v,
    ensures
        count_value_words(words, v, n) >= 2,
    decreases n,
{
    if b < n - 1 {
        lemma_two_values(words, v, n - 1, a, b);
    } else {
        lemma_count_value_words(words, v, n - 1);
    }
}

/// In an area of a full grid that has the shape of a grid, every digit is
/// held by exactly one cell: the lemma hands back its place.
pub proof fn lemma_full_area<T: CellCollection>(g: Seq<u16>, area: &T, d: int) -> (j: int)
    requires
        g.len() == 81,
        canonical(g),
        all_determined(g),
        area_valid(g, area),
        area.wf(),
        area.size() == 9,
        1 <= d <= 9,
    ensures
        0 <= j < 9,
        g[area.coord_at(j)] == d,
        forall|k: int| 0 <= k < 9 && k != j ==> g[#[trigger] area.coord_at(k)] != d,
{
    let mark = Mark::of_value(d);
    Mark::lemma_value_of_value(d);
    let snap = padded(area_words(area, g));
    assert(mark_valid(snap, mark));
    lemma_mark_bits(mark, mark);
    lemma_mask_bits(0, 0, mark.bit());
    lemma_mask_bits(0, 0, 0x000F);
    assert forall|i: int| 0 <= i < 16 implies !word_possible(#[trigger] snap[i], mark) by {
        if i < 9 {
            area.lemma_coords_in_grid(i);
            let w = g[area.coord_at(i)];
            assert(word_determined(w));
            lemma_digit_word(w, mark.bit());
        }
    }
    lemma_count_possible_words(snap, mark, 16);
    lemma_count_value_words(snap, d as u16, 16);
    let j = choose|i: int| 0 <= i < 16 && word_value(#[trigger] snap[i]) == d as u16;
    assert(j < 9);
    area.lemma_coords_in_grid(j);
    assert(word_determined(g[area.coord_at(j)]));
    lemma_digit_word(g[area.coord_at(j)], 0);
    assert forall|k: int| 0 <= k < 9 && k != j implies g[#[trigger] area.coord_at(k)] != d by {
        area.lemma_coords_in_grid(k);
        if g[area.coord_at(k)] == d {
            lemma_digit_word(g[area.coord_at(k)], 0);
            assert(word_value(snap[k]) == d as u16);
            if k < j {
                lemma_two_values(snap, d as u16, 16, k, j);
            } else {
                lemma_two_values(snap, d as u16, 16, j, k);
            }
        }
    }
    j
}

/// Whether the grid `g` is full and has the shape of a grid.
pub open spec fn full_and_valid(g: Seq<u16>) -> bool {
    g.len() == 81 && all_determined(g) && grid_valid(g)
}

/// A full grid that has the shape of a grid holds a bare digit in every
/// cell.
pub proof fn lemma_full_canonical(g: Seq<u16>)
    requires
        full_and_valid(g),
    ensures
        canonical(g),
        forall|i: int| 0 <= i < 81 ==> word_is_digit(#[trigger] g[i]),
{
    lemma_grid_valid(g);
    assert forall|i: int| 0 <= i < 81 implies word_is_digit(#[trigger] g[i]) by {
        assert(word_determined(g[i]));
        assert(cell_valid(g[i]));
    }
}

/// In a full grid that has the shape of a grid every digit stands in
/// every row.
pub proof fn lemma_full_row(g: Seq<u16>, r: int, d: int)
    requires
        full_and_valid(g),
        0 <= r < 9,
        1 <= d <= 9,
    ensures
        digit_in_row(digits_of(g), r, d),
{
    lemma_full_canonical(g);
    lemma_grid_valid(g);
    assert(area_valid(g, &Row::all()[r]));
    let j = lemma_full_area(g, &Row { row: r as usize }, d);
    assert(digits_of(g)[r * 9 + j] == d);
}

/// In a full grid that has the shape of a grid every digit stands in
/// every column.
pub proof fn lemma_full_column(g: Seq<u16>, c: int, d: int)
    requires
        full_and_valid(g),
        0 <= c < 9,
        1 <= d <= 9,
    ensures
        digit_in_column(digits_of(g), c, d),
{
    lemma_full_canonical(g);
    lemma_grid_valid(g);
    assert(area_valid(g, &Column::all()[c]));
    let j = lemma_full_area(g, &Column { col: c as usize }, d);
    assert(digits_of(g)[j * 9 + c] == d);
}

/// In a full grid that has the shape of a grid every digit stands in
/// every box.
pub proof fn lemma_full_box(g: Seq<u16>, k: int, d: int)
    requires
        full_and_valid(g),
        0 <= k < 9,
        1 <= d <= 9,
    ensures
        digit_in_box(digits_of(g), k, d),
{
    lemma_full_canonical(g);
    lemma_grid_valid(g);
    assert(area_valid(g, &Square::all()[k]));
    let j = lemma_full_area(g, &Square::of_index(k), d);
    crate::solvers::soundness::lemma_box_cell(k, j);
    assert(Square::of_index(k).coord_at(j) == (k / 3 * 3 + j / 3) * 9 + k % 3 * 3 + j % 3);
    assert(digits_of(g)[(k / 3 * 3 + j / 3) * 9 + k % 3 * 3 + j % 3] == d);
}

/// In a full grid that has the shape of a grid no two cells of a row hold
/// the same digit.
pub proof fn lemma_full_row_differs(g: Seq<u16>, i: int, j: int)
    requires
        full_and_valid(g),
        0 <= i < 81,
        0 <= j < 81,
        i != j,
        i / 9 == j / 9,
    ensures
        g[i] != g[j],
{
    lemma_full_canonical(g);
    lemma_grid_valid(g);
    let row = Row { row: (i / 9) as usize };
    assert(area_valid(g, &Row::all()[i / 9]));
    assert(word_is_digit(g[i]));
    let at = lemma_full_area(g, &row, g[i] as int);
    assert(row.coord_at(i % 9) == i && row.coord_at(j % 9) == j);
}

/// In a full grid that has the shape of a grid no two cells of a column
/// hold the same digit.
pub proof fn lemma_full_column_differs(g: Seq<u16>, i: int, j: int)
    requires
        full_and_valid(g),
        0 <= i < 81,
        0 <= j < 81,
        i != j,
        i % 9 == j % 9,
    ensures
        g[i] != g[j],
{
    lemma_full_canonical(g);
    lemma_grid_valid(g);
    let column = Column { col: (i % 9) as usize };
    assert(area_valid(g, &Column::all()[i % 9]));
    assert(word_is_digit(g[i]));
    let at = lemma_full_area(g, &column, g[i] as int);
    assert(column.coord_at(i / 9) == i && column.coord_at(j / 9) == j);
}

/// Every cell lies in the box of its band and its stack, at the place
/// that its row and column within the box give.
pub proof fn lemma_cell_in_box(i: int)
    requires
        0 <= i < 81,
    ensures
        0 <= i / 27 * 3 + (i % 9) / 3 < 9,
        0 <= (i / 9) % 3 * 3 + i % 3 < 9,
        Square::of_index(i / 27 * 3 + (i % 9) / 3).wf(),
        Square::of_index(i / 27 * 3 + (i % 9) / 3).coord_at((i / 9) % 3 * 3 + i % 3) == i,
{
    let band = i / 27;
    let stack = (i % 9) / 3;
    let k = band * 3 + stack;
    let p = (i / 9) % 3 * 3 + i % 3;
    assert(0 <= band < 3 && 0 <= stack < 3);
    assert(k / 3 == band && k % 3 == stack);
    assert(p / 3 == (i / 9) % 3 && p % 3 == i % 3);
    crate::solvers::soundness::lemma_box_cell(k, p);
    assert(27 * band + 9 * ((i / 9) % 3) + 3 * stack + i % 3 == i);
}

/// In a full grid that has the shape of a grid no two cells of a box hold
/// the same digit.
pub proof fn lemma_full_box_differs(g: Seq<u16>, i: int, j: int)
    requires
        full_and_valid(g),
        0 <= i < 81,
        0 <= j < 81,
        i != j,
        i / 27 == j / 27,
        (i % 9) / 3 == (j % 9) / 3,
    ensures
        g[i] != g[j],
{
    lemma_full_canonical(g);
    lemma_cell_in_box(i);
    lemma_cell_in_box(j);
    let k = i / 27 * 3 + (i % 9) / 3;
    let p = (i / 9) % 3 * 3 + i % 3;
    let q = (j / 9) % 3 * 3 + j % 3;
    lemma_full_box_area(g, k);
    assert(word_is_digit(g[i]));
    lemma_two_in_area(g, &Square::of_index(k), p, q);
}

/// In a full grid that has the shape of a grid every box is in order.
pub proof fn lemma_full_box_area(g: Seq<u16>, k: int)
    requires
        full_and_valid(g),
        0 <= k < 9,
    ensures
        area_valid(g, &Square::of_index(k)),
{
    lemma_grid_valid(g);
    assert(area_valid(g, &Square::all()[k]));
}

/// In an area of a full grid that has the shape of a grid two different
/// places hold different digits.
pub proof fn lemma_two_in_area<T: CellCollection>(g: Seq<u16>, area: &T, p: int, q: int)
    requires
        g.len() == 81,
        canonical(g),
        all_determined(g),
        area_valid(g, area),
        area.wf(),
        area.size() == 9,
        0 <= p < 9,
        0 <= q < 9,
        p != q,
    ensures
        g[area.coord_at(p)] != g[area.coord_at(q)],
{
    area.lemma_coords_in_grid(p);
    let w = g[area.coord_at(p)];
    assert(word_determined(w));
    let at = lemma_full_area(g, area, w as int);
    if at != p {
        assert(g[area.coord_at(p)] != w);
    }
}

/// A full grid that has the shape of a grid is a solved Sudoku: its
/// digits are a solution, and it admits them.
pub proof fn lemma_full_grid_is_solution(g: Seq<u16>)
    requires
        full_and_valid(g),
    ensures
        is_solution(digits_of(g)),
        admits(g, digits_of(g)),
{
    reveal(is_solution);
    let s = digits_of(g);
    lemma_full_canonical(g);
    assert forall|i: int| 0 <= i < 81 implies 1 <= #[trigger] s[i] <= 9 by {
        assert(word_is_digit(g[i]));
    }
    assert forall|i: int| 0 <= i < 81 implies cell_admits(#[trigger] g[i], s[i]) by {
        assert(word_is_digit(g[i]));
        lemma_digit_word(g[i], 0);
    }
    assert forall|r: int, d: int| 0 <= r < 9 && 1 <= d <= 9 implies #[trigger] digit_in_row(
        s,
        r,
        d,
    ) by {
        lemma_full_row(g, r, d);
    }
    assert forall|c: int, d: int| 0 <= c < 9 && 1 <= d <= 9 implies #[trigger] digit_in_column(
        s,
        c,
        d,
    ) by {
        lemma_full_column(g, c, d);
    }
    assert forall|k: int, d: int| 0 <= k < 9 && 1 <= d <= 9 implies #[trigger] digit_in_box(
        s,
        k,
        d,
    ) by {
        lemma_full_box(g, k, d);
    }
    assert forall|i: int, j: int|
        0 <= i < 81 && 0 <= j < 81 && i != j && crate::grid::grid_mask::influences(
            i,
            j,
        ) implies #[trigger] s[i] != #[trigger] s[j] by {
        if i / 9 == j / 9 {
            lemma_full_row_differs(g, i, j);
        } else if i % 9 == j % 9 {
            lemma_full_column_differs(g, i, j);
        } else {
            lemma_full_box_differs(g, i, j);
        }
    }
}

/// Whether `h` is the one solution of the puzzle `g`: every solved Sudoku
/// that agrees with `g` is `h`, cell by cell.
pub open spec fn is_the_solution(g: Seq<u16>, h: Seq<u16>) -> bool {
    forall|s: Seq<int>| #[trigger]
        agrees_with(g, s) && is_solution(s) ==> forall|i: int|
            0 <= i < 81 ==> #[trigger] h[i] == s[i]
}

/// A second pass of simple peer elimination changes nothing.
pub proof fn lemma_simple_idempotent(g: Seq<u16>)
    requires
        g.len() == 81,
    ensures
        simple_spec(simple_spec(g)) == simple_spec(g),
{
    lemma_simple_settled(g, 81);
}

/// On a grid that simple peer elimination has left, a look at the cells
/// `0..n` changes nothing.
pub proof fn lemma_simple_settled(g: Seq<u16>, n: int)
    requires
        g.len() == 81,
        0 <= n <= 81,
    ensures
        simple_upto(simple_spec(g), n) == simple_spec(g),
    decreases n,
{
    let h = simple_spec(g);
    lemma_simple_values(g, 81, 0);
    if n > 0 {
        lemma_simple_settled(g, n - 1);
        let i = n - 1;
        lemma_simple_values(g, 81, i);
        let v = word_value(h[i]);
        if 1 <= v <= 9 {
            let mark = Mark::of_value(v as int);
            let after = mark_off_spec(h, i, mark);
            assert forall|j: int| 0 <= j < 81 implies after[j] == h[j] by {
                let w = h[j];
                let b = mark.bit();
                if j == i {
                    lemma_simple_clears(g, 81, i);
                    assert(w & 0x007F == w) by (bit_vector)
                        requires
                            w & 0xFF80 == 0,
                    ;
                } else if crate::grid::grid_mask::influences(j, i) {
                    lemma_influences(j, i);
                    lemma_simple_propagates(g, 81, i, j);
                    lemma_clear_bits(w, b, 0);
                } else {
                    lemma_mask_bits(w, 0, 0);
                }
            }
            assert(after =~= h);
        }
    }
}

} // verus!
