//! Deduction loses no solution: what a rule takes away, no solution of the
//! puzzle needs.

use vstd::prelude::*;
use crate::grid::cell::{
    count_possible_words, lemma_count_possible_words, lemma_digit_word,
    lemma_mark_bits, popcount, word_determined, word_possible, word_value,
};
use crate::grid::cell_collection::{area_words, CellCollection};
use crate::grid::column::Column;
use crate::grid::grid::{mark_off_spec, place_spec, unset_possible_spec};
use crate::grid::grid_mask::{influences, is_peer, lemma_influences};
use crate::grid::mark::Mark;
use crate::grid::row::Row;
use crate::grid::slice::{count_value_words, lemma_count_value_words, padded};
use crate::grid::square::Square;
use super::mark_reset::{lemma_reset_word, reset_spec};

verus! {

/// Whether a cell with the word `w` can end up with the digit `d`: it
/// holds `d` as a bare digit, or it holds no value and offers `d`.
pub open spec fn cell_admits(w: u16, d: int) -> bool {
    if word_determined(w) {
        w == d
    } else {
        word_possible(w, Mark::of_value(d))
    }
}

/// Whether the grid `g` can still become the full grid `s`.
pub open spec fn admits(g: Seq<u16>, s: Seq<int>) -> bool {
    &&& g.len() == 81
    &&& forall|i: int| 0 <= i < 81 ==> cell_admits(#[trigger] g[i], s[i])
}

/// Whether the cell of a puzzle with the word `w` agrees with the digit
/// `d`: it holds `d` as its value, or it holds no value and offers `d`.
pub open spec fn cell_agrees(w: u16, d: int) -> bool {
    if word_determined(w) {
        word_value(w) == d
    } else {
        word_possible(w, Mark::of_value(d))
    }
}

/// Whether the full grid `s` agrees with the puzzle `g`: in every cell of
/// `g` that holds a value it has that value, and in every other cell a
/// digit that the cell offers.
pub open spec fn agrees_with(g: Seq<u16>, s: Seq<int>) -> bool {
    &&& g.len() == 81
    &&& forall|i: int| 0 <= i < 81 ==> cell_agrees(#[trigger] g[i], s[i])
}

/// Whether every cell of `g` that holds no value is fresh: it offers
/// every digit.
pub open spec fn open_cells_fresh(g: Seq<u16>) -> bool {
    forall|i: int| 0 <= i < 81 && !word_determined(#[trigger] g[i]) ==> g[i] == 0xFF80u16
}

/// Whether the digit `d` stands in the row `r` of `s`.
pub open spec fn digit_in_row(s: Seq<int>, r: int, d: int) -> bool {
    exists|i: int| 0 <= i < 9 && #[trigger] s[r * 9 + i] == d
}

/// Whether the digit `d` stands in the column `c` of `s`.
pub open spec fn digit_in_column(s: Seq<int>, c: int, d: int) -> bool {
    exists|i: int| 0 <= i < 9 && #[trigger] s[i * 9 + c] == d
}

/// Whether the digit `d` stands in the box `k` of `s`.
pub open spec fn digit_in_box(s: Seq<int>, k: int, d: int) -> bool {
    exists|i: int| 0 <= i < 9 && #[trigger] s[(k / 3 * 3 + i / 3) * 9 + k % 3 * 3 + i % 3] == d
}

/// Whether `s` is a solved Sudoku: eighty-one digits, no two cells that
/// share an area alike, and every digit in every row, column and box.
#[verifier::opaque]
pub open spec fn is_solution(s: Seq<int>) -> bool {
    &&& s.len() == 81
    &&& forall|i: int| 0 <= i < 81 ==> 1 <= #[trigger] s[i] <= 9
    &&& forall|i: int, j: int|
        0 <= i < 81 && 0 <= j < 81 && i != j && influences(i, j) ==> #[trigger] s[i]
            != #[trigger] s[j]
    &&& forall|r: int, d: int| 0 <= r < 9 && 1 <= d <= 9 ==> #[trigger] digit_in_row(s, r, d)
    &&& forall|c: int, d: int| 0 <= c < 9 && 1 <= d <= 9 ==> #[trigger] digit_in_column(s, c, d)
    &&& forall|k: int, d: int| 0 <= k < 9 && 1 <= d <= 9 ==> #[trigger] digit_in_box(s, k, d)
}

/// A solution is eighty-one digits.
pub proof fn lemma_solution_digits(s: Seq<int>)
    requires
        is_solution(s),
    ensures
        s.len() == 81,
        forall|i: int| 0 <= i < 81 ==> 1 <= #[trigger] s[i] <= 9,
{
    reveal(is_solution);
}

/// A solution has different digits in two cells that share an area.
pub proof fn lemma_peers_differ(s: Seq<int>, i: int, j: int)
    requires
        is_solution(s),
        0 <= i < 81,
        0 <= j < 81,
        is_peer(i, j),
    ensures
        s[i] != s[j],
{
    reveal(is_solution);
}

/// Whether the digit `d` stands in one of the nine cells of `area` in `s`.
pub open spec fn digit_in<T: CellCollection>(s: Seq<int>, area: &T, d: int) -> bool {
    exists|i: int| 0 <= i < 9 && #[trigger] s[area.coord_at(i)] == d
}

/// Whether every digit stands in `area` in `s`.
pub open spec fn covers<T: CellCollection>(s: Seq<int>, area: &T) -> bool {
    forall|d: int| 1 <= d <= 9 ==> #[trigger] digit_in(s, area, d)
}

/// Whether every solution that `g` admits is admitted by `h`.
pub open spec fn sound(g: Seq<u16>, h: Seq<u16>) -> bool {
    forall|s: Seq<int>| #[trigger] admits(g, s) && is_solution(s) ==> admits(h, s)
}

/// Whether every solution that `g` admits and that has every digit in
/// `area` is admitted by `h`.
pub open spec fn sound_in<T: CellCollection>(g: Seq<u16>, h: Seq<u16>, area: &T) -> bool {
    forall|s: Seq<int>| #[trigger] admits(g, s) && is_solution(s) && covers(s, area) ==> admits(h, s)
}

/// Whether `area` is one of the rows, columns and boxes of the board as
/// far as a solution goes: nine cells of which every two share an area.
pub open spec fn is_house<T: CellCollection>(area: &T) -> bool {
    &&& area.wf()
    &&& area.size() == 9
    &&& forall|i: int, j: int|
        0 <= i < 9 && 0 <= j < 9 && i != j ==> is_peer(
            #[trigger] area.coord_at(i),
            #[trigger] area.coord_at(j),
        )
}

/// Where the cell `i` of the box `k` lies.
pub proof fn lemma_box_cell(k: int, i: int)
    requires
        0 <= k < 9,
        0 <= i < 9,
    ensures
        Square::of_index(k).coord_at(i) == 27 * (k / 3) + 9 * (i / 3) + 3 * (k % 3) + i % 3,
        Square::of_index(k).coord_at(i) / 27 == k / 3,
        Square::of_index(k).coord_at(i) / 9 == 3 * (k / 3) + i / 3,
        Square::of_index(k).coord_at(i) % 9 == 3 * (k % 3) + i % 3,
        (Square::of_index(k).coord_at(i) % 9) / 3 == k % 3,
        0 <= Square::of_index(k).coord_at(i) < 81,
        Square::of_index(k).wf(),
{
    let r = k / 3;
    let c = k % 3;
    let p = i / 3;
    let q = i % 3;
    let square = Square::of_index(k);
    assert(square.row == 3 * r);
    assert(square.col == 3 * c);
    let a = square.coord_at(i);
    assert(a == (3 * r + p) * 9 + 3 * c + q);
    assert(a == 27 * r + 9 * p + 3 * c + q);
}

/// Every row of the board is a house, and a solution has every digit in
/// it.
pub proof fn lemma_row_house(s: Seq<int>, k: int)
    requires
        0 <= k < 9,
    ensures
        is_house(&Row { row: k as usize }),
        is_solution(s) ==> covers(s, &Row { row: k as usize }),
{
    reveal(is_solution);
    let row = Row { row: k as usize };
    if is_solution(s) {
        assert forall|d: int| 1 <= d <= 9 implies #[trigger] digit_in(s, &row, d) by {
            assert(digit_in_row(s, k, d));
            let i = choose|i: int| 0 <= i < 9 && #[trigger] s[k * 9 + i] == d;
            assert(s[row.coord_at(i)] == d);
        }
    }
}

/// Every column of the board is a house, and a solution has every digit
/// in it.
pub proof fn lemma_column_house(s: Seq<int>, k: int)
    requires
        0 <= k < 9,
    ensures
        is_house(&Column { col: k as usize }),
        is_solution(s) ==> covers(s, &Column { col: k as usize }),
{
    reveal(is_solution);
    let column = Column { col: k as usize };
    if is_solution(s) {
        assert forall|d: int| 1 <= d <= 9 implies #[trigger] digit_in(s, &column, d) by {
            assert(digit_in_column(s, k, d));
            let i = choose|i: int| 0 <= i < 9 && #[trigger] s[i * 9 + k] == d;
            assert(s[column.coord_at(i)] == d);
        }
    }
}

/// Every box of the board is a house, and a solution has every digit in
/// it.
pub proof fn lemma_box_house(s: Seq<int>, k: int)
    requires
        0 <= k < 9,
    ensures
        is_house(&Square::of_index(k)),
        is_solution(s) ==> covers(s, &Square::of_index(k)),
{
    reveal(is_solution);
    let square = Square::of_index(k);
    lemma_box_cell(k, 0);
    assert forall|i: int, j: int| 0 <= i < 9 && 0 <= j < 9 && i != j implies is_peer(
        #[trigger] square.coord_at(i),
        #[trigger] square.coord_at(j),
    ) by {
        lemma_box_cell(k, i);
        lemma_box_cell(k, j);
    }
    if is_solution(s) {
        assert forall|d: int| 1 <= d <= 9 implies #[trigger] digit_in(s, &square, d) by {
            assert(digit_in_box(s, k, d));
            let i = choose|i: int|
                0 <= i < 9 && #[trigger] s[(k / 3 * 3 + i / 3) * 9 + k % 3 * 3 + i % 3] == d;
            lemma_box_cell(k, i);
            assert(s[square.coord_at(i)] == d);
        }
    }
}

/// Soundness is reflexive and transitive.
pub proof fn lemma_sound_trans(g: Seq<u16>, h: Seq<u16>, k: Seq<u16>)
    requires
        sound(g, h),
        sound(h, k),
    ensures
        sound(g, k),
        sound(g, g),
{
}

/// A cell that admits a digit still admits it after another digit was
/// removed from its candidates.
pub proof fn lemma_cell_unset_admits(w: u16, mark: Mark, d: int)
    requires
        cell_admits(w, d),
        1 <= d <= 9,
        d != mark.value(),
    ensures
        cell_admits(w & !mark.bit(), d),
        cell_admits(w & 0xFFFF, d),
        word_determined(w) ==> cell_admits(w & 0x007F, d),
{
    let b = mark.bit();
    let other = Mark::of_value(d);
    Mark::lemma_value_of_value(d);
    let c = other.bit();
    lemma_mark_bits(mark, other);
    lemma_mark_bits(other, mark);
    assert((w & !b) & 0x000F == w & 0x000F && w & 0xFFFF == w && ((w & !b) & c == w & c)) by (bit_vector)
        requires
            b & 0x000F == 0,
            b & c == 0,
    ;
    if word_determined(w) {
        let digit = w;
        assert(digit & !b == digit && digit & 0x007F == digit) by (bit_vector)
            requires
                1 <= digit <= 9,
                b & 0x000F == 0,
                b & 0xFF80 == b,
        ;
    }
}

/// A grid that admits a solution still admits it after a digit was
/// removed from the candidates of a cell where the solution has another.
pub proof fn lemma_unset_admits(g: Seq<u16>, x: int, mark: Mark, s: Seq<int>)
    requires
        admits(g, s),
        is_solution(s),
        0 <= x < 81,
        s[x] != mark.value(),
    ensures
        admits(unset_possible_spec(g, x, mark), s),
{
    let h = unset_possible_spec(g, x, mark);
    lemma_solution_digits(s);
    assert forall|i: int| 0 <= i < 81 implies cell_admits(#[trigger] h[i], s[i]) by {
        assert(cell_admits(g[i], s[i]));
        if i == x {
            lemma_cell_unset_admits(g[i], mark, s[i]);
        }
    }
}

/// A grid that admits a solution still admits it after the mask that
/// removes a digit around a cell was applied, where the cell holds a value
/// and the solution has that digit there.
pub proof fn lemma_mark_off_admits(g: Seq<u16>, c: int, mark: Mark, s: Seq<int>)
    requires
        admits(g, s),
        is_solution(s),
        0 <= c < 81,
        word_determined(g[c]),
        s[c] == mark.value(),
    ensures
        admits(mark_off_spec(g, c, mark), s),
{
    let h = mark_off_spec(g, c, mark);
    lemma_solution_digits(s);
    assert forall|i: int| 0 <= i < 81 implies cell_admits(#[trigger] h[i], s[i]) by {
        assert(cell_admits(g[i], s[i]));
        lemma_influences(i, c);
        if i == c {
            let digit = g[i];
            assert(digit & 0x007F == digit) by (bit_vector)
                requires
                    1 <= digit <= 9,
            ;
        } else if influences(i, c) {
            lemma_peers_differ(s, i, c);
            lemma_cell_unset_admits(g[i], mark, s[i]);
        } else {
            let w = g[i];
            assert(w & 0xFFFF == w) by (bit_vector);
        }
    }
}

/// A grid that admits a solution still admits it after the digit that the
/// solution has in a cell was placed there.
pub proof fn lemma_place_admits(g: Seq<u16>, c: int, mark: Mark, s: Seq<int>)
    requires
        admits(g, s),
        is_solution(s),
        0 <= c < 81,
        s[c] == mark.value(),
    ensures
        admits(place_spec(g, c, mark), s),
{
    let d = mark.value() as u16;
    let g1 = g.update(c, d);
    lemma_digit_word(d, 0);
    assert forall|i: int| 0 <= i < 81 implies cell_admits(#[trigger] g1[i], s[i]) by {
        assert(cell_admits(g[i], s[i]));
    }
    lemma_mark_off_admits(g1, c, mark, s);
}

/// After the reset a grid admits every solution that agrees with it.
pub proof fn lemma_reset_admits(g: Seq<u16>, s: Seq<int>)
    requires
        agrees_with(g, s),
        is_solution(s),
    ensures
        admits(reset_spec(g), s),
{
    let h = reset_spec(g);
    lemma_solution_digits(s);
    assert forall|i: int| 0 <= i < 81 implies cell_admits(#[trigger] h[i], s[i]) by {
        lemma_reset_word(g[i]);
        assert(cell_agrees(g[i], s[i]));
        if word_determined(g[i]) {
            let v = word_value(g[i]);
            lemma_digit_word(v, 0);
        }
    }
}

/// The reset loses no solution that the grid admits.
pub proof fn lemma_reset_sound(g: Seq<u16>)
    requires
        g.len() == 81,
    ensures
        sound(g, reset_spec(g)),
{
    let h = reset_spec(g);
    assert forall|s: Seq<int>| #[trigger] admits(g, s) && is_solution(s) implies admits(h, s) by {
        lemma_solution_digits(s);
        assert forall|i: int| 0 <= i < 81 implies cell_admits(#[trigger] h[i], s[i]) by {
            assert(cell_admits(g[i], s[i]));
            if word_determined(g[i]) {
                lemma_digit_word(g[i], 0);
            }
        }
    }
}

/// In a puzzle whose open cells are fresh, a solved grid agrees with the
/// puzzle as soon as it has the values of the puzzle.
pub proof fn lemma_fresh_puzzle_agrees(g: Seq<u16>, s: Seq<int>)
    requires
        g.len() == 81,
        open_cells_fresh(g),
        is_solution(s),
        forall|i: int| 0 <= i < 81 && word_determined(#[trigger] g[i]) ==> word_value(g[i]) == s[i],
    ensures
        agrees_with(g, s),
{
    lemma_solution_digits(s);
    assert forall|i: int| 0 <= i < 81 implies cell_agrees(#[trigger] g[i], s[i]) by {
        if !word_determined(g[i]) {
            let m = Mark::of_value(s[i]);
            let b = m.bit();
            lemma_mark_bits(m, m);
            assert(0xFF80u16 & b != 0) by (bit_vector)
                requires
                    b & 0xFF80 == b,
                    b != 0,
            ;
        }
    }
}

/// Whether the word is a single bit.
pub open spec fn is_single_bit(w: u16) -> bool {
    w == 0x0001 || w == 0x0002 || w == 0x0004 || w == 0x0008 || w == 0x0010 || w == 0x0020 || w
        == 0x0040 || w == 0x0080 || w == 0x0100 || w == 0x0200 || w == 0x0400 || w == 0x0800 || w
        == 0x1000 || w == 0x2000 || w == 0x4000 || w == 0x8000
}

/// A word with no one bit is zero, and a word with one is a single bit.
pub proof fn lemma_popcount_one(w: u16)
    ensures
        popcount(w) == 0 ==> w == 0,
        popcount(w) == 1 ==> is_single_bit(w),
    decreases w,
{
    if w != 0 {
        lemma_popcount_one(w / 2);
    }
}

/// A word that is a single bit offers at most one candidate.
pub proof fn lemma_single_candidate(w: u16, m: Mark, n: Mark)
    requires
        popcount(w) == 1,
        word_possible(w, m),
        word_possible(w, n),
    ensures
        m == n,
{
    lemma_popcount_one(w);
    let a = m.bit();
    let b = n.bit();
    lemma_mark_bits(m, n);
    assert(a & b != 0) by (bit_vector)
        requires
            w == 0x0001 || w == 0x0002 || w == 0x0004 || w == 0x0008 || w == 0x0010 || w == 0x0020
                || w == 0x0040 || w == 0x0080 || w == 0x0100 || w == 0x0200 || w == 0x0400 || w
                == 0x0800 || w == 0x1000 || w == 0x2000 || w == 0x4000 || w == 0x8000,
            w & a != 0,
            w & b != 0,
    ;
}

/// Whether the copy `snap` of `area` admits the solution `s`: each of its
/// nine cells admits the digit that `s` has there.
pub open spec fn slice_admits<T: CellCollection>(snap: Seq<u16>, area: &T, s: Seq<int>) -> bool {
    forall|i: int| 0 <= i < 9 ==> cell_admits(#[trigger] snap[i], s[area.coord_at(i)])
}

/// A copy of an area of a grid that admits a solution admits it.
pub proof fn lemma_slice_admits<T: CellCollection>(g: Seq<u16>, area: &T, s: Seq<int>)
    requires
        admits(g, s),
        area.wf(),
        area.size() == 9,
    ensures
        slice_admits(padded(area_words(area, g)), area, s),
{
    let snap = padded(area_words(area, g));
    assert forall|i: int| 0 <= i < 9 implies cell_admits(#[trigger] snap[i], s[area.coord_at(i)]) by {
        area.lemma_coords_in_grid(i);
        assert(snap[i] == g[area.coord_at(i)]);
        assert(cell_admits(g[area.coord_at(i)], s[area.coord_at(i)]));
    }
}

/// Where one word alone among the first `n` offers a candidate, two
/// places that offer it are the same place.
pub proof fn lemma_one_possible(words: Seq<u16>, mark: Mark, n: int, i: int, j: int)
    requires
        count_possible_words(words, mark, n) == 1,
        0 <= i < n,
        0 <= j < n,
        word_possible(words[i], mark),
        word_possible(words[j], mark),
    ensures
        i == j,
    decreases n,
{
    if n > 0 {
        lemma_count_possible_words(words, mark, n - 1);
        if word_possible(words[n - 1], mark) {
            if i < n - 1 {
                assert(count_possible_words(words, mark, n - 1) == 0);
                assert(!word_possible(words[i], mark));
            }
            if j < n - 1 {
                assert(count_possible_words(words, mark, n - 1) == 0);
                assert(!word_possible(words[j], mark));
            }
        } else {
            lemma_one_possible(words, mark, n - 1, i, j);
        }
    }
}

/// In a copy of an area that admits a solution and holds the digit of
/// `mark` nowhere, the cell where the solution has the digit offers it.
pub proof fn lemma_digit_is_offered<T: CellCollection>(
    snap: Seq<u16>,
    area: &T,
    mark: Mark,
    s: Seq<int>,
) -> (j: int)
    requires
        is_solution(s),
        covers(s, area),
        slice_admits(snap, area, s),
        count_value_words(snap, mark.value() as u16, 16) == 0,
    ensures
        0 <= j < 9,
        s[area.coord_at(j)] == mark.value(),
        !word_determined(snap[j]),
        word_possible(snap[j], mark),
{
    let d = mark.value();
    assert(digit_in(s, area, d));
    let j = choose|j: int| 0 <= j < 9 && #[trigger] s[area.coord_at(j)] == d;
    assert(cell_admits(snap[j], d));
    Mark::lemma_round_trip(mark);
    if word_determined(snap[j]) {
        lemma_digit_word(snap[j], 0);
        lemma_count_value_words(snap, d as u16, 16);
        assert(word_value(snap[j]) == d as u16);
    }
    j
}

/// A solution that a grid admits agrees with the grid.
pub proof fn lemma_admits_agrees(g: Seq<u16>, s: Seq<int>)
    requires
        admits(g, s),
        is_solution(s),
    ensures
        agrees_with(g, s),
{
    lemma_solution_digits(s);
    assert forall|i: int| 0 <= i < 81 implies cell_agrees(#[trigger] g[i], s[i]) by {
        assert(cell_admits(g[i], s[i]));
        if word_determined(g[i]) {
            lemma_digit_word(g[i], 0);
        }
    }
}

/// Whether `h` admits every solution that agrees with the puzzle `g`.
pub open spec fn keeps_solutions(g: Seq<u16>, h: Seq<u16>) -> bool {
    forall|s: Seq<int>| #[trigger] agrees_with(g, s) && is_solution(s) ==> admits(h, s)
}

/// What admits every solution of a grid still does after a deduction
/// that loses none.
pub proof fn lemma_keeps_solutions_sound(g: Seq<u16>, h: Seq<u16>, k: Seq<u16>)
    requires
        keeps_solutions(g, h),
        sound(h, k),
    ensures
        keeps_solutions(g, k),
{
    assert forall|s: Seq<int>| #[trigger] agrees_with(g, s) && is_solution(s) implies admits(
        k,
        s,
    ) by {
        assert(admits(h, s));
    }
}

/// The reset keeps every solution of a grid.
pub proof fn lemma_reset_keeps_solutions(g: Seq<u16>)
    requires
        g.len() == 81,
    ensures
        keeps_solutions(g, reset_spec(g)),
{
    assert forall|s: Seq<int>| #[trigger] agrees_with(g, s) && is_solution(s) implies admits(
        reset_spec(g),
        s,
    ) by {
        lemma_reset_admits(g, s);
    }
}

/// Where one word alone among the first `n` has the value `v`, they count
/// one.
pub proof fn lemma_one_value(words: Seq<u16>, v: u16, n: int, j: int)
    requires
        0 <= j < n,
        word_value(words[j]) == v,
        forall|k: int| 0 <= k < n && k != j ==> word_value(#[trigger] words[k]) != v,
    ensures
        count_value_words(words, v, n) == 1,
    decreases n,
{
    if j < n - 1 {
        lemma_one_value(words, v, n - 1, j);
    } else {
        lemma_count_value_words(words, v, n - 1);
    }
}

/// In a grid that admits a solution, every digit has its place in every
/// house: either exactly one cell of the house holds the digit, or at
/// least one cell offers it.
pub proof fn lemma_every_digit_has_a_place<T: CellCollection>(
    g: Seq<u16>,
    s: Seq<int>,
    area: &T,
    mark: Mark,
)
    requires
        admits(g, s),
        is_solution(s),
        is_house(area),
        covers(s, area),
    ensures
        count_value_words(padded(area_words(area, g)), mark.value() as u16, 16) == 1
            || count_possible_words(padded(area_words(area, g)), mark, 16) > 0,
{
    let snap = padded(area_words(area, g));
    let d = mark.value();
    lemma_slice_admits(g, area, s);
    lemma_solution_digits(s);
    assert(digit_in(s, area, d));
    let j = choose|j: int| 0 <= j < 9 && #[trigger] s[area.coord_at(j)] == d;
    assert(cell_admits(snap[j], d));
    Mark::lemma_round_trip(mark);
    if word_determined(snap[j]) {
        lemma_digit_word(snap[j], 0);
        assert forall|k: int| 0 <= k < 16 && k != j implies word_value(#[trigger] snap[k])
            != d as u16 by {
            if k < 9 {
                area.lemma_coords_in_grid(k);
                area.lemma_coords_in_grid(j);
                assert(cell_admits(snap[k], s[area.coord_at(k)]));
                assert(is_peer(area.coord_at(k), area.coord_at(j)));
                lemma_peers_differ(s, area.coord_at(k), area.coord_at(j));
                if word_determined(snap[k]) {
                    lemma_digit_word(snap[k], 0);
                }
            } else {
                assert(snap[k] == 0);
                assert(0u16 & 0x000F == 0) by (bit_vector);
            }
        }
        lemma_one_value(snap, d as u16, 16, j);
    } else {
        lemma_count_possible_words(snap, mark, 16);
    }
}

/// In a grid that admits a solution, every digit has its place in every
/// row, column and box of the board.
pub proof fn lemma_every_digit_has_a_place_on_the_board(
    g: Seq<u16>,
    s: Seq<int>,
    k: int,
    mark: Mark,
)
    requires
        admits(g, s),
        is_solution(s),
        0 <= k < 9,
    ensures
        count_value_words(
            padded(area_words(&Row { row: k as usize }, g)),
            mark.value() as u16,
            16,
        ) == 1 || count_possible_words(padded(area_words(&Row { row: k as usize }, g)), mark, 16)
            > 0,
        count_value_words(
            padded(area_words(&Column { col: k as usize }, g)),
            mark.value() as u16,
            16,
        ) == 1 || count_possible_words(
            padded(area_words(&Column { col: k as usize }, g)),
            mark,
            16,
        ) > 0,
        count_value_words(padded(area_words(&Square::of_index(k), g)), mark.value() as u16, 16)
            == 1 || count_possible_words(padded(area_words(&Square::of_index(k), g)), mark, 16)
            > 0,
{
    lemma_row_house(s, k);
    lemma_column_house(s, k);
    lemma_box_house(s, k);
    lemma_every_digit_has_a_place(g, s, &Row { row: k as usize }, mark);
    lemma_every_digit_has_a_place(g, s, &Column { col: k as usize }, mark);
    lemma_every_digit_has_a_place(g, s, &Square::of_index(k), mark);
}

/// A grid that admits a solution has no cell without value and candidate,
/// and if every cell of it holds a value, it is that solution.
pub proof fn lemma_admits_complete(g: Seq<u16>, s: Seq<int>)
    requires
        admits(g, s),
        is_solution(s),
    ensures
        forall|i: int|
            0 <= i < 81 ==> word_determined(#[trigger] g[i]) || crate::grid::cell::word_candidates(
                g[i],
            ) != 0,
        (forall|i: int| 0 <= i < 81 ==> word_determined(#[trigger] g[i])) ==> forall|i: int|
            0 <= i < 81 ==> #[trigger] g[i] == s[i],
{
    lemma_solution_digits(s);
    assert forall|i: int| 0 <= i < 81 implies word_determined(#[trigger] g[i])
        || crate::grid::cell::word_candidates(g[i]) != 0 by {
        assert(cell_admits(g[i], s[i]));
        if !word_determined(g[i]) {
            let m = Mark::of_value(s[i]);
            let b = m.bit();
            let w = g[i];
            lemma_mark_bits(m, m);
            assert(w & 0xFF80 != 0) by (bit_vector)
                requires
                    w & b != 0,
                    b & 0xFF80 == b,
            ;
        }
    }
    if forall|i: int| 0 <= i < 81 ==> word_determined(#[trigger] g[i]) {
        assert forall|i: int| 0 <= i < 81 implies #[trigger] g[i] == s[i] by {
            assert(cell_admits(g[i], s[i]));
        }
    }
}

/// The digit at the cell `i` of the grid that shifts the row `1..=9` by
/// three from row to row and by one more from band to band.
pub open spec fn shifted_digit(i: int) -> int {
    (3 * ((i / 9) % 3) + (i / 9) / 3 + i % 9) % 9 + 1
}

/// The grid of the shifted rows.
pub open spec fn shifted_grid() -> Seq<int> {
    Seq::new(81, |i: int| shifted_digit(i))
}

/// The digit of the shifted grid at the row `r` and the column `c`.
proof fn lemma_shifted_at(r: int, c: int)
    requires
        0 <= r < 9,
        0 <= c < 9,
    ensures
        shifted_digit(r * 9 + c) == (3 * (r % 3) + r / 3 + c) % 9 + 1,
        (r * 9 + c) / 9 == r,
        (r * 9 + c) % 9 == c,
        0 <= 3 * (r % 3) + r / 3 < 9,
{
}

/// Two numbers under eighteen that differ by less than nine and are not
/// the same leave different remainders by nine.
proof fn lemma_remainders_differ(x: int, y: int)
    requires
        0 <= x < 18,
        0 <= y < 18,
        x != y,
        -9 < x - y < 9,
    ensures
        x % 9 != y % 9,
{
}

/// Two cells of one row of the shifted grid hold different digits.
proof fn lemma_shifted_differ_in_row(r: int, c1: int, c2: int)
    requires
        0 <= r < 9,
        0 <= c1 < 9,
        0 <= c2 < 9,
        c1 != c2,
    ensures
        shifted_digit(r * 9 + c1) != shifted_digit(r * 9 + c2),
{
    lemma_shifted_at(r, c1);
    lemma_shifted_at(r, c2);
    let b = 3 * (r % 3) + r / 3;
    lemma_remainders_differ(b + c1, b + c2);
}

/// Two cells of one column of the shifted grid hold different digits.
proof fn lemma_shifted_differ_in_column(r1: int, r2: int, c: int)
    requires
        0 <= r1 < 9,
        0 <= r2 < 9,
        0 <= c < 9,
        r1 != r2,
    ensures
        shifted_digit(r1 * 9 + c) != shifted_digit(r2 * 9 + c),
{
    lemma_shifted_at(r1, c);
    lemma_shifted_at(r2, c);
    let b1 = 3 * (r1 % 3) + r1 / 3;
    let b2 = 3 * (r2 % 3) + r2 / 3;
    assert(b1 != b2);
    lemma_remainders_differ(b1 + c, b2 + c);
}

/// Two cells of one box of the shifted grid hold different digits.
proof fn lemma_shifted_differ_in_box(r1: int, c1: int, r2: int, c2: int)
    requires
        0 <= r1 < 9,
        0 <= r2 < 9,
        0 <= c1 < 9,
        0 <= c2 < 9,
        r1 / 3 == r2 / 3,
        c1 / 3 == c2 / 3,
        r1 != r2 || c1 != c2,
    ensures
        shifted_digit(r1 * 9 + c1) != shifted_digit(r2 * 9 + c2),
{
    lemma_shifted_at(r1, c1);
    lemma_shifted_at(r2, c2);
    let x = 3 * (r1 % 3) + c1 % 3;
    let y = 3 * (r2 % 3) + c2 % 3;
    let base = r1 / 3 + 3 * (c1 / 3);
    assert(x != y);
    assert(3 * (r1 % 3) + r1 / 3 + c1 == x + base);
    assert(3 * (r2 % 3) + r2 / 3 + c2 == y + base);
    lemma_remainders_differ(x + base, y + base);
}

/// Two cells of the shifted grid that share an area hold different
/// digits.
proof fn lemma_shifted_differ(i: int, j: int)
    requires
        0 <= i < 81,
        0 <= j < 81,
        i != j,
        influences(i, j),
    ensures
        shifted_digit(i) != shifted_digit(j),
{
    let r1 = i / 9;
    let c1 = i % 9;
    let r2 = j / 9;
    let c2 = j % 9;
    assert(i == r1 * 9 + c1);
    assert(j == r2 * 9 + c2);
    if r1 == r2 {
        lemma_shifted_differ_in_row(r1, c1, c2);
    } else if c1 == c2 {
        lemma_shifted_differ_in_column(r1, r2, c1);
    } else {
        assert(i / 27 == r1 / 3);
        assert(j / 27 == r2 / 3);
        lemma_shifted_differ_in_box(r1, c1, r2, c2);
    }
}

/// Every digit stands in every row of the shifted grid.
proof fn lemma_shifted_row(r: int, d: int)
    requires
        0 <= r < 9,
        1 <= d <= 9,
    ensures
        digit_in_row(shifted_grid(), r, d),
{
    let b = 3 * (r % 3) + r / 3;
    let c = (d - 1 - b + 9) % 9;
    lemma_shifted_at(r, c);
    assert(shifted_digit(r * 9 + c) == d);
    assert(shifted_grid()[r * 9 + c] == d);
}

/// Every digit stands in every column of the shifted grid.
proof fn lemma_shifted_column(c: int, d: int)
    requires
        0 <= c < 9,
        1 <= d <= 9,
    ensures
        digit_in_column(shifted_grid(), c, d),
{
    let b = (d - 1 - c + 9) % 9;
    let r = 3 * (b % 3) + b / 3;
    lemma_shifted_at(r, c);
    assert(3 * (r % 3) + r / 3 == b);
    assert(shifted_digit(r * 9 + c) == d);
    assert(shifted_grid()[r * 9 + c] == d);
}

/// Every digit stands in every box of the shifted grid.
proof fn lemma_shifted_box(k: int, d: int)
    requires
        0 <= k < 9,
        1 <= d <= 9,
    ensures
        digit_in_box(shifted_grid(), k, d),
{
    let t = (d - 1 - k / 3 - 3 * (k % 3) + 18) % 9;
    let r = k / 3 * 3 + t / 3;
    let c = k % 3 * 3 + t % 3;
    lemma_shifted_at(r, c);
    assert(r % 3 == t / 3 && r / 3 == k / 3);
    assert(3 * (r % 3) + r / 3 + c == 3 * (t / 3) + t % 3 + k / 3 + 3 * (k % 3));
    assert(3 * (t / 3) + t % 3 == t);
    assert(shifted_digit(r * 9 + c) == d);
    assert(shifted_grid()[(k / 3 * 3 + t / 3) * 9 + k % 3 * 3 + t % 3] == d);
}

/// There is a solved Sudoku: the grid of the shifted rows is one.
pub proof fn lemma_shifted_grid_is_solution()
    ensures
        is_solution(shifted_grid()),
{
    reveal(is_solution);
    let s = shifted_grid();
    assert forall|i: int, j: int|
        0 <= i < 81 && 0 <= j < 81 && i != j && influences(i, j) implies #[trigger] s[i]
        != #[trigger] s[j] by {
        lemma_shifted_differ(i, j);
    }
    assert forall|r: int, d: int| 0 <= r < 9 && 1 <= d <= 9 implies #[trigger] digit_in_row(
        s,
        r,
        d,
    ) by {
        lemma_shifted_row(r, d);
    }
    assert forall|c: int, d: int| 0 <= c < 9 && 1 <= d <= 9 implies #[trigger] digit_in_column(
        s,
        c,
        d,
    ) by {
        lemma_shifted_column(c, d);
    }
    assert forall|k: int, d: int| 0 <= k < 9 && 1 <= d <= 9 implies #[trigger] digit_in_box(
        s,
        k,
        d,
    ) by {
        lemma_shifted_box(k, d);
    }
}

} // verus!
