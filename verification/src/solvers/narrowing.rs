//! The order in which deduction moves: a rule may take candidates away and
//! may give an open cell its value, and nothing else.

use vstd::prelude::*;
use crate::grid::cell::{
    lemma_digit_word, lemma_mark_bits, word_determined, word_is_digit, word_possible, word_value,
};
use crate::grid::grid::{mark_off_spec, place_spec, unset_possible_spec};
use crate::grid::grid_mask::unset_influence_word;
use crate::grid::mark::Mark;

verus! {

/// Whether the word `b` can follow the word `a` in a deduction: outside its
/// value bits `b` has no bit that `a` lacks; where `a` holds a value, `b`
/// holds the same; and where `a` holds none and `b` holds one, `b` is a bare
/// digit.
pub open spec fn word_narrows(a: u16, b: u16) -> bool {
    &&& (b & 0xFFF0) & !a == 0
    &&& word_determined(a) ==> word_value(b) == word_value(a)
    &&& !word_determined(a) && word_determined(b) ==> word_is_digit(b)
}

/// Whether the grid `h` can follow the grid `g` in a deduction: no cell has
/// gained a candidate, no determined cell has changed its value, and every
/// cell that got a value got a bare digit.
pub open spec fn narrows(g: Seq<u16>, h: Seq<u16>) -> bool {
    &&& g.len() == 81
    &&& h.len() == 81
    &&& forall|i: int| 0 <= i < 81 ==> word_narrows(#[trigger] g[i], h[i])
}

/// On words the order is reflexive and transitive; it never gives a
/// candidate back; two words that follow each other are the same word; a
/// bare digit is followed by itself alone; and a mask that keeps the value
/// bits gives a word that follows.
pub proof fn lemma_word_narrows(a: u16, b: u16, c: u16, x: u16)
    ensures
        word_narrows(a, a),
        word_narrows(a, b) && word_narrows(b, c) ==> word_narrows(a, c) && (a == c ==> a == b),
        word_narrows(a, b) && b & x != 0 && x & 0x000F == 0 ==> a & x != 0,
        word_narrows(a, b) && word_is_digit(a) ==> b == a,
        x & 0x000F == 0x000F ==> word_narrows(a, a & x),
{
    assert((a & 0xFFF0) & !a == 0) by (bit_vector);
    assert(((b & 0xFFF0) & !a == 0 && (a & 0x000F != 0 ==> b & 0x000F == a & 0x000F) && (a
        & 0x000F == 0 && b & 0x000F != 0 ==> 1 <= b <= 9) && (c & 0xFFF0) & !b == 0 && (b
        & 0x000F != 0 ==> c & 0x000F == b & 0x000F) && (b & 0x000F == 0 && c & 0x000F != 0 ==> 1
        <= c <= 9)) ==> ((c & 0xFFF0) & !a == 0 && (a & 0x000F != 0 ==> c & 0x000F == a & 0x000F)
        && (a & 0x000F == 0 && c & 0x000F != 0 ==> 1 <= c <= 9) && (a == c ==> a == b)))
        by (bit_vector);
    assert(((b & 0xFFF0) & !a == 0 && b & x != 0 && x & 0x000F == 0) ==> a & x != 0)
        by (bit_vector);
    assert(((b & 0xFFF0) & !a == 0 && (a & 0x000F != 0 ==> b & 0x000F == a & 0x000F) && 1 <= a
        <= 9) ==> b == a) by (bit_vector);
    assert(x & 0x000F == 0x000F ==> ((a & x) & 0xFFF0) & !a == 0 && (a & x) & 0x000F == a
        & 0x000F) by (bit_vector);
}

/// The order on grids is reflexive.
pub proof fn lemma_narrows_refl(g: Seq<u16>)
    requires
        g.len() == 81,
    ensures
        narrows(g, g),
{
    assert forall|i: int| 0 <= i < 81 implies word_narrows(#[trigger] g[i], g[i]) by {
        lemma_word_narrows(g[i], g[i], g[i], 0);
    }
}

/// The order on grids is transitive, and a grid that was left is never
/// come back to: if `g` goes to `h` and `h` to `k`, and either step changed
/// the grid, then `k` is not `g`.
pub proof fn lemma_narrows_trans(g: Seq<u16>, h: Seq<u16>, k: Seq<u16>)
    requires
        narrows(g, h),
        narrows(h, k),
    ensures
        narrows(g, k),
        g == k ==> g == h,
{
    assert forall|i: int| 0 <= i < 81 implies word_narrows(#[trigger] g[i], k[i]) by {
        lemma_word_narrows(g[i], h[i], k[i], 0);
    }
    if g == k {
        assert forall|i: int| 0 <= i < 81 implies g[i] == h[i] by {
            lemma_word_narrows(g[i], h[i], k[i], 0);
        }
        assert(g =~= h);
    }
}

/// Taking a candidate away is a step of deduction.
pub proof fn lemma_unset_narrows(g: Seq<u16>, c: int, mark: Mark)
    requires
        g.len() == 81,
        0 <= c < 81,
    ensures
        narrows(g, unset_possible_spec(g, c, mark)),
        unset_possible_spec(g, c, mark) != g <==> word_possible(g[c], mark),
{
    let h = unset_possible_spec(g, c, mark);
    lemma_mark_bits(mark, mark);
    let b = mark.bit();
    let w = g[c];
    assert((!b) & 0x000F == 0x000F && (w & b == 0 ==> w & !b == w) && (w & b != 0 ==> w & !b
        != w)) by (bit_vector)
        requires
            b & 0x000F == 0,
    ;
    lemma_word_narrows(w, 0, 0, !b);
    assert forall|i: int| 0 <= i < 81 implies word_narrows(#[trigger] g[i], h[i]) by {
        lemma_word_narrows(g[i], g[i], g[i], 0);
    }
    if word_possible(g[c], mark) {
        assert(h[c] != g[c]);
    } else {
        assert(h =~= g);
    }
}

/// Applying the mask that removes `mark` around `c` is a step of
/// deduction.
pub proof fn lemma_mark_off_narrows(g: Seq<u16>, c: int, mark: Mark)
    requires
        g.len() == 81,
        0 <= c < 81,
    ensures
        narrows(g, mark_off_spec(g, c, mark)),
{
    let h = mark_off_spec(g, c, mark);
    lemma_mark_bits(mark, mark);
    let b = mark.bit();
    assert(0x007Fu16 & 0x000F == 0x000F && 0xFFFFu16 & 0x000F == 0x000F && (!b) & 0x000F
        == 0x000F) by (bit_vector)
        requires
            b & 0x000F == 0,
    ;
    assert forall|i: int| 0 <= i < 81 implies word_narrows(#[trigger] g[i], h[i]) by {
        lemma_word_narrows(g[i], 0, 0, unset_influence_word(i, c, mark));
    }
}

/// Giving an open cell a value is a step of deduction, and it changes the
/// grid.
pub proof fn lemma_place_narrows(g: Seq<u16>, c: int, mark: Mark)
    requires
        g.len() == 81,
        0 <= c < 81,
        !word_determined(g[c]),
    ensures
        narrows(g, place_spec(g, c, mark)),
        place_spec(g, c, mark) != g,
        place_spec(g, c, mark)[c] == mark.value(),
{
    let d = mark.value() as u16;
    let g1 = g.update(c, d);
    let h = place_spec(g, c, mark);
    lemma_mark_off_narrows(g1, c, mark);
    lemma_digit_word(d, 0);
    assert(d & 0x007F == d) by (bit_vector)
        requires
            1 <= d <= 9,
    ;
    assert(h[c] == d);
    let w = g[c];
    assert((d & 0xFFF0) & !w == 0 && d & 0x000F != 0) by (bit_vector)
        requires
            1 <= d <= 9,
    ;
    assert forall|i: int| 0 <= i < 81 implies word_narrows(#[trigger] g[i], h[i]) by {
        if i != c {
            assert(g1[i] == g[i]);
            assert(word_narrows(g1[i], h[i]));
        }
    }
    assert(h[c] != g[c]);
}

/// Whether every cell of `g` that holds a value holds a bare digit: a
/// value in `1..=9` and no candidate.
pub open spec fn canonical(g: Seq<u16>) -> bool {
    forall|i: int| 0 <= i < 81 && word_determined(#[trigger] g[i]) ==> word_is_digit(g[i])
}

/// Whether every value that `g` holds is a digit: a number in `1..=9`.
pub open spec fn values_are_digits(g: Seq<u16>) -> bool {
    forall|i: int| 0 <= i < 81 && word_determined(#[trigger] g[i]) ==> 1 <= word_value(g[i]) <= 9
}

/// Deduction keeps the canonical form: where every value is a bare digit
/// before, every value is one after.
pub proof fn lemma_narrows_canonical(g: Seq<u16>, h: Seq<u16>)
    requires
        canonical(g),
        narrows(g, h),
    ensures
        canonical(h),
{
    assert forall|i: int| 0 <= i < 81 && word_determined(#[trigger] h[i]) implies word_is_digit(
        h[i],
    ) by {
        assert(word_narrows(g[i], h[i]));
        lemma_word_narrows(g[i], h[i], 0, 0);
    }
}

} // verus!
