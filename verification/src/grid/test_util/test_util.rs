//! Reading a drawing as it stands, without the consequences of a
//! placement, and the full grid that examples start from.

use vstd::prelude::*;
use vstd::string::*;
use crate::grid::cell::Cell;
use crate::grid::grid::Grid;
use crate::grid::utility::utility::{ascii_rows, filled_values, token_of, tokens_of};

verus! {

/// The word that a token stands for when it is taken as it stands: a
/// fresh cell for an open one, the bare digit for a placed one.
pub open spec fn token_word(v: int) -> u16 {
    if 1 <= v <= 9 {
        v as u16
    } else {
        0xFF80
    }
}

/// The grid whose first `n` cells hold the words of the first `n` of
/// `tokens` and whose other cells are fresh.
pub open spec fn set_tokens(tokens: Seq<int>, n: int) -> Seq<u16> {
    Seq::new(
        81,
        |i: int|
            if i < n {
                token_word(tokens[i])
            } else {
                0xFF80u16
            },
    )
}

/// The grid that the drawing `s` shows: its first eighty-one tokens, each
/// taken as it stands.
pub open spec fn plain_parse_spec(s: Seq<char>) -> Seq<u16> {
    let tokens = tokens_of(s);
    set_tokens(
        tokens,
        if tokens.len() < 81 {
            tokens.len() as int
        } else {
            81
        },
    )
}

/// Returns a full valid grid, always the same.
pub fn filled_sudoku() -> (grid: Grid)
    ensures
        grid@ == set_tokens(filled_values(), 81),
{
    let values: [u16; 81] = [
        4, 3, 5, 2, 6, 9, 7, 8, 1,
        6, 8, 2, 5, 7, 1, 4, 9, 3,
        1, 9, 7, 8, 3, 4, 5, 6, 2,
        8, 2, 6, 1, 9, 5, 3, 4, 7,
        3, 7, 4, 6, 8, 2, 9, 1, 5,
        9, 5, 1, 7, 4, 3, 6, 2, 8,
        5, 1, 9, 3, 2, 6, 8, 7, 4,
        2, 4, 8, 9, 5, 7, 1, 3, 6,
        7, 6, 3, 4, 1, 8, 2, 5, 9,
    ];
    assert(forall|i: int| 0 <= i < 81 ==> values@[i] == filled_values()[i]);
    let mut grid = Grid::new();
    let mut i: usize = 0;
    while i < 81
        invariant
            i <= 81,
            forall|k: int| 0 <= k < 81 ==> values@[k] == filled_values()[k],
            grid@ == set_tokens(filled_values(), i as int),
        decreases 81 - i,
    {
        let v = values[i];
        assert(1 <= filled_values()[i as int] <= 9);
        grid.set_cell(i, &Cell::new_with_value(v));
        assert(grid@ =~= set_tokens(filled_values(), i + 1));
        i += 1;
    }
    grid
}

/// Returns the drawing of the grid.
pub fn ascii_grid(grid: &Grid) -> (text: String)
    ensures
        text@ == ascii_rows(grid@, 9),
{
    crate::grid::utility::utility::ascii_grid(grid)
}

/// Returns what the character `c` says in a drawing.
fn token(c: char) -> (v: Option<u16>)
    ensures
        match v {
            Some(n) => token_of(c) == Some(n as int) && n <= 9,
            None => token_of(c).is_none(),
        },
{
    match c {
        '.' | '0' => Some(0),
        '1' => Some(1),
        '2' => Some(2),
        '3' => Some(3),
        '4' => Some(4),
        '5' => Some(5),
        '6' => Some(6),
        '7' => Some(7),
        '8' => Some(8),
        '9' => Some(9),
        _ => None,
    }
}

/// Returns the grid that a drawing shows, each cell taken as it stands: a
/// dot or a zero gives a fresh cell, a digit a cell with that value, and
/// no candidate is removed anywhere. What follows the eighty-first cell
/// is passed over.
pub fn parse_from_ascii(ascii: &str) -> (grid: Grid)
    ensures
        grid@ == plain_parse_spec(ascii@),
{
    let mut grid = Grid::new();
    let mut index: usize = 0;
    let len = ascii.unicode_len();
    let mut i: usize = 0;
    assert(ascii@.subrange(0, 0) =~= Seq::<char>::empty());
    assert(grid@ =~= set_tokens(tokens_of(ascii@.subrange(0, 0)), 0));
    while i < len
        invariant
            i <= len,
            len == ascii@.len(),
            index == tokens_of(ascii@.subrange(0, i as int)).len(),
            index <= i,
            grid@ == set_tokens(
                tokens_of(ascii@.subrange(0, i as int)),
                if index < 81 {
                    index as int
                } else {
                    81
                },
            ),
        decreases len - i,
    {
        let c = ascii.get_char(i);
        let ghost before = ascii@.subrange(0, i as int);
        let ghost now = ascii@.subrange(0, i + 1);
        proof {
            assert(now.drop_last() =~= before);
            assert(now.last() == c);
        }
        match token(c) {
            Some(value) => {
                if index < 81 {
                    if value != 0 {
                        grid.set_cell(index, &Cell::new_with_value(value));
                    } else {
                        grid.set_cell(index, &Cell::new());
                    }
                }
                index += 1;
            },
            None => {},
        }
        assert(grid@ =~= set_tokens(
            tokens_of(now),
            if index < 81 {
                index as int
            } else {
                81
            },
        ));
        i += 1;
    }
    assert(ascii@.subrange(0, len as int) =~= ascii@);
    grid
}

} // verus!
