//! How the values of the library read as text.

use vstd::prelude::*;
use vstd::string::*;
use super::cell::{word_possible, word_value, Cell};
use super::coords::Coord;
use super::mark::Mark;
use super::row::Row;
use super::slice::Slice;
use super::square::Square;
use super::utility::utility::{ascii_grid, ascii_rows, decimal_text, digit_char, push_decimal};
use crate::solvers::solver::AnnotatedSolverResult;
use crate::solvers::validator::ValidationError;

verus! {

/// The text of the candidates `1..=k` of the word `w`: for each digit the
/// digit itself if the word offers it, and a stroke if not.
pub open spec fn candidates_text(w: u16, k: int) -> Seq<char>
    decreases k,
{
    if k <= 0 {
        Seq::empty()
    } else {
        candidates_text(w, k - 1).push(
            if word_possible(w, Mark::of_value(k)) {
                digit_char(k)
            } else {
                '_'
            },
        )
    }
}

/// The text of a cell with the word `w`: its candidates and its value
/// bits in brackets.
pub open spec fn cell_word_text(w: u16) -> Seq<char> {
    (seq!['['] + candidates_text(w, 9)).push(',') + decimal_text(word_value(w) as int).push(']')
}

/// The text of the first `n` cells of a slice, a space after each.
pub open spec fn slice_text(words: Seq<u16>, n: int) -> Seq<char>
    decreases n,
{
    if n <= 0 {
        Seq::empty()
    } else {
        slice_text(words, n - 1) + cell_word_text(words[n - 1]).push(' ')
    }
}

impl Mark {
    /// Returns the digit of the tag as text.
    pub fn to_string(&self) -> (text: String)
        ensures
            text@ == seq![digit_char(self.value())],
    {
        let mut text = String::new();
        push_decimal(&mut text, self.to_value() as u128);
        assert(text@ =~= seq![digit_char(self.value())]);
        text
    }
}

impl Coord {
    /// Returns the coordinate as `[row, col]`.
    pub fn to_string(&self) -> (text: String)
        ensures
            text@ == (seq!['['] + decimal_text(self.row())).push(',').push(' ') + decimal_text(
                self.col(),
            ).push(']'),
    {
        let mut text = String::new();
        proof {
            reveal_strlit("[");
            reveal_strlit(", ");
            reveal_strlit("]");
        }
        text.append("[");
        push_decimal(&mut text, self.get_row() as u128);
        text.append(", ");
        push_decimal(&mut text, self.get_col() as u128);
        text.append("]");
        assert(text@ =~= (seq!['['] + decimal_text(self.row())).push(',').push(' ') + decimal_text(
            self.col(),
        ).push(']'));
        text
    }
}

impl Row {
    /// Returns the row as `[Row n]`.
    pub fn to_string(&self) -> (text: String)
        ensures
            text@ == ("[Row "@ + decimal_text(self.row as int)).push(']'),
    {
        let mut text = String::new();
        proof {
            reveal_strlit("]");
        }
        text.append("[Row ");
        push_decimal(&mut text, self.row as u128);
        text.append("]");
        assert(text@ =~= ("[Row "@ + decimal_text(self.row as int)).push(']'));
        text
    }
}

impl Square {
    /// Returns the block as `Square(row, col)`.
    pub fn to_string(&self) -> (text: String)
        ensures
            text@ == ("Square("@ + decimal_text(self.row as int)).push(',').push(' ') + decimal_text(
                self.col as int,
            ).push(')'),
    {
        let mut text = String::new();
        proof {
            reveal_strlit(", ");
            reveal_strlit(")");
        }
        text.append("Square(");
        push_decimal(&mut text, self.row as u128);
        text.append(", ");
        push_decimal(&mut text, self.col as u128);
        text.append(")");
        assert(text@ =~= ("Square("@ + decimal_text(self.row as int)).push(',').push(' ')
            + decimal_text(self.col as int).push(')'));
        text
    }
}

/// Appends the text of `cell` to `text`.
fn push_cell_text(text: &mut String, cell: &Cell)
    ensures
        final(text)@ == old(text)@ + cell_word_text(cell@),
{
    proof {
        reveal_strlit("[");
        reveal_strlit(",");
        reveal_strlit("]");
    }
    text.append("[");
    let ghost start = text@;
    let mut k: u16 = 0;
    while k < 9
        invariant
            k <= 9,
            text@ == start + candidates_text(cell@, k as int),
        decreases 9 - k,
    {
        k = k + 1;
        let mark = Mark::from_value(k);
        let ghost before = text@;
        if cell.is_possible(mark) {
            push_decimal(text, k as u128);
            assert(decimal_text(k as int) =~= seq![digit_char(k as int)]);
            assert(text@ =~= before.push(digit_char(k as int)));
        } else {
            proof {
                reveal_strlit("_");
            }
            text.append("_");
            assert(text@ =~= before.push('_'));
        }
        assert(text@ =~= start + candidates_text(cell@, k as int));
    }
    text.append(",");
    push_decimal(text, cell.only_determined().get_value() as u128);
    text.append("]");
    assert(text@ =~= old(text)@ + cell_word_text(cell@));
}

impl Cell {
    /// Returns the cell as text: in brackets the nine candidates, each as
    /// its digit or as a stroke, a comma, and the value bits.
    pub fn to_string(&self) -> (text: String)
        ensures
            text@ == cell_word_text(self@),
    {
        let mut text = String::new();
        push_cell_text(&mut text, self);
        assert(text@ =~= cell_word_text(self@));
        text
    }
}

impl Slice {
    /// Returns the sixteen cells of the slice as text, a space after each.
    pub fn to_string(&self) -> (text: String)
        ensures
            text@ == slice_text(self@, 16),
    {
        let mut text = String::new();
        let mut i: usize = 0;
        while i < 16
            invariant
                i <= 16,
                text@ == slice_text(self@, i as int),
            decreases 16 - i,
        {
            let cell = self.get(i);
            let ghost before = text@;
            push_cell_text(&mut text, &cell);
            proof {
                reveal_strlit(" ");
            }
            text.append(" ");
            assert(text@ =~= before + cell_word_text(self@[i as int]).push(' '));
            i += 1;
        }
        text
    }
}

/// The text `[row, col]` of the cell with the row-major index `index`.
pub open spec fn place_text(index: int) -> Seq<char> {
    (seq!['['] + decimal_text(index / 9)).push(',').push(' ') + decimal_text(index % 9).push(']')
}

/// The words that name an area by its first and its last cell.
pub open spec fn span_text(first: int, last: int) -> Seq<char> {
    ", from "@ + place_text(first) + " to "@ + place_text(last)
}

/// Appends `[row, col]` of the cell `index` to `text`.
fn push_place(text: &mut String, index: usize)
    ensures
        final(text)@ == old(text)@ + place_text(index as int),
{
    proof {
        reveal_strlit("[");
        reveal_strlit(", ");
        reveal_strlit("]");
    }
    text.append("[");
    push_decimal(text, (index / 9) as u128);
    text.append(", ");
    push_decimal(text, (index % 9) as u128);
    text.append("]");
    assert(text@ =~= old(text)@ + place_text(index as int));
}

/// Appends the words that name an area by its first and last cell.
fn push_span(text: &mut String, first: usize, last: usize)
    ensures
        final(text)@ == old(text)@ + span_text(first as int, last as int),
{
    text.append(", from ");
    push_place(text, first);
    text.append(" to ");
    push_place(text, last);
    assert(text@ =~= old(text)@ + span_text(first as int, last as int));
}

impl ValidationError {
    /// What the error says in words.
    pub open spec fn message_text(self) -> Seq<char> {
        match self {
            ValidationError::InvalidValue { index, value } => "Invalid value "@ + decimal_text(
                value as int,
            ) + " at "@ + place_text(index as int),
            ValidationError::NoPossible { index } => "No possible values at "@ + place_text(
                index as int,
            ),
            ValidationError::Duplicate { mark, first, last } => "More than one "@ + decimal_text(
                mark.value(),
            ) + " in area"@ + span_text(first as int, last as int),
            ValidationError::DeterminedPossible { mark, first, last } => "Determined "@
                + decimal_text(mark.value()) + " with possible values"@ + span_text(
                first as int,
                last as int,
            ),
            ValidationError::NoPlace { mark, first, last } => "No possible values for "@
                + decimal_text(mark.value()) + span_text(first as int, last as int),
            ValidationError::NotDetermined { index } => "Cell at "@ + place_text(index as int)
                + " is not determined"@,
            ValidationError::RowCount { index } => "Row "@ + decimal_text(index as int / 9)
                + " should only be 1"@,
            ValidationError::ColumnCount { index } => "Column "@ + decimal_text(index as int % 9)
                + " should only be 1"@,
            ValidationError::SquareCount { index } => "Square should only be 1"@,
        }
    }

    /// Returns what the error says in words: what is wrong, with which
    /// digit, and where, a cell as `[row, col]` and an area by its first and
    /// its last cell.
    pub fn message(&self) -> (text: String)
        ensures
            text@ == self.message_text(),
    {
        let mut text = String::new();
        match *self {
            ValidationError::InvalidValue { index, value } => {
                text.append("Invalid value ");
                push_decimal(&mut text, value as u128);
                text.append(" at ");
                push_place(&mut text, index);
            },
            ValidationError::NoPossible { index } => {
                text.append("No possible values at ");
                push_place(&mut text, index);
            },
            ValidationError::Duplicate { mark, first, last } => {
                text.append("More than one ");
                push_decimal(&mut text, mark.to_value() as u128);
                text.append(" in area");
                push_span(&mut text, first, last);
            },
            ValidationError::DeterminedPossible { mark, first, last } => {
                text.append("Determined ");
                push_decimal(&mut text, mark.to_value() as u128);
                text.append(" with possible values");
                push_span(&mut text, first, last);
            },
            ValidationError::NoPlace { mark, first, last } => {
                text.append("No possible values for ");
                push_decimal(&mut text, mark.to_value() as u128);
                push_span(&mut text, first, last);
            },
            ValidationError::NotDetermined { index } => {
                text.append("Cell at ");
                push_place(&mut text, index);
                text.append(" is not determined");
            },
            ValidationError::RowCount { index } => {
                text.append("Row ");
                push_decimal(&mut text, (index / 9) as u128);
                text.append(" should only be 1");
            },
            ValidationError::ColumnCount { index } => {
                text.append("Column ");
                push_decimal(&mut text, (index % 9) as u128);
                text.append(" should only be 1");
            },
            ValidationError::SquareCount { index } => {
                text.append("Square should only be 1");
            },
        }
        assert(text@ =~= self.message_text());
        text
    }
}

impl AnnotatedSolverResult {
    /// Returns the outcome, the number of rounds and the drawing of the
    /// grid as text.
    pub fn to_string(&self) -> (text: String)
        ensures
            text@ == "result: "@ + self.result.name_text() + ", iters: "@ + decimal_text(
                self.iterations as int,
            ).push('\n') + ascii_rows(self.grid@, 9),
    {
        let mut text = String::new();
        proof {
            reveal_strlit("\n");
        }
        text.append("result: ");
        text.append(self.result.name());
        text.append(", iters: ");
        push_decimal(&mut text, self.iterations as u128);
        text.append("\n");
        let drawing = ascii_grid(&self.grid);
        text.append(drawing.as_str());
        assert(text@ =~= "result: "@ + self.result.name_text() + ", iters: "@ + decimal_text(
            self.iterations as int,
        ).push('\n') + ascii_rows(self.grid@, 9));
        text
    }
}

} // verus!
