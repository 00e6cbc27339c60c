//! Writing a grid as text and reading it back: the drawing with digits and
//! dots, four hex digits for each cell, and one character for each cell.

use vstd::prelude::*;
use vstd::string::*;
use crate::grid::cell::{word_determined, word_is_digit, word_value, Cell};
use crate::grid::cell_collection::CellCollection;
use crate::grid::coords::Coord;
use crate::grid::grid::{place_spec, Grid};
use crate::grid::mark::Mark;
use crate::grid::square::Square;

verus! {

/// The character of the digit `v`, for `v` in `0..=9`.
pub open spec fn digit_char(v: int) -> char {
    if v == 1 {
        '1'
    } else if v == 2 {
        '2'
    } else if v == 3 {
        '3'
    } else if v == 4 {
        '4'
    } else if v == 5 {
        '5'
    } else if v == 6 {
        '6'
    } else if v == 7 {
        '7'
    } else if v == 8 {
        '8'
    } else if v == 9 {
        '9'
    } else {
        '0'
    }
}

/// The number `n` in decimal.
pub open spec fn decimal_text(n: int) -> Seq<char>
    decreases n,
{
    if n < 10 {
        seq![digit_char(n)]
    } else {
        decimal_text(n / 10).push(digit_char(n % 10))
    }
}

/// The hex digit of `v`, for `v` in `0..16`, in lower case.
pub open spec fn hex_char(v: int) -> char {
    if v < 10 {
        digit_char(v)
    } else if v == 10 {
        'a'
    } else if v == 11 {
        'b'
    } else if v == 12 {
        'c'
    } else if v == 13 {
        'd'
    } else if v == 14 {
        'e'
    } else {
        'f'
    }
}

/// The number that the hex digit `c` stands for, in either case; nothing
/// for any other character.
pub open spec fn hex_value(c: char) -> Option<int> {
    if c == '0' {
        Some(0int)
    } else if c == '1' {
        Some(1int)
    } else if c == '2' {
        Some(2int)
    } else if c == '3' {
        Some(3int)
    } else if c == '4' {
        Some(4int)
    } else if c == '5' {
        Some(5int)
    } else if c == '6' {
        Some(6int)
    } else if c == '7' {
        Some(7int)
    } else if c == '8' {
        Some(8int)
    } else if c == '9' {
        Some(9int)
    } else if c == 'a' || c == 'A' {
        Some(10int)
    } else if c == 'b' || c == 'B' {
        Some(11int)
    } else if c == 'c' || c == 'C' {
        Some(12int)
    } else if c == 'd' || c == 'D' {
        Some(13int)
    } else if c == 'e' || c == 'E' {
        Some(14int)
    } else if c == 'f' || c == 'F' {
        Some(15int)
    } else {
        None
    }
}

/// What the character `c` says in a drawing of a grid: a dot or a zero is
/// an open cell, a digit a placed one, anything else nothing.
pub open spec fn token_of(c: char) -> Option<int> {
    if c == '.' || c == '0' {
        Some(0int)
    } else if c == '1' {
        Some(1int)
    } else if c == '2' {
        Some(2int)
    } else if c == '3' {
        Some(3int)
    } else if c == '4' {
        Some(4int)
    } else if c == '5' {
        Some(5int)
    } else if c == '6' {
        Some(6int)
    } else if c == '7' {
        Some(7int)
    } else if c == '8' {
        Some(8int)
    } else if c == '9' {
        Some(9int)
    } else {
        None
    }
}

/// The cells that the text `s` names, in order.
pub open spec fn tokens_of(s: Seq<char>) -> Seq<int>
    decreases s.len(),
{
    if s.len() == 0 {
        Seq::empty()
    } else {
        match token_of(s.last()) {
            Some(v) => tokens_of(s.drop_last()).push(v),
            None => tokens_of(s.drop_last()),
        }
    }
}

/// The grid after the first `n` of `tokens` were placed on a fresh grid,
/// the `i`-th at the cell `i`.
pub open spec fn place_tokens(tokens: Seq<int>, n: int) -> Seq<u16>
    decreases n,
{
    if n <= 0 {
        Seq::new(81, |i: int| 0xFF80u16)
    } else if 1 <= tokens[n - 1] <= 9 {
        place_spec(place_tokens(tokens, n - 1), n - 1, Mark::of_value(tokens[n - 1]))
    } else {
        place_tokens(tokens, n - 1)
    }
}

/// The grid that the drawing `s` stands for: its first eighty-one tokens
/// placed on a fresh grid.
pub open spec fn parse_spec(s: Seq<char>) -> Seq<u16> {
    let tokens = tokens_of(s);
    place_tokens(
        tokens,
        if tokens.len() < 81 {
            tokens.len() as int
        } else {
            81
        },
    )
}

/// What the drawing shows of a cell with the word `w`: its word in
/// decimal, or a dot, and a space.
pub open spec fn cell_text(w: u16) -> Seq<char> {
    if word_determined(w) {
        decimal_text(w as int).push(' ')
    } else {
        seq!['.', ' ']
    }
}

/// The drawing of the first `n` cells of the row `row`, a bar after every
/// third cell but the last.
pub open spec fn ascii_cells(g: Seq<u16>, row: int, n: int) -> Seq<char>
    decreases n,
{
    if n <= 0 {
        Seq::empty()
    } else {
        let text = ascii_cells(g, row, n - 1) + cell_text(g[row * 9 + n - 1]);
        if n == 3 || n == 6 {
            text + seq!['|', ' ']
        } else {
            text
        }
    }
}

/// The divider that the drawing shows under every third row but the last.
pub open spec fn divider_text() -> Seq<char> {
    "------|-------|------\n"@
}

/// The drawing of the first `n` rows.
pub open spec fn ascii_rows(g: Seq<u16>, n: int) -> Seq<char>
    decreases n,
{
    if n <= 0 {
        Seq::empty()
    } else {
        let text = ascii_rows(g, n - 1) + ascii_cells(g, n - 1, 9).push('\n');
        if n == 3 || n == 6 {
            text + divider_text()
        } else {
            text
        }
    }
}

/// The drawing of the first `n` cells of the row `row` of a box.
pub open spec fn square_cells(g: Seq<u16>, square: Square, row: int, n: int) -> Seq<char>
    decreases n,
{
    if n <= 0 {
        Seq::empty()
    } else {
        square_cells(g, square, row, n - 1) + cell_text(
            g[(square.row + row) * 9 + square.col + n - 1],
        )
    }
}

/// The drawing of the first `n` rows of a box.
pub open spec fn square_rows(g: Seq<u16>, square: Square, n: int) -> Seq<char>
    decreases n,
{
    if n <= 0 {
        Seq::empty()
    } else {
        square_rows(g, square, n - 1) + square_cells(g, square, n - 1, 3).push('\n')
    }
}

/// The four hex digits of the word `w`, the highest first.
pub open spec fn hex_word(w: u16) -> Seq<char> {
    seq![
        hex_char((w / 4096) as int),
        hex_char((w / 256 % 16) as int),
        hex_char((w / 16 % 16) as int),
        hex_char((w % 16) as int),
    ]
}

/// The hex form of the first `n` cells.
pub open spec fn hex_text(g: Seq<u16>, n: int) -> Seq<char>
    decreases n,
{
    if n <= 0 {
        Seq::empty()
    } else {
        hex_text(g, n - 1) + hex_word(g[n - 1])
    }
}

/// The number that the character at the head of a group of four stands
/// for: a hex digit for itself, a plus sign for nothing.
pub open spec fn head_value(c: char) -> Option<int> {
    if c == '+' {
        Some(0)
    } else {
        hex_value(c)
    }
}

/// The word that the group of four from `at` on in `s` stands for: four
/// hex digits, or a plus sign and three.
pub open spec fn hex_word_at(s: Seq<char>, at: int) -> int {
    ((head_value(s[at]).unwrap() * 16 + hex_value(s[at + 1]).unwrap()) * 16 + hex_value(
        s[at + 2],
    ).unwrap()) * 16 + hex_value(s[at + 3]).unwrap()
}

/// Whether every character of `s` is a hex digit.
pub open spec fn all_hex(s: Seq<char>) -> bool {
    forall|i: int| 0 <= i < s.len() ==> hex_value(#[trigger] s[i]).is_some()
}

/// The number of cells that a hex text of the length `len` fills.
pub open spec fn hex_cells(len: int) -> int {
    if len / 4 < 81 {
        len / 4
    } else {
        81
    }
}

/// Whether `s` is a hex text as far as it is read: each of the groups of
/// four that fill a cell is four hex digits, or a plus sign and three hex
/// digits. What follows those groups can be anything.
pub open spec fn is_hex_text(s: Seq<char>) -> bool {
    forall|i: int|
        0 <= i < 4 * hex_cells(s.len() as int) ==> if i % 4 == 0 {
            head_value(#[trigger] s[i]).is_some()
        } else {
            hex_value(s[i]).is_some()
        }
}

/// The grid that the hex text `s` stands for: a fresh grid whose first
/// cells hold the words of the text.
pub open spec fn from_hex_spec(s: Seq<char>) -> Seq<u16> {
    Seq::new(
        81,
        |i: int|
            if i < hex_cells(s.len() as int) {
                hex_word_at(s, 4 * i) as u16
            } else {
                0xFF80u16
            },
    )
}

/// The character that stands for the value bits `v` in the one-character
/// form: the sixteen characters from `'0'` on.
pub open spec fn value_char(v: int) -> char {
    if v < 10 {
        digit_char(v)
    } else if v == 10 {
        ':'
    } else if v == 11 {
        ';'
    } else if v == 12 {
        '<'
    } else if v == 13 {
        '='
    } else if v == 14 {
        '>'
    } else {
        '?'
    }
}

/// The number that a character of the one-character form stands for: as
/// far as its code, taken in sixteen bits, lies behind that of `'0'`. A
/// character before `'0'` stands for nothing.
pub open spec fn char_value(c: char) -> Option<int> {
    let code = (c as u32) as int % 0x10000;
    if code >= 48 {
        Some(code - 48)
    } else {
        None
    }
}

/// The decimal digit of `v` as text.
fn digit_str(v: u16) -> (s: &'static str)
    requires
        v <= 9,
    ensures
        s@ == seq![digit_char(v as int)],
{
    proof {
        reveal_strlit("0");
        reveal_strlit("1");
        reveal_strlit("2");
        reveal_strlit("3");
        reveal_strlit("4");
        reveal_strlit("5");
        reveal_strlit("6");
        reveal_strlit("7");
        reveal_strlit("8");
        reveal_strlit("9");
    }
    let s = match v {
        1 => "1",
        2 => "2",
        3 => "3",
        4 => "4",
        5 => "5",
        6 => "6",
        7 => "7",
        8 => "8",
        9 => "9",
        _ => "0",
    };
    assert(s@ =~= seq![digit_char(v as int)]);
    s
}

/// The hex digit of `v` as text.
fn hex_str(v: u16) -> (s: &'static str)
    requires
        v < 16,
    ensures
        s@ == seq![hex_char(v as int)],
{
    if v < 10 {
        return digit_str(v);
    }
    proof {
        reveal_strlit("a");
        reveal_strlit("b");
        reveal_strlit("c");
        reveal_strlit("d");
        reveal_strlit("e");
        reveal_strlit("f");
    }
    let s = match v {
        10 => "a",
        11 => "b",
        12 => "c",
        13 => "d",
        14 => "e",
        _ => "f",
    };
    assert(s@ =~= seq![hex_char(v as int)]);
    s
}

/// The character of the one-character form of `v` as text.
fn value_str(v: u16) -> (s: &'static str)
    requires
        v < 16,
    ensures
        s@ == seq![value_char(v as int)],
{
    if v < 10 {
        return digit_str(v);
    }
    proof {
        reveal_strlit(":");
        reveal_strlit(";");
        reveal_strlit("<");
        reveal_strlit("=");
        reveal_strlit(">");
        reveal_strlit("?");
    }
    let s = match v {
        10 => ":",
        11 => ";",
        12 => "<",
        13 => "=",
        14 => ">",
        _ => "?",
    };
    assert(s@ =~= seq![value_char(v as int)]);
    s
}

/// Appends the number `n` in decimal to `text`.
pub fn push_decimal(text: &mut String, n: u128)
    ensures
        final(text)@ == old(text)@ + decimal_text(n as int),
    decreases n,
{
    if n >= 10 {
        push_decimal(text, n / 10);
    }
    text.append(digit_str((n % 10) as u16));
    assert(text@ =~= old(text)@ + decimal_text(n as int));
}

/// Appends what the drawing shows of `cell` to `text`.
fn push_cell(text: &mut String, cell: &Cell)
    ensures
        final(text)@ == old(text)@ + cell_text(cell@),
{
    if cell.is_determined() {
        push_decimal(text, cell.get_value() as u128);
        proof {
            reveal_strlit(" ");
        }
        text.append(" ");
    } else {
        proof {
            reveal_strlit(". ");
        }
        text.append(". ");
    }
    assert(text@ =~= old(text)@ + cell_text(cell@));
}

/// Returns the drawing of the grid: a row to a line, each cell as its
/// value or a dot, a bar after every third column and a divider after
/// every third row.
pub fn ascii_grid(grid: &Grid) -> (text: String)
    ensures
        text@ == ascii_rows(grid@, 9),
{
    let mut result = String::new();
    let mut row: usize = 0;
    while row < 9
        invariant
            row <= 9,
            result@ == ascii_rows(grid@, row as int),
        decreases 9 - row,
    {
        let ghost start = result@;
        let mut col: usize = 0;
        while col < 9
            invariant
                col <= 9,
                row < 9,
                result@ == start + ascii_cells(grid@, row as int, col as int),
            decreases 9 - col,
        {
            let coord = Coord::new(row, col);
            let cell = grid.get_cell_at(coord);
            let ghost before = result@;
            push_cell(&mut result, cell);
            if col == 2 || col == 5 {
                proof {
                    reveal_strlit("| ");
                }
                result.append("| ");
            }
            assert(result@ =~= start + ascii_cells(grid@, row as int, col + 1));
            col += 1;
        }
        proof {
            reveal_strlit("\n");
        }
        result.append("\n");
        if row == 2 || row == 5 {
            result.append("------|-------|------\n");
        }
        assert(result@ =~= ascii_rows(grid@, row + 1));
        row += 1;
    }
    result
}

/// Returns the hex form of the grid: the word of each cell as four hex
/// digits, the cells in order.
pub fn hex_grid(grid: &Grid) -> (text: String)
    ensures
        text@ == hex_text(grid@, 81),
{
    let mut s = String::new();
    let mut i: usize = 0;
    while i < 81
        invariant
            i <= 81,
            s@ == hex_text(grid@, i as int),
        decreases 81 - i,
    {
        let cell = grid.get_cell(i).get_value();
        let ghost before = s@;
        s.append(hex_str(cell / 4096));
        s.append(hex_str(cell / 256 % 16));
        s.append(hex_str(cell / 16 % 16));
        s.append(hex_str(cell % 16));
        assert(s@ =~= before + hex_word(cell));
        i += 1;
    }
    s
}

/// The one-character form of the first `n` cells.
pub open spec fn value_text(g: Seq<u16>, n: int) -> Seq<char>
    decreases n,
{
    if n <= 0 {
        Seq::empty()
    } else {
        value_text(g, n - 1).push(value_char(word_value(g[n - 1]) as int))
    }
}

/// Returns the one-character form of the grid: for each cell the
/// character that lies as far behind `'0'` as its value bits say.
pub fn hex_value_grid(grid: &Grid) -> (text: String)
    ensures
        text@ == value_text(grid@, 81),
{
    let mut s = String::new();
    let mut i: usize = 0;
    while i < 81
        invariant
            i <= 81,
            s@ == value_text(grid@, i as int),
        decreases 81 - i,
    {
        let cell = grid.get_cell(i).only_determined().get_value();
        proof {
            crate::grid::cell::lemma_value_only(grid@[i as int]);
        }
        let ghost before = s@;
        s.append(value_str(cell));
        assert(s@ =~= before.push(value_char(cell as int)));
        i += 1;
    }
    s
}

/// Returns the number that the hex digit `c` stands for, if it is one.
fn hex_digit(c: char) -> (v: Option<u16>)
    ensures
        match v {
            Some(n) => hex_value(c) == Some(n as int) && n < 16,
            None => hex_value(c).is_none(),
        },
{
    match c {
        '0' => Some(0),
        '1' => Some(1),
        '2' => Some(2),
        '3' => Some(3),
        '4' => Some(4),
        '5' => Some(5),
        '6' => Some(6),
        '7' => Some(7),
        '8' => Some(8),
        '9' => Some(9),
        'a' | 'A' => Some(10),
        'b' | 'B' => Some(11),
        'c' | 'C' => Some(12),
        'd' | 'D' => Some(13),
        'e' | 'E' => Some(14),
        'f' | 'F' => Some(15),
        _ => None,
    }
}

/// Returns the number that the character at the head of a group stands
/// for, if it is a hex digit or a plus sign.
fn hex_head(c: char) -> (v: Option<u16>)
    ensures
        match v {
            Some(n) => head_value(c) == Some(n as int) && n < 16,
            None => head_value(c).is_none(),
        },
{
    if c == '+' {
        Some(0)
    } else {
        hex_digit(c)
    }
}

/// Returns the grid that a hex text stands for: a fresh grid whose first
/// cells hold the words that the text gives, four hex digits to a word;
/// a plus sign may stand in place of the first of the four. Digits beyond
/// the eighty-first word, and a last group of fewer than four, are not
/// read, whatever they are.
pub fn grid_from_hex(hex: &str) -> (grid: Grid)
    requires
        is_hex_text(hex@),
    ensures
        grid@ == from_hex_spec(hex@),
{
    let mut grid = Grid::new();
    let len = hex.unicode_len();
    let max = if len / 4 < 81 {
        len / 4
    } else {
        81
    };
    let mut i: usize = 0;
    while i < max
        invariant
            i <= max,
            max == hex_cells(hex@.len() as int),
            len == hex@.len(),
            is_hex_text(hex@),
            grid@.len() == 81,
            forall|k: int| 0 <= k < i ==> #[trigger] grid@[k] == hex_word_at(hex@, 4 * k) as u16,
            forall|k: int| i <= k < 81 ==> #[trigger] grid@[k] == 0xFF80u16,
        decreases max - i,
    {
        let mut value: u16 = 0;
        let d0 = hex_head(hex.get_char(i * 4)).unwrap();
        let d1 = hex_digit(hex.get_char(i * 4 + 1)).unwrap();
        let d2 = hex_digit(hex.get_char(i * 4 + 2)).unwrap();
        let d3 = hex_digit(hex.get_char(i * 4 + 3)).unwrap();
        value = ((d0 * 16 + d1) * 16 + d2) * 16 + d3;
        grid.set_cell(i, &Cell::new_with_value(value));
        i += 1;
    }
    assert(grid@ =~= from_hex_spec(hex@));
    grid
}

/// Whether every character of `s` stands for a number in the
/// one-character form: none comes before `'0'`.
pub open spec fn all_value_chars(s: Seq<char>) -> bool {
    forall|i: int| 0 <= i < s.len() ==> char_value(#[trigger] s[i]).is_some()
}

/// The grid that the one-character text `s` stands for.
pub open spec fn from_value_spec(s: Seq<char>) -> Seq<u16> {
    Seq::new(
        81,
        |i: int|
            if i < s.len() {
                char_value(s[i]).unwrap() as u16
            } else {
                0xFF80u16
            },
    )
}

/// Returns the number that a character of the one-character form stands
/// for, if it stands for one.
fn value_digit(c: char) -> (v: Option<u16>)
    ensures
        match v {
            Some(n) => char_value(c) == Some(n as int),
            None => char_value(c).is_none(),
        },
{
    let code = (c as u32) % 0x10000;
    if code >= 48 {
        Some((code - 48) as u16)
    } else {
        None
    }
}

/// Returns the grid that a one-character text stands for: a fresh grid
/// whose first cells hold the numbers that the characters give.
pub fn grid_from_hex_value(hex: &str) -> (grid: Grid)
    requires
        hex@.len() <= 81,
        all_value_chars(hex@),
    ensures
        grid@ == from_value_spec(hex@),
{
    let mut grid = Grid::new();
    let len = hex.unicode_len();
    let mut index: usize = 0;
    while index < len
        invariant
            index <= len,
            len == hex@.len(),
            len <= 81,
            all_value_chars(hex@),
            grid@.len() == 81,
            forall|k: int|
                0 <= k < index ==> #[trigger] grid@[k] == char_value(hex@[k]).unwrap() as u16,
            forall|k: int| index <= k < 81 ==> #[trigger] grid@[k] == 0xFF80u16,
        decreases len - index,
    {
        let value = value_digit(hex.get_char(index)).unwrap();
        grid.set_cell(index, &Cell::new_with_value(value));
        index += 1;
    }
    assert(grid@ =~= from_value_spec(hex@));
    grid
}

/// Returns the drawing of a box: three lines of three cells.
pub fn ascii_square(grid: &Grid, square: &Square) -> (text: String)
    requires
        square.wf(),
    ensures
        text@ == square_rows(grid@, *square, 3),
{
    let mut result = String::new();
    let mut row: usize = 0;
    while row < 3
        invariant
            row <= 3,
            square.wf(),
            result@ == square_rows(grid@, *square, row as int),
        decreases 3 - row,
    {
        let ghost start = result@;
        let mut col: usize = 0;
        while col < 3
            invariant
                col <= 3,
                row < 3,
                square.wf(),
                result@ == start + square_cells(grid@, *square, row as int, col as int),
            decreases 3 - col,
        {
            let coord = square.get_coord_at(row, col);
            let cell = grid.get_cell_at(coord);
            push_cell(&mut result, cell);
            assert(result@ =~= start + square_cells(grid@, *square, row as int, col + 1));
            col += 1;
        }
        proof {
            reveal_strlit("\n");
        }
        result.append("\n");
        assert(result@ =~= square_rows(grid@, *square, row + 1));
        row += 1;
    }
    result
}

/// Returns what the character `c` says in a drawing.
fn token(c: char) -> (v: Option<u16>)
    ensures
        match v {
            Some(n) => token_of(c) == Some(n as int) && n <= 9,
            None => token_of(c).is_none(),
        },
{
    match c {
        '.' | '0' => Some(0),
        '1' => Some(1),
        '2' => Some(2),
        '3' => Some(3),
        '4' => Some(4),
        '5' => Some(5),
        '6' => Some(6),
        '7' => Some(7),
        '8' => Some(8),
        '9' => Some(9),
        _ => None,
    }
}

/// Placing tokens looks at no token beyond those it places.
pub proof fn lemma_place_tokens_prefix(a: Seq<int>, b: Seq<int>, n: int)
    requires
        n <= a.len(),
        n <= b.len(),
        forall|i: int| 0 <= i < n ==> a[i] == b[i],
    ensures
        place_tokens(a, n) == place_tokens(b, n),
    decreases n,
{
    if n > 0 {
        lemma_place_tokens_prefix(a, b, n - 1);
    }
}

/// Returns the grid that a drawing stands for. A dot or a zero leaves a
/// cell open, a digit is placed with its consequences for the cells
/// around it, every other character is passed over, and so is what
/// follows the eighty-first cell.
pub fn parse_from_ascii(ascii: &str) -> (grid: Grid)
    ensures
        grid@ == parse_spec(ascii@),
{
    let mut grid = Grid::new();
    let mut index: usize = 0;
    let len = ascii.unicode_len();
    let mut i: usize = 0;
    assert(ascii@.subrange(0, 0) =~= Seq::<char>::empty());
    while i < len
        invariant
            i <= len,
            len == ascii@.len(),
            index == tokens_of(ascii@.subrange(0, i as int)).len(),
            index <= i,
            grid@ == place_tokens(
                tokens_of(ascii@.subrange(0, i as int)),
                if index < 81 {
                    index as int
                } else {
                    81
                },
            ),
        decreases len - i,
    {
        let c = ascii.get_char(i);
        let ghost before = ascii@.subrange(0, i as int);
        let ghost now = ascii@.subrange(0, i + 1);
        proof {
            assert(now.drop_last() =~= before);
            assert(now.last() == c);
            lemma_place_tokens_prefix(
                tokens_of(before),
                tokens_of(now),
                if index < 81 {
                    index as int
                } else {
                    81
                },
            );
        }
        match token(c) {
            Some(value) => {
                if value != 0 && index < 81 {
                    grid.place_value(index, value);
                }
                index += 1;
            },
            None => {},
        }
        i += 1;
    }
    assert(ascii@.subrange(0, len as int) =~= ascii@);
    grid
}

/// The full grid that the tests and the examples start from.
pub open spec fn filled_values() -> Seq<int> {
    seq![
        4, 3, 5, 2, 6, 9, 7, 8, 1,
        6, 8, 2, 5, 7, 1, 4, 9, 3,
        1, 9, 7, 8, 3, 4, 5, 6, 2,
        8, 2, 6, 1, 9, 5, 3, 4, 7,
        3, 7, 4, 6, 8, 2, 9, 1, 5,
        9, 5, 1, 7, 4, 3, 6, 2, 8,
        5, 1, 9, 3, 2, 6, 8, 7, 4,
        2, 4, 8, 9, 5, 7, 1, 3, 6,
        7, 6, 3, 4, 1, 8, 2, 5, 9,
    ]
}

/// Returns a full valid grid, always the same.
pub fn filled_sudoku() -> (grid: Grid)
    ensures
        grid@ == place_tokens(filled_values(), 81),
        forall|i: int| 0 <= i < 81 ==> #[trigger] grid@[i] == filled_values()[i],
{
    let values: [u16; 81] = [
        4, 3, 5, 2, 6, 9, 7, 8, 1,
        6, 8, 2, 5, 7, 1, 4, 9, 3,
        1, 9, 7, 8, 3, 4, 5, 6, 2,
        8, 2, 6, 1, 9, 5, 3, 4, 7,
        3, 7, 4, 6, 8, 2, 9, 1, 5,
        9, 5, 1, 7, 4, 3, 6, 2, 8,
        5, 1, 9, 3, 2, 6, 8, 7, 4,
        2, 4, 8, 9, 5, 7, 1, 3, 6,
        7, 6, 3, 4, 1, 8, 2, 5, 9,
    ];
    assert(values@.len() == 81);
    assert(forall|i: int| 0 <= i < 81 ==> values@[i] == filled_values()[i]);
    let mut grid = Grid::new();
    let mut i: usize = 0;
    while i < 81
        invariant
            i <= 81,
            forall|k: int| 0 <= k < 81 ==> values@[k] == filled_values()[k],
            grid@ == place_tokens(filled_values(), i as int),
        decreases 81 - i,
    {
        let v = values[i];
        assert(1 <= filled_values()[i as int] <= 9);
        grid.place_value(i, v);
        i += 1;
    }
    proof {
        lemma_place_digits(filled_values(), 81);
    }
    grid
}

/// The one-line form of the first `n` cells: the digit of each cell that
/// holds one, a zero for every other.
pub open spec fn digits_text(g: Seq<u16>, n: int) -> Seq<char>
    decreases n,
{
    if n <= 0 {
        Seq::empty()
    } else {
        digits_text(g, n - 1).push(
            if word_is_digit(g[n - 1]) {
                digit_char(g[n - 1] as int)
            } else {
                '0'
            },
        )
    }
}

/// Whether every cell of `g` that holds a value holds a bare digit.
pub open spec fn values_are_digits(g: Seq<u16>) -> bool {
    forall|i: int| 0 <= i < 81 && word_determined(#[trigger] g[i]) ==> word_is_digit(g[i])
}

/// Returns the one-line form of the grid: eighty-one characters, the digit
/// of each cell that holds one and a zero for each open cell.
pub fn to_digits(grid: &Grid) -> (text: String)
    requires
        values_are_digits(grid@),
    ensures
        text@ == digits_text(grid@, 81),
{
    let mut s = String::new();
    let mut i: usize = 0;
    while i < 81
        invariant
            i <= 81,
            values_are_digits(grid@),
            s@ == digits_text(grid@, i as int),
        decreases 81 - i,
    {
        let cell = grid.get_cell(i);
        let ghost before = s@;
        if let Some(v) = cell.value() {
            s.append(digit_str(v));
            assert(s@ =~= before.push(digit_char(v as int)));
        } else {
            proof {
                let w = grid@[i as int];
                if 1 <= w <= 9 {
                    crate::grid::cell::lemma_digit_word(w, 0);
                }
            }
            s.append(digit_str(0));
            assert(s@ =~= before.push('0'));
        }
        i += 1;
    }
    s
}

/// The decimal digit that `c` is, `0..=9`; nothing for any other
/// character.
pub open spec fn digit_of(c: char) -> Option<int> {
    if c == '.' {
        None
    } else {
        token_of(c)
    }
}

/// Whether `s` is a one-line form: at most eighty-one decimal digits.
pub open spec fn is_digits(s: Seq<char>) -> bool {
    s.len() <= 81 && forall|i: int| 0 <= i < s.len() ==> digit_of(#[trigger] s[i]).is_some()
}

/// The digits of the one-line form `s` as numbers.
pub open spec fn digit_values(s: Seq<char>) -> Seq<int> {
    Seq::new(s.len(), |i: int| digit_of(s[i]).unwrap())
}

/// Returns the grid that a one-line form stands for: every digit but the
/// zero is placed, with its consequences for the cells around it.
pub fn from_digit(digits: &str) -> (grid: Grid)
    requires
        is_digits(digits@),
    ensures
        grid@ == place_tokens(digit_values(digits@), digits@.len() as int),
{
    let mut grid = Grid::new();
    let len = digits.unicode_len();
    let mut i: usize = 0;
    while i < len
        invariant
            i <= len,
            len == digits@.len(),
            is_digits(digits@),
            grid@ == place_tokens(digit_values(digits@), i as int),
        decreases len - i,
    {
        let c = digits.get_char(i);
        if c != '0' {
            let value = token(c).unwrap();
            grid.place_value(i, value);
        }
        i += 1;
    }
    grid
}

/// A hex digit stands for the number that it was made of.
pub proof fn lemma_hex_char(v: int)
    requires
        0 <= v < 16,
    ensures
        hex_value(hex_char(v)) == Some(v),
        head_value(hex_char(v)) == Some(v),
{
}

/// The four hex digits of a word stand for the word.
pub proof fn lemma_hex_word(w: u16)
    ensures
        hex_word(w).len() == 4,
        forall|k: int| 0 <= k < 4 ==> hex_value(#[trigger] hex_word(w)[k]).is_some(),
        hex_word_at(hex_word(w), 0) == w,
{
    let a = (w / 4096) as int;
    let b = (w / 256 % 16) as int;
    let c = (w / 16 % 16) as int;
    let d = (w % 16) as int;
    lemma_hex_char(a);
    lemma_hex_char(b);
    lemma_hex_char(c);
    lemma_hex_char(d);
    assert(((a * 16 + b) * 16 + c) * 16 + d == w);
}

/// The hex form of the first `n` cells has four characters to a cell, and
/// the four of the cell `i` are the hex digits of its word.
pub proof fn lemma_hex_text_chars(g: Seq<u16>, n: int, i: int, k: int)
    requires
        0 <= i < n,
        0 <= k < 4,
    ensures
        hex_text(g, n).len() == 4 * n,
        hex_text(g, n)[4 * i + k] == hex_word(g[i])[k],
    decreases n,
{
    if n > 1 {
        lemma_hex_text_chars(g, n - 1, if i < n - 1 {
            i
        } else {
            0
        }, k);
    } else {
        assert(hex_text(g, 0).len() == 0);
    }
}

/// In the hex form of the first `n` cells, the four characters of the
/// cell `i` stand for its word.
pub proof fn lemma_hex_text(g: Seq<u16>, n: int, i: int)
    requires
        0 <= i < n,
    ensures
        hex_text(g, n).len() == 4 * n,
        hex_word_at(hex_text(g, n), 4 * i) == g[i],
{
    lemma_hex_text_chars(g, n, i, 0);
    lemma_hex_text_chars(g, n, i, 1);
    lemma_hex_text_chars(g, n, i, 2);
    lemma_hex_text_chars(g, n, i, 3);
    lemma_hex_word(g[i]);
}

/// The hex form of the first `n` cells has four characters to a cell, all
/// of them hex digits.
pub proof fn lemma_hex_text_shape(g: Seq<u16>, n: int)
    requires
        0 <= n,
    ensures
        hex_text(g, n).len() == 4 * n,
        all_hex(hex_text(g, n)),
{
    if n == 0 {
        assert(hex_text(g, 0).len() == 0);
    } else {
        lemma_hex_text_chars(g, n, 0, 0);
        let text = hex_text(g, n);
        assert forall|j: int| 0 <= j < text.len() implies hex_value(#[trigger] text[j]).is_some() by {
            lemma_hex_text_chars(g, n, j / 4, j % 4);
            lemma_hex_word(g[j / 4]);
            assert(hex_value(hex_word(g[j / 4])[j % 4]).is_some());
        }
    }
}

/// Reading back the hex form of a grid gives the grid, word for word.
pub proof fn lemma_hex_round_trip(g: Seq<u16>)
    requires
        g.len() == 81,
    ensures
        is_hex_text(hex_text(g, 81)),
        from_hex_spec(hex_text(g, 81)) == g,
{
    lemma_hex_text_shape(g, 81);
    assert(is_hex_text(hex_text(g, 81))) by {
        assert forall|i: int| 0 <= i < hex_text(g, 81).len() implies hex_value(
            #[trigger] hex_text(g, 81)[i],
        ).is_some() by {}
    }
    assert forall|i: int| 0 <= i < 81 implies from_hex_spec(hex_text(g, 81))[i] == g[i] by {
        lemma_hex_text(g, 81, i);
    }
    assert(from_hex_spec(hex_text(g, 81)) =~= g);
}

/// The values of a grid: for each cell its word where it holds a value,
/// and zero where it holds none.
pub open spec fn cell_values(g: Seq<u16>) -> Seq<int> {
    Seq::new(
        81,
        |i: int|
            if word_determined(g[i]) {
                g[i] as int
            } else {
                0int
            },
    )
}

/// The tokens of two texts in a row are the tokens of the first and then
/// those of the second.
pub proof fn lemma_tokens_concat(a: Seq<char>, b: Seq<char>)
    ensures
        tokens_of(a + b) == tokens_of(a) + tokens_of(b),
    decreases b.len(),
{
    if b.len() == 0 {
        assert(a + b =~= a);
        assert(tokens_of(a) + tokens_of(b) =~= tokens_of(a));
    } else {
        lemma_tokens_concat(a, b.drop_last());
        assert((a + b).drop_last() =~= a + b.drop_last());
        assert((a + b).last() == b.last());
        match token_of(b.last()) {
            Some(v) => {
                assert((tokens_of(a) + tokens_of(b.drop_last())).push(v) =~= tokens_of(a)
                    + tokens_of(b.drop_last()).push(v));
            },
            None => {},
        }
    }
}

/// A text without a digit, a dot or a zero has no tokens.
pub proof fn lemma_no_tokens(s: Seq<char>)
    requires
        forall|i: int| 0 <= i < s.len() ==> token_of(#[trigger] s[i]).is_none(),
    ensures
        tokens_of(s) == Seq::<int>::empty(),
    decreases s.len(),
{
    if s.len() > 0 {
        lemma_no_tokens(s.drop_last());
    }
}

/// What the drawing shows of a cell in canonical form has one token: the
/// value of the cell.
pub proof fn lemma_cell_tokens(w: u16)
    requires
        word_determined(w) ==> word_is_digit(w),
    ensures
        tokens_of(cell_text(w)) == seq![
            if word_determined(w) {
                w as int
            } else {
                0int
            },
        ],
{
    let text = cell_text(w);
    assert(text.len() == 2);
    assert(text.drop_last().len() == 1);
    assert(text.drop_last().drop_last().len() == 0);
    assert(tokens_of(text.drop_last().drop_last()) =~= Seq::<int>::empty());
    assert(text.last() == ' ');
    if word_determined(w) {
        assert(decimal_text(w as int) =~= seq![digit_char(w as int)]);
        assert(text.drop_last().last() == digit_char(w as int));
        assert(tokens_of(text.drop_last()) =~= seq![w as int]);
    } else {
        assert(text.drop_last().last() == '.');
        assert(tokens_of(text.drop_last()) =~= seq![0int]);
    }
}

/// The tokens of the drawing of the first `n` cells of a row are the
/// values of those cells.
pub proof fn lemma_cells_tokens(g: Seq<u16>, row: int, n: int)
    requires
        g.len() == 81,
        0 <= row < 9,
        0 <= n <= 9,
        forall|i: int| 0 <= i < 81 && word_determined(#[trigger] g[i]) ==> word_is_digit(g[i]),
    ensures
        tokens_of(ascii_cells(g, row, n)) == cell_values(g).subrange(row * 9, row * 9 + n),
    decreases n,
{
    if n > 0 {
        lemma_cells_tokens(g, row, n - 1);
        let prev = ascii_cells(g, row, n - 1);
        let w = g[row * 9 + n - 1];
        lemma_cell_tokens(w);
        lemma_tokens_concat(prev, cell_text(w));
        let bar = seq!['|', ' '];
        lemma_no_tokens(bar);
        lemma_tokens_concat(prev + cell_text(w), bar);
        assert(tokens_of(ascii_cells(g, row, n)) =~= cell_values(g).subrange(
            row * 9,
            row * 9 + n,
        ));
    } else {
        assert(tokens_of(ascii_cells(g, row, n)) =~= cell_values(g).subrange(row * 9, row * 9 + n));
    }
}

/// The tokens of the drawing of the first `n` rows are the values of
/// their cells.
pub proof fn lemma_rows_tokens(g: Seq<u16>, n: int)
    requires
        g.len() == 81,
        0 <= n <= 9,
        forall|i: int| 0 <= i < 81 && word_determined(#[trigger] g[i]) ==> word_is_digit(g[i]),
    ensures
        tokens_of(ascii_rows(g, n)) == cell_values(g).subrange(0, 9 * n),
    decreases n,
{
    if n > 0 {
        lemma_rows_tokens(g, n - 1);
        lemma_cells_tokens(g, n - 1, 9);
        let prev = ascii_rows(g, n - 1);
        let cells = ascii_cells(g, n - 1, 9);
        let line = cells.push('\n');
        assert(line =~= cells + seq!['\n']);
        lemma_no_tokens(seq!['\n']);
        lemma_tokens_concat(cells, seq!['\n']);
        lemma_tokens_concat(prev, line);
        reveal_strlit("------|-------|------\n");
        lemma_no_tokens(divider_text());
        lemma_tokens_concat(prev + line, divider_text());
        assert(tokens_of(ascii_rows(g, n)) =~= cell_values(g).subrange(0, 9 * n));
    } else {
        assert(tokens_of(ascii_rows(g, n)) =~= cell_values(g).subrange(0, 9 * n));
    }
}

/// Placing bare digits one after another leaves each of them as it was
/// placed: a later placement takes candidates away, and a bare digit has
/// none.
pub proof fn lemma_place_digits(tokens: Seq<int>, n: int)
    requires
        0 <= n <= 81,
        n <= tokens.len(),
        forall|i: int| 0 <= i < n ==> 1 <= #[trigger] tokens[i] <= 9,
    ensures
        place_tokens(tokens, n).len() == 81,
        forall|i: int| 0 <= i < n ==> #[trigger] place_tokens(tokens, n)[i] == tokens[i],
    decreases n,
{
    if n > 0 {
        lemma_place_digits(tokens, n - 1);
        let prev = place_tokens(tokens, n - 1);
        let mark = Mark::of_value(tokens[n - 1]);
        Mark::lemma_value_of_value(tokens[n - 1]);
        let now = place_tokens(tokens, n);
        assert forall|i: int| 0 <= i < n implies #[trigger] now[i] == tokens[i] by {
            crate::grid::grid::lemma_place_reads(prev, n - 1, mark, i);
            if i < n - 1 {
                let d = prev[i];
                let b = mark.bit();
                crate::grid::cell::lemma_mark_bits(mark, mark);
                assert(d & !b == d) by (bit_vector)
                    requires
                        1 <= d <= 9,
                        b & 0x000F == 0,
                ;
                crate::grid::grid_mask::lemma_influences(i, n - 1);
            }
        }
    } else {
        assert(place_tokens(tokens, n).len() == 81);
    }
}

/// Reading back the drawing of a grid in canonical form gives the grid
/// that its values make when they are placed one after another.
pub proof fn lemma_ascii_round_trip_values(g: Seq<u16>)
    requires
        g.len() == 81,
        forall|i: int| 0 <= i < 81 && word_determined(#[trigger] g[i]) ==> word_is_digit(g[i]),
    ensures
        parse_spec(ascii_rows(g, 9)) == place_tokens(cell_values(g), 81),
{
    lemma_rows_tokens(g, 9);
    assert(cell_values(g).subrange(0, 81) =~= cell_values(g));
}

/// Reading back the drawing of a grid whose every cell holds a bare digit
/// gives the grid.
pub proof fn lemma_ascii_round_trip(g: Seq<u16>)
    requires
        g.len() == 81,
        forall|i: int| 0 <= i < 81 ==> word_is_digit(#[trigger] g[i]),
    ensures
        parse_spec(ascii_rows(g, 9)) == g,
{
    assert forall|i: int| 0 <= i < 81 implies word_determined(#[trigger] g[i]) by {
        crate::grid::cell::lemma_digit_word(g[i], 0);
    }
    lemma_ascii_round_trip_values(g);
    lemma_place_digits(cell_values(g), 81);
    assert(place_tokens(cell_values(g), 81) =~= g);
}

} // verus!
