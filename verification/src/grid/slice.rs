//! A copy of the cells of an area, the unit that the rules reason on.

use vstd::prelude::*;
use vstd::std_specs::cmp::PartialEqSpecImpl;
use super::cell::Cell;
use super::cell::{
    count_determined_words, count_equal_words, count_nonzero_words, count_possible_words,
    first_possible_word, lemma_count_possible_words, or_words, word_candidates,
    word_possible, word_value,
};
use super::cell_collection::{area_words, CellCollection};
use super::grid::Grid;
use super::mark::Mark;

verus! {

/// Number of cells that a slice holds; an area fills the first nine.
pub const SLICE_SIZE: usize = 16;

/// Number of cells that an area fills.
pub const SLICE_ACTUAL_SIZE: usize = 9;

/// Number of the first `n` words of `s` whose value bits are `value`.
pub open spec fn count_value_words(s: Seq<u16>, value: u16, n: int) -> nat
    decreases n,
{
    if n <= 0 {
        0
    } else {
        count_value_words(s, value, n - 1) + if word_value(s[n - 1]) == value {
            1nat
        } else {
            0nat
        }
    }
}

/// Counting words by their value gives at most the number of words.
pub proof fn lemma_count_value_words(s: Seq<u16>, value: u16, n: int)
    requires
        0 <= n,
    ensures
        count_value_words(s, value, n) <= n,
        count_value_words(s, value, n) > 0 <==> (exists|i: int|
            0 <= i < n && word_value(#[trigger] s[i]) == value),
    decreases n,
{
    if n > 0 {
        lemma_count_value_words(s, value, n - 1);
    }
}

/// The last index under `n` whose word has `mark` as a candidate; 0 if
/// there is none.
pub open spec fn last_possible_word(s: Seq<u16>, mark: Mark, n: int) -> int
    decreases n,
{
    if n <= 0 {
        0
    } else if word_possible(s[n - 1], mark) {
        n - 1
    } else {
        last_possible_word(s, mark, n - 1)
    }
}

/// The words of `s`, cut or filled with zero words to sixteen.
pub open spec fn padded(s: Seq<u16>) -> Seq<u16> {
    Seq::new(
        16,
        |i: int|
            if i < s.len() {
                s[i]
            } else {
                0u16
            },
    )
}

/// Sixteen cells, of which an area fills the first nine; the others are
/// empty, so that they count for nothing in a bitwise reduction.
#[derive(Debug, Clone, Copy)]
pub struct Slice {
    /// The cells of the slice.
    pub items: [Cell; 16],
}

impl View for Slice {
    type V = Seq<u16>;

    /// The sixteen words of the slice.
    open spec fn view(&self) -> Seq<u16> {
        Seq::new(16, |i: int| self.items[i].data)
    }
}

impl Slice {
    /// Creates a slice of empty cells.
    pub fn new() -> (slice: Slice)
        ensures
            slice@ == Seq::new(16, |i: int| 0u16),
    {
        Slice { items: [Cell::new_empty();16] }
    }

    /// Copies the cells of `area` out of `grid`.
    pub fn from<T: CellCollection>(grid: &Grid, area: &T) -> (slice: Slice)
        requires
            area.wf(),
            area.size() < 16,
        ensures
            slice@ == padded(area_words(area, grid@)),
    {
        let mut slice = Slice::new();
        let n = area.max();
        let mut i: usize = 0;
        while i < n
            invariant
                area.wf(),
                n == area.size(),
                n < 16,
                i <= n,
                forall|k: int| 0 <= k < i ==> #[trigger] slice@[k] == grid@[area.coord_at(k)],
                forall|k: int| i <= k < 16 ==> #[trigger] slice@[k] == 0,
            decreases n - i,
        {
            let coord = area.get_coord(i);
            slice.set(i, *grid.get_cell_at(coord));
            i += 1;
        }
        slice
    }

    /// Creates a slice of sixteen times `cell`.
    pub fn create_mask_full(cell: Cell) -> (slice: Slice)
        ensures
            slice@ == Seq::new(16, |i: int| cell@),
    {
        Slice { items: [cell;16] }
    }

    /// Creates a slice that holds `c1` in the first three places, `c2` in
    /// the next three, `c3` in the three after, and empty cells beyond.
    pub fn create_mask_threes(c1: Cell, c2: Cell, c3: Cell) -> (slice: Slice)
        ensures
            slice@ == Seq::new(
                16,
                |i: int|
                    if i < 3 {
                        c1@
                    } else if i < 6 {
                        c2@
                    } else if i < 9 {
                        c3@
                    } else {
                        0u16
                    },
            ),
    {
        let mut s = Slice::new();
        s.set(0, c1);
        s.set(1, c1);
        s.set(2, c1);
        s.set(3, c2);
        s.set(4, c2);
        s.set(5, c2);
        s.set(6, c3);
        s.set(7, c3);
        s.set(8, c3);
        s
    }

    /// Replaces the cell at `index`.
    pub fn set(&mut self, index: usize, cell: Cell)
        requires
            index < 16,
        ensures
            final(self)@ == old(self)@.update(index as int, cell@),
    {
        self.items[index] = cell;
        assert(self@ =~= old(self)@.update(index as int, cell@));
    }

    /// Returns the cell at `index`.
    pub fn get(&self, index: usize) -> (cell: Cell)
        requires
            index < 16,
        ensures
            cell@ == self@[index as int],
    {
        self.items[index]
    }

    /// Returns the number of cells whose word is not zero.
    pub fn count(&self) -> (count: usize)
        ensures
            count == count_nonzero_words(self@, 16),
    {
        let mut count: usize = 0;
        let mut i: usize = 0;
        while i < 16
            invariant
                i <= 16,
                count <= i,
                count == count_nonzero_words(self@, i as int),
            decreases 16 - i,
        {
            if self.items[i].has_any() {
                count += 1;
            }
            i += 1;
        }
        count
    }

    /// Returns the number of cells whose word is zero, the filling
    /// included.
    pub fn count_empty(&self) -> (count: usize)
        ensures
            count == count_equal_words(self@, 0, 16),
    {
        let mut count: usize = 0;
        let mut i: usize = 0;
        while i < 16
            invariant
                i <= 16,
                count <= i,
                count == count_equal_words(self@, 0, i as int),
            decreases 16 - i,
        {
            if self.items[i].is_empty() {
                count += 1;
            }
            i += 1;
        }
        count
    }

    /// Returns whether a cell of the slice has the value bits `value`.
    pub fn any_determined_value(&self, value: u16) -> (any: bool)
        ensures
            any == (count_value_words(self@, value, 16) > 0),
    {
        self.count_determined_value(value) > 0
    }

    /// Returns whether `mark` is a candidate of a cell of the slice.
    pub fn any_possible(&self, mark: Mark) -> (any: bool)
        ensures
            any == (count_possible_words(self@, mark, 16) > 0),
    {
        self.count_possible(mark) > 0
    }

    /// Returns the number of cells that have `mark` as a candidate.
    pub fn count_possible(&self, mark: Mark) -> (count: usize)
        ensures
            count == count_possible_words(self@, mark, 16),
            count <= 16,
    {
        let mut count: usize = 0;
        let mut i: usize = 0;
        while i < 16
            invariant
                i <= 16,
                count <= i,
                count == count_possible_words(self@, mark, i as int),
            decreases 16 - i,
        {
            if self.items[i].is_possible(mark) {
                count += 1;
            }
            i += 1;
        }
        count
    }

    /// Returns the number of cells that hold a value.
    pub fn count_determined(&self) -> (count: usize)
        ensures
            count == count_determined_words(self@, 16),
            count <= 16,
    {
        let mut count: usize = 0;
        let mut i: usize = 0;
        while i < 16
            invariant
                i <= 16,
                count <= i,
                count == count_determined_words(self@, i as int),
            decreases 16 - i,
        {
            if self.items[i].is_determined() {
                count += 1;
            }
            i += 1;
        }
        count
    }

    /// Returns the number of cells whose value bits are `value`.
    pub fn count_determined_value(&self, value: u16) -> (count: usize)
        ensures
            count == count_value_words(self@, value, 16),
            count <= 16,
    {
        let mut count: usize = 0;
        let mut i: usize = 0;
        while i < 16
            invariant
                i <= 16,
                count <= i,
                count == count_value_words(self@, value, i as int),
            decreases 16 - i,
        {
            if self.items[i].only_determined().get_value() == value {
                count += 1;
            }
            i += 1;
        }
        count
    }

    /// Returns the least index of a cell that has `mark` as a candidate, and
    /// 0 if there is none: ask `count_possible` first.
    pub fn first_possible(&self, mark: Mark) -> (index: usize)
        ensures
            index == if count_possible_words(self@, mark, 16) == 0 {
                0
            } else {
                first_possible_word(self@, mark, 16)
            },
            index < 16,
            count_possible_words(self@, mark, 16) > 0 ==> word_possible(self@[index as int], mark),
    {
        let mut i: usize = 0;
        while i < 16
            invariant
                i <= 16,
                first_possible_word(self@, mark, i as int) == i,
            decreases 16 - i,
        {
            proof {
                lemma_count_possible_words(self@, mark, i as int);
            }
            if self.items[i].is_possible(mark) {
                proof {
                    lemma_first_stays(self@, mark, i as int + 1, 16);
                    lemma_count_possible_words(self@, mark, 16);
                }
                return i;
            }
            i += 1;
        }
        proof {
            lemma_count_possible_words(self@, mark, 16);
        }
        0
    }

    /// Returns whether a cell of the slice has the value bits `value`.
    pub fn is_determined(&self, value: u16) -> (determined: bool)
        ensures
            determined == (count_value_words(self@, value, 16) > 0),
    {
        self.count_determined_value(value) > 0
    }

    /// Returns whether all sixteen cells hold a value. The filling of a
    /// slice that was copied from an area holds none.
    pub fn is_fully_determined(&self) -> (determined: bool)
        ensures
            determined == (count_determined_words(self@, 16) == 16),
    {
        self.count_determined() == 16
    }

    /// Returns the indices of the slice, `0..16`.
    pub fn iter(&self) -> (range: core::ops::Range<usize>)
        ensures
            range.start == 0,
            range.end == 16,
    {
        0..16
    }

    /// Returns the slice with the value bits of every cell cleared.
    pub fn only_possible(&self) -> (slice: Slice)
        ensures
            slice@ == Seq::new(16, |i: int| word_candidates(self@[i])),
    {
        let mut slice = *self;
        let mut i: usize = 0;
        while i < 16
            invariant
                i <= 16,
                forall|k: int| 0 <= k < i ==> #[trigger] slice@[k] == word_candidates(self@[k]),
                forall|k: int| i <= k < 16 ==> #[trigger] slice@[k] == self@[k],
            decreases 16 - i,
        {
            let cell = slice.get(i).only_possible();
            slice.set(i, cell);
            i += 1;
        }
        slice
    }

    /// Returns the slice with every bit but the candidate bit of `mark`
    /// cleared.
    pub fn only_possible_value(&self, mark: Mark) -> (slice: Slice)
        ensures
            slice@ == Seq::new(16, |i: int| self@[i] & mark.bit()),
    {
        let mask = Slice::create_mask_full(Cell::new_with_possible(mark));
        *self & mask
    }

    /// Returns the slice with everything but the value bits of every cell
    /// cleared.
    pub fn only_determined(&self) -> (slice: Slice)
        ensures
            slice@ == Seq::new(16, |i: int| word_value(self@[i])),
    {
        let mut slice = *self;
        let mut i: usize = 0;
        while i < 16
            invariant
                i <= 16,
                forall|k: int| 0 <= k < i ==> #[trigger] slice@[k] == word_value(self@[k]),
                forall|k: int| i <= k < 16 ==> #[trigger] slice@[k] == self@[k],
            decreases 16 - i,
        {
            let cell = slice.get(i).only_determined();
            slice.set(i, cell);
            i += 1;
        }
        slice
    }

    /// Returns the slice with every cell emptied whose value bits are not
    /// `value`.
    pub fn only_determined_value(&self, value: u16) -> (slice: Slice)
        ensures
            slice@ == Seq::new(
                16,
                |i: int|
                    if word_value(self@[i]) == value {
                        self@[i]
                    } else {
                        0u16
                    },
            ),
    {
        let mut slice = *self;
        let mut i: usize = 0;
        while i < 16
            invariant
                i <= 16,
                forall|k: int|
                    0 <= k < i ==> #[trigger] slice@[k] == if word_value(self@[k]) == value {
                        self@[k]
                    } else {
                        0u16
                    },
                forall|k: int| i <= k < 16 ==> #[trigger] slice@[k] == self@[k],
            decreases 16 - i,
        {
            if slice.get(i).only_determined().get_value() != value {
                slice.set(i, Cell::new_empty());
            }
            i += 1;
        }
        slice
    }

    /// Returns the bitwise or of all cells of the slice.
    pub fn or_all(&self) -> (cell: Cell)
        ensures
            cell@ == or_words(self@, 16),
    {
        let mut data = Cell::new_empty();
        let mut i: usize = 0;
        while i < 16
            invariant
                i <= 16,
                data@ == or_words(self@, i as int),
            decreases 16 - i,
        {
            data = data | self.items[i];
            i += 1;
        }
        data
    }

    /// Returns the last index of a cell that has `mark` as a candidate (0 if
    /// there is none) and the number of such cells.
    pub fn search_count_possible(&self, mark: Mark) -> (found: (usize, usize))
        ensures
            found.0 == last_possible_word(self@, mark, 16),
            found.1 == count_possible_words(self@, mark, 16),
    {
        let mut count: usize = 0;
        let mut index: usize = 0;
        let mut i: usize = 0;
        while i < 16
            invariant
                i <= 16,
                count <= i,
                count == count_possible_words(self@, mark, i as int),
                index == last_possible_word(self@, mark, i as int),
            decreases 16 - i,
        {
            if self.items[i].is_possible(mark) {
                count += 1;
                index = i;
            }
            i += 1;
        }
        (index, count)
    }
}

/// Once a candidate was found under `n`, the first one stays the same
/// however far the search goes on.
pub proof fn lemma_first_stays(s: Seq<u16>, mark: Mark, n: int, m: int)
    requires
        0 <= n <= m,
        first_possible_word(s, mark, n) < n,
    ensures
        first_possible_word(s, mark, m) == first_possible_word(s, mark, n),
    decreases m - n,
{
    if n < m {
        lemma_count_possible_words(s, mark, n);
        lemma_first_stays(s, mark, n + 1, m);
    }
}

/// The slice whose words are `words`.
pub open spec fn slice_of(words: Seq<u16>) -> Slice {
    choose|slice: Slice| slice@ == words
}

/// Two slices with the same words are the same slice.
pub proof fn lemma_slice_view_injective(a: Slice, b: Slice)
    requires
        a@ == b@,
    ensures
        a == b,
{
    assert forall|i: int| 0 <= i < 16 implies a.items[i] == b.items[i] by {
        assert(a.items[i].data == a@[i]);
        assert(b.items[i].data == b@[i]);
    }
    assert(a.items =~= b.items);
}

impl core::ops::BitOr for Slice {
    type Output = Slice;

    fn bitor(self, rhs: Slice) -> (slice: Slice)
        ensures
            slice@ == Seq::new(16, |i: int| self@[i] | rhs@[i]),
    {
        let mut slice = Slice::new();
        let mut i: usize = 0;
        while i < 16
            invariant
                i <= 16,
                forall|k: int| 0 <= k < i ==> #[trigger] slice@[k] == self@[k] | rhs@[k],
            decreases 16 - i,
        {
            slice.set(i, self.items[i] | rhs.items[i]);
            i += 1;
        }
        proof {
            let words = Seq::new(16, |i: int| self@[i] | rhs@[i]);
            assert(slice@ =~= words);
            lemma_slice_view_injective(slice, slice_of(words));
        }
        slice
    }
}

impl vstd::std_specs::ops::BitOrSpecImpl for Slice {
    open spec fn obeys_bitor_spec() -> bool {
        true
    }

    open spec fn bitor_req(self, rhs: Slice) -> bool {
        true
    }

    open spec fn bitor_spec(self, rhs: Slice) -> Slice {
        slice_of(Seq::new(16, |i: int| self@[i] | rhs@[i]))
    }
}

impl core::ops::BitAnd for Slice {
    type Output = Slice;

    fn bitand(self, rhs: Slice) -> (slice: Slice)
        ensures
            slice@ == Seq::new(16, |i: int| self@[i] & rhs@[i]),
    {
        let mut slice = Slice::new();
        let mut i: usize = 0;
        while i < 16
            invariant
                i <= 16,
                forall|k: int| 0 <= k < i ==> #[trigger] slice@[k] == self@[k] & rhs@[k],
            decreases 16 - i,
        {
            slice.set(i, self.items[i] & rhs.items[i]);
            i += 1;
        }
        proof {
            let words = Seq::new(16, |i: int| self@[i] & rhs@[i]);
            assert(slice@ =~= words);
            lemma_slice_view_injective(slice, slice_of(words));
        }
        slice
    }
}

impl vstd::std_specs::ops::BitAndSpecImpl for Slice {
    open spec fn obeys_bitand_spec() -> bool {
        true
    }

    open spec fn bitand_req(self, rhs: Slice) -> bool {
        true
    }

    open spec fn bitand_spec(self, rhs: Slice) -> Slice {
        slice_of(Seq::new(16, |i: int| self@[i] & rhs@[i]))
    }
}

impl PartialEq for Slice {
    fn eq(&self, other: &Slice) -> (equal: bool) {
        let mut index: usize = 0;
        while index < 16
            invariant
                index <= 16,
                forall|i: int| 0 <= i < index ==> self@[i] == other@[i],
            decreases 16 - index,
        {
            if self.items[index].data != other.items[index].data {
                assert(self@[index as int] != other@[index as int]);
                return false;
            }
            index += 1;
        }
        assert(self@ =~= other@);
        true
    }
}

impl PartialEqSpecImpl for Slice {
    open spec fn obeys_eq_spec() -> bool {
        true
    }

    open spec fn eq_spec(&self, other: &Slice) -> bool {
        self@ == other@
    }
}

/// Number of the first `n` of `s` that are not zero.
pub open spec fn count_nonzero_bytes(s: Seq<u8>, n: int) -> nat
    decreases n,
{
    if n <= 0 {
        0
    } else {
        count_nonzero_bytes(s, n - 1) + if s[n - 1] != 0 {
            1nat
        } else {
            0nat
        }
    }
}

/// Number of the first `n` of `s` that are `value`.
pub open spec fn count_equal_bytes(s: Seq<u8>, value: u8, n: int) -> nat
    decreases n,
{
    if n <= 0 {
        0
    } else {
        count_equal_bytes(s, value, n - 1) + if s[n - 1] == value {
            1nat
        } else {
            0nat
        }
    }
}

/// A count of nonzero bytes is at most the number of bytes, is zero
/// exactly where all are zero, and is their number exactly where none is.
pub proof fn lemma_count_nonzero_bytes(s: Seq<u8>, n: int)
    requires
        0 <= n,
    ensures
        count_nonzero_bytes(s, n) <= n,
        count_nonzero_bytes(s, n) == 0 <==> (forall|i: int| 0 <= i < n ==> #[trigger] s[i] == 0),
        count_nonzero_bytes(s, n) == n <==> (forall|i: int| 0 <= i < n ==> #[trigger] s[i] != 0),
    decreases n,
{
    if n > 0 {
        lemma_count_nonzero_bytes(s, n - 1);
    }
}

/// The nine values of an area, one byte to a cell.
pub struct SliceValue {
    /// The values.
    pub items: [u8; 9],
}

impl SliceValue {
    /// Creates nine zero values.
    pub fn new() -> (slice: SliceValue)
        ensures
            slice.items@ == Seq::new(9, |i: int| 0u8),
    {
        let slice = SliceValue { items: [0;9] };
        assert(slice.items@ =~= Seq::new(9, |i: int| 0u8));
        slice
    }

    /// Returns the indices of the values, `0..9`.
    pub fn iter(&self) -> (range: core::ops::Range<usize>)
        ensures
            range.start == 0,
            range.end == 9,
    {
        0..9
    }

    /// Returns whether a value is not zero.
    pub fn any(&self) -> (any: bool)
        ensures
            any == (count_nonzero_bytes(self.items@, 9) > 0),
    {
        self.count() > 0
    }

    /// Returns whether no value is zero.
    pub fn all(&self) -> (all: bool)
        ensures
            all == (count_nonzero_bytes(self.items@, 9) == 9),
    {
        self.count() == 9
    }

    /// Returns the number of values that are not zero.
    pub fn count(&self) -> (count: usize)
        ensures
            count == count_nonzero_bytes(self.items@, 9),
            count <= 9,
    {
        let mut count: usize = 0;
        let mut i: usize = 0;
        while i < 9
            invariant
                i <= 9,
                count <= i,
                count == count_nonzero_bytes(self.items@, i as int),
            decreases 9 - i,
        {
            if self.items[i] != 0 {
                count += 1;
            }
            i += 1;
        }
        count
    }

    /// Returns the number of values that are `value`.
    pub fn count_value(&self, value: u8) -> (count: usize)
        ensures
            count == count_equal_bytes(self.items@, value, 9),
            count <= 9,
    {
        let mut count: usize = 0;
        let mut i: usize = 0;
        while i < 9
            invariant
                i <= 9,
                count <= i,
                count == count_equal_bytes(self.items@, value, i as int),
            decreases 9 - i,
        {
            if self.items[i] == value {
                count += 1;
            }
            i += 1;
        }
        count
    }

    /// Returns the values that are the bitwise or, place by place, of
    /// these and those of `rhs`.
    pub fn or(&self, rhs: &SliceValue) -> (slice: SliceValue)
        ensures
            slice.items@ == Seq::new(9, |i: int| self.items@[i] | rhs.items@[i]),
    {
        let mut items: [u8; 9] = [0;9];
        let mut i: usize = 0;
        while i < 9
            invariant
                i <= 9,
                forall|k: int| 0 <= k < i ==> #[trigger] items@[k] == self.items@[k] | rhs.items@[k],
            decreases 9 - i,
        {
            items[i] = self.items[i] | rhs.items[i];
            i += 1;
        }
        let slice = SliceValue { items };
        assert(slice.items@ =~= Seq::new(9, |i: int| self.items@[i] | rhs.items@[i]));
        slice
    }
}

/// The values whose bytes are `bytes`.
pub open spec fn slice_value_of(bytes: Seq<u8>) -> SliceValue {
    choose|slice: SliceValue| slice.items@ == bytes
}

impl core::ops::BitOr for SliceValue {
    type Output = SliceValue;

    fn bitor(self, rhs: SliceValue) -> (slice: SliceValue)
        ensures
            slice.items@ == Seq::new(9, |i: int| self.items@[i] | rhs.items@[i]),
    {
        let slice = self.or(&rhs);
        proof {
            let other = slice_value_of(Seq::new(9, |i: int| self.items@[i] | rhs.items@[i]));
            assert(other.items@ == slice.items@);
            assert forall|i: int| 0 <= i < 9 implies slice.items[i] == other.items[i] by {
                assert(slice.items@[i] == other.items@[i]);
            }
            assert(slice.items =~= other.items);
        }
        slice
    }
}

impl vstd::std_specs::ops::BitOrSpecImpl for SliceValue {
    open spec fn obeys_bitor_spec() -> bool {
        true
    }

    open spec fn bitor_req(self, rhs: SliceValue) -> bool {
        true
    }

    open spec fn bitor_spec(self, rhs: SliceValue) -> SliceValue {
        slice_value_of(Seq::new(9, |i: int| self.items@[i] | rhs.items@[i]))
    }
}

} // verus!
