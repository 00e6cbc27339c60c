//! The packed cell word and its algebra.
//!
//! A cell is one 16-bit word. Bits 0..=3 hold the value (0 for none), bits
//! 7..=15 hold one candidate bit for each of the digits 1..=9, bits 4..=6 are
//! unused.

use vstd::prelude::*;
use super::mark::Mark;

verus! {

/// The word of a fresh cell: no value, all nine candidates.
pub const DEFAULT_CELL_VALUE: u16 = 0xFF80;

/// The bits of a word that hold the value.
pub const CELL_VALUE_MASK: u16 = 0x000F;

/// The bits of a word that hold the candidates.
pub const CELL_POSSIBLE_MASK: u16 = 0xFF80;

/// The value bits of a word.
pub open spec fn word_value(w: u16) -> u16 {
    w & 0x000F
}

/// The candidate bits of a word.
pub open spec fn word_candidates(w: u16) -> u16 {
    w & 0xFF80
}

/// Whether the word holds a value.
pub open spec fn word_determined(w: u16) -> bool {
    w & 0x000F != 0
}

/// Whether the candidate bit of `m` is set in the word.
pub open spec fn word_possible(w: u16, m: Mark) -> bool {
    w & m.bit() != 0
}

/// Whether the word is a bare digit: a value in `1..=9` and no other bit.
pub open spec fn word_is_digit(w: u16) -> bool {
    1 <= w <= 9
}

/// Number of one bits in a word.
pub open spec fn popcount(w: u16) -> nat
    decreases w,
{
    if w == 0 {
        0
    } else {
        (w % 2) as nat + popcount(w / 2)
    }
}

/// The tags among the digits `1..=k` whose candidate bit is set in `w`,
/// in ascending order.
pub open spec fn marks_upto(w: u16, k: int) -> Seq<Mark>
    decreases k,
{
    if k <= 0 {
        Seq::empty()
    } else if word_possible(w, Mark::of_value(k)) {
        marks_upto(w, k - 1).push(Mark::of_value(k))
    } else {
        marks_upto(w, k - 1)
    }
}

/// The candidates that an undetermined word offers, in ascending order; a
/// determined word offers none.
pub open spec fn word_marks(w: u16) -> Seq<Mark> {
    if word_determined(w) {
        Seq::empty()
    } else {
        marks_upto(w, 9)
    }
}

/// Number of the first `n` words of `s` that have `mark` as a candidate.
pub open spec fn count_possible_words(s: Seq<u16>, mark: Mark, n: int) -> nat
    decreases n,
{
    if n <= 0 {
        0
    } else {
        count_possible_words(s, mark, n - 1) + if word_possible(s[n - 1], mark) {
            1nat
        } else {
            0nat
        }
    }
}

/// Number of the first `n` words of `s` that hold a value.
pub open spec fn count_determined_words(s: Seq<u16>, n: int) -> nat
    decreases n,
{
    if n <= 0 {
        0
    } else {
        count_determined_words(s, n - 1) + if word_determined(s[n - 1]) {
            1nat
        } else {
            0nat
        }
    }
}

/// Number of the first `n` words of `s` that are the word `value`.
pub open spec fn count_equal_words(s: Seq<u16>, value: u16, n: int) -> nat
    decreases n,
{
    if n <= 0 {
        0
    } else {
        count_equal_words(s, value, n - 1) + if s[n - 1] == value {
            1nat
        } else {
            0nat
        }
    }
}

/// Number of the first `n` words of `s` that are not zero.
pub open spec fn count_nonzero_words(s: Seq<u16>, n: int) -> nat
    decreases n,
{
    if n <= 0 {
        0
    } else {
        count_nonzero_words(s, n - 1) + if s[n - 1] != 0 {
            1nat
        } else {
            0nat
        }
    }
}

/// The bitwise or of the first `n` words of `s`.
pub open spec fn or_words(s: Seq<u16>, n: int) -> u16
    decreases n,
{
    if n <= 0 {
        0
    } else {
        or_words(s, n - 1) | s[n - 1]
    }
}

/// The least index under `n` whose word has `mark` as a candidate; `n` if
/// there is none.
pub open spec fn first_possible_word(s: Seq<u16>, mark: Mark, n: int) -> int
    decreases n,
{
    if n <= 0 {
        0
    } else if first_possible_word(s, mark, n - 1) < n - 1 {
        first_possible_word(s, mark, n - 1)
    } else if word_possible(s[n - 1], mark) {
        n - 1
    } else {
        n
    }
}

/// A count of candidates over the first `n` words is at most `n`, and is
/// zero exactly where no word has the candidate.
pub proof fn lemma_count_possible_words(s: Seq<u16>, mark: Mark, n: int)
    requires
        0 <= n,
    ensures
        count_possible_words(s, mark, n) <= n,
        count_possible_words(s, mark, n) == 0 <==> (forall|i: int|
            0 <= i < n ==> !word_possible(#[trigger] s[i], mark)),
        0 <= first_possible_word(s, mark, n) <= n,
        first_possible_word(s, mark, n) < n ==> word_possible(
            s[first_possible_word(s, mark, n)],
            mark,
        ),
        forall|i: int|
            0 <= i < first_possible_word(s, mark, n) && i < n ==> !word_possible(
                #[trigger] s[i],
                mark,
            ),
        first_possible_word(s, mark, n) == n <==> count_possible_words(s, mark, n) == 0,
    decreases n,
{
    if n > 0 {
        lemma_count_possible_words(s, mark, n - 1);
    }
}

/// A candidate is in the or of some words exactly where one of them has it.
pub proof fn lemma_or_words_possible(s: Seq<u16>, mark: Mark, n: int)
    requires
        0 <= n,
    ensures
        word_possible(or_words(s, n), mark) <==> count_possible_words(s, mark, n) > 0,
    decreases n,
{
    if n > 0 {
        lemma_or_words_possible(s, mark, n - 1);
        let a = or_words(s, n - 1);
        let b = s[n - 1];
        let c = mark.bit();
        assert(((a | b) & c != 0) <==> (a & c != 0 || b & c != 0)) by (bit_vector);
    } else {
        let c = mark.bit();
        assert(0u16 & c == 0) by (bit_vector);
    }
}

/// The candidates found among the digits `1..=k` are those digits whose
/// bit is set, in ascending order.
pub proof fn lemma_marks_upto(w: u16, k: int)
    requires
        0 <= k <= 9,
    ensures
        marks_upto(w, k).len() <= k,
        forall|i: int|
            0 <= i < marks_upto(w, k).len() ==> word_possible(w, #[trigger] marks_upto(w, k)[i])
                && 1 <= marks_upto(w, k)[i].value() <= k,
        forall|j: int|
            1 <= j <= k && word_possible(w, Mark::of_value(j)) ==> marks_upto(w, k).contains(
                #[trigger] Mark::of_value(j),
            ),
        forall|i: int, j: int|
            0 <= i < j < marks_upto(w, k).len() ==> (#[trigger] marks_upto(w, k)[i]).value() < (
            #[trigger] marks_upto(w, k)[j]).value(),
    decreases k,
{
    if k > 0 {
        lemma_marks_upto(w, k - 1);
        let prev = marks_upto(w, k - 1);
        let m = Mark::of_value(k);
        Mark::lemma_value_of_value(k);
        if word_possible(w, m) {
            let now = prev.push(m);
            assert(now[prev.len() as int] == m);
            assert forall|j: int|
                1 <= j <= k && word_possible(w, Mark::of_value(j)) implies now.contains(
                #[trigger] Mark::of_value(j),
            ) by {
                if j < k {
                    let i = choose|i: int| 0 <= i < prev.len() && prev[i] == Mark::of_value(j);
                    assert(now[i] == Mark::of_value(j));
                }
            }
        }
    }
}

/// Facts on the nine candidate bits: each lies in the candidate region, none
/// touches the value bits, and no two overlap.
pub proof fn lemma_mark_bits(m: Mark, n: Mark)
    ensures
        m.bit() != 0,
        m.bit() & 0x000F == 0,
        m.bit() & 0xFF80 == m.bit(),
        m != n ==> m.bit() & n.bit() == 0,
        m == n ==> m.bit() & n.bit() == m.bit(),
{
    let a = m.bit();
    let b = n.bit();
    assert(a != 0 && a & 0x000F == 0 && a & 0xFF80 == a && (a != b ==> a & b == 0) && (a == b ==> a
        & b == a)) by (bit_vector)
        requires
            a == 0x0080 || a == 0x0100 || a == 0x0200 || a == 0x0400 || a == 0x0800 || a == 0x1000
                || a == 0x2000 || a == 0x4000 || a == 0x8000,
            b == 0x0080 || b == 0x0100 || b == 0x0200 || b == 0x0400 || b == 0x0800 || b == 0x1000
                || b == 0x2000 || b == 0x4000 || b == 0x8000,
    ;
}

/// Clearing the bits `b` of a word: the cleared bits are gone, every bit
/// outside `b` stays, and nothing is gained.
pub proof fn lemma_clear_bits(w: u16, b: u16, c: u16)
    by (bit_vector)
    ensures
        (w & !b) & b == 0,
        b & c == 0 ==> (w & !b) & c == w & c,
        (w & !b) & c != 0 ==> w & c != 0,
        (w & !b) & !w == 0,
        w & b == 0 ==> w & !b == w,
{
}

/// Masking a word keeps the bits that the mask holds and gains none.
pub proof fn lemma_mask_bits(w: u16, x: u16, c: u16)
    by (bit_vector)
    ensures
        (w & x) & !w == 0,
        x & c == c ==> (w & x) & c == w & c,
        (w & x) & c != 0 ==> w & c != 0,
        w & 0xFFFF == w,
        w & 0 == 0,
        0u16 & c == 0,
{
}

/// A bare digit holds its own value and no candidate.
pub proof fn lemma_digit_word(d: u16, c: u16)
    by (bit_vector)
    requires
        1 <= d <= 9,
    ensures
        d & 0x000F == d,
        d & 0xFF80 == 0,
        c & 0xFF80 == c ==> d & c == 0,
        c & 0x000F == 0x000F ==> d & c == d,
{
}

/// A word whose value bits are a digit and whose other bits are clear is
/// that bare digit.
pub proof fn lemma_value_only(w: u16)
    by (bit_vector)
    ensures
        (w & 0x000F) & 0x000F == w & 0x000F,
        (w & 0x000F) & 0xFF80 == 0,
        (w & 0xFF80) & 0x000F == 0,
        (w & 0xFF80) & 0xFF80 == w & 0xFF80,
        w & 0x000F <= 15,
        0xFF80u16 & 0x000F == 0,
        0xFFFFu16 & 0x000F == 0x000F,
{
}

/// A cell of the grid.
#[derive(Debug, Clone, Copy, PartialEq, Eq, Structural)]
pub struct Cell {
    /// The packed word.
    pub data: u16,
}

impl View for Cell {
    type V = u16;

    /// The word of the cell.
    open spec fn view(&self) -> u16 {
        self.data
    }
}

/// The bit that lies `value + 6` places up: for a digit its candidate bit,
/// for zero the bit below the candidates.
pub open spec fn value_bit(value: int) -> u16 {
    if value == 0 {
        0x0040
    } else {
        Mark::of_value(value).bit()
    }
}

impl Cell {
    /// Returns the bit that lies `value + 6` places up, for a `value` up to
    /// nine: the candidate bit of a digit.
    pub fn possible_to_bit(value: u16) -> (bit: u16)
        requires
            value <= 9,
        ensures
            bit == value_bit(value as int),
            value >= 1 ==> bit == Mark::of_value(value as int).bit(),
    {
        if value == 0 {
            0x0040
        } else {
            Mark::from_value(value).to_data()
        }
    }

    /// Creates a cell without a value and with all nine candidates.
    pub fn new() -> (cell: Cell)
        ensures
            cell@ == 0xFF80,
    {
        Cell { data: DEFAULT_CELL_VALUE }
    }

    /// Creates a cell without a value and without candidates.
    pub fn new_empty() -> (cell: Cell)
        ensures
            cell@ == 0,
    {
        Cell::new_with_value(0)
    }

    /// Creates a cell that holds the word `data`; for a digit that is the
    /// cell with this value and no candidates.
    pub fn new_with_value(data: u16) -> (cell: Cell)
        ensures
            cell@ == data,
    {
        Cell { data }
    }

    /// Creates a cell without a value whose only candidate is `mark`.
    pub fn new_with_possible(mark: Mark) -> (cell: Cell)
        ensures
            cell@ == mark.bit(),
    {
        let v = mark.to_data();
        Self::new_with_value(v)
    }

    /// Creates a cell with the digit of `mark` as its value and no candidates.
    pub fn new_from_mark_as_value(mark: Mark) -> (cell: Cell)
        ensures
            cell@ == mark.value(),
    {
        let v = mark.to_value();
        Self::new_with_value(v)
    }

    /// Creates the cell with all sixteen bits set, the neutral mask of `&`.
    pub fn mask() -> (cell: Cell)
        ensures
            cell@ == 0xFFFF,
    {
        Cell { data: 0xFFFF }
    }

    /// Returns whether the whole word is zero.
    pub fn is_empty(self) -> (empty: bool)
        ensures
            empty == (self@ == 0),
    {
        self.data == 0
    }

    /// Returns whether any bit of the word is set.
    pub fn has_any(self) -> (any: bool)
        ensures
            any == (self@ != 0),
    {
        self.data > 0
    }

    /// Returns whether the cell holds a value.
    pub fn is_determined(self) -> (determined: bool)
        ensures
            determined == word_determined(self@),
    {
        (self.data & CELL_VALUE_MASK) > 0
    }

    /// Returns whether `value` is a candidate of the cell.
    pub fn is_possible(self, value: Mark) -> (possible: bool)
        ensures
            possible == word_possible(self@, value),
    {
        let v = value.to_data();
        let d = self.data;
        d & v != 0
    }

    /// Returns whether the bit of `value`, a number up to nine, is set in
    /// the cell: for a digit, whether it is a candidate of the cell.
    pub fn is_possible_value(self, value: u16) -> (possible: bool)
        requires
            value <= 9,
        ensures
            possible == (self@ & value_bit(value as int) != 0),
            value >= 1 ==> possible == word_possible(self@, Mark::of_value(value as int)),
    {
        let b = Cell::possible_to_bit(value);
        let d = self.data;
        d & b != 0
    }

    /// Replaces the word of the cell by `value`; for a digit the cell then
    /// holds this value and no candidates.
    pub fn set_value(&mut self, value: u16)
        ensures
            final(self)@ == value,
    {
        self.data = value;
    }

    /// Returns the word of the cell; for a cell that holds a bare digit,
    /// that digit.
    pub fn get_value(self) -> (word: u16)
        ensures
            word == self@,
    {
        self.data
    }

    /// Returns the word of the cell where it holds a value, else nothing.
    pub fn value(self) -> (value: Option<u16>)
        ensures
            value == if word_determined(self@) {
                Some(self@)
            } else {
                None
            },
    {
        if self.is_determined() {
            Some(self.get_value())
        } else {
            None
        }
    }

    /// Adds `value` to the candidates of the cell.
    pub fn set_possible(&mut self, value: Mark)
        ensures
            final(self)@ == old(self)@ | value.bit(),
    {
        let v = value.to_data();
        let d = self.data;
        self.data = d | v;
    }

    /// Removes `value` from the candidates of the cell.
    pub fn unset_possible(&mut self, value: Mark)
        ensures
            final(self)@ == old(self)@ & !value.bit(),
    {
        let v = value.to_data();
        let d = self.data;
        self.data = d & !v;
    }

    /// Returns the number of set bits of the word, whatever they stand for.
    /// It is the number of candidates only of a cell that has nothing but
    /// candidate bits set: see `only_possible`.
    pub fn possible_count(self) -> (count: u32)
        ensures
            count == popcount(self@),
    {
        count_ones(self.data)
    }

    /// Returns the cell with its value bits cleared.
    pub fn only_possible(&self) -> (cell: Cell)
        ensures
            cell@ == word_candidates(self@),
    {
        *self & Cell::new_with_value(CELL_POSSIBLE_MASK)
    }

    /// Returns the cell with everything but its value bits cleared.
    pub fn only_determined(&self) -> (cell: Cell)
        ensures
            cell@ == word_value(self@),
    {
        *self & Cell::new_with_value(CELL_VALUE_MASK)
    }

    /// Returns the candidates of a cell without a value in ascending order;
    /// of a cell with a value, none.
    pub fn iter_possible(self) -> (marks: Vec<Mark>)
        ensures
            marks@ == word_marks(self@),
    {
        let mut marks: Vec<Mark> = Vec::new();
        if self.is_determined() {
            return marks;
        }
        let mut k: u16 = 0;
        while k < 9
            invariant
                k <= 9,
                marks@ == marks_upto(self@, k as int),
            decreases 9 - k,
        {
            k = k + 1;
            let mark = Mark::from_value(k);
            if self.is_possible(mark) {
                marks.push(mark);
            }
        }
        marks
    }
}

/// Returns the number of one bits of `w`.
pub fn count_ones(w: u16) -> (count: u32)
    ensures
        count == popcount(w),
{
    let mut count: u32 = 0;
    let mut rest: u16 = w;
    proof {
        lemma_popcount_bound(w);
    }
    while rest != 0
        invariant
            count + popcount(rest) == popcount(w),
            popcount(w) <= 0xFFFF,
        decreases rest,
    {
        count = count + (rest % 2) as u32;
        rest = rest / 2;
    }
    count
}

/// A word has no more one bits than its own number.
pub proof fn lemma_popcount_bound(w: u16)
    ensures
        popcount(w) <= w,
    decreases w,
{
    if w != 0 {
        lemma_popcount_bound(w / 2);
    }
}

impl Default for Cell {
    fn default() -> (cell: Cell)
        ensures
            cell@ == 0xFF80,
    {
        Self::new()
    }
}

impl core::ops::BitOr for Cell {
    type Output = Cell;

    fn bitor(self, rhs: Cell) -> (cell: Cell) {
        Cell { data: self.data | rhs.data }
    }
}

impl vstd::std_specs::ops::BitOrSpecImpl for Cell {
    open spec fn obeys_bitor_spec() -> bool {
        true
    }

    open spec fn bitor_req(self, rhs: Cell) -> bool {
        true
    }

    open spec fn bitor_spec(self, rhs: Cell) -> Cell {
        Cell { data: self.data | rhs.data }
    }
}

impl core::ops::BitAnd for Cell {
    type Output = Cell;

    fn bitand(self, rhs: Cell) -> (cell: Cell) {
        Cell { data: self.data & rhs.data }
    }
}

impl vstd::std_specs::ops::BitAndSpecImpl for Cell {
    open spec fn obeys_bitand_spec() -> bool {
        true
    }

    open spec fn bitand_req(self, rhs: Cell) -> bool {
        true
    }

    open spec fn bitand_spec(self, rhs: Cell) -> Cell {
        Cell { data: self.data & rhs.data }
    }
}

impl core::ops::BitXor for Cell {
    type Output = Cell;

    fn bitxor(self, rhs: Cell) -> (cell: Cell) {
        Cell { data: self.data ^ rhs.data }
    }
}

impl vstd::std_specs::ops::BitXorSpecImpl for Cell {
    open spec fn obeys_bitxor_spec() -> bool {
        true
    }

    open spec fn bitxor_req(self, rhs: Cell) -> bool {
        true
    }

    open spec fn bitxor_spec(self, rhs: Cell) -> Cell {
        Cell { data: self.data ^ rhs.data }
    }
}

} // verus!
