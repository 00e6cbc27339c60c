//! A bare set of digits, one bit to a digit.

use vstd::prelude::*;
use super::cell::{count_ones, popcount};
use super::mark::Mark;

verus! {

/// The bit of `mark` in a set of digits: bit `value - 1`.
pub open spec fn low_bit(mark: Mark) -> u16 {
    match mark {
        Mark::N1 => 0x0001,
        Mark::N2 => 0x0002,
        Mark::N3 => 0x0004,
        Mark::N4 => 0x0008,
        Mark::N5 => 0x0010,
        Mark::N6 => 0x0020,
        Mark::N7 => 0x0040,
        Mark::N8 => 0x0080,
        Mark::N9 => 0x0100,
    }
}

/// The tags among the digits `1..=k` that the set `v` holds, in ascending
/// order.
pub open spec fn low_marks_upto(v: u16, k: int) -> Seq<Mark>
    decreases k,
{
    if k <= 0 {
        Seq::empty()
    } else if v & low_bit(Mark::of_value(k)) != 0 {
        low_marks_upto(v, k - 1).push(Mark::of_value(k))
    } else {
        low_marks_upto(v, k - 1)
    }
}

/// Returns the bit of `mark` in a set of digits.
pub fn mark_low_bit(mark: Mark) -> (bit: u16)
    ensures
        bit == low_bit(mark),
{
    match mark {
        Mark::N1 => 0x0001,
        Mark::N2 => 0x0002,
        Mark::N3 => 0x0004,
        Mark::N4 => 0x0008,
        Mark::N5 => 0x0010,
        Mark::N6 => 0x0020,
        Mark::N7 => 0x0040,
        Mark::N8 => 0x0080,
        Mark::N9 => 0x0100,
    }
}

/// A set of digits.
#[derive(Debug, Clone, Copy, PartialEq, Eq, Structural)]
pub struct Possibility {
    /// The bits of the set, bit `d - 1` for the digit `d`.
    pub value: u16,
}

impl View for Possibility {
    type V = u16;

    /// The bits of the set.
    open spec fn view(&self) -> u16 {
        self.value
    }
}

impl Possibility {
    /// Whether the set holds `mark`.
    pub open spec fn has(self, mark: Mark) -> bool {
        self.value & low_bit(mark) != 0
    }

    /// Creates the set of all nine digits.
    pub fn new() -> (p: Possibility)
        ensures
            p@ == 0x01FF,
    {
        Possibility { value: 0x01FF }
    }

    /// Creates the empty set.
    pub fn empty() -> (p: Possibility)
        ensures
            p@ == 0,
    {
        Possibility { value: 0 }
    }

    /// Returns whether the set is empty.
    pub fn is_empty(&self) -> (empty: bool)
        ensures
            empty == (self@ == 0),
    {
        self.value == 0
    }

    /// Creates the set that holds `value` alone.
    pub fn from(value: Mark) -> (p: Possibility)
        ensures
            p@ == 0u16 | low_bit(value),
    {
        let mut p = Possibility::empty();
        p.set_possible(value);
        p
    }

    /// Returns a copy of the set.
    pub fn copy(&self) -> (p: Possibility)
        ensures
            p@ == self@,
    {
        Possibility { value: self.value }
    }

    /// Returns whether the set holds `value`.
    pub fn is_possible(&self, value: Mark) -> (possible: bool)
        ensures
            possible == self.has(value),
    {
        self.value & mark_low_bit(value) != 0
    }

    /// Empties the set.
    pub fn all_off(&mut self)
        ensures
            final(self)@ == 0,
    {
        self.value = 0;
    }

    /// Fills the set with all nine digits.
    pub fn all_on(&mut self)
        ensures
            final(self)@ == 0x01FF,
    {
        self.value = 0x01FF;
    }

    /// Adds `value` to the set.
    pub fn set_possible(&mut self, value: Mark)
        ensures
            final(self)@ == old(self)@ | low_bit(value),
    {
        self.value = self.value | mark_low_bit(value);
    }

    /// Removes `value` from the set.
    pub fn unset_possible(&mut self, value: Mark)
        ensures
            final(self)@ == old(self)@ & !low_bit(value),
    {
        self.value = self.value & !mark_low_bit(value);
    }

    /// Adds `value` to the set if `state`, and removes it if not.
    pub fn set_possible_state(&mut self, value: Mark, state: bool)
        ensures
            final(self)@ == if state {
                old(self)@ | low_bit(value)
            } else {
                old(self)@ & !low_bit(value)
            },
    {
        if state {
            self.set_possible(value);
        } else {
            self.unset_possible(value);
        }
    }

    /// Adds `value` to the set.
    pub fn set(&mut self, value: Mark)
        ensures
            final(self)@ == old(self)@ | low_bit(value),
    {
        self.set_possible(value);
    }

    /// Removes `value` from the set.
    pub fn unset(&mut self, value: Mark)
        ensures
            final(self)@ == old(self)@ & !low_bit(value),
    {
        self.unset_possible(value);
    }

    /// Adds `value` to the set if `on`, and removes it if not.
    pub fn set_state(&mut self, value: Mark, on: bool)
        ensures
            final(self)@ == if on {
                old(self)@ | low_bit(value)
            } else {
                old(self)@ & !low_bit(value)
            },
    {
        self.set_possible_state(value, on);
    }

    /// Returns whether the set holds `value`.
    pub fn get_state(&self, value: Mark) -> (on: bool)
        ensures
            on == self.has(value),
    {
        self.is_possible(value)
    }

    /// Returns the number of set bits.
    pub fn get_count(&self) -> (count: u32)
        ensures
            count == popcount(self@),
    {
        count_ones(self.value)
    }

    /// Returns the bits of the set.
    pub fn get_value(&self) -> (value: u16)
        ensures
            value == self@,
    {
        self.value
    }

    /// Returns the digits of the set in ascending order.
    pub fn iter_possible(&self) -> (marks: Vec<Mark>)
        ensures
            marks@ == low_marks_upto(self@, 9),
    {
        let mut marks: Vec<Mark> = Vec::new();
        let mut k: u16 = 0;
        while k < 9
            invariant
                k <= 9,
                marks@ == low_marks_upto(self@, k as int),
            decreases 9 - k,
        {
            k = k + 1;
            let mark = Mark::from_value(k);
            if self.is_possible(mark) {
                marks.push(mark);
            }
        }
        marks
    }

    /// A digit that was added is held, one that was removed is not, and
    /// neither touches another digit.
    pub proof fn lemma_set_unset(v: u16, mark: Mark, other: Mark)
        ensures
            (v | low_bit(mark)) & low_bit(mark) != 0,
            (v & !low_bit(mark)) & low_bit(mark) == 0,
            other != mark ==> ((v | low_bit(mark)) & low_bit(other) != 0) == (v & low_bit(other)
                != 0),
            other != mark ==> ((v & !low_bit(mark)) & low_bit(other) != 0) == (v & low_bit(other)
                != 0),
    {
        let a = low_bit(mark);
        let b = low_bit(other);
        assert((v | a) & a != 0 && (v & !a) & a == 0 && (a != b ==> (v | a) & b == v & b && (v & !a)
            & b == v & b)) by (bit_vector)
            requires
                a == 0x0001 || a == 0x0002 || a == 0x0004 || a == 0x0008 || a == 0x0010 || a
                    == 0x0020 || a == 0x0040 || a == 0x0080 || a == 0x0100,
                b == 0x0001 || b == 0x0002 || b == 0x0004 || b == 0x0008 || b == 0x0010 || b
                    == 0x0020 || b == 0x0040 || b == 0x0080 || b == 0x0100,
        ;
    }
}

impl Default for Possibility {
    fn default() -> (p: Possibility)
        ensures
            p@ == 0x01FF,
    {
        Self::new()
    }
}

} // verus!
