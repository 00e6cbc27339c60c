//! The nine digit tags.

use vstd::prelude::*;

verus! {

/// One of the nine digits a cell can hold.
#[derive(Copy, Clone, Debug, PartialEq, Eq, Structural, Hash)]
pub enum Mark {
    N1,
    N2,
    N3,
    N4,
    N5,
    N6,
    N7,
    N8,
    N9,
}

impl Mark {
    /// The digit `1..=9` that the tag stands for.
    pub open spec fn value(self) -> int {
        match self {
            Mark::N1 => 1,
            Mark::N2 => 2,
            Mark::N3 => 3,
            Mark::N4 => 4,
            Mark::N5 => 5,
            Mark::N6 => 6,
            Mark::N7 => 7,
            Mark::N8 => 8,
            Mark::N9 => 9,
        }
    }

    /// The tag of the digit `v`; `N1` where `v` is no digit.
    pub open spec fn of_value(v: int) -> Mark {
        if v == 2 {
            Mark::N2
        } else if v == 3 {
            Mark::N3
        } else if v == 4 {
            Mark::N4
        } else if v == 5 {
            Mark::N5
        } else if v == 6 {
            Mark::N6
        } else if v == 7 {
            Mark::N7
        } else if v == 8 {
            Mark::N8
        } else if v == 9 {
            Mark::N9
        } else {
            Mark::N1
        }
    }

    /// The candidate bit of the tag inside a cell word: bit `value + 6`.
    pub open spec fn bit(self) -> u16 {
        match self {
            Mark::N1 => 0x0080,
            Mark::N2 => 0x0100,
            Mark::N3 => 0x0200,
            Mark::N4 => 0x0400,
            Mark::N5 => 0x0800,
            Mark::N6 => 0x1000,
            Mark::N7 => 0x2000,
            Mark::N8 => 0x4000,
            Mark::N9 => 0x8000,
        }
    }

    /// The nine tags in ascending order.
    pub open spec fn all() -> Seq<Mark> {
        seq![
            Mark::N1,
            Mark::N2,
            Mark::N3,
            Mark::N4,
            Mark::N5,
            Mark::N6,
            Mark::N7,
            Mark::N8,
            Mark::N9,
        ]
    }

    /// Returns the nine tags in ascending order.
    pub fn iter() -> (marks: Vec<Mark>)
        ensures
            marks@ == Mark::all(),
    {
        let mut marks: Vec<Mark> = Vec::new();
        marks.push(Mark::N1);
        marks.push(Mark::N2);
        marks.push(Mark::N3);
        marks.push(Mark::N4);
        marks.push(Mark::N5);
        marks.push(Mark::N6);
        marks.push(Mark::N7);
        marks.push(Mark::N8);
        marks.push(Mark::N9);
        assert(marks@ =~= Mark::all());
        marks
    }

    /// Returns the zero-based index of the tag.
    pub fn to_index(self) -> (index: u16)
        ensures
            index == self.value() - 1,
    {
        self.to_value() - 1
    }

    /// Returns the tag with the given zero-based index; `N1` for an index over 8.
    pub fn from_index(index: u16) -> (mark: Mark)
        ensures
            mark == Mark::of_value(index + 1),
    {
        if index < 9 {
            Mark::from_value(index + 1)
        } else {
            Mark::N1
        }
    }

    /// Returns the digit of the tag.
    pub fn to_value(self) -> (v: u16)
        ensures
            v == self.value(),
            1 <= v <= 9,
    {
        match self {
            Mark::N1 => 1,
            Mark::N2 => 2,
            Mark::N3 => 3,
            Mark::N4 => 4,
            Mark::N5 => 5,
            Mark::N6 => 6,
            Mark::N7 => 7,
            Mark::N8 => 8,
            Mark::N9 => 9,
        }
    }

    /// Returns the tag of a digit; `N1` for a value that is no digit.
    pub fn from_value(value: u16) -> (mark: Mark)
        ensures
            mark == Mark::of_value(value as int),
    {
        match value {
            2 => Mark::N2,
            3 => Mark::N3,
            4 => Mark::N4,
            5 => Mark::N5,
            6 => Mark::N6,
            7 => Mark::N7,
            8 => Mark::N8,
            9 => Mark::N9,
            _ => Mark::N1,
        }
    }

    /// Returns the candidate bit of the tag.
    pub fn to_data(self) -> (bit: u16)
        ensures
            bit == self.bit(),
    {
        match self {
            Mark::N1 => 0x0080,
            Mark::N2 => 0x0100,
            Mark::N3 => 0x0200,
            Mark::N4 => 0x0400,
            Mark::N5 => 0x0800,
            Mark::N6 => 0x1000,
            Mark::N7 => 0x2000,
            Mark::N8 => 0x4000,
            Mark::N9 => 0x8000,
        }
    }

    /// Converting a tag to its digit and back gives the tag again, and the
    /// same holds of its index.
    pub proof fn lemma_round_trip(m: Mark)
        ensures
            Mark::of_value(m.value()) == m,
            Mark::of_value((m.value() - 1) + 1) == m,
            1 <= m.value() <= 9,
    {
    }

    /// Every digit is the digit of its own tag.
    pub proof fn lemma_value_of_value(v: int)
        requires
            1 <= v <= 9,
        ensures
            Mark::of_value(v).value() == v,
    {
    }
}

impl Default for Mark {
    fn default() -> (mark: Mark)
        ensures
            mark == Mark::N1,
    {
        Mark::N1
    }
}

impl core::ops::Shl<u32> for Mark {
    type Output = Mark;

    /// The tag `rhs` digits further up.
    fn shl(self, rhs: u32) -> (mark: Mark) {
        Mark::from_value((self.to_value() as u32 + rhs) as u16)
    }
}

impl vstd::std_specs::ops::ShlSpecImpl<u32> for Mark {
    open spec fn obeys_shl_spec() -> bool {
        true
    }

    open spec fn shl_req(self, rhs: u32) -> bool {
        self.value() + rhs <= 9
    }

    open spec fn shl_spec(self, rhs: u32) -> Mark {
        Mark::of_value(self.value() + rhs)
    }
}

} // verus!
