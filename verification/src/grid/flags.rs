//! Sixteen flags in a word, addressed like the candidates of a cell.

use vstd::prelude::*;
use super::cell::{value_bit, Cell};

verus! {

/// Sixteen flags. The flag of the index `i` in `1..=9` is the candidate bit
/// of the digit `i`; the flag of the index zero is the bit below them.
pub struct Flags16 {
    /// The flags.
    pub flags: u16,
}

impl View for Flags16 {
    type V = u16;

    /// The flags as a word.
    open spec fn view(&self) -> u16 {
        self.flags
    }
}

impl Flags16 {
    /// Creates sixteen cleared flags.
    pub fn new() -> (flags: Flags16)
        ensures
            flags@ == 0,
    {
        Flags16 { flags: 0 }
    }

    /// Sets the flag of `index`.
    pub fn set_bit(&mut self, index: usize)
        requires
            index <= 9,
        ensures
            final(self)@ == old(self)@ | value_bit(index as int),
    {
        let bit = Cell::possible_to_bit(index as u16);
        self.flags = self.flags | bit;
    }

    /// Returns whether the flag of `index` is set.
    pub fn get_bit(&self, index: usize) -> (set: bool)
        requires
            index <= 9,
        ensures
            set == (self@ & value_bit(index as int) == value_bit(index as int)),
    {
        let bit = Cell::possible_to_bit(index as u16);
        self.flags & bit == bit
    }

    /// Returns whether any flag is set.
    pub fn any(&self) -> (any: bool)
        ensures
            any == (self@ != 0),
    {
        self.flags != 0
    }
}

impl core::convert::From<Cell> for Flags16 {
    fn from(cell: Cell) -> (flags: Flags16) {
        Flags16 { flags: cell.get_value() }
    }
}

impl vstd::std_specs::convert::FromSpecImpl<Cell> for Flags16 {
    open spec fn obeys_from_spec() -> bool {
        true
    }

    open spec fn from_spec(cell: Cell) -> Flags16 {
        Flags16 { flags: cell.data }
    }
}

impl core::ops::BitOr for Flags16 {
    type Output = Flags16;

    fn bitor(self, rhs: Flags16) -> (flags: Flags16) {
        Flags16 { flags: self.flags | rhs.flags }
    }
}

impl vstd::std_specs::ops::BitOrSpecImpl for Flags16 {
    open spec fn obeys_bitor_spec() -> bool {
        true
    }

    open spec fn bitor_req(self, rhs: Flags16) -> bool {
        true
    }

    open spec fn bitor_spec(self, rhs: Flags16) -> Flags16 {
        Flags16 { flags: self.flags | rhs.flags }
    }
}

impl core::ops::BitAnd for Flags16 {
    type Output = Flags16;

    fn bitand(self, rhs: Flags16) -> (flags: Flags16) {
        Flags16 { flags: self.flags & rhs.flags }
    }
}

impl vstd::std_specs::ops::BitAndSpecImpl for Flags16 {
    open spec fn obeys_bitand_spec() -> bool {
        true
    }

    open spec fn bitand_req(self, rhs: Flags16) -> bool {
        true
    }

    open spec fn bitand_spec(self, rhs: Flags16) -> Flags16 {
        Flags16 { flags: self.flags & rhs.flags }
    }
}

impl core::ops::BitXor for Flags16 {
    type Output = Flags16;

    fn bitxor(self, rhs: Flags16) -> (flags: Flags16) {
        Flags16 { flags: self.flags ^ rhs.flags }
    }
}

impl vstd::std_specs::ops::BitXorSpecImpl for Flags16 {
    open spec fn obeys_bitxor_spec() -> bool {
        true
    }

    open spec fn bitxor_req(self, rhs: Flags16) -> bool {
        true
    }

    open spec fn bitxor_spec(self, rhs: Flags16) -> Flags16 {
        Flags16 { flags: self.flags ^ rhs.flags }
    }
}

} // verus!
