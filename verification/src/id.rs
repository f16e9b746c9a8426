//! CAN identifiers.

use vstd::prelude::*;

verus! {

/// Largest value of a standard, 11 bit identifier.
pub const STANDARD_MAX: u32 = 0x7FF;

/// Largest value of an extended, 29 bit identifier.
pub const EXTENDED_MAX: u32 = 0x1FFF_FFFF;

/// CAN identifier.
///
/// The variant is part of the identity: a standard and an extended identifier
/// with the same number are different identifiers.
#[derive(Debug, Copy, Clone, Eq, PartialEq, Structural)]
pub enum Id {
    /// Standard 11 bit identifier (`0..=0x7FF`).
    Standard(u32),
    /// Extended 29 bit identifier (`0..=0x1FFF_FFFF`).
    Extended(u32),
}

impl Id {
    /// The number carried by the identifier, whatever its width.
    pub open spec fn raw(self) -> u32 {
        match self {
            Id::Standard(v) => v,
            Id::Extended(v) => v,
        }
    }

    /// The largest number that fits the identifier's width.
    pub open spec fn limit(self) -> u32 {
        match self {
            Id::Standard(_) => STANDARD_MAX,
            Id::Extended(_) => EXTENDED_MAX,
        }
    }

    /// An identifier is valid when its number fits its width.
    pub open spec fn is_valid(self) -> bool {
        self.raw() <= self.limit()
    }

    /// Whether two identifiers are of the same width.
    pub open spec fn same_width(self, other: Id) -> bool {
        (self is Extended) == (other is Extended)
    }

    /// Returns the number carried by the identifier.
    pub fn as_raw(self) -> (raw: u32)
        ensures
            raw == self.raw(),
    {
        match self {
            Id::Standard(v) => v,
            Id::Extended(v) => v,
        }
    }

    /// Returns true when the identifier is valid, false otherwise.
    pub fn valid(self) -> (ok: bool)
        ensures
            ok == self.is_valid(),
            self matches Id::Standard(v) ==> (ok <==> v <= 0x7FF),
            self matches Id::Extended(v) ==> (ok <==> v <= 0x1FFF_FFFF),
    {
        match self {
            Id::Standard(id) => id <= STANDARD_MAX,
            Id::Extended(id) => id <= EXTENDED_MAX,
        }
    }
}

} // verus!
