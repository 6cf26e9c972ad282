//! What an operation reports about the key it worked on.

use vstd::prelude::*;

verus! {

/// Whether the key of a write or a removal held a value before the operation.
#[derive(Debug, Clone, Copy, PartialEq, Eq, Structural)]
pub enum Existence {
    /// The key held no value.
    Absent,
    /// The key held a value, which was overwritten or removed.
    Present,
    /// The store cannot tell.
    Unknown,
}

impl Existence {
    /// `Present` if the key existed, `Absent` if it did not.
    pub open spec fn of(existed: bool) -> Existence {
        if existed {
            Existence::Present
        } else {
            Existence::Absent
        }
    }

    /// Whether the key existed, where that is known.
    pub open spec fn known(self) -> Option<bool> {
        match self {
            Existence::Absent => Some(false),
            Existence::Present => Some(true),
            Existence::Unknown => None,
        }
    }

    /// `Present` if the key existed, `Absent` if it did not.
    pub fn new(existed: bool) -> (e: Self)
        ensures
            e == Existence::of(existed),
    {
        if existed {
            Existence::Present
        } else {
            Existence::Absent
        }
    }

    /// The answer of a store that cannot tell.
    pub fn unknown() -> (e: Self)
        ensures
            e == Existence::Unknown,
    {
        Existence::Unknown
    }

    /// Whether the key existed, where that is known.
    pub fn existed(self) -> (known: Option<bool>)
        ensures
            known == self.known(),
    {
        match self {
            Existence::Absent => Some(false),
            Existence::Present => Some(true),
            Existence::Unknown => None,
        }
    }
}

} // verus!
