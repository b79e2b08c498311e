//! Identity of a connected player.

use vstd::prelude::*;

verus! {

/// Identifier that the connection layer hands to each player.
#[derive(PartialEq, Eq, Structural, Hash, Debug, Clone, Copy)]
pub struct PlayerId(pub(crate) u16);

impl PlayerId {
    /// The raw number behind the identifier.
    pub open(crate) spec fn raw(self) -> u16 {
        self.0
    }

    /// The identifier with the number `id`.
    pub fn new(id: u16) -> (p: Self)
        ensures
            p.raw() == id,
    {
        PlayerId(id)
    }

    /// The identifier that the next player to connect gets: the numbers
    /// run upwards and start again at 0 after the greatest.
    pub fn successor(&self) -> (next: Self)
        ensures
            next.raw() == (self.raw() + 1) % 65536,
    {
        PlayerId(self.0.wrapping_add(1))
    }

    /// The number that `new` was given.
    pub fn value(&self) -> (id: u16)
        ensures
            id == self.raw(),
    {
        self.0
    }
}

} // verus!
