//! The one thing the movement path needs from harvest state: "is the slot
//! in this cell currently gone?" — asked the same way by the server's life
//! store and by any mirror of it, whatever layout each keeps.
use vstd::prelude::*;

use crate::gather::{life_at, SlotLives};

verus! {

/// "Is the slot in this cell currently gone?" Implemented by every store
/// that can answer it; a felled tree must not stand in a body's way.
pub trait Harvested {
    fn is_harvested(&self, cx: u16, cz: u16) -> bool;
}

/// Nothing has ever been harvested — the island as worldgen drew it.
pub struct Pristine;

impl Harvested for Pristine {
    fn is_harvested(&self, cx: u16, cz: u16) -> (b: bool)
        ensures
            !b,
    {
        false
    }
}

/// Every cell reads as harvested, so nothing scattered blocks anything —
/// for fixtures about walls, where a pine would be noise.
pub struct Barren;

impl Harvested for Barren {
    fn is_harvested(&self, cx: u16, cz: u16) -> (b: bool)
        ensures
            b,
    {
        true
    }
}

impl Harvested for SlotLives {
    fn is_harvested(&self, cx: u16, cz: u16) -> (b: bool)
        ensures
            b ==> exists|j: int| 0 <= j < self@.len() && life_at(self@[j], cx, cz) && self@[j].respawn_at != 0,
            self.wf() ==> (b == exists|j: int|
                0 <= j < self@.len() && life_at(self@[j], cx, cz) && self@[j].respawn_at != 0),
    {
        SlotLives::is_harvested(self, cx, cz)
    }
}

} // verus!
