//! A game's identity, as the library that knows the installed games hands it
//! out.

use vstd::prelude::*;

use crate::nass::{aktub_ashri, ashri};

verus! {

/// Which game a region set or a history belongs to: a number the game
/// library assigns once and never reuses.
#[derive(Debug, Clone, Copy, PartialEq, Eq, Hash, Structural)]
pub struct LubaId(pub u64);

impl LubaId {
    /// The identity written out in decimal, as paths and log lines show it.
    pub fn nass(self) -> (r: String)
        ensures
            r@ == ashri(self.0 as nat),
    {
        let mut r = String::new();
        aktub_ashri(&mut r, self.0);
        r
    }
}

} // verus!
