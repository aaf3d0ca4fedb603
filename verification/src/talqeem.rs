//! What the overlay draws over a line: the Arabic and where it goes.

use vstd::prelude::*;

use crate::mutarjim_mahalli::huruf;
use crate::nass::{farigh, min_nass, shadhdhib};
use crate::qira::SatrMaqru;
use crate::wajiha::MustatilBiksel;

verus! {

/// One translated line ready to draw.
#[derive(Debug, Clone, PartialEq, Eq)]
pub struct SatrMulaqqam {
    /// The Arabic.
    pub nass: String,
    /// Where it goes on the surface, in pixels.
    pub mawdi: MustatilBiksel,
    /// The recognizer's confidence in the line it translates.
    pub thiqa: u8,
}

impl SatrMulaqqam {
    /// The Arabic for a recognized line, at a surface position, carrying the
    /// line's confidence.
    pub fn min_maqru(maqru: &SatrMaqru, mawdi: MustatilBiksel, arabi: &str) -> (r: Self)
        ensures
            r.nass@ == arabi@,
            r.mawdi == mawdi,
            r.thiqa == maqru.thiqa,
    {
        SatrMulaqqam { nass: min_nass(arabi), mawdi, thiqa: maqru.thiqa }
    }

    /// Whether there is nothing to draw: no text, or no area to draw it in.
    pub fn khali(&self) -> (r: bool)
        ensures
            r == (farigh(self.nass@) || self.mawdi.ard == 0 || self.mawdi.irtifa == 0),
    {
        let h = huruf(self.nass.as_str());
        let m = shadhdhib(&h);
        proof {
            crate::nass::lemma_farigh_mushdhab(self.nass@);
        }
        m.len() == 0 || self.mawdi.ard == 0 || self.mawdi.irtifa == 0
    }
}

} // verus!
