//! The in-game region editor: one drag at a time, and nothing else.
//!
//! It owns no rendering, no input decoding and no region set. It is handed
//! points, keeps what drag is under way, and on release produces one
//! [`NatijatTahrir`] for the caller to apply to a
//! [`MajmuatManatiq`](crate::manatiq::MajmuatManatiq); a cancelled drag costs
//! nothing because nothing was applied.
//!
//! Points `P` and rectangles `R` are surface-normalized fractions, carried as
//! opaque values. What is under the pointer, the rectangle a drag outlines and
//! whether that rectangle has area or is too small to hold text are geometric
//! judgements taken where the fractions live and handed in; what the editor
//! decides from them is here.

use vstd::prelude::*;

use crate::manatiq::{mawqi_s, IsabatMuharrir, MajmuatManatiq, Miqbad, MuarrifMintaqa};

verus! {

/// What the editor is in the middle of.
#[derive(Debug, Clone, Copy, PartialEq)]
pub enum WadaMuharrir<P, R> {
    /// Nothing.
    Khamil,
    /// A new region is being drawn.
    Rasm {
        /// Where the drag started.
        bidaya: P,
        /// Where the pointer is now.
        hali: P,
    },
    /// An existing region is being dragged bodily.
    Naql {
        /// Which region.
        hadaf: MuarrifMintaqa,
        /// Where inside the region the drag started.
        imsak: P,
        /// The rectangle as it was when the drag started.
        asli: R,
        /// Where the pointer is now.
        hali: P,
    },
    /// An existing region is being resized by one grip.
    Tahjim {
        /// Which region.
        hadaf: MuarrifMintaqa,
        /// Which grip.
        miqbad: Miqbad,
        /// The rectangle as it was when the drag started.
        asli: R,
        /// Where the pointer is now.
        hali: P,
    },
}

impl<P: Copy, R: Copy> WadaMuharrir<P, R> {
    /// Whether a drag is in progress.
    pub fn fi_sahb(self) -> (r: bool)
        ensures
            r == !(self is Khamil),
    {
        match self {
            WadaMuharrir::Khamil => false,
            _ => true,
        }
    }

    /// The region a drag acts on, when it acts on one.
    pub fn hadaf(self) -> (r: Option<MuarrifMintaqa>)
        ensures
            r == match self {
                WadaMuharrir::Naql { hadaf, .. } => Some(hadaf),
                WadaMuharrir::Tahjim { hadaf, .. } => Some(hadaf),
                _ => None::<MuarrifMintaqa>,
            },
    {
        match self {
            WadaMuharrir::Naql { hadaf, .. } => Some(hadaf),
            WadaMuharrir::Tahjim { hadaf, .. } => Some(hadaf),
            _ => None,
        }
    }
}

/// Why a drawn rectangle with no area was thrown away, for the log.
pub const SABAB_BILA_MISAHA: &'static str = "the drag had no area, so no region was created";

/// The same, for the player.
pub const UNWAN_BILA_MISAHA: &'static str = "لم تُرسم مساحة، فلم تُنشأ منطقة.";

/// Why a drawn rectangle too small for text was thrown away, for the log.
pub const SABAB_SAGHIR: &'static str = "the drag was too small to hold readable text";

/// The same, for the player.
pub const UNWAN_SAGHIR: &'static str = "المساحة المرسومة أصغر من أن تحوي نصًّا يُقرأ.";

/// Why a resize that collapsed its region was thrown away, for the log.
pub const SABAB_TAY: &'static str = "the resize collapsed the region, so it was left as it was";

/// The same, for the player.
pub const UNWAN_TAY: &'static str = "أدّى التحجيم إلى طيّ المنطقة، فبقيت كما كانت.";

/// What a released drag produced.
#[derive(Debug, Clone, Copy, PartialEq)]
pub enum NatijatTahrir<R> {
    /// Nothing was in progress.
    LaShay,
    /// A rectangle for a new region, which the caller names and adds.
    Jadeeda(R),
    /// A region was dragged to a new place.
    Munaqqala {
        /// Which region.
        hadaf: MuarrifMintaqa,
        /// Where it now is.
        mustatil: R,
    },
    /// A region was resized.
    Muhajjama {
        /// Which region.
        hadaf: MuarrifMintaqa,
        /// Its new rectangle.
        mustatil: R,
    },
    /// The drag produced nothing usable and was thrown away.
    Mulgha {
        /// Why, in English, for the log.
        sabab: &'static str,
        /// Why, in Arabic, for the player.
        unwan: &'static str,
    },
}

impl<R: Copy> NatijatTahrir<R> {
    /// The rectangle this outcome carries, when it carries one.
    pub fn mustatil(&self) -> (r: Option<R>)
        ensures
            r == match *self {
                NatijatTahrir::Jadeeda(m) => Some(m),
                NatijatTahrir::Munaqqala { mustatil, .. } => Some(mustatil),
                NatijatTahrir::Muhajjama { mustatil, .. } => Some(mustatil),
                _ => None::<R>,
            },
    {
        match *self {
            NatijatTahrir::Jadeeda(m) => Some(m),
            NatijatTahrir::Munaqqala { mustatil, .. } => Some(mustatil),
            NatijatTahrir::Muhajjama { mustatil, .. } => Some(mustatil),
            _ => None,
        }
    }
}

/// What releasing a drag produces, given the rectangle it outlines and that
/// rectangle's two tests: nothing from an idle editor; a drawn rectangle
/// without area or too small for text thrown away, each with its reason,
/// and otherwise a new region; a dragged region always moved; a resized
/// region moved unless the resize collapsed it.
pub open spec fn nihaya_s<P, R>(
    wada: WadaMuharrir<P, R>,
    mustatil: R,
    lahu_misaha: bool,
    saghir: bool,
) -> NatijatTahrir<R> {
    match wada {
        WadaMuharrir::Khamil => NatijatTahrir::LaShay,
        WadaMuharrir::Rasm { .. } => if !lahu_misaha {
            NatijatTahrir::Mulgha { sabab: SABAB_BILA_MISAHA, unwan: UNWAN_BILA_MISAHA }
        } else if saghir {
            NatijatTahrir::Mulgha { sabab: SABAB_SAGHIR, unwan: UNWAN_SAGHIR }
        } else {
            NatijatTahrir::Jadeeda(mustatil)
        },
        WadaMuharrir::Naql { hadaf, .. } => NatijatTahrir::Munaqqala { hadaf, mustatil },
        WadaMuharrir::Tahjim { hadaf, .. } => if !lahu_misaha || saghir {
            NatijatTahrir::Mulgha { sabab: SABAB_TAY, unwan: UNWAN_TAY }
        } else {
            NatijatTahrir::Muhajjama { hadaf, mustatil }
        },
    }
}

/// A drag moved to the point `nuqta`: the same drag on the same region
/// from the same start, with only the pointer moved; nothing when idle.
pub open spec fn harrik_s<P, R>(wada: WadaMuharrir<P, R>, nuqta: P) -> WadaMuharrir<P, R> {
    match wada {
        WadaMuharrir::Khamil => WadaMuharrir::Khamil,
        WadaMuharrir::Rasm { bidaya, .. } => WadaMuharrir::Rasm { bidaya, hali: nuqta },
        WadaMuharrir::Naql { hadaf, imsak, asli, .. } => WadaMuharrir::Naql {
            hadaf,
            imsak,
            asli,
            hali: nuqta,
        },
        WadaMuharrir::Tahjim { hadaf, miqbad, asli, .. } => WadaMuharrir::Tahjim {
            hadaf,
            miqbad,
            asli,
            hali: nuqta,
        },
    }
}

/// The drag a press at `nuqta` starts, given what is under it: a grip
/// starts a resize and a region's body a move, both from the region's
/// rectangle (`kaamil`, the whole surface, when the set no longer holds
/// it); empty screen starts a new region.
pub open spec fn bidaya_s<P, R>(
    nuqta: P,
    isaba: Option<IsabatMuharrir>,
    majmua: MajmuatManatiq<R>,
    kaamil: R,
) -> WadaMuharrir<P, R> {
    match isaba {
        Some(i) => {
            let asli = match mawqi_s(majmua.manatiq_s(), i.hadaf, 0) {
                Some(k) => majmua.manatiq_s()[k as int].mustatil,
                None => kaamil,
            };
            match i.miqbad {
                Some(miqbad) => WadaMuharrir::Tahjim { hadaf: i.hadaf, miqbad, asli, hali: nuqta },
                None => WadaMuharrir::Naql { hadaf: i.hadaf, imsak: nuqta, asli, hali: nuqta },
            }
        },
        None => WadaMuharrir::Rasm { bidaya: nuqta, hali: nuqta },
    }
}

/// The region editor.
#[derive(Debug, Clone, Copy)]
pub struct MuharrirManatiq<P, R> {
    wada: WadaMuharrir<P, R>,
}

impl<P: Copy, R: Copy> MuharrirManatiq<P, R> {
    pub closed spec fn wada_s(self) -> WadaMuharrir<P, R> {
        self.wada
    }

    /// An idle editor.
    pub fn jadeed() -> (r: Self)
        ensures
            r.wada_s() is Khamil,
    {
        MuharrirManatiq { wada: WadaMuharrir::Khamil }
    }

    /// What is in progress.
    pub fn wada(&self) -> (r: WadaMuharrir<P, R>)
        ensures
            r == self.wada_s(),
    {
        self.wada
    }

    /// Whether a drag is in progress.
    pub fn fi_sahb(&self) -> (r: bool)
        ensures
            r == !(self.wada_s() is Khamil),
    {
        self.wada.fi_sahb()
    }

    /// Starts drawing a new region from `nuqta`, whatever is under it.
    pub fn bada_sahb(&mut self, nuqta: P)
        ensures
            final(self).wada_s() == (WadaMuharrir::<P, R>::Rasm { bidaya: nuqta, hali: nuqta }),
    {
        self.wada = WadaMuharrir::Rasm { bidaya: nuqta, hali: nuqta };
    }

    /// Starts whichever drag a press at `nuqta` implies and reports it:
    /// `isaba` is what lies under the point (a grip, a region's body, or
    /// nothing), and `kaamil` the whole surface.
    pub fn bada_ala(
        &mut self,
        nuqta: P,
        isaba: Option<IsabatMuharrir>,
        majmua: &MajmuatManatiq<R>,
        kaamil: R,
    ) -> (r: WadaMuharrir<P, R>)
        ensures
            r == bidaya_s(nuqta, isaba, *majmua, kaamil),
            final(self).wada_s() == r,
    {
        self.wada = match isaba {
            Some(i) => {
                let asli = match majmua.mintaqa(i.hadaf) {
                    Some(m) => m.mustatil,
                    None => kaamil,
                };
                match i.miqbad {
                    Some(miqbad) => WadaMuharrir::Tahjim { hadaf: i.hadaf, miqbad, asli, hali: nuqta },
                    None => WadaMuharrir::Naql { hadaf: i.hadaf, imsak: nuqta, asli, hali: nuqta },
                }
            },
            None => WadaMuharrir::Rasm { bidaya: nuqta, hali: nuqta },
        };
        self.wada
    }

    /// Moves the drag to `nuqta`; does nothing when idle, so motion events
    /// need no filtering.
    pub fn harrik(&mut self, nuqta: P)
        ensures
            final(self).wada_s() == harrik_s(old(self).wada_s(), nuqta),
    {
        self.wada = match self.wada {
            WadaMuharrir::Khamil => WadaMuharrir::Khamil,
            WadaMuharrir::Rasm { bidaya, .. } => WadaMuharrir::Rasm { bidaya, hali: nuqta },
            WadaMuharrir::Naql { hadaf, imsak, asli, .. } => WadaMuharrir::Naql {
                hadaf,
                imsak,
                asli,
                hali: nuqta,
            },
            WadaMuharrir::Tahjim { hadaf, miqbad, asli, .. } => WadaMuharrir::Tahjim {
                hadaf,
                miqbad,
                asli,
                hali: nuqta,
            },
        };
    }

    /// Abandons whatever is in progress and reports whether anything was.
    pub fn alghi(&mut self) -> (r: bool)
        ensures
            r == !(old(self).wada_s() is Khamil),
            final(self).wada_s() is Khamil,
    {
        let kan = self.wada.fi_sahb();
        self.wada = WadaMuharrir::Khamil;
        kan
    }

    /// Ends the drag and produces its one outcome. `mustatil` is the
    /// rectangle the drag outlines, `lahu_misaha` whether it has area and
    /// `saghir` whether a side is below the shortest usable one; an idle
    /// editor ignores all three.
    pub fn anhi_sahb(&mut self, mustatil: R, lahu_misaha: bool, saghir: bool) -> (r: NatijatTahrir<
        R,
    >)
        ensures
            r == nihaya_s(old(self).wada_s(), mustatil, lahu_misaha, saghir),
            final(self).wada_s() is Khamil,
    {
        let wada = self.wada;
        self.wada = WadaMuharrir::Khamil;
        match wada {
            WadaMuharrir::Khamil => NatijatTahrir::LaShay,
            WadaMuharrir::Rasm { .. } => {
                if !lahu_misaha {
                    NatijatTahrir::Mulgha { sabab: SABAB_BILA_MISAHA, unwan: UNWAN_BILA_MISAHA }
                } else if saghir {
                    NatijatTahrir::Mulgha { sabab: SABAB_SAGHIR, unwan: UNWAN_SAGHIR }
                } else {
                    NatijatTahrir::Jadeeda(mustatil)
                }
            },
            WadaMuharrir::Naql { hadaf, .. } => NatijatTahrir::Munaqqala { hadaf, mustatil },
            WadaMuharrir::Tahjim { hadaf, .. } => {
                if !lahu_misaha || saghir {
                    NatijatTahrir::Mulgha { sabab: SABAB_TAY, unwan: UNWAN_TAY }
                } else {
                    NatijatTahrir::Muhajjama { hadaf, mustatil }
                }
            },
        }
    }
}

impl<P: Copy, R: Copy> Default for MuharrirManatiq<P, R> {
    fn default() -> (r: Self)
        ensures
            r.wada_s() is Khamil,
    {
        Self::jadeed()
    }
}

/// A drag that is moved keeps its kind, its region and its start, and a
/// moved drag ends as the unmoved one would have given the same rectangle:
/// only the rectangle the caller measures from the pointer changes the
/// outcome.
pub proof fn qanun_harrik_yahfaz<P, R>(wada: WadaMuharrir<P, R>, nuqta: P, mustatil: R, m: bool, s: bool)
    ensures
        (harrik_s(wada, nuqta) is Khamil) == (wada is Khamil),
        (harrik_s(wada, nuqta) is Rasm) == (wada is Rasm),
        (harrik_s(wada, nuqta) is Naql) == (wada is Naql),
        (harrik_s(wada, nuqta) is Tahjim) == (wada is Tahjim),
        nihaya_s(harrik_s(wada, nuqta), mustatil, m, s) == nihaya_s(wada, mustatil, m, s),
{
}

/// A drawn rectangle with no area never becomes a region, and neither does
/// a resize that collapses one: both are thrown away with a reason.
pub proof fn qanun_la_mintaqa_bila_misaha<P, R>(wada: WadaMuharrir<P, R>, mustatil: R, saghir: bool)
    requires
        !(wada is Khamil),
        !(wada is Naql),
    ensures
        nihaya_s(wada, mustatil, false, saghir) is Mulgha,
{
}

/// No drag ever yields a region too small to hold readable text or
/// without area: a drawn or resized rectangle that fails either test is
/// thrown away with a reason, and a new or resized region comes out only
/// from a rectangle that passes both; a resize that passes keeps its target.
pub proof fn qanun_la_mintaqa_saghira<P, R>(wada: WadaMuharrir<P, R>, mustatil: R, lahu_misaha: bool, saghir: bool)
    ensures
        (wada is Rasm || wada is Tahjim) && (saghir || !lahu_misaha) ==> nihaya_s(
            wada,
            mustatil,
            lahu_misaha,
            saghir,
        ) is Mulgha,
        nihaya_s(wada, mustatil, lahu_misaha, saghir) is Jadeeda ==> wada is Rasm && lahu_misaha && !saghir,
        nihaya_s(wada, mustatil, lahu_misaha, saghir) matches NatijatTahrir::Muhajjama { hadaf, mustatil: m }
            ==> wada matches WadaMuharrir::Tahjim { hadaf: h, .. } && h == hadaf && m == mustatil && lahu_misaha
            && !saghir,
{
}

} // verus!
