//! Finding the places text keeps appearing, so a player does not have to draw
//! every box by hand.
//!
//! Each sample of the screen brings a batch of text blocks. A block that
//! matches a known candidate raises that candidate's stability by one, once
//! per sample however many blocks match it; a candidate missing from a sample
//! loses the decay, and a candidate at zero is forgotten. The table is bounded
//! and, once full, refuses a newcomer unless some candidate is at the floor
//! and absent from the sample, counting every refusal.
//!
//! Rectangles are surface-normalized fractions, carried here as an opaque
//! `R`. Which candidate a block matches, and where a candidate's rectangle
//! moves after a new sighting, are geometric judgements taken where the
//! fractions live and handed in with each block. So a sample is recorded in
//! three steps: [`IktishafTilqai::ibda_jeel`], one
//! [`IktishafTilqai::sajjil_kutla`] per block, and
//! [`IktishafTilqai::akmil_jeel`].

use vstd::prelude::*;

use crate::manatiq::{
    sahib_ism, wahhid_ism_s, MajmuatManatiq, NatijatMintaqa, QaidatTarjama, AQSA_MANATIQ,
};
use crate::nass::{aktub_ashri, ashri, ilhaq, min_nass};

verus! {

/// The stability a block must reach to be proposed.
pub const HADD_IQTIRAH_IFTIRADI: u32 = 24;

/// What a missed sample costs a candidate: three, against a gain of one, so a
/// block must be present in three samples out of four to hold its ground.
pub const INHILAL_IFTIRADI: u32 = 3;

/// The ceiling on a stability score, so a box on screen for an hour does not
/// take minutes of absence to be forgotten.
pub const SAQF_THABAT: u32 = 240;

/// How many candidates are tracked at once.
pub const AQSA_MURASHSHAHAT: usize = 128;

/// One place text keeps appearing, and how sure the detector is about it.
#[derive(Debug, Clone, Copy)]
pub struct Murashshah<R> {
    /// Where the text keeps appearing, following every sighting.
    pub mustatil: R,
    /// Raised by one per sample seen, lowered by the decay per sample missed.
    pub thabat: u32,
    /// How many samples this block has been seen in, ever.
    pub marrat: u64,
    /// The sample it was first seen in.
    pub jeel_awwal: u64,
    /// The sample it was last seen in.
    pub jeel_akhir: u64,
}

/// `a + 1` for a counter that stops at its ceiling.
pub open spec fn zid64(a: u64) -> u64 {
    if a < u64::MAX {
        (a + 1) as u64
    } else {
        a
    }
}

/// The sentence the panel shows beside a proposal.
pub open spec fn wasf_murashshah<R>(m: Murashshah<R>) -> Seq<char> {
    "seen in "@ + ashri(m.marrat as nat) + " of the samples since "@ + ashri(m.jeel_awwal as nat)
        + ", stability "@ + ashri(m.thabat as nat)
}

impl<R> Murashshah<R> {
    /// Where the text keeps appearing.
    pub fn mustatil(&self) -> (r: &R)
        ensures
            *r == self.mustatil,
    {
        &self.mustatil
    }

    /// The stability score.
    pub fn thabat(&self) -> (r: u32)
        ensures
            r == self.thabat,
    {
        self.thabat
    }

    /// How many samples this block has been seen in.
    pub fn marrat(&self) -> (r: u64)
        ensures
            r == self.marrat,
    {
        self.marrat
    }

    /// The sample it was first seen in.
    pub fn jeel_awwal(&self) -> (r: u64)
        ensures
            r == self.jeel_awwal,
    {
        self.jeel_awwal
    }

    /// The sample it was last seen in.
    pub fn jeel_akhir(&self) -> (r: u64)
        ensures
            r == self.jeel_akhir,
    {
        self.jeel_akhir
    }

    /// Whether it has earned a proposal at the threshold `hadd`.
    pub fn mustaqirr(&self, hadd: u32) -> (r: bool)
        ensures
            r == (self.thabat >= hadd),
    {
        self.thabat >= hadd
    }

    /// The sentence the panel shows beside a proposal.
    pub fn wasf(&self) -> (r: String)
        ensures
            r@ == wasf_murashshah(*self),
    {
        let mut r = min_nass("seen in ");
        aktub_ashri(&mut r, self.marrat);
        ilhaq(&mut r, " of the samples since ");
        aktub_ashri(&mut r, self.jeel_awwal);
        ilhaq(&mut r, ", stability ");
        aktub_ashri(&mut r, self.thabat as u64);
        r
    }
}

/// A block seen for the first time, in sample `jeel`.
pub open spec fn jadeed_s<R>(nisbi: R, jeel: u64) -> Murashshah<R> {
    Murashshah { mustatil: nisbi, thabat: 1, marrat: 1, jeel_awwal: jeel, jeel_akhir: jeel }
}

/// A candidate seen again in sample `jeel`, its rectangle now `mudmaj`: one
/// more sighting, one more point of stability up to the ceiling.
pub open spec fn raf_s<R>(m: Murashshah<R>, mudmaj: R, jeel: u64) -> Murashshah<R> {
    Murashshah {
        mustatil: mudmaj,
        thabat: if m.thabat + 1 < SAQF_THABAT {
            (m.thabat + 1) as u32
        } else {
            SAQF_THABAT
        },
        marrat: zid64(m.marrat),
        jeel_awwal: m.jeel_awwal,
        jeel_akhir: jeel,
    }
}

/// A candidate that may give its place to a newcomer: absent from sample
/// `jeel` and at the floor.
pub open spec fn mahlul<R>(m: Murashshah<R>, jeel: u64) -> bool {
    m.jeel_akhir != jeel && m.thabat <= 1
}

/// `a` is weaker than `b`: less stable, or as stable and seen longer ago.
pub open spec fn adaf<R>(a: Murashshah<R>, b: Murashshah<R>) -> bool {
    a.thabat < b.thabat || (a.thabat == b.thabat && a.jeel_akhir < b.jeel_akhir)
}

/// Among the first `n` candidates, the first of the weakest that may give
/// its place in sample `jeel`.
pub open spec fn daeef_s<R>(s: Seq<Murashshah<R>>, jeel: u64, n: nat) -> Option<nat>
    decreases n,
{
    if n == 0 {
        None
    } else {
        let k = (n - 1) as nat;
        let b = daeef_s(s, jeel, k);
        if !mahlul(s[k as int], jeel) {
            b
        } else {
            match b {
                None => Some(k),
                Some(j) => if adaf(s[k as int], s[j as int]) {
                    Some(k)
                } else {
                    b
                },
            }
        }
    }
}

/// The weakest is one that may give its place, no other that may is weaker,
/// and none before it is as weak; when there is none, no candidate may.
pub proof fn lemma_daeef<R>(s: Seq<Murashshah<R>>, jeel: u64, n: nat)
    requires
        n <= s.len(),
    ensures
        daeef_s(s, jeel, n) matches Some(k) ==> k < n && mahlul(s[k as int], jeel) && (forall|j: int|
            0 <= j < n && mahlul(#[trigger] s[j], jeel) ==> !adaf(s[j], s[k as int])) && (forall|
            j: int|
            0 <= j < k && mahlul(#[trigger] s[j], jeel) ==> adaf(s[k as int], s[j])),
        daeef_s(s, jeel, n) is None ==> forall|j: int| 0 <= j < n ==> !mahlul(#[trigger] s[j], jeel),
    decreases n,
{
    if n > 0 {
        lemma_daeef(s, jeel, (n - 1) as nat);
    }
}

/// What one block does to the table and the refusal count in sample `jeel`:
/// a match raises its candidate unless that candidate was already raised in
/// this sample (a match past the end changes nothing), and no match adds a
/// candidate, making room in a full table only by dropping the weakest
/// candidate that may give its place, and otherwise refusing and counting.
pub open spec fn kutla_s<R>(
    s: Seq<Murashshah<R>>,
    muhmala: u64,
    jeel: u64,
    nisbi: R,
    mutabiq: Option<(usize, R)>,
) -> (Seq<Murashshah<R>>, u64) {
    match mutabiq {
        Some((i, mudmaj)) => if i < s.len() && s[i as int].jeel_akhir != jeel {
            (s.update(i as int, raf_s(s[i as int], mudmaj, jeel)), muhmala)
        } else {
            (s, muhmala)
        },
        None => if s.len() < AQSA_MURASHSHAHAT {
            (s.push(jadeed_s(nisbi, jeel)), muhmala)
        } else {
            match daeef_s(s, jeel, s.len()) {
                Some(k) => (s.remove(k as int).push(jadeed_s(nisbi, jeel)), muhmala),
                None => (s, zid64(muhmala)),
            }
        },
    }
}

/// A candidate at the end of sample `jeel`: unchanged if seen in it,
/// otherwise lowered by the decay, not below zero.
pub open spec fn inhal_s<R>(m: Murashshah<R>, jeel: u64, inhilal: u32) -> Murashshah<R> {
    if m.jeel_akhir == jeel {
        m
    } else {
        Murashshah {
            thabat: if m.thabat > inhilal {
                (m.thabat - inhilal) as u32
            } else {
                0
            },
            ..m
        }
    }
}

/// The table after sample `jeel`: every candidate decayed as it should be,
/// those at zero gone, the rest in their order.
pub open spec fn baqi_s<R>(s: Seq<Murashshah<R>>, jeel: u64, inhilal: u32) -> Seq<Murashshah<R>>
    decreases s.len(),
{
    if s.len() == 0 {
        s
    } else {
        let r = baqi_s(s.drop_last(), jeel, inhilal);
        let m = inhal_s(s.last(), jeel, inhilal);
        if m.thabat > 0 {
            r.push(m)
        } else {
            r
        }
    }
}

/// The candidates at or above the threshold `hadd`, in table order.
pub open spec fn mustaqirra_s<R>(s: Seq<Murashshah<R>>, hadd: u32) -> Seq<Murashshah<R>>
    decreases s.len(),
{
    if s.len() == 0 {
        s
    } else {
        let r = mustaqirra_s(s.drop_last(), hadd);
        if s.last().thabat >= hadd {
            r.push(s.last())
        } else {
            r
        }
    }
}

/// Finds the places text keeps appearing, sample by sample.
#[derive(Debug, Clone)]
pub struct IktishafTilqai<R> {
    murashshahat: Vec<Murashshah<R>>,
    jeel: u64,
    hadd_iqtirah: u32,
    inhilal: u32,
    muhmala: u64,
}

impl<R> IktishafTilqai<R> {
    pub closed spec fn murashshahat_s(self) -> Seq<Murashshah<R>> {
        self.murashshahat@
    }

    pub closed spec fn jeel_s(self) -> u64 {
        self.jeel
    }

    pub closed spec fn hadd_s(self) -> u32 {
        self.hadd_iqtirah
    }

    pub closed spec fn inhilal_s(self) -> u32 {
        self.inhilal
    }

    pub closed spec fn muhmala_s(self) -> u64 {
        self.muhmala
    }

    /// What every step keeps: at most [`AQSA_MURASHSHAHAT`] candidates, each
    /// with a stability from one to the ceiling, seen at least once, first
    /// seen no later than last seen and last seen no later than the current
    /// sample; a threshold of at least two and a decay of at least one.
    pub open spec fn salim(self) -> bool {
        let s = self.murashshahat_s();
        &&& s.len() <= AQSA_MURASHSHAHAT
        &&& forall|i: int| 0 <= i < s.len() ==> salih_m(#[trigger] s[i], self.jeel_s())
        &&& self.hadd_s() >= 2
        &&& self.inhilal_s() >= 1
    }

    /// Only the table and the counters may differ: the settings are as they
    /// were.
    pub open spec fn nafs_al_idadat(self, akhar: Self) -> bool {
        self.hadd_s() == akhar.hadd_s() && self.inhilal_s() == akhar.inhilal_s()
    }

    /// A detector with nothing seen yet, at the default settings.
    pub fn jadeed() -> (r: Self)
        ensures
            r.salim(),
            r.murashshahat_s().len() == 0,
            r.jeel_s() == 0,
            r.muhmala_s() == 0,
            r.hadd_s() == HADD_IQTIRAH_IFTIRADI,
            r.inhilal_s() == INHILAL_IFTIRADI,
    {
        IktishafTilqai {
            murashshahat: Vec::new(),
            jeel: 0,
            hadd_iqtirah: HADD_IQTIRAH_IFTIRADI,
            inhilal: INHILAL_IFTIRADI,
            muhmala: 0,
        }
    }

    /// How many samples have been opened.
    pub fn jeel(&self) -> (r: u64)
        ensures
            r == self.jeel_s(),
    {
        self.jeel
    }

    /// How many newcomers a full table refused.
    pub fn muhmala(&self) -> (r: u64)
        ensures
            r == self.muhmala_s(),
    {
        self.muhmala
    }

    /// What a missed sample costs a candidate.
    pub fn inhilal(&self) -> (r: u32)
        ensures
            r == self.inhilal_s(),
    {
        self.inhilal
    }

    /// The stability a block must reach to be proposed.
    pub fn hadd_iqtirah(&self) -> (r: u32)
        ensures
            r == self.hadd_s(),
    {
        self.hadd_iqtirah
    }

    /// Every candidate tracked, proposed or not, in table order.
    pub fn murashshahat(&self) -> (r: &[Murashshah<R>])
        ensures
            r@ == self.murashshahat_s(),
    {
        self.murashshahat.as_slice()
    }

    /// Changes the threshold, with a floor of two: a block seen once has
    /// told nothing.
    pub fn ihdud_hadd_iqtirah(&mut self, hadd: u32)
        requires
            old(self).salim(),
        ensures
            final(self).salim(),
            final(self).hadd_s() == if hadd < 2 {
                2
            } else {
                hadd
            },
            final(self).inhilal_s() == old(self).inhilal_s(),
            final(self).murashshahat_s() == old(self).murashshahat_s(),
            final(self).jeel_s() == old(self).jeel_s(),
            final(self).muhmala_s() == old(self).muhmala_s(),
    {
        self.hadd_iqtirah = if hadd < 2 {
            2
        } else {
            hadd
        };
    }

    /// Changes the decay, with a floor of one: with none, nothing would ever
    /// be forgotten.
    pub fn ihdud_inhilal(&mut self, inhilal: u32)
        requires
            old(self).salim(),
        ensures
            final(self).salim(),
            final(self).inhilal_s() == if inhilal == 0 {
                1
            } else {
                inhilal
            },
            final(self).hadd_s() == old(self).hadd_s(),
            final(self).murashshahat_s() == old(self).murashshahat_s(),
            final(self).jeel_s() == old(self).jeel_s(),
            final(self).muhmala_s() == old(self).muhmala_s(),
    {
        self.inhilal = if inhilal == 0 {
            1
        } else {
            inhilal
        };
    }

    /// Forgets every candidate and the counts, keeping the settings.
    pub fn imsah(&mut self)
        requires
            old(self).salim(),
        ensures
            final(self).salim(),
            final(self).murashshahat_s().len() == 0,
            final(self).jeel_s() == 0,
            final(self).muhmala_s() == 0,
            final(self).nafs_al_idadat(*old(self)),
    {
        self.murashshahat.clear();
        self.jeel = 0;
        self.muhmala = 0;
    }
}

impl<R: Copy> IktishafTilqai<R> {
    /// Opens the next sample and returns its generation; the count stops at
    /// its ceiling.
    pub fn ibda_jeel(&mut self) -> (r: u64)
        requires
            old(self).salim(),
        ensures
            r == zid64(old(self).jeel_s()),
            final(self).jeel_s() == r,
            final(self).murashshahat_s() == old(self).murashshahat_s(),
            final(self).muhmala_s() == old(self).muhmala_s(),
            final(self).nafs_al_idadat(*old(self)),
            final(self).salim(),
    {
        self.jeel = if self.jeel < u64::MAX {
            self.jeel + 1
        } else {
            self.jeel
        };
        proof {
            let s = self.murashshahat@;
            assert forall|i: int| 0 <= i < s.len() implies salih_m(#[trigger] s[i], self.jeel) by {
                assert(salih_m(old(self).murashshahat@[i], old(self).jeel));
            }
        }
        self.jeel
    }

    /// The weakest candidate that may give its place in sample `jeel`.
    fn daeef(&self, jeel: u64) -> (r: Option<usize>)
        ensures
            match r {
                Some(k) => daeef_s(self.murashshahat_s(), jeel, self.murashshahat_s().len())
                    == Some(k as nat),
                None => daeef_s(self.murashshahat_s(), jeel, self.murashshahat_s().len()) is None,
            },
    {
        let mut b: Option<usize> = None;
        let mut n: usize = 0;
        while n < self.murashshahat.len()
            invariant
                n <= self.murashshahat@.len(),
                match b {
                    Some(k) => daeef_s(self.murashshahat@, jeel, n as nat) == Some(k as nat),
                    None => daeef_s(self.murashshahat@, jeel, n as nat) is None,
                },
            decreases self.murashshahat@.len() - n,
        {
            proof {
                lemma_daeef(self.murashshahat@, jeel, n as nat);
            }
            let m = self.murashshahat[n];
            if m.jeel_akhir != jeel && m.thabat <= 1 {
                match b {
                    None => {
                        b = Some(n);
                    },
                    Some(j) => {
                        let q = self.murashshahat[j];
                        if m.thabat < q.thabat || (m.thabat == q.thabat && m.jeel_akhir
                            < q.jeel_akhir) {
                            b = Some(n);
                        }
                    },
                }
            }
            n = n + 1;
        }
        b
    }

    /// Records one block of the sample opened last. `mutabiq` is the
    /// candidate it matched, by position, with that candidate's rectangle
    /// after the sighting is blended in; `None` when it matched none, and
    /// `nisbi` is then the newcomer's rectangle.
    pub fn sajjil_kutla(&mut self, nisbi: R, mutabiq: Option<(usize, R)>)
        requires
            old(self).salim(),
        ensures
            (final(self).murashshahat_s(), final(self).muhmala_s()) == kutla_s(
                old(self).murashshahat_s(),
                old(self).muhmala_s(),
                old(self).jeel_s(),
                nisbi,
                mutabiq,
            ),
            final(self).jeel_s() == old(self).jeel_s(),
            final(self).nafs_al_idadat(*old(self)),
            final(self).salim(),
    {
        let jeel = self.jeel;
        let ghost s = self.murashshahat@;
        match mutabiq {
            Some((i, mudmaj)) => {
                if i < self.murashshahat.len() {
                    let m = self.murashshahat[i];
                    if m.jeel_akhir != jeel {
                        let thabat = if m.thabat < SAQF_THABAT - 1 {
                            m.thabat + 1
                        } else {
                            SAQF_THABAT
                        };
                        let marrat = if m.marrat < u64::MAX {
                            m.marrat + 1
                        } else {
                            m.marrat
                        };
                        self.murashshahat[i] = Murashshah {
                            mustatil: mudmaj,
                            thabat,
                            marrat,
                            jeel_awwal: m.jeel_awwal,
                            jeel_akhir: jeel,
                        };
                        proof {
                            assert(salih_m(s[i as int], jeel));
                            assert forall|k: int| 0 <= k < self.murashshahat@.len() implies salih_m(
                                #[trigger] self.murashshahat@[k],
                                jeel,
                            ) by {
                                if k != i {
                                    assert(self.murashshahat@[k] == s[k]);
                                }
                            }
                        }
                    }
                }
            },
            None => {
                if self.murashshahat.len() >= AQSA_MURASHSHAHAT {
                    match self.daeef(jeel) {
                        Some(k) => {
                            proof {
                                lemma_daeef(s, jeel, s.len());
                            }
                            let _ = self.murashshahat.remove(k);
                            proof {
                                assert forall|j: int| 0 <= j < self.murashshahat@.len() implies salih_m(
                                    #[trigger] self.murashshahat@[j],
                                    jeel,
                                ) by {
                                    if j < k {
                                        assert(self.murashshahat@[j] == s[j]);
                                    } else {
                                        assert(self.murashshahat@[j] == s[j + 1]);
                                    }
                                }
                            }
                        },
                        None => {
                            self.muhmala = if self.muhmala < u64::MAX {
                                self.muhmala + 1
                            } else {
                                self.muhmala
                            };
                            return ;
                        },
                    }
                }
                let ghost q = self.murashshahat@;
                self.murashshahat.push(
                    Murashshah { mustatil: nisbi, thabat: 1, marrat: 1, jeel_awwal: jeel, jeel_akhir: jeel },
                );
                proof {
                    assert forall|j: int| 0 <= j < self.murashshahat@.len() implies salih_m(
                        #[trigger] self.murashshahat@[j],
                        jeel,
                    ) by {
                        if j < q.len() {
                            assert(self.murashshahat@[j] == q[j]);
                        }
                    }
                }
            },
        }
    }

    /// Closes the sample opened last and returns its generation: every
    /// candidate not seen in it loses the decay, and those at zero are
    /// forgotten.
    pub fn akmil_jeel(&mut self) -> (r: u64)
        requires
            old(self).salim(),
        ensures
            r == old(self).jeel_s(),
            final(self).murashshahat_s() == baqi_s(
                old(self).murashshahat_s(),
                old(self).jeel_s(),
                old(self).inhilal_s(),
            ),
            final(self).jeel_s() == old(self).jeel_s(),
            final(self).muhmala_s() == old(self).muhmala_s(),
            final(self).nafs_al_idadat(*old(self)),
            final(self).salim(),
    {
        let jeel = self.jeel;
        let inhilal = self.inhilal;
        let ghost s = self.murashshahat@;
        let mut jadid: Vec<Murashshah<R>> = Vec::new();
        let mut i: usize = 0;
        while i < self.murashshahat.len()
            invariant
                self.murashshahat@ == s,
                self.jeel == jeel,
                self.inhilal == inhilal,
                old(self).salim(),
                *old(self) == *self,
                i <= s.len(),
                jadid@ == baqi_s(s.take(i as int), jeel, inhilal),
                jadid@.len() <= i,
                forall|k: int| 0 <= k < jadid@.len() ==> salih_m(#[trigger] jadid@[k], jeel),
            decreases s.len() - i,
        {
            let mut m = self.murashshahat[i];
            proof {
                assert(salih_m(s[i as int], jeel));
            }
            if m.jeel_akhir != jeel {
                m.thabat = if m.thabat > inhilal {
                    m.thabat - inhilal
                } else {
                    0
                };
            }
            proof {
                assert(s.take(i + 1).drop_last() =~= s.take(i as int));
                assert(s.take(i + 1).last() == s[i as int]);
            }
            if m.thabat > 0 {
                jadid.push(m);
            }
            i = i + 1;
        }
        proof {
            assert(s.take(s.len() as int) =~= s);
        }
        self.murashshahat = jadid;
        jeel
    }
}

impl<R: Copy> IktishafTilqai<R> {
    /// The candidates stable enough to offer, in table order.
    pub fn mustaqirra(&self) -> (r: Vec<Murashshah<R>>)
        ensures
            r@ == mustaqirra_s(self.murashshahat_s(), self.hadd_s()),
    {
        let ghost s = self.murashshahat@;
        let mut r: Vec<Murashshah<R>> = Vec::new();
        let mut i: usize = 0;
        while i < self.murashshahat.len()
            invariant
                self.murashshahat@ == s,
                i <= s.len(),
                r@ == mustaqirra_s(s.take(i as int), self.hadd_iqtirah),
            decreases s.len() - i,
        {
            let m = self.murashshahat[i];
            proof {
                assert(s.take(i + 1).drop_last() =~= s.take(i as int));
                assert(s.take(i + 1).last() == s[i as int]);
            }
            if m.thabat >= self.hadd_iqtirah {
                r.push(m);
            }
            i = i + 1;
        }
        proof {
            assert(s.take(s.len() as int) =~= s);
        }
        r
    }
}

/// The name the proposal at place `tarteeb` (from zero) is offered under:
/// numbered, because the detector knows where text appears and nothing of
/// what it says.
pub open spec fn ism_muqtarah_s(tarteeb: nat) -> Seq<char> {
    "منطقة مكتشفة "@ + ashri(
        if tarteeb < usize::MAX {
            tarteeb + 1
        } else {
            tarteeb
        },
    )
}

/// The proposal's name with the suffix `(k)`, or bare for `k` zero.
pub open spec fn ism_raqm_s(tarteeb: nat, k: nat) -> Seq<char> {
    if k == 0 {
        ism_muqtarah_s(tarteeb)
    } else {
        ism_muqtarah_s(tarteeb) + " ("@ + ashri(k) + ")"@
    }
}

/// Whether a region in `s` holds a name that compares equal to `ism`.
pub open spec fn mahjuz<R>(s: Seq<crate::manatiq::Mintaqa<R>>, ism: Seq<char>) -> bool {
    sahib_ism(s, wahhid_ism_s(ism), None, 0) is Some
}

/// The name a proposal is adopted under beside the regions `s`, trying
/// suffixes from `k`: the first that no region holds, and past the most
/// regions a set may hold, the last one tried.
pub open spec fn ism_tabanni_s<R>(s: Seq<crate::manatiq::Mintaqa<R>>, tarteeb: nat, k: nat) -> Seq<
    char,
>
    decreases AQSA_MANATIQ + 1 - k,
{
    if !mahjuz(s, ism_raqm_s(tarteeb, k)) || k + 1 > AQSA_MANATIQ {
        ism_raqm_s(tarteeb, k)
    } else {
        ism_tabanni_s(s, tarteeb, k + 1)
    }
}

/// The name the proposal at place `tarteeb` is offered under.
pub fn ism_muqtarah(tarteeb: usize) -> (r: String)
    ensures
        r@ == ism_muqtarah_s(tarteeb as nat),
{
    let mut r = min_nass("منطقة مكتشفة ");
    let n: usize = if tarteeb < usize::MAX {
        tarteeb + 1
    } else {
        tarteeb
    };
    aktub_ashri(&mut r, n as u64);
    r
}

fn ism_raqm(tarteeb: usize, k: usize) -> (r: String)
    ensures
        r@ == ism_raqm_s(tarteeb as nat, k as nat),
{
    let mut r = ism_muqtarah(tarteeb);
    if k > 0 {
        ilhaq(&mut r, " (");
        aktub_ashri(&mut r, k as u64);
        ilhaq(&mut r, ")");
    }
    r
}

/// The name a proposal is adopted under beside the regions of `majmua`.
pub fn ism_tabanni<R>(majmua: &MajmuatManatiq<R>, tarteeb: usize) -> (r: String)
    ensures
        r@ == ism_tabanni_s(majmua.manatiq_s(), tarteeb as nat, 0),
{
    let mut k: usize = 0;
    loop
        invariant
            k <= AQSA_MANATIQ,
            ism_tabanni_s(majmua.manatiq_s(), tarteeb as nat, 0) == ism_tabanni_s(
                majmua.manatiq_s(),
                tarteeb as nat,
                k as nat,
            ),
        decreases AQSA_MANATIQ - k,
    {
        let ism = ism_raqm(tarteeb, k);
        if !majmua.ism_mahjuz(ism.as_str()) || k + 1 > AQSA_MANATIQ {
            return ism;
        }
        k = k + 1;
    }
}

/// Adopts the proposal at place `tarteeb` as a region: named as
/// [`ism_tabanni`] says, suffixed rather than refused when the player
/// already used the name, read on change, and added as
/// [`MajmuatManatiq::adif`] adds (`lahu_misaha` is the rectangle's own test).
pub fn tabanna_iqtirah<R>(
    majmua: &mut MajmuatManatiq<R>,
    tarteeb: usize,
    mustatil: R,
    lahu_misaha: bool,
) -> (r: NatijatMintaqa)
    ensures
        old(majmua).adif_s(
            *final(majmua),
            r,
            ism_tabanni_s(old(majmua).manatiq_s(), tarteeb as nat, 0),
            mustatil,
            lahu_misaha,
            QaidatTarjama::IndaTaghyeer,
        ),
        old(majmua).salima() && old(majmua).talee_fawq() ==> final(majmua).salima(),
        old(majmua).asma_mutafarrida() ==> final(majmua).asma_mutafarrida(),
{
    let ism = ism_tabanni(majmua, tarteeb);
    majmua.adif(ism.as_str(), mustatil, lahu_misaha, QaidatTarjama::IndaTaghyeer)
}

/// Two blocks of one sample that match the same candidate raise it once, not
/// twice: the second match changes nothing, and the candidate stands one
/// point above where it started, up to the ceiling.
pub proof fn qanun_marra_fi_al_jeel<R>(
    s: Seq<Murashshah<R>>,
    muhmala: u64,
    jeel: u64,
    i: usize,
    awwal: (R, R),
    thani: (R, R),
)
    requires
        i < s.len(),
        s[i as int].jeel_akhir != jeel,
    ensures
        ({
            let (s1, m1) = kutla_s(s, muhmala, jeel, awwal.0, Some((i, awwal.1)));
            let (s2, m2) = kutla_s(s1, m1, jeel, thani.0, Some((i, thani.1)));
            &&& s2 == s1
            &&& m2 == muhmala
            &&& s2.len() == s.len()
            &&& s2[i as int].thabat == if s[i as int].thabat + 1 < SAQF_THABAT {
                s[i as int].thabat + 1
            } else {
                SAQF_THABAT as int
            }
            &&& s2[i as int].jeel_akhir == jeel
        }),
{
}

/// What a sample's blocks, in order, do to the table and the refusal count.
pub open spec fn kutal_s<R>(
    s: Seq<Murashshah<R>>,
    muhmala: u64,
    jeel: u64,
    kutal: Seq<(R, Option<(usize, R)>)>,
) -> (Seq<Murashshah<R>>, u64)
    decreases kutal.len(),
{
    if kutal.len() == 0 {
        (s, muhmala)
    } else {
        let (t, m) = kutal_s(s, muhmala, jeel, kutal.drop_last());
        kutla_s(t, m, jeel, kutal.last().0, kutal.last().1)
    }
}

/// A candidate first seen in sample `jeel`, once.
pub open spec fn jadeed_fi<R>(m: Murashshah<R>, jeel: u64) -> bool {
    m.jeel_awwal == jeel && m.jeel_akhir == jeel && m.thabat == 1 && m.marrat == 1
}

/// `m` is `a` after sample `jeel` so far: untouched when not seen in it,
/// else raised exactly once, one point of stability up to the ceiling and
/// one sighting.
pub open spec fn min_asl<R>(m: Murashshah<R>, a: Murashshah<R>, jeel: u64) -> bool {
    ||| m.jeel_akhir != jeel && m == a
    ||| m.jeel_akhir == jeel && a.jeel_akhir != jeel && m.jeel_awwal == a.jeel_awwal && m.thabat == (if a.thabat
        + 1 < SAQF_THABAT {
        (a.thabat + 1) as u32
    } else {
        SAQF_THABAT
    }) && m.marrat == zid64(a.marrat)
}

/// Where a candidate in the table during sample `jeel` comes from: a block
/// new in it, or one of the candidates `s0` the sample opened with.
pub open spec fn asl_fi<R>(m: Murashshah<R>, s0: Seq<Murashshah<R>>, jeel: u64) -> bool {
    jadeed_fi(m, jeel) || exists|j: int| 0 <= j < s0.len() && #[trigger] min_asl(m, s0[j], jeel)
}

proof fn lemma_kutal<R>(s: Seq<Murashshah<R>>, muhmala: u64, jeel: u64, kutal: Seq<(R, Option<(usize, R)>)>)
    requires
        s.len() <= AQSA_MURASHSHAHAT,
        forall|j: int| 0 <= j < s.len() ==> (#[trigger] s[j]).jeel_akhir != jeel,
    ensures
        ({
            let (t, m) = kutal_s(s, muhmala, jeel, kutal);
            &&& t.len() <= AQSA_MURASHSHAHAT
            &&& m >= muhmala
            &&& forall|k: int| 0 <= k < t.len() ==> #[trigger] asl_fi(t[k], s, jeel)
        }),
    decreases kutal.len(),
{
    if kutal.len() == 0 {
        assert forall|k: int| 0 <= k < s.len() implies #[trigger] asl_fi(s[k], s, jeel) by {
            assert(min_asl(s[k], s[k], jeel));
        }
    } else {
        lemma_kutal(s, muhmala, jeel, kutal.drop_last());
        let (t, m) = kutal_s(s, muhmala, jeel, kutal.drop_last());
        let nisbi = kutal.last().0;
        match kutal.last().1 {
            Some((i, mudmaj)) => {
                if i < t.len() && t[i as int].jeel_akhir != jeel {
                    let t2 = t.update(i as int, raf_s(t[i as int], mudmaj, jeel));
                    assert(asl_fi(t[i as int], s, jeel));
                    let j = choose|j: int| 0 <= j < s.len() && #[trigger] min_asl(t[i as int], s[j], jeel);
                    assert(0 <= j < s.len() && min_asl(t[i as int], s[j], jeel));
                    assert(t[i as int] == s[j]);
                    assert(min_asl(t2[i as int], s[j], jeel));
                    assert forall|k: int| 0 <= k < t2.len() implies #[trigger] asl_fi(t2[k], s, jeel) by {
                        if k != i {
                            assert(t2[k] == t[k]);
                            assert(asl_fi(t[k], s, jeel));
                        } else {
                            assert(min_asl(t2[k], s[j], jeel));
                        }
                    }
                }
            },
            None => {
                lemma_daeef(t, jeel, t.len());
                if t.len() < AQSA_MURASHSHAHAT {
                    let t2 = t.push(jadeed_s(nisbi, jeel));
                    assert forall|k: int| 0 <= k < t2.len() implies #[trigger] asl_fi(t2[k], s, jeel) by {
                        if k < t.len() {
                            assert(t2[k] == t[k]);
                            assert(asl_fi(t[k], s, jeel));
                        }
                    }
                } else {
                    match daeef_s(t, jeel, t.len()) {
                        Some(q) => {
                            let t2 = t.remove(q as int).push(jadeed_s(nisbi, jeel));
                            assert forall|k: int| 0 <= k < t2.len() implies #[trigger] asl_fi(t2[k], s, jeel) by {
                                if k < q {
                                    assert(t2[k] == t[k]);
                                    assert(asl_fi(t[k], s, jeel));
                                } else if k < t.len() - 1 {
                                    assert(t2[k] == t[k + 1]);
                                    assert(asl_fi(t[k + 1], s, jeel));
                                }
                            }
                        },
                        None => {},
                    }
                }
            },
        }
    }
}

/// A whole sample raises no candidate more than once: whatever blocks it
/// records, and however many of them match one candidate, every candidate
/// in the table afterwards is either new in the sample or one it opened with,
/// untouched or one point of stability and one sighting above where it was;
/// the table stays within its size, and the refusal count never falls.
pub proof fn qanun_jeel_wahid<R>(d0: IktishafTilqai<R>, d1: IktishafTilqai<R>, kutal: Seq<(R, Option<(usize, R)>)>)
    requires
        d0.salim(),
        d0.jeel_s() < u64::MAX,
        d1.jeel_s() == zid64(d0.jeel_s()),
        d1.murashshahat_s() == d0.murashshahat_s(),
        d1.muhmala_s() == d0.muhmala_s(),
    ensures
        ({
            let (t, m) = kutal_s(d1.murashshahat_s(), d1.muhmala_s(), d1.jeel_s(), kutal);
            &&& t.len() <= AQSA_MURASHSHAHAT
            &&& m >= d0.muhmala_s()
            &&& forall|k: int| 0 <= k < t.len() ==> #[trigger] asl_fi(t[k], d0.murashshahat_s(), d1.jeel_s())
        }),
{
    let s = d0.murashshahat_s();
    assert forall|j: int| 0 <= j < s.len() implies (#[trigger] s[j]).jeel_akhir != d1.jeel_s() by {
        assert(salih_m(s[j], d0.jeel_s()));
    }
    lemma_kutal(s, d0.muhmala_s(), d1.jeel_s(), kutal);
}

/// A full table refuses a newcomer, and counts the refusal, when no
/// candidate may give its place; when one may, the newcomer takes the place
/// of the weakest of them and the table keeps its size.
pub proof fn qanun_jadwal_mumtali<R>(s: Seq<Murashshah<R>>, muhmala: u64, jeel: u64, nisbi: R)
    requires
        s.len() == AQSA_MURASHSHAHAT,
    ensures
        (forall|j: int| 0 <= j < s.len() ==> !mahlul(#[trigger] s[j], jeel)) ==> kutla_s(
            s,
            muhmala,
            jeel,
            nisbi,
            None,
        ) == (s, zid64(muhmala)),
        (exists|j: int| 0 <= j < s.len() && mahlul(#[trigger] s[j], jeel)) ==> ({
            let (t, m) = kutla_s(s, muhmala, jeel, nisbi, None);
            &&& m == muhmala
            &&& t.len() == s.len()
            &&& t.last() == jadeed_s(nisbi, jeel)
            &&& exists|k: int|
                0 <= k < s.len() && mahlul(#[trigger] s[k], jeel) && t.drop_last() == s.remove(k)
                    && forall|j: int|
                    0 <= j < s.len() && mahlul(#[trigger] s[j], jeel) ==> !adaf(s[j], s[k])
        }),
{
    lemma_daeef(s, jeel, s.len());
    if exists|j: int| 0 <= j < s.len() && mahlul(#[trigger] s[j], jeel) {
        let j = choose|j: int| 0 <= j < s.len() && mahlul(#[trigger] s[j], jeel);
        assert(mahlul(s[j], jeel));
        let k = daeef_s(s, jeel, s.len()).unwrap();
        let t = s.remove(k as int).push(jadeed_s(nisbi, jeel));
        assert(t.drop_last() =~= s.remove(k as int));
        assert(mahlul(s[k as int], jeel));
    }
}

/// At the close of a sample nothing at zero survives, the table does not
/// grow, and a candidate seen in the sample survives as it was.
pub proof fn qanun_hadir_yabqa<R>(s: Seq<Murashshah<R>>, jeel: u64, inhilal: u32)
    ensures
        baqi_s(s, jeel, inhilal).len() <= s.len(),
        forall|k: int|
            0 <= k < baqi_s(s, jeel, inhilal).len() ==> (#[trigger] baqi_s(s, jeel, inhilal)[k]).thabat
                > 0,
        forall|j: int|
            0 <= j < s.len() && s[j].jeel_akhir == jeel && s[j].thabat > 0 ==> baqi_s(
                s,
                jeel,
                inhilal,
            ).contains(#[trigger] s[j]),
    decreases s.len(),
{
    if s.len() > 0 {
        let d = s.drop_last();
        qanun_hadir_yabqa(d, jeel, inhilal);
        let r = baqi_s(d, jeel, inhilal);
        let m = inhal_s(s.last(), jeel, inhilal);
        let b = baqi_s(s, jeel, inhilal);
        assert forall|k: int| 0 <= k < b.len() implies (#[trigger] b[k]).thabat > 0 by {
            if k < r.len() {
                assert(b[k] == r[k]);
            }
        }
        assert forall|j: int|
            0 <= j < s.len() && s[j].jeel_akhir == jeel && s[j].thabat > 0 implies b.contains(
            #[trigger] s[j],
        ) by {
            if j < s.len() - 1 {
                assert(d[j] == s[j]);
                assert(r.contains(d[j]));
                let x = choose|x: int| 0 <= x < r.len() && r[x] == d[j];
                assert(b[x] == s[j]);
            } else {
                assert(m == s[j]);
                assert(b[b.len() - 1] == s[j]);
            }
        }
    }
}

impl<R> Default for IktishafTilqai<R> {
    fn default() -> (r: Self)
        ensures
            r.salim(),
            r.murashshahat_s().len() == 0,
            r.jeel_s() == 0,
            r.muhmala_s() == 0,
            r.hadd_s() == HADD_IQTIRAH_IFTIRADI,
            r.inhilal_s() == INHILAL_IFTIRADI,
    {
        Self::jadeed()
    }
}

/// The table after `n` samples, from `jeel + 1` on, in which no block was
/// seen.
pub open spec fn samt_s<R>(s: Seq<Murashshah<R>>, jeel: u64, inhilal: u32, n: nat) -> Seq<Murashshah<R>>
    decreases n,
{
    if n == 0 {
        s
    } else {
        samt_s(baqi_s(s, (jeel + 1) as u64, inhilal), (jeel + 1) as u64, inhilal, (n - 1) as nat)
    }
}

/// One sample with no block: every candidate, last seen before it, loses the
/// decay, and those it takes to zero are gone.
proof fn lemma_samt_wahid<R>(s: Seq<Murashshah<R>>, jeel: u64, inhilal: u32, saqf: int)
    requires
        jeel < u64::MAX,
        inhilal >= 1,
        forall|i: int| 0 <= i < s.len() ==> (#[trigger] s[i]).jeel_akhir <= jeel && s[i].thabat <= saqf,
    ensures
        ({
            let b = baqi_s(s, (jeel + 1) as u64, inhilal);
            &&& forall|i: int|
                0 <= i < b.len() ==> (#[trigger] b[i]).jeel_akhir <= jeel && 1 <= b[i].thabat <= saqf
                    - inhilal
            &&& saqf <= inhilal ==> b.len() == 0
        }),
    decreases s.len(),
{
    if s.len() > 0 {
        let d = s.drop_last();
        assert forall|i: int| 0 <= i < d.len() implies (#[trigger] d[i]).jeel_akhir <= jeel && d[i].thabat
            <= saqf by {
            assert(d[i] == s[i]);
        }
        lemma_samt_wahid(d, jeel, inhilal, saqf);
        let x = s[s.len() - 1];
        assert(x.jeel_akhir <= jeel && x.thabat <= saqf);
        let j1 = (jeel + 1) as u64;
        let r = baqi_s(d, j1, inhilal);
        let m = inhal_s(s.last(), j1, inhilal);
        let b = baqi_s(s, j1, inhilal);
        assert(s.last() == x);
        assert(x.jeel_akhir != j1);
        if m.thabat > 0 {
            assert(b == r.push(m));
            assert forall|i: int| 0 <= i < b.len() implies (#[trigger] b[i]).jeel_akhir <= jeel && 1
                <= b[i].thabat <= saqf - inhilal by {
                if i < r.len() {
                    assert(b[i] == r[i]);
                } else {
                    assert(b[i] == m);
                }
            }
        } else {
            assert(b == r);
        }
    }
}

/// Nothing is remembered forever: once as many samples have passed without
/// a block as it takes the decay to bring the ceiling to zero, the table is
/// empty, whatever it held. At the defaults that is eighty samples, twenty
/// seconds at four a second.
pub proof fn qanun_nisyan<R>(s: Seq<Murashshah<R>>, jeel: u64, inhilal: u32, n: nat)
    requires
        inhilal >= 1,
        forall|i: int| 0 <= i < s.len() ==> salih_m(#[trigger] s[i], jeel),
        jeel + n <= u64::MAX,
        n * inhilal >= SAQF_THABAT,
    ensures
        samt_s(s, jeel, inhilal, n).len() == 0,
{
    lemma_samt(s, jeel, inhilal, n, SAQF_THABAT as int);
}

proof fn lemma_samt<R>(s: Seq<Murashshah<R>>, jeel: u64, inhilal: u32, n: nat, saqf: int)
    requires
        inhilal >= 1,
        forall|i: int|
            0 <= i < s.len() ==> (#[trigger] s[i]).jeel_akhir <= jeel && 1 <= s[i].thabat <= saqf,
        jeel + n <= u64::MAX,
        n * inhilal >= saqf,
    ensures
        samt_s(s, jeel, inhilal, n).len() == 0,
    decreases n,
{
    if n == 0 {
        assert(n * inhilal == 0) by (nonlinear_arith)
            requires
                n == 0,
        ;
        if s.len() > 0 {
            assert(1 <= s[0].thabat <= saqf);
        }
    } else {
        lemma_samt_wahid(s, jeel, inhilal, saqf);
        let b = baqi_s(s, (jeel + 1) as u64, inhilal);
        if saqf <= inhilal {
            assert(b.len() == 0);
            lemma_samt_farigh(b, (jeel + 1) as u64, inhilal, (n - 1) as nat);
        } else {
            assert((n - 1) * inhilal >= saqf - inhilal) by (nonlinear_arith)
                requires
                    n * inhilal >= saqf,
                    n >= 1,
            ;
            assert forall|i: int| 0 <= i < b.len() implies (#[trigger] b[i]).jeel_akhir <= jeel + 1
                && 1 <= b[i].thabat <= saqf - inhilal by {}
            lemma_samt(b, (jeel + 1) as u64, inhilal, (n - 1) as nat, saqf - inhilal);
        }
    }
}

proof fn lemma_samt_farigh<R>(s: Seq<Murashshah<R>>, jeel: u64, inhilal: u32, n: nat)
    requires
        s.len() == 0,
    ensures
        samt_s(s, jeel, inhilal, n).len() == 0,
    decreases n,
{
    if n > 0 {
        assert(baqi_s(s, (jeel + 1) as u64, inhilal).len() == 0);
        lemma_samt_farigh(baqi_s(s, (jeel + 1) as u64, inhilal), (jeel + 1) as u64, inhilal, (n - 1) as nat);
    }
}

/// A candidate that fits the table's rules in sample `jeel`.
pub open spec fn salih_m<R>(m: Murashshah<R>, jeel: u64) -> bool {
    &&& 1 <= m.thabat <= SAQF_THABAT
    &&& m.marrat >= 1
    &&& m.jeel_awwal <= m.jeel_akhir <= jeel
}

} // verus!
