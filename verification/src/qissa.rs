//! A session's account of itself: what the recognition worker last said,
//! what happened to the frames handed to it, and what the off-frame half
//! counted.

use vstd::prelude::*;

use crate::manatiq::{MuarrifMintaqa, QaidatTarjama};
use crate::mutarjim::RaddSatr;
use crate::nass::{aktub_ashri, ashri, farigh, ilhaq, min_nass};
use crate::sijill_qira::{wasf_taqreer, TaqreerSijill, ThiqatSatr};
use crate::talqeem::SatrMulaqqam;
use crate::tartib::{awwal_s, lemma_awwal, lemma_awwal_hadd};
use crate::tatabbu::{
    sura_mutatabba, wasf_tatabbu, HasilatDawra, IhsaatTatabbu, MuarrifSatr, SatrMutatabba,
    SuraMutatabba,
};
use crate::wajiha::{MustatilBiksel, WasfSath};

verus! {

/// What the recognition worker last said about itself.
#[derive(Debug, Clone, PartialEq, Eq)]
pub enum HalatKhayt {
    /// Every pass completed or read nothing.
    Salima,
    /// The latest capture was refused; the next may not be.
    Aabira {
        /// Why, in English.
        sabab: String,
        /// Why, in Arabic.
        sabab_arabi: String,
    },
    /// Recognition stopped for the session.
    Mutawaqqifa {
        /// Why, in English.
        sabab: String,
        /// Why, in Arabic.
        sabab_arabi: String,
    },
}

pub open spec fn wasf_khayt(h: HalatKhayt) -> Seq<char> {
    match h {
        HalatKhayt::Salima => "every pass completed or read nothing"@,
        HalatKhayt::Aabira { sabab, .. } => "the most recent refusal was one capture's: "@ + sabab@,
        HalatKhayt::Mutawaqqifa { sabab, .. } => "recognition has stopped for this session: "@
            + sabab@ + ". Captures are refused until a re-read is asked for"@,
    }
}

pub open spec fn wasf_arabi_khayt(h: HalatKhayt) -> Seq<char> {
    match h {
        HalatKhayt::Salima => "اكتملت كل الجولات أو لم تجد نصًا."@,
        HalatKhayt::Aabira { sabab_arabi, .. } => "آخر رفض كان لالتقاطة واحدة: "@ + sabab_arabi@,
        HalatKhayt::Mutawaqqifa { sabab_arabi, .. } => "توقّفت القراءة في هذه الجلسة: "@
            + sabab_arabi@ + " تُرفض الالتقاطات حتى يُطلب إعادة القراءة."@,
    }
}

impl HalatKhayt {
    /// Whether recognition has stopped for the session.
    pub fn mutawaqqifa(&self) -> (r: bool)
        ensures
            r == (*self is Mutawaqqifa),
    {
        match self {
            HalatKhayt::Mutawaqqifa { .. } => true,
            _ => false,
        }
    }

    /// The state in English.
    pub fn wasf(&self) -> (r: String)
        ensures
            r@ == wasf_khayt(*self),
    {
        match self {
            HalatKhayt::Salima => min_nass("every pass completed or read nothing"),
            HalatKhayt::Aabira { sabab, .. } => {
                let mut r = min_nass("the most recent refusal was one capture's: ");
                ilhaq(&mut r, sabab.as_str());
                r
            },
            HalatKhayt::Mutawaqqifa { sabab, .. } => {
                let mut r = min_nass("recognition has stopped for this session: ");
                ilhaq(&mut r, sabab.as_str());
                ilhaq(&mut r, ". Captures are refused until a re-read is asked for");
                r
            },
        }
    }

    /// The state in Arabic.
    pub fn wasf_arabi(&self) -> (r: String)
        ensures
            r@ == wasf_arabi_khayt(*self),
    {
        match self {
            HalatKhayt::Salima => min_nass("اكتملت كل الجولات أو لم تجد نصًا."),
            HalatKhayt::Aabira { sabab_arabi, .. } => {
                let mut r = min_nass("آخر رفض كان لالتقاطة واحدة: ");
                ilhaq(&mut r, sabab_arabi.as_str());
                r
            },
            HalatKhayt::Mutawaqqifa { sabab_arabi, .. } => {
                let mut r = min_nass("توقّفت القراءة في هذه الجلسة: ");
                ilhaq(&mut r, sabab_arabi.as_str());
                ilhaq(&mut r, " تُرفض الالتقاطات حتى يُطلب إعادة القراءة.");
                r
            },
        }
    }
}

/// What became of a frame handed to the worker.
#[derive(Debug, Clone, Copy, PartialEq, Eq, Structural)]
pub enum HalatDaf {
    /// Taken.
    Qubilat,
    /// Left, because the worker was still busy with the previous one.
    Turikat,
    /// Refused, because recognition has stopped.
    Rufidat,
}

/// What the off-frame half of a session has done.
#[derive(Debug, Clone, Copy, PartialEq, Eq, Structural)]
pub struct IhsaatQissa {
    /// Captures handed in.
    pub iltiqatat: u64,
    /// Captures the change test let through to recognition.
    pub mumarrara: u64,
    /// Captures it stopped because the region had not changed.
    pub mahjuba: u64,
    /// Lines recognition returned.
    pub maqruaat: u64,
    /// Requests sent to a translation provider.
    pub talabat: u64,
    /// Settled lines answered out of the translation memory.
    pub isabat_dhakira: u64,
    /// Settled lines skipped as too uncertain.
    pub thiqa_dunya: u64,
    /// Translation attempts that failed.
    pub ikhfaqat: u64,
    /// Pairs the memory would not store.
    pub ikhfaqat_hifz: u64,
    /// Snapshots published to the render thread.
    pub laqtat: u64,
}

pub open spec fn wasf_ihsaat(i: IhsaatQissa) -> Seq<char> {
    ashri(i.iltiqatat as nat) + " capture(s): "@ + ashri(i.mumarrara as nat) + " recognized, "@
        + ashri(i.mahjuba as nat) + " held as unchanged. "@ + ashri(i.maqruaat as nat)
        + " line(s) read produced "@ + ashri(i.talabat as nat) + " provider request(s) and "@
        + ashri(i.isabat_dhakira as nat) + " memory hit(s)"@ + (if i.thiqa_dunya > 0 {
        ", "@ + ashri(i.thiqa_dunya as nat) + " skipped as too uncertain to translate"@
    } else {
        Seq::empty()
    }) + (if i.ikhfaqat > 0 {
        ", "@ + ashri(i.ikhfaqat as nat) + " translation failure(s)"@
    } else {
        Seq::empty()
    }) + (if i.ikhfaqat_hifz > 0 {
        ", "@ + ashri(i.ikhfaqat_hifz as nat) + " pair(s) the memory would not store"@
    } else {
        Seq::empty()
    })
}

impl IhsaatQissa {
    /// Requests a pipeline without line identity would have made and this one
    /// did not: lines read less requests sent, never below zero.
    pub fn muwaffara(&self) -> (r: u64)
        ensures
            r == if self.maqruaat >= self.talabat {
                (self.maqruaat - self.talabat) as u64
            } else {
                0
            },
    {
        if self.maqruaat >= self.talabat {
            self.maqruaat - self.talabat
        } else {
            0
        }
    }

    /// The sentence the control panel and the report carry.
    pub fn wasf(&self) -> (r: String)
        ensures
            r@ == wasf_ihsaat(*self),
    {
        let mut r = String::new();
        aktub_ashri(&mut r, self.iltiqatat);
        ilhaq(&mut r, " capture(s): ");
        aktub_ashri(&mut r, self.mumarrara);
        ilhaq(&mut r, " recognized, ");
        aktub_ashri(&mut r, self.mahjuba);
        ilhaq(&mut r, " held as unchanged. ");
        aktub_ashri(&mut r, self.maqruaat);
        ilhaq(&mut r, " line(s) read produced ");
        aktub_ashri(&mut r, self.talabat);
        ilhaq(&mut r, " provider request(s) and ");
        aktub_ashri(&mut r, self.isabat_dhakira);
        ilhaq(&mut r, " memory hit(s)");
        let ghost r1 = r@;
        if self.thiqa_dunya > 0 {
            ilhaq(&mut r, ", ");
            aktub_ashri(&mut r, self.thiqa_dunya);
            ilhaq(&mut r, " skipped as too uncertain to translate");
        }
        let ghost r2 = r@;
        if self.ikhfaqat > 0 {
            ilhaq(&mut r, ", ");
            aktub_ashri(&mut r, self.ikhfaqat);
            ilhaq(&mut r, " translation failure(s)");
        }
        let ghost r3 = r@;
        if self.ikhfaqat_hifz > 0 {
            ilhaq(&mut r, ", ");
            aktub_ashri(&mut r, self.ikhfaqat_hifz);
            ilhaq(&mut r, " pair(s) the memory would not store");
        }
        proof {
            if self.thiqa_dunya == 0 {
                assert(r2 =~= r1 + Seq::<char>::empty());
            }
            if self.ikhfaqat == 0 {
                assert(r3 =~= r2 + Seq::<char>::empty());
            }
            if self.ikhfaqat_hifz == 0 {
                assert(r@ =~= r3 + Seq::<char>::empty());
            }
        }
        r
    }
}

/// The most translated lines a snapshot carries.
pub const AQSA_SUTUR_MARSUMA: usize = 32;

/// The confidence below which an engine's own measured reading is not
/// translated.
pub const ADNA_THIQA_LIL_TARJAMA: u8 = 35;

/// What the overlay should draw right now: the translated lines, the
/// surface they were placed against, and which snapshot this is.
#[derive(Debug)]
pub struct LaqtaTarjama {
    /// The lines, in the order the tracker holds them.
    pub sutur: Vec<SatrMulaqqam>,
    /// The surface, once one is known.
    pub sath: Option<WasfSath>,
    /// Which snapshot this is; each new one counts up.
    pub jeel: u64,
    /// When it was made, on the caller's clock.
    pub lahza_mikro: u64,
}

impl LaqtaTarjama {
    /// Whether there is nothing to draw.
    pub fn khali(&self) -> (r: bool)
        ensures
            r == (self.sutur@.len() == 0),
    {
        self.sutur.len() == 0
    }
}

/// What one capture came to.
#[derive(Debug)]
pub struct KhulasatMualaja {
    /// Whether the picture had changed and was read.
    pub taghayyarat: bool,
    /// How many lines the engine read.
    pub maqru: usize,
    /// What the tracker reported.
    pub hasila: HasilatDawra,
    /// Translation requests sent.
    pub talabat: u32,
    /// Lines the memory already had.
    pub isabat: u32,
    /// Lines that failed to translate.
    pub ikhfaqat: u32,
}

/// One region the clock says it is time to capture.
#[derive(Debug)]
pub struct MintaqaMustahiqqa {
    /// Which region.
    pub muarrif: MuarrifMintaqa,
    /// Its name at this moment.
    pub ism: String,
    /// Where to read, in surface pixels.
    pub mustatil: MustatilBiksel,
    /// The rule it is on.
    pub qaida: QaidatTarjama,
}

/// Everything a session can say about itself, for the panel.
#[derive(Debug)]
pub struct KhulasatQissa {
    /// The session's counters.
    pub qissa: IhsaatQissa,
    /// The tracker's counters.
    pub tatabbu: IhsaatTatabbu,
    /// The capture clock's own sentence.
    pub watira: String,
    /// Whether the clock has fallen behind.
    pub mutadahwira: bool,
    /// The memory's sentence.
    pub dhakira: String,
    /// The reading history's report, when one is attached.
    pub sijill: Option<TaqreerSijill>,
    /// The translator's name, when one is attached.
    pub mutarjim: Option<String>,
}

/// The panel's paragraph: one line each for the session, the tracker, the
/// clock, the memory and the translator, and one for the history when
/// there is one.
pub open spec fn wasf_khulasa(k: KhulasatQissa) -> Seq<char> {
    wasf_ihsaat(k.qissa) + "\n"@ + wasf_tatabbu(k.tatabbu) + "\n"@ + k.watira@ + "\n"@ + "memory: "@
        + k.dhakira@ + "\n"@ + "translator: "@ + match k.mutarjim {
        Some(m) => m@,
        None => "none attached \u{2014} nothing will be translated"@,
    } + "\n"@ + match k.sijill {
        Some(t) => "history: "@ + wasf_taqreer(t) + "\n"@,
        None => Seq::empty(),
    }
}

impl KhulasatQissa {
    /// The panel's paragraph.
    pub fn wasf(&self) -> (r: String)
        ensures
            r@ == wasf_khulasa(*self),
    {
        let mut r = self.qissa.wasf();
        ilhaq(&mut r, "\n");
        ilhaq(&mut r, self.tatabbu.wasf().as_str());
        ilhaq(&mut r, "\n");
        ilhaq(&mut r, self.watira.as_str());
        ilhaq(&mut r, "\n");
        ilhaq(&mut r, "memory: ");
        ilhaq(&mut r, self.dhakira.as_str());
        ilhaq(&mut r, "\n");
        ilhaq(&mut r, "translator: ");
        match &self.mutarjim {
            Some(m) => ilhaq(&mut r, m.as_str()),
            None => ilhaq(&mut r, "none attached \u{2014} nothing will be translated"),
        }
        ilhaq(&mut r, "\n");
        match &self.sijill {
            Some(t) => {
                ilhaq(&mut r, "history: ");
                ilhaq(&mut r, t.wasf().as_str());
                ilhaq(&mut r, "\n");
            },
            None => {},
        }
        proof {
            assert(r@ =~= wasf_khulasa(*self));
        }
        r
    }
}

/// Whether a settled line is held back as too uncertain: only an engine's
/// own measured number below the floor holds it back; an unmeasured one
/// never does.
pub fn thiqa_dunya(thiqa: ThiqatSatr, adna: u8) -> (r: bool)
    ensures
        r == (thiqa matches ThiqatSatr::Maqisa(m) && m < adna),
{
    match thiqa {
        ThiqatSatr::Maqisa(m) => m < adna,
        ThiqatSatr::Ghayr => false,
    }
}

/// Counts a translation attempt for a line: the count starts again when the
/// line's text changed since the last attempt; no attempt is allowed once
/// `saqf` have been made for the same text.
pub fn muhawala(haliya: &mut Option<(String, u32)>, asl: &str, saqf: u32) -> (r: bool)
    ensures
        ({
            let n = match *old(haliya) {
                Some((a, k)) => if a@ == asl@ {
                    k
                } else {
                    0
                },
                None => 0,
            };
            &&& r == (n < saqf)
            &&& *final(haliya) matches Some((a, k)) && a@ == asl@ && k == if r {
                (n + 1) as u32
            } else {
                n
            }
        }),
{
    let a = min_nass(asl);
    let n: u32 = match haliya {
        Some((qadim, k)) => if *qadim == a {
            *k
        } else {
            0
        },
        None => 0,
    };
    if n >= saqf {
        *haliya = Some((a, n));
        return false;
    }
    *haliya = Some((a, n + 1));
    true
}

/// The test for a drawn line's identity.
pub open spec fn bi_marsum(id: u64) -> spec_fn((u64, Seq<char>)) -> bool {
    |e: (u64, Seq<char>)| e.0 == id
}

/// The Arabic drawn for a line, when it has some.
pub open spec fn marsum_s(m: Seq<(u64, Seq<char>)>, id: u64) -> Option<Seq<char>> {
    let i = awwal_s(m, bi_marsum(id));
    if i < m.len() {
        Some(m[i as int].1)
    } else {
        None
    }
}

/// The snapshot's lines: each live line, in order, that has Arabic drawn
/// for it, with its current box and confidence, at most `saa` of them.
pub open spec fn laqta_s(h: Seq<SuraMutatabba>, m: Seq<(u64, Seq<char>)>, saa: nat) -> Seq<(Seq<char>, MustatilBiksel, u8)>
    decreases h.len(),
{
    if h.len() == 0 {
        Seq::empty()
    } else {
        let p = laqta_s(h.drop_last(), m, saa);
        let x = h.last();
        match marsum_s(m, x.muarrif) {
            Some(a) => if p.len() < saa {
                p.push((a, x.mawdi, x.thiqa))
            } else {
                p
            },
            None => p,
        }
    }
}

/// Whether some Arabic is recorded for a line.
pub open spec fn lahu_marsum(m: Seq<(u64, Seq<char>)>) -> spec_fn(SuraMutatabba) -> bool {
    |x: SuraMutatabba| exists|j: int| 0 <= j < m.len() && m[j].0 == x.muarrif
}

/// The snapshot draws each line's Arabic over it: taking, in order, the live
/// lines that have Arabic recorded, as many of them as the snapshot holds,
/// the `k`th drawn line sits in the `k`th such line's box with its
/// confidence, and carries the text of the first record for that line.
pub proof fn qanun_al_laqta_bi_al_arabiyya(h: Seq<SuraMutatabba>, m: Seq<(u64, Seq<char>)>, saa: nat)
    ensures
        ({
            let d = h.filter(lahu_marsum(m));
            let r = laqta_s(h, m, saa);
            &&& r.len() == if d.len() < saa {
                d.len()
            } else {
                saa
            }
            &&& forall|k: int|
                0 <= k < r.len() ==> (#[trigger] r[k]).1 == d[k].mawdi && r[k].2 == d[k].thiqa && exists|j: int|
                    0 <= j < m.len() && m[j].0 == d[k].muarrif && r[k].0 == m[j].1 && forall|j2: int|
                        0 <= j2 < j ==> m[j2].0 != d[k].muarrif
        }),
    decreases h.len(),
{
    reveal(Seq::filter);
    let d = h.filter(lahu_marsum(m));
    let r = laqta_s(h, m, saa);
    if h.len() > 0 {
        let q = h.drop_last();
        qanun_al_laqta_bi_al_arabiyya(q, m, saa);
        let dq = q.filter(lahu_marsum(m));
        let p = laqta_s(q, m, saa);
        let x = h.last();
        let f = bi_marsum(x.muarrif);
        lemma_awwal_hadd(m, f);
        let i = awwal_s(m, f);
        if i < m.len() {
            assert(m[i as int].0 == x.muarrif);
            assert((lahu_marsum(m))(x));
            assert(d == dq.push(x));
            if p.len() < saa {
                assert(r == p.push((m[i as int].1, x.mawdi, x.thiqa)));
                assert forall|k: int|
                    0 <= k < r.len() implies (#[trigger] r[k]).1 == d[k].mawdi && r[k].2 == d[k].thiqa
                        && exists|j: int|
                        0 <= j < m.len() && m[j].0 == d[k].muarrif && r[k].0 == m[j].1 && forall|j2: int|
                            0 <= j2 < j ==> m[j2].0 != d[k].muarrif by {
                    if k < p.len() {
                        assert(r[k] == p[k]);
                        assert(d[k] == dq[k]);
                    } else {
                        assert(d[k] == x);
                        assert forall|j2: int| 0 <= j2 < i implies m[j2].0 != d[k].muarrif by {
                            assert(!f(m[j2]));
                        }
                    }
                }
            } else {
                assert(r == p);
                assert forall|k: int|
                    0 <= k < r.len() implies (#[trigger] r[k]).1 == d[k].mawdi && r[k].2 == d[k].thiqa
                        && exists|j: int|
                        0 <= j < m.len() && m[j].0 == d[k].muarrif && r[k].0 == m[j].1 && forall|j2: int|
                            0 <= j2 < j ==> m[j2].0 != d[k].muarrif by {
                    assert(d[k] == dq[k]);
                }
            }
        } else {
            assert(!(lahu_marsum(m))(x)) by {
                if exists|j: int| 0 <= j < m.len() && m[j].0 == x.muarrif {
                    let j = choose|j: int| 0 <= j < m.len() && m[j].0 == x.muarrif;
                    assert(!f(m[j]));
                }
            }
            assert(d == dq);
            assert(r == p);
        }
    }
}

/// The drawn Arabic by line, as plain values.
pub open spec fn ruyat_marsuma(m: Seq<(MuarrifSatr, String)>) -> Seq<(u64, Seq<char>)> {
    m.map_values(|e: (MuarrifSatr, String)| (e.0.0, e.1@))
}

/// A drawn line as plain values.
pub open spec fn ruyat_mulaqqam(s: SatrMulaqqam) -> (Seq<char>, MustatilBiksel, u8) {
    (s.nass@, s.mawdi, s.thiqa)
}

/// Builds the snapshot's lines from the live lines and the Arabic drawn
/// for them.
pub fn bina_laqta(hayya: &Vec<&SatrMutatabba>, marsuma: &Vec<(MuarrifSatr, String)>, saa: usize) -> (r: Vec<SatrMulaqqam>)
    ensures
        r@.map_values(|s: SatrMulaqqam| ruyat_mulaqqam(s)) == laqta_s(
            hayya@.map_values(|x: &SatrMutatabba| sura_mutatabba(*x)),
            ruyat_marsuma(marsuma@),
            saa as nat,
        ),
{
    let ghost hv = hayya@.map_values(|x: &SatrMutatabba| sura_mutatabba(*x));
    let ghost mv = ruyat_marsuma(marsuma@);
    let mut r: Vec<SatrMulaqqam> = Vec::new();
    let mut i: usize = 0;
    while i < hayya.len()
        invariant
            i <= hayya@.len(),
            hv == hayya@.map_values(|x: &SatrMutatabba| sura_mutatabba(*x)),
            mv == ruyat_marsuma(marsuma@),
            r@.map_values(|s: SatrMulaqqam| ruyat_mulaqqam(s)) == laqta_s(hv.take(i as int), mv, saa as nat),
        decreases hayya@.len() - i,
    {
        proof {
            assert(hv.take(i + 1).drop_last() =~= hv.take(i as int));
            assert(hv.take(i + 1).last() == sura_mutatabba(*hayya@[i as int]));
        }
        let satr = hayya[i];
        let mut k: usize = 0;
        while k < marsuma.len() && marsuma[k].0.0 != satr.muarrif.0
            invariant
                k <= marsuma@.len(),
                mv == ruyat_marsuma(marsuma@),
                forall|j: int| 0 <= j < k ==> !(bi_marsum(satr.muarrif.0))(#[trigger] mv[j]),
            decreases marsuma@.len() - k,
        {
            k = k + 1;
        }
        proof {
            lemma_awwal(mv, bi_marsum(satr.muarrif.0), k as int);
        }
        if k < marsuma.len() && r.len() < saa {
            let ghost rq = r@;
            let s = SatrMulaqqam { nass: min_nass(marsuma[k].1.as_str()), mawdi: satr.mawdi, thiqa: satr.thiqa };
            r.push(s);
            proof {
                assert(r@.map_values(|s: SatrMulaqqam| ruyat_mulaqqam(s)) =~= rq.map_values(|s: SatrMulaqqam| ruyat_mulaqqam(s)).push(ruyat_mulaqqam(s)));
            }
        }
        i = i + 1;
    }
    proof {
        assert(hv.take(hv.len() as int) =~= hv);
    }
    r
}

/// `a + 1` for a counter that stops at its ceiling.
pub open spec fn zid(a: u64) -> u64 {
    if a < u64::MAX {
        (a + 1) as u64
    } else {
        a
    }
}

/// What settling one line cost.
#[derive(Debug, Clone, Copy, PartialEq, Eq, Structural)]
pub enum NatijatSatr {
    /// A provider request was sent.
    Talab,
    /// The memory answered it.
    Dhakira,
    /// An attempt failed.
    Ikhfaq,
    /// Nothing was spent: no translator, too uncertain, or out of attempts.
    LaShay,
}

/// What settling a line needs next.
#[derive(Debug, Clone, Copy, PartialEq, Eq, Structural)]
pub enum KhutwatTaswiya {
    /// Look the line up in the translation memory.
    IbhathDhakira,
    /// Send the line to the translator.
    UtlubTarjama,
    /// Settled, at this cost.
    Intaha(NatijatSatr),
}

impl IhsaatQissa {
    /// Nothing counted yet.
    pub fn jadeeda() -> (r: Self)
        ensures
            r == (IhsaatQissa {
                iltiqatat: 0,
                mumarrara: 0,
                mahjuba: 0,
                maqruaat: 0,
                talabat: 0,
                isabat_dhakira: 0,
                thiqa_dunya: 0,
                ikhfaqat: 0,
                ikhfaqat_hifz: 0,
                laqtat: 0,
            }),
    {
        IhsaatQissa {
            iltiqatat: 0,
            mumarrara: 0,
            mahjuba: 0,
            maqruaat: 0,
            talabat: 0,
            isabat_dhakira: 0,
            thiqa_dunya: 0,
            ikhfaqat: 0,
            ikhfaqat_hifz: 0,
            laqtat: 0,
        }
    }

    /// Counts a capture handed in, as recognized when the change test let it
    /// through and as held otherwise: every capture lands in exactly one of
    /// the two.
    pub fn sajjil_iltiqat(&mut self, taghayyarat: bool)
        ensures
            *final(self) == (IhsaatQissa {
                iltiqatat: zid(old(self).iltiqatat),
                mumarrara: if taghayyarat {
                    zid(old(self).mumarrara)
                } else {
                    old(self).mumarrara
                },
                mahjuba: if taghayyarat {
                    old(self).mahjuba
                } else {
                    zid(old(self).mahjuba)
                },
                ..*old(self)
            }),
            old(self).iltiqatat == old(self).mumarrara + old(self).mahjuba && old(self).iltiqatat
                < u64::MAX ==> final(self).iltiqatat == final(self).mumarrara + final(self).mahjuba,
    {
        self.iltiqatat = if self.iltiqatat < u64::MAX {
            self.iltiqatat + 1
        } else {
            self.iltiqatat
        };
        if taghayyarat {
            self.mumarrara = if self.mumarrara < u64::MAX {
                self.mumarrara + 1
            } else {
                self.mumarrara
            };
        } else {
            self.mahjuba = if self.mahjuba < u64::MAX {
                self.mahjuba + 1
            } else {
                self.mahjuba
            };
        }
    }

    /// Counts the lines one reading returned.
    pub fn sajjil_maqruaat(&mut self, adad: usize)
        ensures
            *final(self) == (IhsaatQissa {
                maqruaat: if old(self).maqruaat + adad <= u64::MAX {
                    (old(self).maqruaat + adad) as u64
                } else {
                    u64::MAX
                },
                ..*old(self)
            }),
    {
        let n = adad as u64;
        self.maqruaat = if self.maqruaat <= u64::MAX - n {
            self.maqruaat + n
        } else {
            u64::MAX
        };
    }
}

impl IhsaatQissa {
    /// The first gate a settled line meets: a reading the engine itself
    /// measured below the floor `adna` is held back, and counted; any other,
    /// unmeasured readings included, goes on to the memory.
    pub fn qabl_al_dhakira(&mut self, thiqa: ThiqatSatr, adna: u8) -> (r: KhutwatTaswiya)
        ensures
            (thiqa matches ThiqatSatr::Maqisa(m) && m < adna) ==> r == KhutwatTaswiya::Intaha(
                NatijatSatr::LaShay,
            ) && *final(self) == (IhsaatQissa { thiqa_dunya: zid(old(self).thiqa_dunya), ..*old(self) }),
            !(thiqa matches ThiqatSatr::Maqisa(m) && m < adna) ==> r == KhutwatTaswiya::IbhathDhakira
                && *final(self) == *old(self),
    {
        if thiqa_dunya(thiqa, adna) {
            self.thiqa_dunya = if self.thiqa_dunya < u64::MAX {
                self.thiqa_dunya + 1
            } else {
                self.thiqa_dunya
            };
            KhutwatTaswiya::Intaha(NatijatSatr::LaShay)
        } else {
            KhutwatTaswiya::IbhathDhakira
        }
    }

    /// After the memory was asked. A hit answers the line, and is counted.
    /// Otherwise: with no translator (`mutarjim` is whether one is attached
    /// and usable, when one is) nothing more is spent; an unusable one is a
    /// failure, counted; a line whose current text was already sent `saqf`
    /// times is left; and otherwise the attempt is recorded in `haliya`,
    /// the request counted, and sent.
    pub fn baad_al_dhakira(
        &mut self,
        isaba: bool,
        mutarjim: Option<bool>,
        haliya: &mut Option<(String, u32)>,
        asl: &str,
        saqf: u32,
    ) -> (r: KhutwatTaswiya)
        ensures
            isaba ==> r == KhutwatTaswiya::Intaha(NatijatSatr::Dhakira) && *final(self) == (IhsaatQissa {
                isabat_dhakira: zid(old(self).isabat_dhakira),
                ..*old(self)
            }) && *final(haliya) == *old(haliya),
            !isaba && mutarjim is None ==> r == KhutwatTaswiya::Intaha(NatijatSatr::LaShay)
                && *final(self) == *old(self) && *final(haliya) == *old(haliya),
            !isaba && mutarjim == Some(false) ==> r == KhutwatTaswiya::Intaha(NatijatSatr::Ikhfaq)
                && *final(self) == (IhsaatQissa { ikhfaqat: zid(old(self).ikhfaqat), ..*old(self) })
                && *final(haliya) == *old(haliya),
            !isaba && mutarjim == Some(true) ==> ({
                let n = match *old(haliya) {
                    Some((a, k)) => if a@ == asl@ {
                        k
                    } else {
                        0
                    },
                    None => 0,
                };
                &&& *final(haliya) matches Some((a, k)) && a@ == asl@ && k == if n < saqf {
                    (n + 1) as u32
                } else {
                    n
                }
                &&& n < saqf ==> r == KhutwatTaswiya::UtlubTarjama && *final(self) == (IhsaatQissa {
                    talabat: zid(old(self).talabat),
                    ..*old(self)
                })
                &&& n >= saqf ==> r == KhutwatTaswiya::Intaha(NatijatSatr::LaShay) && *final(self)
                    == *old(self)
            }),
    {
        if isaba {
            self.isabat_dhakira = if self.isabat_dhakira < u64::MAX {
                self.isabat_dhakira + 1
            } else {
                self.isabat_dhakira
            };
            return KhutwatTaswiya::Intaha(NatijatSatr::Dhakira);
        }
        match mutarjim {
            None => KhutwatTaswiya::Intaha(NatijatSatr::LaShay),
            Some(false) => {
                self.ikhfaqat = if self.ikhfaqat < u64::MAX {
                    self.ikhfaqat + 1
                } else {
                    self.ikhfaqat
                };
                KhutwatTaswiya::Intaha(NatijatSatr::Ikhfaq)
            },
            Some(true) => {
                if !muhawala(haliya, asl, saqf) {
                    return KhutwatTaswiya::Intaha(NatijatSatr::LaShay);
                }
                self.talabat = if self.talabat < u64::MAX {
                    self.talabat + 1
                } else {
                    self.talabat
                };
                KhutwatTaswiya::UtlubTarjama
            },
        }
    }

    /// After the translator answered: a reply with Arabic in it is a
    /// translation; an empty one or a refusal is a failure, counted.
    pub fn baad_al_tarjama(&mut self, radd: &Result<RaddSatr, String>) -> (r: NatijatSatr)
        ensures
            (radd matches Ok(t) && !farigh(t.arabi@)) ==> r == NatijatSatr::Talab && *final(self)
                == *old(self),
            !(radd matches Ok(t) && !farigh(t.arabi@)) ==> r == NatijatSatr::Ikhfaq && *final(self)
                == (IhsaatQissa { ikhfaqat: zid(old(self).ikhfaqat), ..*old(self) }),
    {
        let salih = match radd {
            Ok(t) => !t.khali(),
            Err(_) => false,
        };
        if salih {
            NatijatSatr::Talab
        } else {
            self.ikhfaqat = if self.ikhfaqat < u64::MAX {
                self.ikhfaqat + 1
            } else {
                self.ikhfaqat
            };
            NatijatSatr::Ikhfaq
        }
    }

    /// After the memory was asked to keep the pair: a refusal is counted and
    /// is never fatal, the translation is drawn either way.
    pub fn baad_al_hifz(&mut self, hufiz: bool)
        ensures
            hufiz ==> *final(self) == *old(self),
            !hufiz ==> *final(self) == (IhsaatQissa {
                ikhfaqat_hifz: zid(old(self).ikhfaqat_hifz),
                ..*old(self)
            }),
    {
        if !hufiz {
            self.ikhfaqat_hifz = if self.ikhfaqat_hifz < u64::MAX {
                self.ikhfaqat_hifz + 1
            } else {
                self.ikhfaqat_hifz
            };
        }
    }
}

impl KhulasatMualaja {
    /// Counts one settled line's cost into a pass's summary.
    pub fn ahsib(&mut self, natija: NatijatSatr)
        ensures
            final(self).taghayyarat == old(self).taghayyarat,
            final(self).maqru == old(self).maqru,
            final(self).hasila == old(self).hasila,
            final(self).talabat == if natija is Talab {
                jam32(old(self).talabat)
            } else {
                old(self).talabat
            },
            final(self).isabat == if natija is Dhakira {
                jam32(old(self).isabat)
            } else {
                old(self).isabat
            },
            final(self).ikhfaqat == if natija is Ikhfaq {
                jam32(old(self).ikhfaqat)
            } else {
                old(self).ikhfaqat
            },
    {
        match natija {
            NatijatSatr::Talab => self.talabat = if self.talabat < u32::MAX {
                self.talabat + 1
            } else {
                self.talabat
            },
            NatijatSatr::Dhakira => self.isabat = if self.isabat < u32::MAX {
                self.isabat + 1
            } else {
                self.isabat
            },
            NatijatSatr::Ikhfaq => self.ikhfaqat = if self.ikhfaqat < u32::MAX {
                self.ikhfaqat + 1
            } else {
                self.ikhfaqat
            },
            NatijatSatr::LaShay => {},
        }
    }
}

/// `a + 1` for a pass's counter, stopping at its ceiling.
pub open spec fn jam32(a: u32) -> u32 {
    if a < u32::MAX {
        (a + 1) as u32
    } else {
        a
    }
}

} // verus!
