//! The reading history: every line the overlay read, kept so a player who
//! missed one can read it again.
//!
//! A reading that repeats its region's previous line does not append; it
//! raises that entry's count. The history is bounded, evicts oldest first and
//! counts what it evicted. Identities are handed out in increasing order and
//! never reused. The file behind it (a header line, then one entry per line)
//! is written where the files are; this module holds the state and the rules
//! that decide what the file must say.

use std::collections::VecDeque;

use vstd::prelude::*;

use crate::luba::LubaId;
use crate::manatiq::MuarrifMintaqa;
use crate::mutarjim_mahalli::{huruf, min_huruf};
use crate::nass::{
    aktub_ashri, ashri, ila_saghir, ilhaq, min_nass, mushdhab, qita, saghir_kamil, shadhdhib,
    yahwi, yahwi_s,
};

verus! {

broadcast use vstd::std_specs::vecdeque::group_vec_dequeue_axioms;

/// The default number of entries held.
pub const SAA_IFTIRADIYA: usize = 500;

/// The smallest capacity that is still a history.
pub const ADNA_SAA: usize = 16;

/// The largest capacity this build holds.
pub const AQSA_SAA: usize = 50000;

/// The longest source or translated line kept, in characters.
pub const AQSA_TUL_SATR: usize = 2000;

/// What a recognizer said about a reading's confidence, or that it said
/// nothing.
#[derive(Debug, Clone, Copy, PartialEq, Eq, Hash, Structural)]
pub enum ThiqatSatr {
    /// The engine reported this number itself, zero to a hundred.
    Maqisa(u8),
    /// The engine reports no confidence at all.
    Ghayr,
}

/// A number clamped to at most a hundred.
pub open spec fn mia_mahsura(mia: u8) -> u8 {
    if mia > 100 {
        100
    } else {
        mia
    }
}

impl ThiqatSatr {
    /// A measured confidence, clamped into the range engines report in.
    pub fn maqisa_bi(mia: u8) -> (r: Self)
        ensures
            r == ThiqatSatr::Maqisa(mia_mahsura(mia)),
    {
        ThiqatSatr::Maqisa(
            if mia > 100 {
                100
            } else {
                mia
            },
        )
    }

    /// A confidence from a recognized line, honouring its own flag.
    pub fn min_maqru(mia: u8, maqisa: bool) -> (r: Self)
        ensures
            maqisa ==> r == ThiqatSatr::Maqisa(mia_mahsura(mia)),
            !maqisa ==> r == ThiqatSatr::Ghayr,
    {
        if maqisa {
            Self::maqisa_bi(mia)
        } else {
            ThiqatSatr::Ghayr
        }
    }

    /// Whether this is a measurement.
    pub fn maqisa(self) -> (r: bool)
        ensures
            r == (self is Maqisa),
    {
        match self {
            ThiqatSatr::Maqisa(_) => true,
            ThiqatSatr::Ghayr => false,
        }
    }

    /// The number, or zero when there is none.
    pub fn mia(self) -> (r: u8)
        ensures
            r == mia_thiqa(self),
    {
        match self {
            ThiqatSatr::Maqisa(m) => m,
            ThiqatSatr::Ghayr => 0,
        }
    }

    /// The number, when there is one.
    pub fn mia_in_wujidat(self) -> (r: Option<u8>)
        ensures
            self matches ThiqatSatr::Maqisa(m) ==> r == Some(m),
            self is Ghayr ==> r is None,
    {
        match self {
            ThiqatSatr::Maqisa(m) => Some(m),
            ThiqatSatr::Ghayr => None,
        }
    }
}

/// The number a confidence carries, zero for none.
pub open spec fn mia_thiqa(t: ThiqatSatr) -> u8 {
    match t {
        ThiqatSatr::Maqisa(m) => m,
        ThiqatSatr::Ghayr => 0,
    }
}

/// Where a translation came from.
#[derive(Debug, Clone, Copy, PartialEq, Eq, Hash, Structural)]
pub enum MasdarTarjama {
    /// Produced by a machine translator at play time.
    Aaliya,
    /// Taken from a translation project for this game, written by a person.
    Mashru,
    /// Reused from an earlier screen reading, machine-translated.
    Mulahaza,
}

pub open spec fn ism_masdar(m: MasdarTarjama) -> Seq<char> {
    match m {
        MasdarTarjama::Aaliya => "machine"@,
        MasdarTarjama::Mashru => "project"@,
        MasdarTarjama::Mulahaza => "screen reading"@,
    }
}

pub open spec fn unwan_masdar(m: MasdarTarjama) -> Seq<char> {
    match m {
        MasdarTarjama::Aaliya => "ترجمة آلية"@,
        MasdarTarjama::Mashru => "من مشروع تعريب"@,
        MasdarTarjama::Mulahaza => "قراءة شاشة سابقة"@,
    }
}

impl MasdarTarjama {
    /// The name used in the history file and in log lines.
    pub fn ism(self) -> (r: &'static str)
        ensures
            r@ == ism_masdar(self),
    {
        match self {
            MasdarTarjama::Aaliya => "machine",
            MasdarTarjama::Mashru => "project",
            MasdarTarjama::Mulahaza => "screen reading",
        }
    }

    /// The label the in-game panel shows, in Arabic.
    pub fn unwan(self) -> (r: &'static str)
        ensures
            r@ == unwan_masdar(self),
    {
        match self {
            MasdarTarjama::Aaliya => "ترجمة آلية",
            MasdarTarjama::Mashru => "من مشروع تعريب",
            MasdarTarjama::Mulahaza => "قراءة شاشة سابقة",
        }
    }

    /// Whether a person wrote this text.
    pub fn basharia(self) -> (r: bool)
        ensures
            r == (self is Mashru),
    {
        match self {
            MasdarTarjama::Mashru => true,
            _ => false,
        }
    }

    /// Whether the source text behind this translation was read off a screen.
    pub fn min_shasha(self) -> (r: bool)
        ensures
            r == (self is Mulahaza),
    {
        match self {
            MasdarTarjama::Mulahaza => true,
            _ => false,
        }
    }
}

/// A history entry's identity: increasing within one history, never reused.
#[derive(Debug, Clone, Copy, PartialEq, Eq, Hash, Structural)]
pub struct MuarrifMadkhal(pub u64);

impl MuarrifMadkhal {
    /// Wraps an identity read back from disk.
    pub fn min_raqm(raqm: u64) -> (r: Self)
        ensures
            r.0 == raqm,
    {
        MuarrifMadkhal(raqm)
    }

    /// The underlying number.
    pub fn raqm(self) -> (r: u64)
        ensures
            r == self.0,
    {
        self.0
    }

    /// The identity as the panel writes it: `#` and the number.
    pub fn nass(self) -> (r: String)
        ensures
            r@ == "#"@ + ashri(self.0 as nat),
    {
        let mut r = min_nass("#");
        aktub_ashri(&mut r, self.0);
        r
    }
}

/// A line trimmed and cut to [`AQSA_TUL_SATR`] characters, and whether it
/// was cut.
pub open spec fn iqtata_s(nass: Seq<char>) -> (Seq<char>, bool) {
    let m = mushdhab(nass);
    if m.len() <= AQSA_TUL_SATR {
        (m, false)
    } else {
        (m.take(AQSA_TUL_SATR as int), true)
    }
}

/// Trims a line and cuts it to [`AQSA_TUL_SATR`] characters.
pub fn iqtata(nass: &str) -> (r: (String, bool))
    ensures
        (r.0@, r.1) == iqtata_s(nass@),
{
    let h = huruf(nass);
    let m = shadhdhib(&h);
    if m.len() <= AQSA_TUL_SATR {
        (min_huruf(m.as_slice()), false)
    } else {
        let q = qita(&m, 0, AQSA_TUL_SATR);
        proof {
            assert(q@ =~= m@.take(AQSA_TUL_SATR as int));
        }
        (min_huruf(q.as_slice()), true)
    }
}

/// One line the overlay read, and what it made of it.
#[derive(Debug, Clone, PartialEq, Eq)]
pub struct MadkhalQira {
    /// Increasing within this history.
    pub muarrif: MuarrifMadkhal,
    /// When the line was first recognized, in seconds since the epoch.
    pub lahza: u64,
    /// When the same line was last seen, in seconds since the epoch.
    pub lahza_akhira: u64,
    /// Which region it came from.
    pub mintaqa: MuarrifMintaqa,
    /// The region's name when the line was read.
    pub ism_mintaqa: String,
    /// What the recognizer read, trimmed.
    pub asl: String,
    /// The Arabic, once there is any.
    pub arabi: Option<String>,
    /// The recognizer's confidence, meaningful only when `maqisa`.
    pub thiqa: u8,
    /// Whether `thiqa` is a measurement.
    pub maqisa: bool,
    /// Which side produced `arabi`, once something did.
    pub masdar: Option<MasdarTarjama>,
    /// How many consecutive readings produced this same line.
    pub takrar: u32,
    /// Whether the source text was longer than [`AQSA_TUL_SATR`] and was cut.
    pub maqtu: bool,
}

/// Whether a text, lowercased, holds a needle already lowercased.
pub open spec fn yahwi_saghir(nass: Seq<char>, matlub: Seq<char>) -> bool {
    yahwi_s(saghir_kamil(nass), matlub)
}

/// Whether an entry's source or translation holds a needle, both sides
/// trimmed of nothing but the needle, and both lowercased; an empty needle
/// matches everything.
pub open spec fn yutabiq_s(m: MadkhalQira, matlub: Seq<char>) -> bool {
    let n = saghir_kamil(mushdhab(matlub));
    n.len() == 0 || yahwi_saghir(m.asl@, n) || (m.arabi matches Some(a) && yahwi_saghir(a@, n))
}

/// How the panel describes the recognizer's confidence.
pub open spec fn unwan_thiqa_s(maqisa: bool, thiqa: u8) -> Seq<char> {
    if !maqisa {
        "لم يُقِس المحرّك ثقته"@
    } else if thiqa >= 85 {
        "قراءة واضحة"@
    } else if thiqa >= 60 {
        "قراءة محتملة الخطأ"@
    } else {
        "قراءة ضعيفة"@
    }
}

/// The one-line form the history page shows.
pub open spec fn satr_madkhal(m: MadkhalQira) -> Seq<char> {
    let nass = match m.arabi {
        Some(a) => a@,
        None => m.asl@,
    };
    "["@ + m.ism_mintaqa@ + "] "@ + nass + (if m.takrar > 1 {
        " (×"@ + ashri(m.takrar as nat) + ")"@
    } else {
        Seq::empty()
    }) + (if m.arabi is None {
        " — لم تصل الترجمة بعد"@
    } else {
        Seq::empty()
    }) + (if m.maqtu {
        " — نصّ مقطوع"@
    } else {
        Seq::empty()
    })
}

impl MadkhalQira {
    /// A freshly recognized line, with no translation yet: the source
    /// trimmed and cut, seen once.
    pub fn jadeed(
        muarrif: MuarrifMadkhal,
        lahza: u64,
        mintaqa: MuarrifMintaqa,
        ism_mintaqa: &str,
        asl: &str,
        thiqa: ThiqatSatr,
    ) -> (r: Self)
        ensures
            r.muarrif == muarrif,
            r.lahza == lahza,
            r.lahza_akhira == lahza,
            r.mintaqa == mintaqa,
            r.ism_mintaqa@ == ism_mintaqa@,
            (r.asl@, r.maqtu) == iqtata_s(asl@),
            r.arabi is None,
            r.thiqa == mia_thiqa(thiqa),
            r.maqisa == (thiqa is Maqisa),
            r.masdar is None,
            r.takrar == 1,
    {
        let (asl, maqtu) = iqtata(asl);
        MadkhalQira {
            muarrif,
            lahza,
            lahza_akhira: lahza,
            mintaqa,
            ism_mintaqa: min_nass(ism_mintaqa),
            asl,
            arabi: None,
            thiqa: thiqa.mia(),
            maqisa: thiqa.maqisa(),
            masdar: None,
            takrar: 1,
            maqtu,
        }
    }

    /// The same line with a translation attached, trimmed and cut.
    pub fn mutarjam(self, arabi: &str, masdar: MasdarTarjama) -> (r: Self)
        ensures
            r.arabi matches Some(a) && a@ == iqtata_s(arabi@).0,
            r.masdar == Some(masdar),
            r.muarrif == self.muarrif && r.lahza == self.lahza && r.lahza_akhira == self.lahza_akhira,
            r.mintaqa == self.mintaqa && r.ism_mintaqa == self.ism_mintaqa && r.asl == self.asl,
            r.thiqa == self.thiqa && r.maqisa == self.maqisa && r.takrar == self.takrar,
            r.maqtu == self.maqtu,
    {
        let (nass, _) = iqtata(arabi);
        let mut r = self;
        r.arabi = Some(nass);
        r.masdar = Some(masdar);
        r
    }

    /// Whether the Arabic has arrived.
    pub fn tarjuma_wasalat(&self) -> (r: bool)
        ensures
            r == (self.arabi is Some),
    {
        self.arabi.is_some()
    }

    /// How long the line stayed on screen, in seconds, as far as the
    /// history saw.
    pub fn mudda(&self) -> (r: u64)
        ensures
            r == if self.lahza_akhira >= self.lahza {
                (self.lahza_akhira - self.lahza) as u64
            } else {
                0
            },
    {
        if self.lahza_akhira >= self.lahza {
            self.lahza_akhira - self.lahza
        } else {
            0
        }
    }

    /// Whether either text holds a needle, case-folded.
    pub fn yutabiq(&self, matlub: &str) -> (r: bool)
        ensures
            r == yutabiq_s(*self, matlub@),
    {
        let hm = huruf(matlub);
        let m = min_huruf(shadhdhib(&hm).as_slice());
        let n = huruf(ila_saghir(m.as_str()).as_str());
        if n.len() == 0 {
            return true;
        }
        let a = huruf(ila_saghir(self.asl.as_str()).as_str());
        if yahwi(&a, &n) {
            return true;
        }
        match &self.arabi {
            Some(ar) => {
                let b = huruf(ila_saghir(ar.as_str()).as_str());
                yahwi(&b, &n)
            },
            None => false,
        }
    }

    /// The recognizer's confidence, or the fact that it reported none.
    pub fn thiqa(&self) -> (r: ThiqatSatr)
        ensures
            self.maqisa ==> r == ThiqatSatr::Maqisa(mia_mahsura(self.thiqa)),
            !self.maqisa ==> r == ThiqatSatr::Ghayr,
    {
        ThiqatSatr::min_maqru(self.thiqa, self.maqisa)
    }

    /// How the panel describes the recognizer's confidence: not measured,
    /// clear, possibly wrong, or weak.
    pub fn unwan_thiqa(&self) -> (r: &'static str)
        ensures
            r@ == unwan_thiqa_s(self.maqisa, self.thiqa),
    {
        if !self.maqisa {
            "لم يُقِس المحرّك ثقته"
        } else if self.thiqa >= 85 {
            "قراءة واضحة"
        } else if self.thiqa >= 60 {
            "قراءة محتملة الخطأ"
        } else {
            "قراءة ضعيفة"
        }
    }

    /// The one-line form the history page shows.
    pub fn satr(&self) -> (r: String)
        ensures
            r@ == satr_madkhal(*self),
    {
        let mut r = min_nass("[");
        ilhaq(&mut r, self.ism_mintaqa.as_str());
        ilhaq(&mut r, "] ");
        match &self.arabi {
            Some(a) => ilhaq(&mut r, a.as_str()),
            None => ilhaq(&mut r, self.asl.as_str()),
        }
        let ghost r1 = r@;
        if self.takrar > 1 {
            ilhaq(&mut r, " (×");
            aktub_ashri(&mut r, self.takrar as u64);
            ilhaq(&mut r, ")");
        }
        let ghost r2 = r@;
        if self.arabi.is_none() {
            ilhaq(&mut r, " — لم تصل الترجمة بعد");
        }
        let ghost r3 = r@;
        if self.maqtu {
            ilhaq(&mut r, " — نصّ مقطوع");
        }
        proof {
            if self.takrar <= 1 {
                assert(r2 =~= r1 + Seq::<char>::empty());
            }
            if self.arabi is Some {
                assert(r3 =~= r2 + Seq::<char>::empty());
            }
            if !self.maqtu {
                assert(r@ =~= r3 + Seq::<char>::empty());
            }
        }
        r
    }
}

/// What appending a reading did.
#[derive(Debug, Clone, Copy, PartialEq, Eq, Structural)]
pub enum NatijatIdraj {
    /// A new entry was added.
    Judida(MuarrifMadkhal),
    /// The reading repeated the region's previous line, and raised its count.
    Mukarrara(MuarrifMadkhal),
    /// The reading was empty once trimmed, and nothing was recorded.
    Farigha,
}

/// The entry a reading landed on, when it landed on one.
pub open spec fn muarrif_idraj(r: NatijatIdraj) -> Option<MuarrifMadkhal> {
    match r {
        NatijatIdraj::Judida(m) => Some(m),
        NatijatIdraj::Mukarrara(m) => Some(m),
        NatijatIdraj::Farigha => None,
    }
}

impl NatijatIdraj {
    /// The entry this reading landed on, when it landed on one.
    pub fn muarrif(self) -> (r: Option<MuarrifMadkhal>)
        ensures
            r == muarrif_idraj(self),
    {
        match self {
            NatijatIdraj::Judida(m) => Some(m),
            NatijatIdraj::Mukarrara(m) => Some(m),
            NatijatIdraj::Farigha => None,
        }
    }

    /// Whether this reading added a row rather than raising a count.
    pub fn judida(self) -> (r: bool)
        ensures
            r == (self is Judida),
    {
        match self {
            NatijatIdraj::Judida(_) => true,
            _ => false,
        }
    }
}

/// What the control panel says about the history.
#[derive(Debug, Clone, Copy, PartialEq, Eq, Structural)]
pub struct TaqreerSijill {
    /// How many entries are held right now.
    pub mahfuza: usize,
    /// The capacity they are held against.
    pub saa: usize,
    /// How many entries were pushed off the end since the history was opened.
    pub mustabaada: u64,
    /// How many distinct regions have produced at least one entry.
    pub manatiq: usize,
    /// How many lines of the file could not be parsed and were skipped.
    pub satur_talifa: u64,
    /// How many in-memory changes the file does not yet reflect.
    pub muallaqa: u64,
}

pub open spec fn wasf_taqreer(t: TaqreerSijill) -> Seq<char> {
    ashri(t.mahfuza as nat) + " of "@ + ashri(t.saa as nat) + " entries held, "@ + ashri(
        t.mustabaada as nat,
    ) + " evicted, "@ + ashri(t.manatiq as nat) + " region(s) seen"@ + (if t.satur_talifa > 0 {
        ", "@ + ashri(t.satur_talifa as nat) + " malformed line(s) skipped on load"@
    } else {
        Seq::empty()
    }) + (if t.muallaqa > 0 {
        ", "@ + ashri(t.muallaqa as nat) + " change(s) not yet compacted to disk"@
    } else {
        Seq::empty()
    })
}

pub open spec fn unwan_taqreer(t: TaqreerSijill) -> Seq<char> {
    ashri(t.mahfuza as nat) + " من "@ + ashri(t.saa as nat) + " سطرًا، وأُسقط "@ + ashri(
        t.mustabaada as nat,
    ) + " سطرًا، من "@ + ashri(t.manatiq as nat) + " منطقة."@ + (if t.satur_talifa > 0 {
        " وتُخطّي "@ + ashri(t.satur_talifa as nat) + " سطرًا تالفًا عند التحميل."@
    } else {
        Seq::empty()
    })
}

impl TaqreerSijill {
    /// The sentence for a log line and a report, in English, with the
    /// unflattering numbers included.
    pub fn wasf(&self) -> (r: String)
        ensures
            r@ == wasf_taqreer(*self),
    {
        let mut r = String::new();
        aktub_ashri(&mut r, self.mahfuza as u64);
        ilhaq(&mut r, " of ");
        aktub_ashri(&mut r, self.saa as u64);
        ilhaq(&mut r, " entries held, ");
        aktub_ashri(&mut r, self.mustabaada);
        ilhaq(&mut r, " evicted, ");
        aktub_ashri(&mut r, self.manatiq as u64);
        ilhaq(&mut r, " region(s) seen");
        let ghost r1 = r@;
        if self.satur_talifa > 0 {
            ilhaq(&mut r, ", ");
            aktub_ashri(&mut r, self.satur_talifa);
            ilhaq(&mut r, " malformed line(s) skipped on load");
        }
        let ghost r2 = r@;
        if self.muallaqa > 0 {
            ilhaq(&mut r, ", ");
            aktub_ashri(&mut r, self.muallaqa);
            ilhaq(&mut r, " change(s) not yet compacted to disk");
        }
        proof {
            if self.satur_talifa == 0 {
                assert(r2 =~= r1 + Seq::<char>::empty());
            }
            if self.muallaqa == 0 {
                assert(r@ =~= r2 + Seq::<char>::empty());
            }
        }
        r
    }

    /// The same sentence in Arabic, for the panel.
    pub fn unwan(&self) -> (r: String)
        ensures
            r@ == unwan_taqreer(*self),
    {
        let mut r = String::new();
        aktub_ashri(&mut r, self.mahfuza as u64);
        ilhaq(&mut r, " من ");
        aktub_ashri(&mut r, self.saa as u64);
        ilhaq(&mut r, " سطرًا، وأُسقط ");
        aktub_ashri(&mut r, self.mustabaada);
        ilhaq(&mut r, " سطرًا، من ");
        aktub_ashri(&mut r, self.manatiq as u64);
        ilhaq(&mut r, " منطقة.");
        let ghost r1 = r@;
        if self.satur_talifa > 0 {
            ilhaq(&mut r, " وتُخطّي ");
            aktub_ashri(&mut r, self.satur_talifa);
            ilhaq(&mut r, " سطرًا تالفًا عند التحميل.");
        }
        proof {
            if self.satur_talifa == 0 {
                assert(r@ =~= r1 + Seq::<char>::empty());
            }
        }
        r
    }
}

/// A capacity clamped into range.
pub open spec fn saa_mahdud(saa: usize) -> usize {
    if saa < ADNA_SAA {
        ADNA_SAA
    } else if saa > AQSA_SAA {
        AQSA_SAA
    } else {
        saa
    }
}

/// `a + b`, stopping at the largest `u64`.
pub open spec fn jam_mushabba(a: u64, b: nat) -> u64 {
    if a + b > u64::MAX {
        u64::MAX
    } else {
        (a + b) as u64
    }
}

/// The history held to a capacity: the oldest entries beyond it dropped.
pub open spec fn qallim_s(s: Seq<MadkhalQira>, saa: nat) -> Seq<MadkhalQira> {
    if s.len() > saa {
        s.skip(s.len() - saa)
    } else {
        s
    }
}

/// How many entries holding to a capacity drops.
pub open spec fn mustabad_s(s: Seq<MadkhalQira>, saa: nat) -> nat {
    if s.len() > saa {
        (s.len() - saa) as nat
    } else {
        0
    }
}

/// The last position before `n` of an entry from a region.
pub open spec fn akhir_min_mintaqa(s: Seq<MadkhalQira>, mintaqa: MuarrifMintaqa, n: nat) -> Option<nat>
    decreases n,
{
    if n == 0 {
        None
    } else if s[n - 1].mintaqa == mintaqa {
        Some((n - 1) as nat)
    } else {
        akhir_min_mintaqa(s, mintaqa, (n - 1) as nat)
    }
}

/// The first position from `i` on of the entry with an identity.
pub open spec fn mawqi_madkhal(s: Seq<MadkhalQira>, muarrif: MuarrifMadkhal, i: nat) -> Option<nat>
    decreases s.len() - i,
{
    if i >= s.len() {
        None
    } else if s[i as int].muarrif == muarrif {
        Some(i)
    } else {
        mawqi_madkhal(s, muarrif, i + 1)
    }
}

/// A found position lies in range and holds what was looked for.
pub proof fn lemma_mawqi_madkhal(s: Seq<MadkhalQira>, muarrif: MuarrifMadkhal, i: nat)
    ensures
        mawqi_madkhal(s, muarrif, i) matches Some(k) ==> i <= k < s.len() && s[k as int].muarrif
            == muarrif,
    decreases s.len() - i,
{
    if i < s.len() && s[i as int].muarrif != muarrif {
        lemma_mawqi_madkhal(s, muarrif, i + 1);
    }
}

/// A found position lies in range and holds the region.
pub proof fn lemma_akhir_min_mintaqa(s: Seq<MadkhalQira>, mintaqa: MuarrifMintaqa, n: nat)
    requires
        n <= s.len(),
    ensures
        akhir_min_mintaqa(s, mintaqa, n) matches Some(k) ==> k < n && s[k as int].mintaqa == mintaqa,
    decreases n,
{
    if n > 0 && s[n - 1].mintaqa != mintaqa {
        lemma_akhir_min_mintaqa(s, mintaqa, (n - 1) as nat);
    }
}

/// The entry a repeated reading leaves behind: seen once more, last seen at
/// the later of the two times, and the better confidence kept, a measured
/// one replacing an unmeasured one outright.
pub open spec fn mukarrar_s(q: MadkhalQira, j: MadkhalQira, lahza: u64, thiqa: ThiqatSatr) -> bool {
    &&& j.takrar == if q.takrar < u32::MAX {
        (q.takrar + 1) as u32
    } else {
        q.takrar
    }
    &&& j.lahza_akhira == if lahza > q.lahza_akhira {
        lahza
    } else {
        q.lahza_akhira
    }
    &&& if thiqa is Maqisa && !q.maqisa {
        j.thiqa == mia_thiqa(thiqa) && j.maqisa
    } else if (thiqa is Maqisa) == q.maqisa {
        j.thiqa == (if mia_thiqa(thiqa) > q.thiqa {
            mia_thiqa(thiqa)
        } else {
            q.thiqa
        }) && j.maqisa == q.maqisa
    } else {
        j.thiqa == q.thiqa && j.maqisa == q.maqisa
    }
    &&& j.muarrif == q.muarrif && j.lahza == q.lahza && j.mintaqa == q.mintaqa
    &&& j.ism_mintaqa == q.ism_mintaqa && j.asl == q.asl && j.arabi == q.arabi
    &&& j.masdar == q.masdar && j.maqtu == q.maqtu
}

/// The entry a new reading adds.
pub open spec fn jadeed_s(
    j: MadkhalQira,
    muarrif: MuarrifMadkhal,
    lahza: u64,
    mintaqa: MuarrifMintaqa,
    ism_mintaqa: Seq<char>,
    asl: Seq<char>,
    thiqa: ThiqatSatr,
) -> bool {
    &&& j.muarrif == muarrif && j.lahza == lahza && j.lahza_akhira == lahza
    &&& j.mintaqa == mintaqa && j.ism_mintaqa@ == ism_mintaqa
    &&& (j.asl@, j.maqtu) == iqtata_s(asl)
    &&& j.arabi is None && j.masdar is None
    &&& j.thiqa == mia_thiqa(thiqa) && j.maqisa == (thiqa is Maqisa)
    &&& j.takrar == 1
}

/// The reading history: bounded, deduplicated, searchable.
pub struct SijillQira {
    madakhil: VecDeque<MadkhalQira>,
    saa: usize,
    talee: u64,
    luba: LubaId,
    mustabaada: u64,
    satur_talifa: u64,
    masar: Option<String>,
    sutur_malaf: u64,
    muallaqa: u64,
}

/// How many file lines beyond the capacity, as a multiple of it, make a
/// compaction worth doing.
pub const MUAMIL_RASS: u64 = 2;

/// How many changes the file does not reflect make a compaction worth doing.
pub const HADD_MUALLAQA: u64 = 64;

impl SijillQira {
    pub closed spec fn madakhil_s(self) -> Seq<MadkhalQira> {
        self.madakhil@
    }

    pub closed spec fn saa_s(self) -> usize {
        self.saa
    }

    pub closed spec fn talee_s(self) -> u64 {
        self.talee
    }

    pub closed spec fn luba_s(self) -> LubaId {
        self.luba
    }

    pub closed spec fn mustabaada_s(self) -> u64 {
        self.mustabaada
    }

    pub closed spec fn satur_talifa_s(self) -> u64 {
        self.satur_talifa
    }

    pub closed spec fn masar_s(self) -> Option<Seq<char>> {
        match self.masar {
            Some(m) => Some(m@),
            None => None,
        }
    }

    pub closed spec fn sutur_malaf_s(self) -> u64 {
        self.sutur_malaf
    }

    pub closed spec fn muallaqa_s(self) -> u64 {
        self.muallaqa
    }

    /// What every change keeps: the capacity in range and respected,
    /// identities increasing from oldest to newest and all below the next
    /// one, every entry seen at least once with some source text.
    pub open spec fn salim(self) -> bool {
        let s = self.madakhil_s();
        &&& ADNA_SAA <= self.saa_s() <= AQSA_SAA
        &&& s.len() <= self.saa_s()
        &&& forall|i: int, j: int| 0 <= i < j < s.len() ==> s[i].muarrif.0 < s[j].muarrif.0
        &&& forall|i: int| 0 <= i < s.len() ==> (#[trigger] s[i]).muarrif.0 < self.talee_s()
        &&& forall|i: int| 0 <= i < s.len() ==> (#[trigger] s[i]).takrar >= 1 && s[i].asl@.len() > 0
    }

    /// Everything but the entries, the evicted count and the pending count
    /// is as it was.
    pub open spec fn nafs_al_ithbat(self, akhar: Self) -> bool {
        &&& self.saa_s() == akhar.saa_s()
        &&& self.talee_s() == akhar.talee_s()
        &&& self.luba_s() == akhar.luba_s()
        &&& self.satur_talifa_s() == akhar.satur_talifa_s()
        &&& self.masar_s() == akhar.masar_s()
        &&& self.sutur_malaf_s() == akhar.sutur_malaf_s()
    }

    /// Nothing changed.
    pub open spec fn kama_huwa(self, akhar: Self) -> bool {
        &&& self.nafs_al_ithbat(akhar)
        &&& self.madakhil_s() == akhar.madakhil_s()
        &&& self.mustabaada_s() == akhar.mustabaada_s()
        &&& self.muallaqa_s() == akhar.muallaqa_s()
    }

    /// An empty history at a chosen capacity, clamped into range, with no
    /// file behind it.
    pub fn bi_saa(luba: LubaId, saa: usize) -> (r: Self)
        ensures
            r.madakhil_s().len() == 0,
            r.saa_s() == saa_mahdud(saa),
            r.talee_s() == 1,
            r.luba_s() == luba,
            r.mustabaada_s() == 0,
            r.satur_talifa_s() == 0,
            r.masar_s() is None,
            r.sutur_malaf_s() == 0,
            r.muallaqa_s() == 0,
            r.salim(),
    {
        SijillQira {
            madakhil: VecDeque::new(),
            saa: if saa < ADNA_SAA {
                ADNA_SAA
            } else if saa > AQSA_SAA {
                AQSA_SAA
            } else {
                saa
            },
            talee: 1,
            luba,
            mustabaada: 0,
            satur_talifa: 0,
            masar: None,
            sutur_malaf: 0,
            muallaqa: 0,
        }
    }

    /// An empty history at the default capacity, with no file behind it.
    pub fn jadeed(luba: LubaId) -> (r: Self)
        ensures
            r.madakhil_s().len() == 0,
            r.saa_s() == SAA_IFTIRADIYA,
            r.talee_s() == 1,
            r.luba_s() == luba,
            r.mustabaada_s() == 0,
            r.satur_talifa_s() == 0,
            r.masar_s() is None,
            r.sutur_malaf_s() == 0,
            r.muallaqa_s() == 0,
            r.salim(),
    {
        Self::bi_saa(luba, SAA_IFTIRADIYA)
    }

    /// Which game this history belongs to.
    pub fn luba(&self) -> (r: LubaId)
        ensures
            r == self.luba_s(),
    {
        self.luba
    }

    /// The capacity.
    pub fn saa(&self) -> (r: usize)
        ensures
            r == self.saa_s(),
    {
        self.saa
    }

    /// How many entries are held.
    pub fn adad(&self) -> (r: usize)
        ensures
            r == self.madakhil_s().len(),
    {
        self.madakhil.len()
    }

    /// Whether anything is held.
    pub fn khali(&self) -> (r: bool)
        ensures
            r == (self.madakhil_s().len() == 0),
    {
        self.madakhil.len() == 0
    }

    /// The file this history appends to, once one is open.
    pub fn masar(&self) -> (r: Option<&str>)
        ensures
            r matches Some(m) ==> self.masar_s() == Some(m@),
            r is None ==> self.masar_s() is None,
    {
        match &self.masar {
            Some(m) => Some(m.as_str()),
            None => None,
        }
    }

    /// Every entry, oldest first.
    pub fn madakhil(&self) -> (r: &VecDeque<MadkhalQira>)
        ensures
            r@ == self.madakhil_s(),
    {
        &self.madakhil
    }

    /// One entry by identity.
    pub fn madkhal(&self, muarrif: MuarrifMadkhal) -> (r: Option<&MadkhalQira>)
        ensures
            mawqi_madkhal(self.madakhil_s(), muarrif, 0) matches Some(k) ==> r == Some(
                &self.madakhil_s()[k as int],
            ),
            mawqi_madkhal(self.madakhil_s(), muarrif, 0) is None ==> r is None,
    {
        proof {
            lemma_mawqi_madkhal(self.madakhil@, muarrif, 0);
        }
        match self.mawqi(muarrif) {
            Some(k) => Some(&self.madakhil[k]),
            None => None,
        }
    }

    fn mawqi(&self, muarrif: MuarrifMadkhal) -> (r: Option<usize>)
        ensures
            r matches Some(k) ==> mawqi_madkhal(self.madakhil_s(), muarrif, 0) == Some(k as nat),
            r is None ==> mawqi_madkhal(self.madakhil_s(), muarrif, 0) is None,
    {
        let mut i: usize = 0;
        while i < self.madakhil.len()
            invariant
                i <= self.madakhil@.len(),
                mawqi_madkhal(self.madakhil@, muarrif, 0) == mawqi_madkhal(
                    self.madakhil@,
                    muarrif,
                    i as nat,
                ),
            decreases self.madakhil@.len() - i,
        {
            if self.madakhil[i].muarrif.0 == muarrif.0 {
                return Some(i);
            }
            i = i + 1;
        }
        None
    }

    /// Drops entries off the front until the history fits its capacity,
    /// counting each.
    fn qallim(&mut self)
        ensures
            final(self).madakhil_s() == qallim_s(old(self).madakhil_s(), old(self).saa_s() as nat),
            final(self).mustabaada_s() == jam_mushabba(
                old(self).mustabaada_s(),
                mustabad_s(old(self).madakhil_s(), old(self).saa_s() as nat),
            ),
            final(self).nafs_al_ithbat(*old(self)),
            final(self).muallaqa_s() == old(self).muallaqa_s(),
    {
        let ghost q = self.madakhil@;
        let kull = self.madakhil.len();
        let mut n: usize = 0;
        while self.madakhil.len() > self.saa
            invariant
                self.madakhil@ == q.skip(n as int),
                n <= q.len(),
                kull == q.len(),
                n <= mustabad_s(q, self.saa as nat),
                self.saa == old(self).saa,
                q == old(self).madakhil@,
                self.mustabaada == jam_mushabba(old(self).mustabaada, n as nat),
                self.nafs_al_ithbat(*old(self)),
                self.muallaqa == old(self).muallaqa,
            decreases self.madakhil@.len(),
        {
            let _ = self.madakhil.pop_front();
            self.mustabaada = if self.mustabaada < u64::MAX {
                self.mustabaada + 1
            } else {
                self.mustabaada
            };
            n = n + 1;
            proof {
                assert(self.madakhil@ =~= q.skip(n as int));
            }
        }
        proof {
            if q.len() <= self.saa {
                assert(q.skip(0) =~= q);
            }
        }
    }

    /// Changes the capacity, clamped into range, evicting at once if it
    /// shrank.
    pub fn ihdud_saa(&mut self, saa: usize)
        ensures
            final(self).saa_s() == saa_mahdud(saa),
            final(self).madakhil_s() == qallim_s(old(self).madakhil_s(), saa_mahdud(saa) as nat),
            final(self).mustabaada_s() == jam_mushabba(
                old(self).mustabaada_s(),
                mustabad_s(old(self).madakhil_s(), saa_mahdud(saa) as nat),
            ),
            final(self).talee_s() == old(self).talee_s(),
            final(self).luba_s() == old(self).luba_s(),
            final(self).satur_talifa_s() == old(self).satur_talifa_s(),
            final(self).masar_s() == old(self).masar_s(),
            final(self).sutur_malaf_s() == old(self).sutur_malaf_s(),
            final(self).muallaqa_s() == old(self).muallaqa_s(),
            old(self).salim() ==> final(self).salim(),
    {
        self.saa = if saa < ADNA_SAA {
            ADNA_SAA
        } else if saa > AQSA_SAA {
            AQSA_SAA
        } else {
            saa
        };
        self.qallim();
        proof {
            let q = old(self).madakhil@;
            let d = mustabad_s(q, self.saa as nat);
            assert forall|i: int| 0 <= i < self.madakhil@.len() implies self.madakhil@[i] == q[i + d] by {}
        }
    }
}

impl SijillQira {
    /// The capacity lies in range; every way of making or changing a
    /// history keeps it so.
    pub open spec fn thabit(self) -> bool {
        ADNA_SAA <= self.saa_s() <= AQSA_SAA
    }

    /// What recording a reading does. Trimmed and cut, an empty reading is
    /// not recorded. One that repeats the source text of its region's latest
    /// entry raises that entry's count and changes nothing else but the
    /// count of changes the file lacks. Any other adds an entry under the
    /// next identity, and the oldest entries beyond the capacity are
    /// evicted and counted.
    pub open spec fn sajjil_s(
        self,
        baad: Self,
        r: NatijatIdraj,
        lahza: u64,
        mintaqa: MuarrifMintaqa,
        ism_mintaqa: Seq<char>,
        asl: Seq<char>,
        thiqa: ThiqatSatr,
    ) -> bool {
        let nass = iqtata_s(asl).0;
        let s = self.madakhil_s();
        let sabiq = akhir_min_mintaqa(s, mintaqa, s.len());
        if nass.len() == 0 {
            r == NatijatIdraj::Farigha && baad.kama_huwa(self)
        } else if sabiq is Some && s[sabiq->0 as int].asl@ == nass {
            let k = sabiq->0 as int;
            &&& r == NatijatIdraj::Mukarrara(s[k].muarrif)
            &&& baad.nafs_al_ithbat(self)
            &&& baad.mustabaada_s() == self.mustabaada_s()
            &&& baad.muallaqa_s() == jam_mushabba(self.muallaqa_s(), 1)
            &&& baad.madakhil_s().len() == s.len()
            &&& forall|j: int| 0 <= j < s.len() && j != k ==> baad.madakhil_s()[j] == s[j]
            &&& mukarrar_s(s[k], baad.madakhil_s()[k], lahza, thiqa)
        } else {
            let t = s.push(baad.madakhil_s().last());
            &&& r == NatijatIdraj::Judida(MuarrifMadkhal(self.talee_s()))
            &&& jadeed_s(
                baad.madakhil_s().last(),
                MuarrifMadkhal(self.talee_s()),
                lahza,
                mintaqa,
                ism_mintaqa,
                asl,
                thiqa,
            )
            &&& baad.madakhil_s() == qallim_s(t, self.saa_s() as nat)
            &&& baad.mustabaada_s() == jam_mushabba(self.mustabaada_s(), mustabad_s(t, self.saa_s() as nat))
            &&& baad.talee_s() == jam_mushabba(self.talee_s(), 1)
            &&& baad.muallaqa_s() == self.muallaqa_s()
            &&& baad.saa_s() == self.saa_s() && baad.luba_s() == self.luba_s()
            &&& baad.satur_talifa_s() == self.satur_talifa_s() && baad.masar_s() == self.masar_s()
            &&& baad.sutur_malaf_s() == self.sutur_malaf_s()
        }
    }

    /// Records a reading, suppressing a repeat of the region's previous line.
    pub fn sajjil(
        &mut self,
        lahza: u64,
        mintaqa: MuarrifMintaqa,
        ism_mintaqa: &str,
        asl: &str,
        thiqa: ThiqatSatr,
    ) -> (r: NatijatIdraj)
        requires
            old(self).thabit(),
        ensures
            old(self).sajjil_s(*final(self), r, lahza, mintaqa, ism_mintaqa@, asl@, thiqa),
            final(self).thabit(),
            old(self).salim() && old(self).talee_s() < u64::MAX ==> final(self).salim(),
    {
        let (nass, maqtu) = iqtata(asl);
        let nass_h = huruf(nass.as_str());
        if nass_h.len() == 0 {
            return NatijatIdraj::Farigha;
        }
        let ghost s = self.madakhil@;
        let mut i = self.madakhil.len();
        let mut sabiq: Option<usize> = None;
        while sabiq.is_none() && i > 0
            invariant
                i <= s.len(),
                s == self.madakhil@,
                sabiq is None ==> akhir_min_mintaqa(s, mintaqa, s.len()) == akhir_min_mintaqa(
                    s,
                    mintaqa,
                    i as nat,
                ),
                sabiq matches Some(k) ==> akhir_min_mintaqa(s, mintaqa, s.len()) == Some(k as nat),
            decreases i + if sabiq is None {
                1int
            } else {
                0int
            },
        {
            if self.madakhil[i - 1].mintaqa.0 == mintaqa.0 {
                sabiq = Some(i - 1);
            } else {
                i = i - 1;
            }
        }
        proof {
            lemma_akhir_min_mintaqa(s, mintaqa, s.len());
        }
        if let Some(k) = sabiq {
            let asl_k = huruf(self.madakhil[k].asl.as_str());
            if crate::nass::sawa(&asl_k, &nass_h) {
                match self.madakhil.remove(k) {
                    Some(mut e) => {
                        let ghost q = e;
                        e.takrar = if e.takrar < u32::MAX {
                            e.takrar + 1
                        } else {
                            e.takrar
                        };
                        e.lahza_akhira = if lahza > e.lahza_akhira {
                            lahza
                        } else {
                            e.lahza_akhira
                        };
                        if thiqa.maqisa() && !e.maqisa {
                            e.thiqa = thiqa.mia();
                            e.maqisa = true;
                        } else if thiqa.maqisa() == e.maqisa {
                            let m = thiqa.mia();
                            e.thiqa = if m > e.thiqa {
                                m
                            } else {
                                e.thiqa
                            };
                        }
                        let muarrif = e.muarrif;
                        self.madakhil.insert(k, e);
                        self.muallaqa = if self.muallaqa < u64::MAX {
                            self.muallaqa + 1
                        } else {
                            self.muallaqa
                        };
                        proof {
                            assert(self.madakhil@ =~= s.update(k as int, e));
                            if old(self).salim() {
                                assert forall|a: int, b: int| 0 <= a < b < s.len() implies self.madakhil@[a].muarrif.0
                                    < self.madakhil@[b].muarrif.0 by {}
                            }
                        }
                        return NatijatIdraj::Mukarrara(muarrif);
                    },
                    None => {},
                }
            }
        }
        let muarrif = MuarrifMadkhal(self.talee);
        self.talee = if self.talee < u64::MAX {
            self.talee + 1
        } else {
            self.talee
        };
        let e = MadkhalQira {
            muarrif,
            lahza,
            lahza_akhira: lahza,
            mintaqa,
            ism_mintaqa: min_nass(ism_mintaqa),
            asl: nass,
            arabi: None,
            thiqa: thiqa.mia(),
            maqisa: thiqa.maqisa(),
            masdar: None,
            takrar: 1,
            maqtu,
        };
        self.madakhil.push_back(e);
        let ghost t = self.madakhil@;
        proof {
            assert(t == s.push(e));
        }
        self.qallim();
        proof {
            let saa = self.saa as nat;
            assert(self.madakhil@.last() == e);
            if old(self).salim() && old(self).talee < u64::MAX {
                let d = mustabad_s(t, saa);
                assert forall|a: int| 0 <= a < self.madakhil@.len() implies self.madakhil@[a] == t[a + d] by {}
                assert forall|a: int, b: int| 0 <= a < b < self.madakhil@.len() implies self.madakhil@[a].muarrif.0
                    < self.madakhil@[b].muarrif.0 by {
                    assert(self.madakhil@[a] == t[a + d] && self.madakhil@[b] == t[b + d]);
                    if b + d == s.len() {
                        assert(t[a + d].muarrif.0 < old(self).talee);
                    }
                }
                assert forall|a: int| 0 <= a < self.madakhil@.len() implies (#[trigger] self.madakhil@[a]).muarrif.0
                    < self.talee && self.madakhil@[a].takrar >= 1 && self.madakhil@[a].asl@.len() > 0 by {
                    assert(self.madakhil@[a] == t[a + d]);
                }
            }
        }
        NatijatIdraj::Judida(muarrif)
    }
}

/// The regions that produced at least one of these entries.
pub open spec fn manatiq_masjula_s(s: Seq<MadkhalQira>) -> Set<MuarrifMintaqa> {
    s.map_values(|e: MadkhalQira| e.mintaqa).to_set()
}

impl SijillQira {
    /// Attaches a translation, trimmed and cut, to the entry with this
    /// identity; says whether that entry was still held.
    pub fn adkhil_tarjama(&mut self, muarrif: MuarrifMadkhal, arabi: &str, masdar: MasdarTarjama) -> (r:
        bool)
        ensures
            r == mawqi_madkhal(old(self).madakhil_s(), muarrif, 0) is Some,
            !r ==> final(self).kama_huwa(*old(self)),
            r ==> ({
                let k = mawqi_madkhal(old(self).madakhil_s(), muarrif, 0)->0 as int;
                let (q, j) = (old(self).madakhil_s()[k], final(self).madakhil_s()[k]);
                &&& final(self).nafs_al_ithbat(*old(self))
                &&& final(self).mustabaada_s() == old(self).mustabaada_s()
                &&& final(self).muallaqa_s() == jam_mushabba(old(self).muallaqa_s(), 1)
                &&& final(self).madakhil_s().len() == old(self).madakhil_s().len()
                &&& forall|i: int|
                    0 <= i < old(self).madakhil_s().len() && i != k ==> final(self).madakhil_s()[i]
                        == old(self).madakhil_s()[i]
                &&& j.arabi matches Some(a) && a@ == iqtata_s(arabi@).0
                &&& j.masdar == Some(masdar)
                &&& j.muarrif == q.muarrif && j.lahza == q.lahza && j.lahza_akhira == q.lahza_akhira
                &&& j.mintaqa == q.mintaqa && j.ism_mintaqa == q.ism_mintaqa && j.asl == q.asl
                &&& j.thiqa == q.thiqa && j.maqisa == q.maqisa && j.takrar == q.takrar
                &&& j.maqtu == q.maqtu
            }),
            old(self).thabit() ==> final(self).thabit(),
            old(self).salim() ==> final(self).salim(),
    {
        let (nass, _) = iqtata(arabi);
        proof {
            lemma_mawqi_madkhal(self.madakhil@, muarrif, 0);
        }
        let k = match self.mawqi(muarrif) {
            Some(k) => k,
            None => {
                return false;
            },
        };
        let ghost s = self.madakhil@;
        match self.madakhil.remove(k) {
            Some(mut e) => {
                e.arabi = Some(nass);
                e.masdar = Some(masdar);
                self.madakhil.insert(k, e);
                self.muallaqa = if self.muallaqa < u64::MAX {
                    self.muallaqa + 1
                } else {
                    self.muallaqa
                };
                proof {
                    assert(self.madakhil@ =~= s.update(k as int, e));
                }
                true
            },
            None => false,
        }
    }

    /// Every entry whose source or translation holds a needle, oldest first.
    pub fn bahth(&self, matlub: &str) -> (r: Vec<&MadkhalQira>)
        ensures
            r@.map_values(|x: &MadkhalQira| *x) == self.madakhil_s().filter(
                |m: MadkhalQira| yutabiq_s(m, matlub@),
            ),
    {
        let mut r: Vec<&MadkhalQira> = Vec::new();
        let mut i: usize = 0;
        while i < self.madakhil.len()
            invariant
                i <= self.madakhil@.len(),
                r@.map_values(|x: &MadkhalQira| *x) == self.madakhil@.take(i as int).filter(
                    |m: MadkhalQira| yutabiq_s(m, matlub@),
                ),
            decreases self.madakhil@.len() - i,
        {
            let m = &self.madakhil[i];
            proof {
                assert(self.madakhil@.take(i + 1).drop_last() =~= self.madakhil@.take(i as int));
                reveal(Seq::filter);
            }
            if m.yutabiq(matlub) {
                r.push(m);
                proof {
                    assert(r@.map_values(|x: &MadkhalQira| *x) =~= self.madakhil@.take(i as int).filter(
                        |m: MadkhalQira| yutabiq_s(m, matlub@),
                    ).push(*m));
                }
            }
            i = i + 1;
        }
        proof {
            assert(self.madakhil@.take(self.madakhil@.len() as int) =~= self.madakhil@);
        }
        r
    }

    /// Every entry from one region, oldest first.
    pub fn min_mintaqa(&self, mintaqa: MuarrifMintaqa) -> (r: Vec<&MadkhalQira>)
        ensures
            r@.map_values(|x: &MadkhalQira| *x) == self.madakhil_s().filter(
                |m: MadkhalQira| m.mintaqa == mintaqa,
            ),
    {
        let mut r: Vec<&MadkhalQira> = Vec::new();
        let mut i: usize = 0;
        while i < self.madakhil.len()
            invariant
                i <= self.madakhil@.len(),
                r@.map_values(|x: &MadkhalQira| *x) == self.madakhil@.take(i as int).filter(
                    |m: MadkhalQira| m.mintaqa == mintaqa,
                ),
            decreases self.madakhil@.len() - i,
        {
            let m = &self.madakhil[i];
            proof {
                assert(self.madakhil@.take(i + 1).drop_last() =~= self.madakhil@.take(i as int));
                reveal(Seq::filter);
            }
            if m.mintaqa.0 == mintaqa.0 {
                r.push(m);
                proof {
                    assert(r@.map_values(|x: &MadkhalQira| *x) =~= self.madakhil@.take(i as int).filter(
                        |m: MadkhalQira| m.mintaqa == mintaqa,
                    ).push(*m));
                }
            }
            i = i + 1;
        }
        proof {
            assert(self.madakhil@.take(self.madakhil@.len() as int) =~= self.madakhil@);
        }
        r
    }

    /// The most recent `adad` entries, oldest first.
    pub fn akhir(&self, adad: usize) -> (r: Vec<&MadkhalQira>)
        ensures
            r@.map_values(|x: &MadkhalQira| *x) == if adad >= self.madakhil_s().len() {
                self.madakhil_s()
            } else {
                self.madakhil_s().skip(self.madakhil_s().len() - adad)
            },
    {
        let n = self.madakhil.len();
        let tajawuz = if adad >= n {
            0
        } else {
            n - adad
        };
        let mut r: Vec<&MadkhalQira> = Vec::new();
        let mut i = tajawuz;
        while i < n
            invariant
                tajawuz <= i <= n,
                n == self.madakhil@.len(),
                r@.map_values(|x: &MadkhalQira| *x) == self.madakhil@.subrange(tajawuz as int, i as int),
            decreases n - i,
        {
            let e = &self.madakhil[i];
            let ghost r0 = r@;
            r.push(e);
            proof {
                assert(*e == self.madakhil@[i as int]);
                assert(r@.map_values(|x: &MadkhalQira| *x) =~= r0.map_values(|x: &MadkhalQira| *x).push(*e));
                assert(self.madakhil@.subrange(tajawuz as int, i + 1) =~= self.madakhil@.subrange(
                    tajawuz as int,
                    i as int,
                ).push(self.madakhil@[i as int]));
            }
            i = i + 1;
        }
        proof {
            assert(self.madakhil@.subrange(tajawuz as int, n as int) =~= self.madakhil@.skip(tajawuz as int));
            if adad >= n {
                assert(self.madakhil@.skip(0) =~= self.madakhil@);
            }
        }
        r
    }

    /// Which regions have produced at least one entry, in increasing order.
    pub fn manatiq_masjula(&self) -> (r: Vec<MuarrifMintaqa>)
        ensures
            forall|a: int, b: int| 0 <= a < b < r@.len() ==> r@[a].0 < r@[b].0,
            r@.to_set() == manatiq_masjula_s(self.madakhil_s()),
    {
        let mut r: Vec<MuarrifMintaqa> = Vec::new();
        let mut i: usize = 0;
        while i < self.madakhil.len()
            invariant
                i <= self.madakhil@.len(),
                forall|a: int, b: int| 0 <= a < b < r@.len() ==> r@[a].0 < r@[b].0,
                r@.to_set() == manatiq_masjula_s(self.madakhil@.take(i as int)),
            decreases self.madakhil@.len() - i,
        {
            let x = self.madakhil[i].mintaqa;
            let ghost r0 = r@;
            proof {
                assert(x == self.madakhil@[i as int].mintaqa);
            }
            let mut p: usize = 0;
            while p < r.len() && r[p].0 < x.0
                invariant
                    p <= r@.len(),
                    r@ == r0,
                    forall|a: int| 0 <= a < p ==> r@[a].0 < x.0,
                decreases r@.len() - p,
            {
                p = p + 1;
            }
            if p < r.len() && r[p].0 == x.0 {
                proof {
                    assert(r@[p as int] == x);
                }
            } else {
                r.insert(p, x);
                proof {
                    r0.insert_ensures(p as int, x);
                    assert forall|a: int, b: int| 0 <= a < b < r@.len() implies r@[a].0 < r@[b].0 by {
                        if b < p {
                        } else if b == p {
                        } else if a < p {
                            assert(r@[b] == r0[b - 1]);
                        } else if a == p {
                            assert(r@[b] == r0[b - 1]);
                            assert(r0[p as int].0 > x.0);
                            if b - 1 > p {
                                assert(r0[p as int].0 < r0[b - 1].0);
                            }
                        } else {
                            assert(r@[a] == r0[a - 1] && r@[b] == r0[b - 1]);
                        }
                    }
                    assert(r@.to_set() =~= r0.to_set().insert(x)) by {
                        assert forall|y: MuarrifMintaqa| r@.contains(y) <==> r0.contains(y) || y == x by {
                            if r@.contains(y) {
                                let w = choose|w: int| 0 <= w < r@.len() && r@[w] == y;
                                if w < p {
                                    assert(r0[w] == y);
                                } else if w > p {
                                    assert(r0[w - 1] == y);
                                }
                            }
                            if r0.contains(y) {
                                let w = choose|w: int| 0 <= w < r0.len() && r0[w] == y;
                                if w < p {
                                    assert(r@[w] == y);
                                } else {
                                    assert(r@[w + 1] == y);
                                }
                            }
                            if y == x {
                                assert(r@[p as int] == x);
                            }
                        }
                    }
                }
            }
            proof {
                let t0 = self.madakhil@.take(i as int);
                let t1 = self.madakhil@.take(i + 1);
                assert(i < self.madakhil@.len());
                assert(t1.drop_last() =~= t0);
                assert(t1.last() == self.madakhil@[i as int]);
                assert(t1.map_values(|e: MadkhalQira| e.mintaqa).len() == t0.len() + 1);
                let f1 = t1.map_values(|e: MadkhalQira| e.mintaqa);
                let f0 = t0.map_values(|e: MadkhalQira| e.mintaqa);
                assert forall|k: int| 0 <= k < t0.len() implies #[trigger] f1[k] == f0[k] by {
                    assert(t1[k] == t0[k]);
                }
                assert(f1[i as int] == x);
                assert(t1.map_values(|e: MadkhalQira| e.mintaqa) =~= t0.map_values(
                    |e: MadkhalQira| e.mintaqa,
                ).push(x));
                assert(t0.map_values(|e: MadkhalQira| e.mintaqa).push(x).to_set() =~= t0.map_values(
                    |e: MadkhalQira| e.mintaqa,
                ).to_set().insert(x)) by {
                    let u = t0.map_values(|e: MadkhalQira| e.mintaqa);
                    assert forall|y: MuarrifMintaqa| u.push(x).contains(y) <==> u.contains(y) || y == x by {
                        if u.push(x).contains(y) {
                            let w = choose|w: int| 0 <= w < u.push(x).len() && u.push(x)[w] == y;
                            if w < u.len() {
                                assert(u[w] == y);
                            }
                        }
                        if u.contains(y) {
                            let w = choose|w: int| 0 <= w < u.len() && u[w] == y;
                            assert(u.push(x)[w] == y);
                        }
                        if y == x {
                            assert(u.push(x)[u.len() as int] == x);
                        }
                    }
                }
                if p < r0.len() && r0[p as int].0 == x.0 {
                    assert(r0.to_set().insert(x) =~= r0.to_set());
                }
            }
            i = i + 1;
        }
        proof {
            assert(self.madakhil@.take(self.madakhil@.len() as int) =~= self.madakhil@);
        }
        r
    }
}

impl SijillQira {
    /// Forgets every entry, counting them as evicted, keeping the capacity,
    /// the identity counter and the file.
    pub fn imsah(&mut self)
        ensures
            final(self).madakhil_s().len() == 0,
            final(self).mustabaada_s() == jam_mushabba(
                old(self).mustabaada_s(),
                old(self).madakhil_s().len(),
            ),
            final(self).muallaqa_s() == jam_mushabba(old(self).muallaqa_s(), 1),
            final(self).nafs_al_ithbat(*old(self)),
            old(self).salim() ==> final(self).salim(),
    {
        let masqut = self.madakhil.len() as u64;
        self.mustabaada = if self.mustabaada <= u64::MAX - masqut {
            self.mustabaada + masqut
        } else {
            u64::MAX
        };
        self.madakhil.clear();
        self.muallaqa = if self.muallaqa < u64::MAX {
            self.muallaqa + 1
        } else {
            self.muallaqa
        };
    }

    /// The summary the control panel shows.
    pub fn taqreer(&self) -> (r: TaqreerSijill)
        ensures
            r.mahfuza == self.madakhil_s().len(),
            r.saa == self.saa_s(),
            r.mustabaada == self.mustabaada_s(),
            r.manatiq == manatiq_masjula_s(self.madakhil_s()).len(),
            r.satur_talifa == self.satur_talifa_s(),
            r.muallaqa == self.muallaqa_s(),
    {
        let m = self.manatiq_masjula();
        proof {
            assert(m@.no_duplicates()) by {
                assert forall|a: int, b: int| 0 <= a < m@.len() && 0 <= b < m@.len() && a != b implies m@[a]
                    != m@[b] by {
                    if a < b {
                        assert(m@[a].0 < m@[b].0);
                    } else {
                        assert(m@[b].0 < m@[a].0);
                    }
                }
            }
            m@.unique_seq_to_set();
        }
        TaqreerSijill {
            mahfuza: self.madakhil.len(),
            saa: self.saa,
            mustabaada: self.mustabaada,
            manatiq: m.len(),
            satur_talifa: self.satur_talifa,
            muallaqa: self.muallaqa,
        }
    }

    /// Whether the file has drifted far enough from memory to be worth
    /// rewriting: never without a file; otherwise when the changes it lacks
    /// reach [`HADD_MUALLAQA`] or its lines exceed [`MUAMIL_RASS`] times the
    /// capacity.
    pub fn yahtaj_rass(&self) -> (r: bool)
        ensures
            r == (self.masar_s() is Some && (self.muallaqa_s() >= HADD_MUALLAQA || self.sutur_malaf_s()
                > (if self.saa_s() * MUAMIL_RASS > u64::MAX {
                u64::MAX as int
            } else {
                self.saa_s() * MUAMIL_RASS
            }))),
    {
        if self.masar.is_none() {
            return false;
        }
        let saa = self.saa as u64;
        let hadd = if saa <= u64::MAX / MUAMIL_RASS {
            saa * MUAMIL_RASS
        } else {
            u64::MAX
        };
        self.muallaqa >= HADD_MUALLAQA || self.sutur_malaf > hadd
    }

    /// A history as its file's header describes it: the game, the capacity
    /// (clamped) and the next identity (at least one), with the header line
    /// counted.
    pub fn min_tarwisa(luba: LubaId, saa: usize, talee: u64) -> (r: Self)
        ensures
            r.madakhil_s().len() == 0,
            r.saa_s() == saa_mahdud(saa),
            r.talee_s() == if talee > 1 {
                talee
            } else {
                1
            },
            r.luba_s() == luba,
            r.mustabaada_s() == 0,
            r.satur_talifa_s() == 0,
            r.masar_s() is None,
            r.sutur_malaf_s() == 1,
            r.muallaqa_s() == 0,
            r.salim(),
    {
        let mut r = Self::bi_saa(luba, saa);
        r.talee = if talee > 1 {
            talee
        } else {
            1
        };
        r.sutur_malaf = 1;
        r
    }

    /// Takes one line of a history file after its header: an entry that
    /// parsed, or nothing for a line that did not (counted, never fatal). An
    /// entry's confidence is held to a hundred and zeroed when it is not a
    /// measurement, its count is at least one, its last sighting is no
    /// earlier than its first, and the next identity is raised past it.
    pub fn adkhil_satr_malaf(&mut self, madkhal: Option<MadkhalQira>)
        requires
            old(self).thabit(),
        ensures
            final(self).sutur_malaf_s() == jam_mushabba(old(self).sutur_malaf_s(), 1),
            madkhal is None ==> final(self).satur_talifa_s() == jam_mushabba(
                old(self).satur_talifa_s(),
                1,
            ) && final(self).madakhil_s() == old(self).madakhil_s() && final(self).talee_s()
                == old(self).talee_s() && final(self).mustabaada_s() == old(self).mustabaada_s(),
            madkhal matches Some(q) ==> ({
                let j = final(self).madakhil_s().last();
                let t = old(self).madakhil_s().push(j);
                &&& final(self).madakhil_s() == qallim_s(t, old(self).saa_s() as nat)
                &&& final(self).mustabaada_s() == jam_mushabba(
                    old(self).mustabaada_s(),
                    mustabad_s(t, old(self).saa_s() as nat),
                )
                &&& final(self).talee_s() == if jam_mushabba(q.muarrif.0, 1) > old(self).talee_s() {
                    jam_mushabba(q.muarrif.0, 1)
                } else {
                    old(self).talee_s()
                }
                &&& final(self).satur_talifa_s() == old(self).satur_talifa_s()
                &&& j.thiqa == if !q.maqisa {
                    0
                } else {
                    mia_mahsura(q.thiqa)
                }
                &&& j.takrar == if q.takrar > 1 {
                    q.takrar
                } else {
                    1
                }
                &&& j.lahza_akhira == if q.lahza_akhira > q.lahza {
                    q.lahza_akhira
                } else {
                    q.lahza
                }
                &&& j.muarrif == q.muarrif && j.lahza == q.lahza && j.mintaqa == q.mintaqa
                &&& j.ism_mintaqa == q.ism_mintaqa && j.asl == q.asl && j.arabi == q.arabi
                &&& j.maqisa == q.maqisa && j.masdar == q.masdar && j.maqtu == q.maqtu
            }),
            final(self).saa_s() == old(self).saa_s(),
            final(self).luba_s() == old(self).luba_s(),
            final(self).masar_s() == old(self).masar_s(),
            final(self).muallaqa_s() == old(self).muallaqa_s(),
            final(self).thabit(),
    {
        self.sutur_malaf = if self.sutur_malaf < u64::MAX {
            self.sutur_malaf + 1
        } else {
            self.sutur_malaf
        };
        match madkhal {
            None => {
                self.satur_talifa = if self.satur_talifa < u64::MAX {
                    self.satur_talifa + 1
                } else {
                    self.satur_talifa
                };
            },
            Some(mut m) => {
                let ghost q = m;
                m.thiqa = if m.thiqa > 100 {
                    100
                } else {
                    m.thiqa
                };
                if !m.maqisa {
                    m.thiqa = 0;
                }
                m.takrar = if m.takrar > 1 {
                    m.takrar
                } else {
                    1
                };
                m.lahza_akhira = if m.lahza_akhira > m.lahza {
                    m.lahza_akhira
                } else {
                    m.lahza
                };
                let tali = if m.muarrif.0 < u64::MAX {
                    m.muarrif.0 + 1
                } else {
                    m.muarrif.0
                };
                if tali > self.talee {
                    self.talee = tali;
                }
                let ghost s = self.madakhil@;
                self.madakhil.push_back(m);
                proof {
                    assert(self.madakhil@ == s.push(m));
                }
                self.qallim();
                proof {
                    assert(self.madakhil@.last() == m);
                }
            },
        }
    }

    /// Settles a history onto the file it was read from: the capacity asked
    /// for (clamped), the entries beyond it evicted, the path remembered.
    pub fn fatah(&mut self, masar: String, saa: usize)
        ensures
            final(self).saa_s() == saa_mahdud(saa),
            final(self).madakhil_s() == qallim_s(old(self).madakhil_s(), saa_mahdud(saa) as nat),
            final(self).mustabaada_s() == jam_mushabba(
                old(self).mustabaada_s(),
                mustabad_s(old(self).madakhil_s(), saa_mahdud(saa) as nat),
            ),
            final(self).masar_s() == Some(masar@),
            final(self).talee_s() == old(self).talee_s(),
            final(self).luba_s() == old(self).luba_s(),
            final(self).satur_talifa_s() == old(self).satur_talifa_s(),
            final(self).sutur_malaf_s() == old(self).sutur_malaf_s(),
            final(self).muallaqa_s() == old(self).muallaqa_s(),
    {
        self.ihdud_saa(saa);
        self.masar = Some(masar);
    }

    /// Records that the file was just rewritten as exactly what is held: a
    /// header and one line per entry, nothing pending.
    pub fn rusisa(&mut self)
        ensures
            final(self).sutur_malaf_s() == jam_mushabba(old(self).madakhil_s().len() as u64, 1),
            final(self).muallaqa_s() == 0,
            final(self).madakhil_s() == old(self).madakhil_s(),
            final(self).mustabaada_s() == old(self).mustabaada_s(),
            final(self).saa_s() == old(self).saa_s(),
            final(self).talee_s() == old(self).talee_s(),
            final(self).luba_s() == old(self).luba_s(),
            final(self).satur_talifa_s() == old(self).satur_talifa_s(),
            final(self).masar_s() == old(self).masar_s(),
    {
        let n = self.madakhil.len() as u64;
        self.sutur_malaf = if n < u64::MAX {
            n + 1
        } else {
            n
        };
        self.muallaqa = 0;
    }

    /// Records that one line was appended to the open file.
    pub fn ulhiqa(&mut self)
        ensures
            final(self).sutur_malaf_s() == if old(self).masar_s() is Some {
                jam_mushabba(old(self).sutur_malaf_s(), 1)
            } else {
                old(self).sutur_malaf_s()
            },
            final(self).kama_huwa_illa_malaf(*old(self)),
    {
        if self.masar.is_some() {
            self.sutur_malaf = if self.sutur_malaf < u64::MAX {
                self.sutur_malaf + 1
            } else {
                self.sutur_malaf
            };
        }
    }

    /// Forgets the file, for a session that is ending.
    pub fn ughliqa(&mut self)
        ensures
            final(self).masar_s() is None,
            final(self).sutur_malaf_s() == old(self).sutur_malaf_s(),
            final(self).kama_huwa_illa_malaf(*old(self)),
    {
        self.masar = None;
    }

    /// All but the file's bookkeeping is as it was.
    pub open spec fn kama_huwa_illa_malaf(self, akhar: Self) -> bool {
        &&& self.madakhil_s() == akhar.madakhil_s()
        &&& self.saa_s() == akhar.saa_s()
        &&& self.talee_s() == akhar.talee_s()
        &&& self.luba_s() == akhar.luba_s()
        &&& self.mustabaada_s() == akhar.mustabaada_s()
        &&& self.satur_talifa_s() == akhar.satur_talifa_s()
        &&& self.muallaqa_s() == akhar.muallaqa_s()
    }
}

/// The last entry of a region in a history: there is one once a reading of
/// it was recorded.
proof fn lemma_akhir_yujad(s: Seq<MadkhalQira>, mintaqa: MuarrifMintaqa, k: nat)
    requires
        k < s.len(),
        s[k as int].mintaqa == mintaqa,
        forall|j: int| k < j < s.len() ==> s[j].mintaqa != mintaqa,
    ensures
        akhir_min_mintaqa(s, mintaqa, s.len()) == Some(k),
    decreases s.len() - k,
{
    if k + 1 < s.len() {
        lemma_akhir_yujad(s.drop_last(), mintaqa, k);
        assert(akhir_min_mintaqa(s, mintaqa, (s.len() - 1) as nat) == akhir_min_mintaqa(
            s.drop_last(),
            mintaqa,
            (s.len() - 1) as nat,
        )) by {
            lemma_akhir_nafs(s, s.drop_last(), mintaqa, (s.len() - 1) as nat);
        }
    }
}

/// The search for a region's last entry before `n` reads nothing past `n`.
proof fn lemma_akhir_nafs(s: Seq<MadkhalQira>, t: Seq<MadkhalQira>, mintaqa: MuarrifMintaqa, n: nat)
    requires
        n <= s.len(),
        n <= t.len(),
        forall|j: int| 0 <= j < n ==> s[j] == t[j],
    ensures
        akhir_min_mintaqa(s, mintaqa, n) == akhir_min_mintaqa(t, mintaqa, n),
    decreases n,
{
    if n > 0 {
        lemma_akhir_nafs(s, t, mintaqa, (n - 1) as nat);
    }
}

/// A history never holds more than its capacity: recording a reading in
/// one that fits leaves one that fits.
pub proof fn qanun_la_yatajawaz_al_saa(
    a: SijillQira,
    b: SijillQira,
    r: NatijatIdraj,
    lahza: u64,
    mintaqa: MuarrifMintaqa,
    ism_mintaqa: Seq<char>,
    asl: Seq<char>,
    thiqa: ThiqatSatr,
)
    requires
        a.madakhil_s().len() <= a.saa_s(),
        a.sajjil_s(b, r, lahza, mintaqa, ism_mintaqa, asl, thiqa),
    ensures
        b.madakhil_s().len() <= b.saa_s(),
{
}

/// Nothing recorded is lost without being counted: a new entry either
/// lengthens the history by one or pushes out as many as the evicted count
/// grows by.
pub proof fn qanun_kull_mustabad_mahsub(
    a: SijillQira,
    b: SijillQira,
    m: MuarrifMadkhal,
    lahza: u64,
    mintaqa: MuarrifMintaqa,
    ism_mintaqa: Seq<char>,
    asl: Seq<char>,
    thiqa: ThiqatSatr,
)
    requires
        a.sajjil_s(b, NatijatIdraj::Judida(m), lahza, mintaqa, ism_mintaqa, asl, thiqa),
        a.mustabaada_s() + a.madakhil_s().len() + 1 <= u64::MAX,
    ensures
        b.madakhil_s().len() + b.mustabaada_s() == a.madakhil_s().len() + 1 + a.mustabaada_s(),
{
}

/// The oldest entries leave first: a new entry is appended, and exactly the
/// `k` oldest entries of the result are evicted, `k` being how far the
/// history would exceed its capacity; the evicted count grows by `k`,
/// stopping at its ceiling.
pub proof fn qanun_al_aqdam_yakhruj_awwalan(
    a: SijillQira,
    b: SijillQira,
    m: MuarrifMadkhal,
    lahza: u64,
    mintaqa: MuarrifMintaqa,
    ism_mintaqa: Seq<char>,
    asl: Seq<char>,
    thiqa: ThiqatSatr,
)
    requires
        a.sajjil_s(b, NatijatIdraj::Judida(m), lahza, mintaqa, ism_mintaqa, asl, thiqa),
    ensures
        ({
            let n = a.madakhil_s().len() + 1;
            let k: nat = if n > a.saa_s() {
                (n - a.saa_s()) as nat
            } else {
                0
            };
            exists|e: MadkhalQira|
                {
                    &&& jadeed_s(e, m, lahza, mintaqa, ism_mintaqa, asl, thiqa)
                    &&& #[trigger] b.madakhil_s() == a.madakhil_s().push(e).skip(k as int)
                    &&& b.mustabaada_s() == jam_mushabba(a.mustabaada_s(), k)
                }
        }),
{
    let e = b.madakhil_s().last();
    let t = a.madakhil_s().push(e);
    if t.len() <= a.saa_s() {
        assert(t.skip(0) =~= t);
    }
    assert(jadeed_s(e, m, lahza, mintaqa, ism_mintaqa, asl, thiqa));
}

/// A reading recorded twice in a row for one region is held once: the
/// second recording raises the count of the entry the first one left, and
/// the history keeps its length.
pub proof fn qanun_al_mukarrar_yuhsab(
    a: SijillQira,
    b: SijillQira,
    c: SijillQira,
    r1: NatijatIdraj,
    r2: NatijatIdraj,
    lahza1: u64,
    lahza2: u64,
    mintaqa: MuarrifMintaqa,
    ism_mintaqa: Seq<char>,
    asl: Seq<char>,
    thiqa1: ThiqatSatr,
    thiqa2: ThiqatSatr,
)
    requires
        a.thabit(),
        a.sajjil_s(b, r1, lahza1, mintaqa, ism_mintaqa, asl, thiqa1),
        b.sajjil_s(c, r2, lahza2, mintaqa, ism_mintaqa, asl, thiqa2),
        iqtata_s(asl).0.len() > 0,
    ensures
        r2 is Mukarrara,
        muarrif_idraj(r1) == muarrif_idraj(r2),
        c.madakhil_s().len() == b.madakhil_s().len(),
{
    let s = a.madakhil_s();
    let t = b.madakhil_s();
    let nass = iqtata_s(asl).0;
    let sabiq = akhir_min_mintaqa(s, mintaqa, s.len());
    lemma_akhir_min_mintaqa(s, mintaqa, s.len());
    if sabiq is Some && s[sabiq->0 as int].asl@ == nass {
        let k = sabiq->0;
        assert forall|j: int| k < j < t.len() implies t[j].mintaqa != mintaqa by {
            if t[j].mintaqa == mintaqa {
                assert(t[j] == s[j]);
                lemma_akhir_bad(s, mintaqa, s.len(), j);
            }
        }
        lemma_akhir_yujad(t, mintaqa, k);
    } else {
        let saa = a.saa_s() as nat;
        let u = s.push(t.last());
        assert(t.len() >= 1);
        assert(t.last() == u.last());
        assert forall|j: int| t.len() - 1 < j < t.len() implies t[j].mintaqa != mintaqa by {}
        lemma_akhir_yujad(t, mintaqa, (t.len() - 1) as nat);
    }
}

/// No entry after the last one found belongs to the region.
proof fn lemma_akhir_bad(s: Seq<MadkhalQira>, mintaqa: MuarrifMintaqa, n: nat, j: int)
    requires
        n <= s.len(),
        0 <= j < n,
        s[j].mintaqa == mintaqa,
    ensures
        akhir_min_mintaqa(s, mintaqa, n) matches Some(k) && j <= k,
    decreases n,
{
    if s[n - 1].mintaqa != mintaqa {
        lemma_akhir_bad(s, mintaqa, (n - 1) as nat, j);
    }
}

/// A search finds an entry by either of its texts: with the needle trimmed
/// and both sides lowercased, an entry whose source or whose translation
/// holds the needle is among the results, an empty needle finds every
/// entry, and every entry found holds the needle in one of its texts.
pub proof fn qanun_al_bahth_fi_al_nassayn(madakhil: Seq<MadkhalQira>, matlub: Seq<char>)
    ensures
        ({
            let n = saghir_kamil(mushdhab(matlub));
            let r = madakhil.filter(|m: MadkhalQira| yutabiq_s(m, matlub));
            &&& forall|i: int|
                0 <= i < madakhil.len() && (madakhil[i].arabi matches Some(a) && yahwi_s(saghir_kamil(a@), n))
                    ==> #[trigger] r.contains(madakhil[i])
            &&& forall|i: int|
                0 <= i < madakhil.len() && yahwi_s(saghir_kamil(madakhil[i].asl@), n) ==> #[trigger] r.contains(
                    madakhil[i],
                )
            &&& n.len() == 0 ==> r == madakhil
            &&& forall|k: int|
                0 <= k < r.len() ==> n.len() == 0 || yahwi_s(saghir_kamil((#[trigger] r[k]).asl@), n) || (
                r[k].arabi matches Some(a) && yahwi_s(saghir_kamil(a@), n))
        }),
{
    let n = saghir_kamil(mushdhab(matlub));
    let p = |m: MadkhalQira| yutabiq_s(m, matlub);
    let r = madakhil.filter(p);
    assert forall|i: int|
        0 <= i < madakhil.len() && (madakhil[i].arabi matches Some(a) && yahwi_s(saghir_kamil(a@), n))
            implies #[trigger] r.contains(madakhil[i]) by {
        madakhil.lemma_filter_contains(p, i);
    }
    assert forall|i: int|
        0 <= i < madakhil.len() && yahwi_s(saghir_kamil(madakhil[i].asl@), n) implies #[trigger] r.contains(
            madakhil[i],
        ) by {
        madakhil.lemma_filter_contains(p, i);
    }
    assert forall|k: int|
        0 <= k < r.len() implies n.len() == 0 || yahwi_s(saghir_kamil((#[trigger] r[k]).asl@), n) || (
        r[k].arabi matches Some(a) && yahwi_s(saghir_kamil(a@), n)) by {
        madakhil.lemma_filter_pred(p, k);
    }
    if n.len() == 0 {
        lemma_filter_kull(madakhil, p);
    }
}

proof fn lemma_filter_kull<A>(s: Seq<A>, p: spec_fn(A) -> bool)
    requires
        forall|a: A| #[trigger] p(a),
    ensures
        s.filter(p) == s,
    decreases s.len(),
{
    reveal(Seq::filter);
    if s.len() > 0 {
        lemma_filter_kull(s.drop_last(), p);
        assert(s.drop_last().push(s.last()) =~= s);
    }
}

} // verus!
