//! Lines followed across frames: each reading either continues a line
//! already being followed or starts a new one, and a line is translated once
//! it has settled rather than once per frame.
//!
//! The matching of readings to lines compares texts by a similarity ratio and
//! boxes by their overlap, both fractions, and is done where those are
//! computed; this module holds the identities, states and records it works
//! with, and the text rules that need no fractions.

use vstd::prelude::*;

use crate::manatiq::{nass_muarrif, MuarrifMintaqa};
use crate::mutarjim_mahalli::huruf;
use crate::nass::{aktub_ashri, ashri, ilhaq, min_nass, muwahhad, wahhid_nass};
use crate::tartib::{
    awwal_s, bi_miftah, lemma_miftah_fi, lemma_miftah_ghaib, lemma_miftah_idraj, lemma_miftah_tahdith,
    mawdi_miftah, mufatah_murattab, qeema_fi,
};
use crate::qira::SatrMaqru;
use crate::wajiha::MustatilBiksel;

verus! {

/// The longest reading compared, in characters.
pub const AQSA_TUL_MUQARANA: usize = 2000;

/// How many settled lines of a region are kept as context for the next.
pub const SAA_SIYAQ: usize = 4;

/// A followed line's identity.
#[derive(Debug, Clone, Copy, PartialEq, Eq, Hash, Structural)]
pub struct MuarrifSatr(pub u64);

impl MuarrifSatr {
    /// The underlying number.
    pub fn raqm(self) -> (r: u64)
        ensures
            r == self.0,
    {
        self.0
    }

    /// The identity as logs write it: `s` and the number.
    pub fn nass(self) -> (r: String)
        ensures
            r@ == "s"@ + ashri(self.0 as nat),
    {
        let mut r = min_nass("s");
        aktub_ashri(&mut r, self.0);
        r
    }
}

/// Where a followed line is in its life.
#[derive(Debug, Clone, Copy, PartialEq, Eq, Hash, Structural)]
pub enum HalatSatr {
    /// Still appearing, character by character.
    Yanmu,
    /// Read differently from one frame to the next.
    Yataghayyar,
    /// The same for long enough to translate.
    Mustaqirr,
}

pub open spec fn ism_halat_satr(h: HalatSatr) -> Seq<char> {
    match h {
        HalatSatr::Yanmu => "revealing"@,
        HalatSatr::Yataghayyar => "changing"@,
        HalatSatr::Mustaqirr => "settled"@,
    }
}

impl HalatSatr {
    /// Whether a line in this state is translated.
    pub fn yastahiq_tarjama(self) -> (r: bool)
        ensures
            r == (self is Mustaqirr),
    {
        match self {
            HalatSatr::Mustaqirr => true,
            _ => false,
        }
    }

    /// The state's name in logs.
    pub fn ism(self) -> (r: &'static str)
        ensures
            r@ == ism_halat_satr(self),
    {
        match self {
            HalatSatr::Yanmu => "revealing",
            HalatSatr::Yataghayyar => "changing",
            HalatSatr::Mustaqirr => "settled",
        }
    }
}

/// One reading of one line, placed on the surface.
#[derive(Debug, Clone, PartialEq, Eq)]
pub struct QiraaMulahaza {
    /// What was read.
    pub nass: String,
    /// Where, on the surface.
    pub mawdi: MustatilBiksel,
    /// The confidence.
    pub thiqa: u8,
    /// Whether the confidence is a measurement.
    pub maqisa: bool,
}

impl QiraaMulahaza {
    /// A recognized line placed at a surface position.
    pub fn min_maqru(maqru: &SatrMaqru, mawdi: MustatilBiksel) -> (r: Self)
        ensures
            r.nass@ == maqru.nass@,
            r.mawdi == mawdi,
            r.thiqa == maqru.thiqa,
            r.maqisa == maqru.maqisa,
    {
        QiraaMulahaza {
            nass: min_nass(maqru.nass.as_str()),
            mawdi,
            thiqa: maqru.thiqa,
            maqisa: maqru.maqisa,
        }
    }
}

/// A line being followed.
#[derive(Debug, Clone, PartialEq, Eq)]
pub struct SatrMutatabba {
    /// Its identity.
    pub muarrif: MuarrifSatr,
    /// Its region.
    pub mintaqa: MuarrifMintaqa,
    /// Its latest text.
    pub nass: String,
    /// Its latest position.
    pub mawdi: MustatilBiksel,
    /// Its latest confidence.
    pub thiqa: u8,
    /// Whether that confidence is a measurement.
    pub maqisa: bool,
    /// Its state.
    pub hala: HalatSatr,
    /// When it was first seen, in microseconds.
    pub awwal_mikro: u64,
    /// When its text last changed.
    pub akhir_taghyeer_mikro: u64,
    /// When it was last seen.
    pub akhir_ruya_mikro: u64,
    /// How many readings matched it.
    pub marrat: u32,
    /// How many consecutive readings read it the same.
    pub thabat: u32,
    /// How many consecutive samples missed it.
    pub ghiyab: u32,
    /// Whether its translation was requested.
    pub ursilat: bool,
}

/// A followed line's summary in a log.
pub open spec fn satr_mutatabba(s: SatrMutatabba) -> Seq<char> {
    "s"@ + ashri(s.muarrif.0 as nat) + " ["@ + nass_muarrif(s.mintaqa) + "] "@ + ism_halat_satr(
        s.hala,
    ) + " ×"@ + ashri(s.marrat as nat) + " — "@ + s.nass@
}

impl SatrMutatabba {
    /// How long it has been on screen, in microseconds.
    pub fn mudda_mikro(&self) -> (r: u64)
        ensures
            r == if self.akhir_ruya_mikro >= self.awwal_mikro {
                (self.akhir_ruya_mikro - self.awwal_mikro) as u64
            } else {
                0
            },
    {
        if self.akhir_ruya_mikro >= self.awwal_mikro {
            self.akhir_ruya_mikro - self.awwal_mikro
        } else {
            0
        }
    }

    /// Whether it has settled and its translation was not yet requested.
    pub fn yantazir_tarjama(&self) -> (r: bool)
        ensures
            r == (self.hala is Mustaqirr && !self.ursilat),
    {
        self.hala.yastahiq_tarjama() && !self.ursilat
    }

    /// Its summary in a log.
    pub fn satr(&self) -> (r: String)
        ensures
            r@ == satr_mutatabba(*self),
    {
        let mut r = self.muarrif.nass();
        ilhaq(&mut r, " [");
        ilhaq(&mut r, self.mintaqa.nass().as_str());
        ilhaq(&mut r, "] ");
        ilhaq(&mut r, self.hala.ism());
        ilhaq(&mut r, " ×");
        aktub_ashri(&mut r, self.marrat as u64);
        ilhaq(&mut r, " — ");
        ilhaq(&mut r, self.nass.as_str());
        r
    }
}

/// A line that stopped being followed.
#[derive(Debug, Clone, PartialEq, Eq)]
pub struct SatrMuntahi {
    /// Its identity.
    pub muarrif: MuarrifSatr,
    /// Its region.
    pub mintaqa: MuarrifMintaqa,
    /// Its last text.
    pub nass: String,
    /// Whether it had settled.
    pub istaqarr: bool,
}

/// What one sample did to the followed lines.
#[derive(Debug, Clone, PartialEq, Eq)]
pub struct HasilatDawra {
    /// Lines that started.
    pub jadeeda: Vec<MuarrifSatr>,
    /// Lines that settled.
    pub mustaqirra: Vec<MuarrifSatr>,
    /// Lines that grew.
    pub namiya: Vec<MuarrifSatr>,
    /// Lines that ended.
    pub muntahiya: Vec<SatrMuntahi>,
}

impl HasilatDawra {
    /// Whether nothing happened.
    pub fn hadia(&self) -> (r: bool)
        ensures
            r == (self.jadeeda@.len() == 0 && self.mustaqirra@.len() == 0 && self.namiya@.len() == 0
                && self.muntahiya@.len() == 0),
    {
        self.jadeeda.len() == 0 && self.mustaqirra.len() == 0 && self.namiya.len() == 0
            && self.muntahiya.len() == 0
    }
}

/// What following lines has done over a session.
#[derive(Debug, Clone, Copy, PartialEq, Eq, Structural)]
pub struct IhsaatTatabbu {
    /// Readings handed in.
    pub mulahazat: u64,
    /// Lines identified.
    pub hawiyat: u64,
    /// Readings that matched a followed line.
    pub tatabuqat: u64,
    /// Readings that extended a line still appearing.
    pub numuwwat: u64,
    /// Lines that settled and were translated.
    pub istiqrarat: u64,
    /// Lines that ended.
    pub inhaat: u64,
}

pub open spec fn wasf_tatabbu(i: IhsaatTatabbu) -> Seq<char> {
    ashri(i.mulahazat as nat) + " reading(s) over "@ + ashri(i.hawiyat as nat) + " line(s); "@
        + ashri(i.tatabuqat as nat) + " matched an existing line, "@ + ashri(i.numuwwat as nat)
        + " extended a reveal, "@ + ashri(i.istiqrarat as nat) + " settled and were translated, "@
        + ashri(i.inhaat as nat) + " ended"@
}

impl IhsaatTatabbu {
    /// Translations a per-frame pipeline would have requested and this one
    /// did not: readings less settled lines, never below zero.
    pub fn muwaffara(&self) -> (r: u64)
        ensures
            r == if self.mulahazat >= self.istiqrarat {
                (self.mulahazat - self.istiqrarat) as u64
            } else {
                0
            },
    {
        if self.mulahazat >= self.istiqrarat {
            self.mulahazat - self.istiqrarat
        } else {
            0
        }
    }

    /// The sentence the report carries.
    pub fn wasf(&self) -> (r: String)
        ensures
            r@ == wasf_tatabbu(*self),
    {
        let mut r = String::new();
        aktub_ashri(&mut r, self.mulahazat);
        ilhaq(&mut r, " reading(s) over ");
        aktub_ashri(&mut r, self.hawiyat);
        ilhaq(&mut r, " line(s); ");
        aktub_ashri(&mut r, self.tatabuqat);
        ilhaq(&mut r, " matched an existing line, ");
        aktub_ashri(&mut r, self.numuwwat);
        ilhaq(&mut r, " extended a reveal, ");
        aktub_ashri(&mut r, self.istiqrarat);
        ilhaq(&mut r, " settled and were translated, ");
        aktub_ashri(&mut r, self.inhaat);
        ilhaq(&mut r, " ended");
        r
    }
}

/// Whether the second reading is the first still being revealed: the first
/// has at least `adna_bidaya` characters and is a strict prefix of the
/// second.
pub open spec fn yanmu_s(qadeem: Seq<char>, jadeed: Seq<char>, adna_bidaya: nat) -> bool {
    qadeem.len() >= adna_bidaya && qadeem.len() < jadeed.len() && jadeed.take(qadeem.len() as int)
        == qadeem
}

/// Whether the second reading is the first still being revealed.
pub fn yanmu(qadeem: &str, jadeed: &str, adna_bidaya: usize) -> (r: bool)
    ensures
        r == yanmu_s(qadeem@, jadeed@, adna_bidaya as nat),
{
    let q = huruf(qadeem);
    let j = huruf(jadeed);
    if q.len() < adna_bidaya || q.len() >= j.len() {
        return false;
    }
    let mut i: usize = 0;
    while i < q.len()
        invariant
            i <= q@.len(),
            q@.len() < j@.len(),
            q@ == qadeem@,
            j@ == jadeed@,
            q@.len() >= adna_bidaya,
            forall|k: int| 0 <= k < i ==> q@[k] == j@[k],
        decreases q@.len() - i,
    {
        if q[i] != j[i] {
            proof {
                assert(j@.take(q@.len() as int)[i as int] == j@[i as int]);
            }
            return false;
        }
        i = i + 1;
    }
    proof {
        assert(j@.take(q@.len() as int) =~= q@);
    }
    true
}

/// A reading with its white space normalized: runs collapsed to one space,
/// none at either end.
pub fn wahhid(nass: &str) -> (r: String)
    ensures
        r@ == muwahhad(nass@),
{
    wahhid_nass(nass)
}

} // verus!
verus! {

/// When a followed line counts as settled, how long an absent line is
/// waited for, and how much settled context a region keeps.
#[derive(Debug, Clone, Copy, PartialEq, Eq, Structural)]
pub struct SiyasatIstiqrar {
    /// Identical readings in a row before a line may settle.
    pub marrat_sukun: u32,
    /// How long, in microseconds, a line must go unchanged before it may
    /// settle.
    pub mudat_sukun_mikro: u64,
    /// Passes a line may go unseen, when its region returned nothing, before
    /// it ends.
    pub sabr_ghiyab: u32,
    /// The fewest characters an earlier reading must have for a longer one
    /// that starts with it to count as the same line still appearing.
    pub adna_bidaya: usize,
    /// How many settled lines per region are kept as context.
    pub saa_siyaq: usize,
}

/// The default policy: one identical reading and a fifth of a second
/// unchanged to settle; one blank pass of patience; three characters before
/// a reveal counts; four lines of context.
pub open spec fn siyasa_iftiradiya() -> SiyasatIstiqrar {
    SiyasatIstiqrar {
        marrat_sukun: 1,
        mudat_sukun_mikro: 200000,
        sabr_ghiyab: 1,
        adna_bidaya: 3,
        saa_siyaq: SAA_SIYAQ,
    }
}

impl SiyasatIstiqrar {
    /// The default policy.
    pub fn iftiradiya() -> (r: Self)
        ensures
            r == siyasa_iftiradiya(),
    {
        SiyasatIstiqrar {
            marrat_sukun: 1,
            mudat_sukun_mikro: 200000,
            sabr_ghiyab: 1,
            adna_bidaya: 3,
            saa_siyaq: SAA_SIYAQ,
        }
    }
}

/// A followed line as plain values.
pub struct SuraMutatabba {
    pub muarrif: u64,
    pub mintaqa: u64,
    pub nass: Seq<char>,
    pub mawdi: MustatilBiksel,
    pub thiqa: u8,
    pub maqisa: bool,
    pub hala: HalatSatr,
    pub awwal_mikro: u64,
    pub akhir_taghyeer_mikro: u64,
    pub akhir_ruya_mikro: u64,
    pub marrat: u32,
    pub thabat: u32,
    pub ghiyab: u32,
    pub ursilat: bool,
}

/// A followed line's plain values.
pub open spec fn sura_mutatabba(s: SatrMutatabba) -> SuraMutatabba {
    SuraMutatabba {
        muarrif: s.muarrif.0,
        mintaqa: s.mintaqa.0,
        nass: s.nass@,
        mawdi: s.mawdi,
        thiqa: s.thiqa,
        maqisa: s.maqisa,
        hala: s.hala,
        awwal_mikro: s.awwal_mikro,
        akhir_taghyeer_mikro: s.akhir_taghyeer_mikro,
        akhir_ruya_mikro: s.akhir_ruya_mikro,
        marrat: s.marrat,
        thabat: s.thabat,
        ghiyab: s.ghiyab,
        ursilat: s.ursilat,
    }
}

/// Each followed line's plain values, in order.
pub open spec fn suwar_mutatabba(s: Seq<SatrMutatabba>) -> Seq<SuraMutatabba> {
    s.map_values(|x: SatrMutatabba| sura_mutatabba(x))
}

/// A reading as plain values.
pub struct SuraMulahaza {
    pub nass: Seq<char>,
    pub mawdi: MustatilBiksel,
    pub thiqa: u8,
    pub maqisa: bool,
}

/// A reading's plain values.
pub open spec fn sura_mulahaza(m: QiraaMulahaza) -> SuraMulahaza {
    SuraMulahaza { nass: m.nass@, mawdi: m.mawdi, thiqa: m.thiqa, maqisa: m.maqisa }
}

/// Each reading's plain values, in order.
pub open spec fn suwar_mulahaza(s: Seq<QiraaMulahaza>) -> Seq<SuraMulahaza> {
    s.map_values(|x: QiraaMulahaza| sura_mulahaza(x))
}

/// The readings worth following: white space collapsed, empty ones dropped.
pub open spec fn naqqih_s(s: Seq<SuraMulahaza>) -> Seq<SuraMulahaza>
    decreases s.len(),
{
    if s.len() == 0 {
        s
    } else {
        let p = naqqih_s(s.drop_last());
        let m = s.last();
        let n = muwahhad(m.nass);
        if n.len() == 0 {
            p
        } else {
            p.push(SuraMulahaza { nass: n, ..m })
        }
    }
}

/// `a + b`, stopping at the largest `u32`.
pub open spec fn jam32(a: u32, b: nat) -> u32 {
    if a + b > u32::MAX {
        u32::MAX
    } else {
        (a + b) as u32
    }
}

/// `a + b`, stopping at the largest `u64`.
pub open spec fn jam64(a: u64, b: nat) -> u64 {
    if a + b > u64::MAX {
        u64::MAX
    } else {
        (a + b) as u64
    }
}

/// What a matched reading did to its line.
#[derive(Debug, Clone, Copy, PartialEq, Eq, Structural)]
pub enum AtharDamm {
    /// The same text again.
    Thabat,
    /// A longer text that starts with the old one.
    Nama,
    /// Different text.
    Taghayyar,
}

/// A line after a matched reading: seen now, in the reading's box; the
/// confidence taken from a measured reading over an unmeasured line, else
/// the higher of two of a kind; one more identical reading if the text is
/// the same, else the new text, unchanged since now, not yet sent, and
/// appearing or changing.
pub open spec fn damm_s(s: SuraMutatabba, m: SuraMulahaza, lahza: u64, adna: nat) -> (
    SuraMutatabba,
    AtharDamm,
) {
    let thiqa = if m.maqisa && !s.maqisa {
        m.thiqa
    } else if m.maqisa == s.maqisa {
        if s.thiqa >= m.thiqa {
            s.thiqa
        } else {
            m.thiqa
        }
    } else {
        s.thiqa
    };
    let b = SuraMutatabba {
        marrat: jam32(s.marrat, 1),
        ghiyab: 0,
        akhir_ruya_mikro: lahza,
        mawdi: m.mawdi,
        thiqa,
        maqisa: s.maqisa && m.maqisa,
        ..s
    };
    if s.nass == m.nass {
        (SuraMutatabba { thabat: jam32(s.thabat, 1), ..b }, AtharDamm::Thabat)
    } else {
        let nama = yanmu_s(s.nass, m.nass, adna);
        (
            SuraMutatabba {
                nass: m.nass,
                akhir_taghyeer_mikro: lahza,
                thabat: 0,
                ursilat: false,
                hala: if nama {
                    HalatSatr::Yanmu
                } else {
                    HalatSatr::Yataghayyar
                },
                ..b
            },
            if nama {
                AtharDamm::Nama
            } else {
                AtharDamm::Taghayyar
            },
        )
    }
}

/// The matched pairs applied in order, each reading merged into its line;
/// with how many of them were a line still appearing.
pub open spec fn tabbiq_s(
    s: Seq<SuraMutatabba>,
    o: Seq<SuraMulahaza>,
    z: Seq<(usize, usize)>,
    lahza: u64,
    adna: nat,
) -> (Seq<SuraMutatabba>, nat)
    decreases z.len(),
{
    if z.len() == 0 {
        (s, 0)
    } else {
        let (p, n) = tabbiq_s(s, o, z.drop_last(), lahza, adna);
        let (i, j) = z.last();
        let (x, a) = damm_s(p[i as int], o[j as int], lahza, adna);
        (
            p.update(i as int, x),
            n + if a == AtharDamm::Nama {
                1nat
            } else {
                0nat
            },
        )
    }
}

/// Whether some pair matched reading `j`.
pub open spec fn mutabaq_s(z: Seq<(usize, usize)>, j: int) -> bool {
    exists|k: int| 0 <= k < z.len() && (#[trigger] z[k]).1 == j
}

/// Whether some pair matched line `i`.
pub open spec fn mumass_s(z: Seq<(usize, usize)>, i: int) -> bool {
    exists|k: int| 0 <= k < z.len() && (#[trigger] z[k]).0 == i
}

/// A line begun from a reading.
pub open spec fn satr_jadeed_s(id: u64, mintaqa: u64, m: SuraMulahaza, lahza: u64) -> SuraMutatabba {
    SuraMutatabba {
        muarrif: id,
        mintaqa,
        nass: m.nass,
        mawdi: m.mawdi,
        thiqa: m.thiqa,
        maqisa: m.maqisa,
        hala: HalatSatr::Yataghayyar,
        awwal_mikro: lahza,
        akhir_taghyeer_mikro: lahza,
        akhir_ruya_mikro: lahza,
        marrat: 1,
        thabat: 0,
        ghiyab: 0,
        ursilat: false,
    }
}

/// The lines begun from the first `k` readings no pair matched, numbered
/// from `talee` up.
pub open spec fn judud_s(
    o: Seq<SuraMulahaza>,
    z: Seq<(usize, usize)>,
    k: nat,
    mintaqa: u64,
    lahza: u64,
    talee: u64,
) -> Seq<SuraMutatabba>
    decreases k,
{
    if k == 0 {
        Seq::empty()
    } else {
        let p = judud_s(o, z, (k - 1) as nat, mintaqa, lahza, talee);
        if mutabaq_s(z, k - 1) {
            p
        } else {
            p.push(satr_jadeed_s(jam64(talee, p.len()), mintaqa, o[k - 1], lahza))
        }
    }
}

/// The lines that were there before the pass and no pair matched, one pass
/// older.
pub open spec fn ammir_s(s: Seq<SuraMutatabba>, z: Seq<(usize, usize)>, n: nat) -> Seq<SuraMutatabba> {
    Seq::new(
        s.len(),
        |i: int|
            if i < n && !mumass_s(z, i) {
                SuraMutatabba { ghiyab: jam32(s[i].ghiyab, 1), ..s[i] }
            } else {
                s[i]
            },
    )
}

/// Whether an unseen line ends: at once when its region returned something,
/// else once it has been missed more often than patience allows.
pub open spec fn intaha_s(x: SuraMutatabba, ra: bool, sabr: u32) -> bool {
    x.ghiyab > 0 && (ra || x.ghiyab > sabr)
}

/// A line that ended, as plain values.
pub struct SuraMuntahi {
    pub muarrif: u64,
    pub mintaqa: u64,
    pub nass: Seq<char>,
    pub istaqarr: bool,
}

/// An ended line's plain values.
pub open spec fn sura_muntahi(m: SatrMuntahi) -> SuraMuntahi {
    SuraMuntahi { muarrif: m.muarrif.0, mintaqa: m.mintaqa.0, nass: m.nass@, istaqarr: m.istaqarr }
}

/// The lines that go on.
pub open spec fn baqi_s(s: Seq<SuraMutatabba>, ra: bool, sabr: u32) -> Seq<SuraMutatabba>
    decreases s.len(),
{
    if s.len() == 0 {
        s
    } else if intaha_s(s.last(), ra, sabr) {
        baqi_s(s.drop_last(), ra, sabr)
    } else {
        baqi_s(s.drop_last(), ra, sabr).push(s.last())
    }
}

/// The lines that end, as reported.
pub open spec fn muntahi_s(s: Seq<SuraMutatabba>, ra: bool, sabr: u32) -> Seq<SuraMuntahi>
    decreases s.len(),
{
    if s.len() == 0 {
        Seq::empty()
    } else if intaha_s(s.last(), ra, sabr) {
        let x = s.last();
        muntahi_s(s.drop_last(), ra, sabr).push(
            SuraMuntahi {
                muarrif: x.muarrif,
                mintaqa: x.mintaqa,
                nass: x.nass,
                istaqarr: x.hala == HalatSatr::Mustaqirr || x.ursilat,
            },
        )
    } else {
        muntahi_s(s.drop_last(), ra, sabr)
    }
}

/// `a - b`, stopping at zero.
pub open spec fn tarh64(a: u64, b: u64) -> u64 {
    if a >= b {
        (a - b) as u64
    } else {
        0
    }
}

/// The lines after settling, and what settling reported: the settled lines
/// not yet sent, the lines still appearing, and the texts that settled now.
pub struct SukunS {
    pub sutur: Seq<SuraMutatabba>,
    pub mustaqirra: Seq<u64>,
    pub namiya: Seq<u64>,
    pub istaqarrat: Seq<Seq<char>>,
}

/// Settling: a settled line is reported while unsent; a line with enough
/// identical readings, unchanged long enough, settles now; a line still
/// appearing is reported as such.
pub open spec fn sakkin_s(s: Seq<SuraMutatabba>, lahza: u64, marrat: u32, mudda: u64) -> SukunS
    decreases s.len(),
{
    if s.len() == 0 {
        SukunS { sutur: s, mustaqirra: Seq::empty(), namiya: Seq::empty(), istaqarrat: Seq::empty() }
    } else {
        let p = sakkin_s(s.drop_last(), lahza, marrat, mudda);
        let x = s.last();
        if x.hala == HalatSatr::Mustaqirr {
            SukunS {
                sutur: p.sutur.push(x),
                mustaqirra: if !x.ursilat {
                    p.mustaqirra.push(x.muarrif)
                } else {
                    p.mustaqirra
                },
                ..p
            }
        } else if x.thabat >= marrat && tarh64(lahza, x.akhir_taghyeer_mikro) >= mudda {
            SukunS {
                sutur: p.sutur.push(SuraMutatabba { hala: HalatSatr::Mustaqirr, ..x }),
                mustaqirra: p.mustaqirra.push(x.muarrif),
                istaqarrat: p.istaqarrat.push(x.nass),
                ..p
            }
        } else if x.hala == HalatSatr::Yanmu {
            SukunS { sutur: p.sutur.push(x), namiya: p.namiya.push(x.muarrif), ..p }
        } else {
            SukunS { sutur: p.sutur.push(x), ..p }
        }
    }
}

/// A region's context after a text settles: unchanged when no context is
/// kept or the text repeats the last one, else the text added and the
/// oldest dropped past the room.
pub open spec fn halqa_s(r: Seq<Seq<char>>, n: Seq<char>, saa: usize) -> Seq<Seq<char>> {
    if saa == 0 {
        r
    } else if r.len() > 0 && r.last() == n {
        r
    } else {
        let p = r.push(n);
        if p.len() > saa {
            p.skip(p.len() - saa)
        } else {
            p
        }
    }
}

/// The context after several texts settle, in order.
pub open spec fn halqat_s(r: Seq<Seq<char>>, ns: Seq<Seq<char>>, saa: usize) -> Seq<Seq<char>>
    decreases ns.len(),
{
    if ns.len() == 0 {
        r
    } else {
        halqa_s(halqat_s(r, ns.drop_last(), saa), ns.last(), saa)
    }
}

/// One region's followed lines, settled context, the next identity and the
/// counters.
pub struct HalatMintaqaS {
    pub sutur: Seq<SuraMutatabba>,
    pub halqa: Seq<Seq<char>>,
    pub talee: u64,
    pub ihsaat: IhsaatTatabbu,
}

/// What a pass reported, as plain values.
pub struct DawraS {
    pub jadeeda: Seq<u64>,
    pub mustaqirra: Seq<u64>,
    pub namiya: Seq<u64>,
    pub muntahiya: Seq<SuraMuntahi>,
}

/// A pass's report as plain values.
pub open spec fn dawra_ruya(h: HasilatDawra) -> DawraS {
    DawraS {
        jadeeda: h.jadeeda@.map_values(|m: MuarrifSatr| m.0),
        mustaqirra: h.mustaqirra@.map_values(|m: MuarrifSatr| m.0),
        namiya: h.namiya@.map_values(|m: MuarrifSatr| m.0),
        muntahiya: h.muntahiya@.map_values(|m: SatrMuntahi| sura_muntahi(m)),
    }
}

/// One pass over a region: the matched readings merged into their lines,
/// the unmatched ones begun as new lines, the unseen lines aged and ended,
/// the rest settled, and the settled texts added to the region's context.
pub open spec fn sajjil_s(
    h: HalatMintaqaS,
    mintaqa: u64,
    lahza: u64,
    o: Seq<SuraMulahaza>,
    z: Seq<(usize, usize)>,
    sy: SiyasatIstiqrar,
) -> (HalatMintaqaS, DawraS) {
    let (s1, nn) = tabbiq_s(h.sutur, o, z, lahza, sy.adna_bidaya as nat);
    let jd = judud_s(o, z, o.len(), mintaqa, lahza, h.talee);
    let s3 = ammir_s(s1 + jd, z, h.sutur.len());
    let ra = o.len() > 0;
    let s4 = baqi_s(s3, ra, sy.sabr_ghiyab);
    let mn = muntahi_s(s3, ra, sy.sabr_ghiyab);
    let sk = sakkin_s(s4, lahza, sy.marrat_sukun, sy.mudat_sukun_mikro);
    let ih = IhsaatTatabbu {
        mulahazat: jam64(h.ihsaat.mulahazat, o.len()),
        hawiyat: jam64(h.ihsaat.hawiyat, jd.len()),
        tatabuqat: jam64(h.ihsaat.tatabuqat, z.len()),
        numuwwat: jam64(h.ihsaat.numuwwat, nn),
        istiqrarat: jam64(h.ihsaat.istiqrarat, sk.istaqarrat.len()),
        inhaat: jam64(h.ihsaat.inhaat, mn.len()),
    };
    (
        HalatMintaqaS {
            sutur: sk.sutur,
            halqa: halqat_s(h.halqa, sk.istaqarrat, sy.saa_siyaq),
            talee: jam64(h.talee, jd.len()),
            ihsaat: ih,
        },
        DawraS {
            jadeeda: jd.map_values(|x: SuraMutatabba| x.muarrif),
            mustaqirra: sk.mustaqirra,
            namiya: sk.namiya,
            muntahiya: mn,
        },
    )
}

fn jam32_p(a: u32, b: u32) -> (r: u32)
    ensures
        r == jam32(a, b as nat),
{
    if a <= u32::MAX - b {
        a + b
    } else {
        u32::MAX
    }
}

fn jam64_p(a: u64, b: u64) -> (r: u64)
    ensures
        r == jam64(a, b as nat),
{
    if a <= u64::MAX - b {
        a + b
    } else {
        u64::MAX
    }
}

fn jam64_usize(a: u64, b: usize) -> (r: u64)
    ensures
        r == jam64(a, b as nat),
{
    if (b as u128) <= (u64::MAX as u128) - (a as u128) {
        a + b as u64
    } else {
        u64::MAX
    }
}

/// Merges a matched reading into its line.
fn damm(satr: &mut SatrMutatabba, mulahaza: &QiraaMulahaza, lahza_mikro: u64, adna_bidaya: usize) -> (a:
    AtharDamm)
    ensures
        (sura_mutatabba(*final(satr)), a) == damm_s(
            sura_mutatabba(*old(satr)),
            sura_mulahaza(*mulahaza),
            lahza_mikro,
            adna_bidaya as nat,
        ),
{
    satr.marrat = jam32_p(satr.marrat, 1);
    satr.ghiyab = 0;
    satr.akhir_ruya_mikro = lahza_mikro;
    satr.mawdi = mulahaza.mawdi;
    if mulahaza.maqisa && !satr.maqisa {
        satr.thiqa = mulahaza.thiqa;
    } else if mulahaza.maqisa == satr.maqisa {
        if satr.thiqa < mulahaza.thiqa {
            satr.thiqa = mulahaza.thiqa;
        }
    }
    satr.maqisa = satr.maqisa && mulahaza.maqisa;
    if satr.nass == mulahaza.nass {
        satr.thabat = jam32_p(satr.thabat, 1);
        return AtharDamm::Thabat;
    }
    let nama = yanmu(satr.nass.as_str(), mulahaza.nass.as_str(), adna_bidaya);
    satr.nass = min_nass(mulahaza.nass.as_str());
    satr.akhir_taghyeer_mikro = lahza_mikro;
    satr.thabat = 0;
    satr.ursilat = false;
    if nama {
        satr.hala = HalatSatr::Yanmu;
        AtharDamm::Nama
    } else {
        satr.hala = HalatSatr::Yataghayyar;
        AtharDamm::Taghayyar
    }
}

/// The readings worth following: white space collapsed, empty ones dropped.
pub fn naqqih(mulahazat: &[QiraaMulahaza]) -> (r: Vec<QiraaMulahaza>)
    ensures
        suwar_mulahaza(r@) == naqqih_s(suwar_mulahaza(mulahazat@)),
{
    let mut r: Vec<QiraaMulahaza> = Vec::new();
    let mut i: usize = 0;
    while i < mulahazat.len()
        invariant
            i <= mulahazat@.len(),
            suwar_mulahaza(r@) == naqqih_s(suwar_mulahaza(mulahazat@.take(i as int))),
        decreases mulahazat@.len() - i,
    {
        proof {
            assert(suwar_mulahaza(mulahazat@.take(i + 1)).drop_last() =~= suwar_mulahaza(
                mulahazat@.take(i as int),
            ));
        }
        let m = &mulahazat[i];
        let n = wahhid_nass(m.nass.as_str());
        if !n.as_str().is_empty() {
            let ghost q = r@;
            r.push(QiraaMulahaza { nass: n, mawdi: m.mawdi, thiqa: m.thiqa, maqisa: m.maqisa });
            proof {
                assert(suwar_mulahaza(r@) =~= suwar_mulahaza(q).push(
                    sura_mulahaza(r@[r@.len() - 1]),
                ));
            }
        }
        i = i + 1;
    }
    proof {
        assert(mulahazat@.take(mulahazat@.len() as int) =~= mulahazat@);
    }
    r
}

/// Each text's characters, in order.
pub open spec fn suwar_nusus(v: Seq<String>) -> Seq<Seq<char>> {
    v.map_values(|x: String| x@)
}

/// Adds a settled text to a region's context.
fn adhif_halqa(halqa: &mut Vec<String>, nass: String, saa: usize)
    ensures
        suwar_nusus(final(halqa)@) == halqa_s(suwar_nusus(old(halqa)@), nass@, saa),
{
    if saa == 0 {
        return;
    }
    let n = halqa.len();
    if n > 0 && halqa[n - 1] == nass {
        proof {
            assert(suwar_nusus(halqa@).last() == nass@);
        }
        return;
    }
    let ghost r0 = suwar_nusus(halqa@);
    let ghost p = r0.push(nass@);
    halqa.push(nass);
    proof {
        assert(suwar_nusus(halqa@) =~= p);
        assert(p.skip(0) =~= p);
    }
    let ghost mut d: int = 0;
    while halqa.len() > saa
        invariant
            0 <= d <= p.len(),
            suwar_nusus(halqa@) == p.skip(d),
            halqa@.len() + d == p.len(),
            d > 0 ==> halqa@.len() >= saa,
            saa >= 1,
        decreases halqa@.len(),
    {
        let ghost h0 = halqa@;
        let _aqdam = halqa.remove(0);
        proof {
            assert(halqa@ =~= h0.drop_first());
            assert(suwar_nusus(halqa@) =~= suwar_nusus(h0).drop_first());
            assert(p.skip(d).drop_first() =~= p.skip(d + 1));
            d = d + 1;
        }
    }
    proof {
        if p.len() > saa {
            assert(d == p.len() - saa);
        } else {
            assert(d == 0);
        }
    }
}

proof fn lemma_jam64_wahid(a: u64, n: nat)
    ensures
        jam64(jam64(a, n), 1) == jam64(a, n + 1),
{
}

/// Whether a pass's results are the ones `sajjil_s` gives.
pub open spec fn natija_dawra(
    r: (Vec<SatrMutatabba>, Vec<String>, u64, IhsaatTatabbu, HasilatDawra),
    e: (HalatMintaqaS, DawraS),
) -> bool {
    &&& suwar_mutatabba(r.0@) == e.0.sutur
    &&& suwar_nusus(r.1@) == e.0.halqa
    &&& r.2 == e.0.talee
    &&& r.3 == e.0.ihsaat
    &&& dawra_ruya(r.4) == e.1
}

/// The pairs name lines and readings that exist.
pub open spec fn azwaj_fi_hadd(z: Seq<(usize, usize)>, ns: nat, no: nat) -> bool {
    forall|k: int| 0 <= k < z.len() ==> (#[trigger] z[k]).0 < ns && z[k].1 < no
}

fn tabbiq(
    sutur: &mut Vec<SatrMutatabba>,
    o: &Vec<QiraaMulahaza>,
    z: &[(usize, usize)],
    lahza: u64,
    adna: usize,
    ihsaat: &mut IhsaatTatabbu,
)
    requires
        azwaj_fi_hadd(z@, old(sutur)@.len(), o@.len()),
    ensures
        suwar_mutatabba(final(sutur)@) == tabbiq_s(
            suwar_mutatabba(old(sutur)@),
            suwar_mulahaza(o@),
            z@,
            lahza,
            adna as nat,
        ).0,
        final(ihsaat).numuwwat == jam64(
            old(ihsaat).numuwwat,
            tabbiq_s(suwar_mutatabba(old(sutur)@), suwar_mulahaza(o@), z@, lahza, adna as nat).1,
        ),
        final(ihsaat).tatabuqat == jam64(old(ihsaat).tatabuqat, z@.len()),
        *final(ihsaat) == (IhsaatTatabbu {
            numuwwat: final(ihsaat).numuwwat,
            tatabuqat: final(ihsaat).tatabuqat,
            ..*old(ihsaat)
        }),
{
    let ghost s0 = suwar_mutatabba(sutur@);
    let ghost o0 = suwar_mulahaza(o@);
    let ghost i0 = *ihsaat;
    let mut k: usize = 0;
    while k < z.len()
        invariant
            k <= z@.len(),
            azwaj_fi_hadd(z@, s0.len(), o@.len()),
            sutur@.len() == s0.len(),
            o0 == suwar_mulahaza(o@),
            suwar_mutatabba(sutur@) == tabbiq_s(s0, o0, z@.take(k as int), lahza, adna as nat).0,
            ihsaat.numuwwat == jam64(i0.numuwwat, tabbiq_s(s0, o0, z@.take(k as int), lahza, adna as nat).1),
            ihsaat.tatabuqat == jam64(i0.tatabuqat, k as nat),
            *ihsaat == (IhsaatTatabbu { numuwwat: ihsaat.numuwwat, tatabuqat: ihsaat.tatabuqat, ..i0 }),
        decreases z@.len() - k,
    {
        proof {
            assert(z@.take(k + 1).drop_last() =~= z@.take(k as int));
            assert(z@.take(k + 1).last() == z@[k as int]);
        }
        let (i, j) = z[k];
        let ghost qabla = sutur@;
        let mut x = sutur.remove(i);
        let a = damm(&mut x, &o[j], lahza, adna);
        sutur.insert(i, x);
        proof {
            assert(suwar_mutatabba(sutur@) =~= suwar_mutatabba(qabla).update(i as int, sura_mutatabba(x)));
            lemma_jam64_wahid(i0.tatabuqat, k as nat);
            lemma_jam64_wahid(i0.numuwwat, tabbiq_s(s0, o0, z@.take(k as int), lahza, adna as nat).1);
        }
        if a == AtharDamm::Nama {
            ihsaat.numuwwat = jam64_p(ihsaat.numuwwat, 1);
        }
        ihsaat.tatabuqat = jam64_p(ihsaat.tatabuqat, 1);
        k = k + 1;
    }
    proof {
        assert(z@.take(z@.len() as int) =~= z@);
    }
}

fn alamat_mumassa(z: &[(usize, usize)], n: usize) -> (r: Vec<bool>)
    ensures
        r@.len() == n,
        forall|t: int| 0 <= t < n ==> #[trigger] r@[t] == mumass_s(z@, t),
{
    let mut r: Vec<bool> = Vec::new();
    let mut t: usize = 0;
    while t < n
        invariant
            t <= n,
            r@.len() == t,
            forall|u: int| 0 <= u < t ==> !#[trigger] r@[u],
        decreases n - t,
    {
        r.push(false);
        t = t + 1;
    }
    let mut k: usize = 0;
    while k < z.len()
        invariant
            k <= z@.len(),
            r@.len() == n,
            forall|u: int| 0 <= u < n ==> #[trigger] r@[u] == exists|w: int| 0 <= w < k && (#[trigger] z@[w]).0 == u,
        decreases z@.len() - k,
    {
        let i = z[k].0;
        if i < n {
            r.set(i, true);
        }
        proof {
            assert forall|u: int| 0 <= u < n implies #[trigger] r@[u] == exists|w: int| 0 <= w < k + 1 && (#[trigger] z@[w]).0 == u by {
                if u == z@[k as int].0 {
                    assert(z@[k as int].0 == u);
                } else if exists|w: int| 0 <= w < k + 1 && (#[trigger] z@[w]).0 == u {
                    let w = choose|w: int| 0 <= w < k + 1 && (#[trigger] z@[w]).0 == u;
                    assert(w < k);
                }
            }
        }
        k = k + 1;
    }
    r
}

fn alamat_mutabaqa(z: &[(usize, usize)], n: usize) -> (r: Vec<bool>)
    ensures
        r@.len() == n,
        forall|t: int| 0 <= t < n ==> #[trigger] r@[t] == mutabaq_s(z@, t),
{
    let mut r: Vec<bool> = Vec::new();
    let mut t: usize = 0;
    while t < n
        invariant
            t <= n,
            r@.len() == t,
            forall|u: int| 0 <= u < t ==> !#[trigger] r@[u],
        decreases n - t,
    {
        r.push(false);
        t = t + 1;
    }
    let mut k: usize = 0;
    while k < z.len()
        invariant
            k <= z@.len(),
            r@.len() == n,
            forall|u: int| 0 <= u < n ==> #[trigger] r@[u] == exists|w: int| 0 <= w < k && (#[trigger] z@[w]).1 == u,
        decreases z@.len() - k,
    {
        let j = z[k].1;
        if j < n {
            r.set(j, true);
        }
        proof {
            assert forall|u: int| 0 <= u < n implies #[trigger] r@[u] == exists|w: int| 0 <= w < k + 1 && (#[trigger] z@[w]).1 == u by {
                if u == z@[k as int].1 {
                    assert(z@[k as int].1 == u);
                } else if exists|w: int| 0 <= w < k + 1 && (#[trigger] z@[w]).1 == u {
                    let w = choose|w: int| 0 <= w < k + 1 && (#[trigger] z@[w]).1 == u;
                    assert(w < k);
                }
            }
        }
        k = k + 1;
    }
    r
}

/// Begins a line for each reading no pair matched.
fn judud(
    sutur: &mut Vec<SatrMutatabba>,
    o: &Vec<QiraaMulahaza>,
    z: &[(usize, usize)],
    mintaqa: MuarrifMintaqa,
    lahza: u64,
    talee: &mut u64,
    ihsaat: &mut IhsaatTatabbu,
    jadeeda: &mut Vec<MuarrifSatr>,
)
    requires
        old(jadeeda)@.len() == 0,
    ensures
        suwar_mutatabba(final(sutur)@) == suwar_mutatabba(old(sutur)@) + judud_s(
            suwar_mulahaza(o@),
            z@,
            o@.len(),
            mintaqa.0,
            lahza,
            *old(talee),
        ),
        *final(talee) == jam64(
            *old(talee),
            judud_s(suwar_mulahaza(o@), z@, o@.len(), mintaqa.0, lahza, *old(talee)).len(),
        ),
        *final(ihsaat) == (IhsaatTatabbu {
            hawiyat: jam64(
                old(ihsaat).hawiyat,
                judud_s(suwar_mulahaza(o@), z@, o@.len(), mintaqa.0, lahza, *old(talee)).len(),
            ),
            ..*old(ihsaat)
        }),
        final(jadeeda)@.map_values(|m: MuarrifSatr| m.0) == judud_s(
            suwar_mulahaza(o@),
            z@,
            o@.len(),
            mintaqa.0,
            lahza,
            *old(talee),
        ).map_values(|x: SuraMutatabba| x.muarrif),
{
    let mutabaqa = alamat_mutabaqa(z, o.len());
    let ghost s0 = suwar_mutatabba(sutur@);
    let ghost o0 = suwar_mulahaza(o@);
    let ghost t0 = *talee;
    let ghost i0 = *ihsaat;
    let mut j: usize = 0;
    while j < o.len()
        invariant
            j <= o@.len(),
            mutabaqa@.len() == o@.len(),
            forall|t: int| 0 <= t < o@.len() ==> #[trigger] mutabaqa@[t] == mutabaq_s(z@, t),
            o0 == suwar_mulahaza(o@),
            suwar_mutatabba(sutur@) == s0 + judud_s(o0, z@, j as nat, mintaqa.0, lahza, t0),
            *talee == jam64(t0, judud_s(o0, z@, j as nat, mintaqa.0, lahza, t0).len()),
            *ihsaat == (IhsaatTatabbu {
                hawiyat: jam64(i0.hawiyat, judud_s(o0, z@, j as nat, mintaqa.0, lahza, t0).len()),
                ..i0
            }),
            jadeeda@.map_values(|m: MuarrifSatr| m.0) == judud_s(o0, z@, j as nat, mintaqa.0, lahza, t0).map_values(
                |x: SuraMutatabba| x.muarrif,
            ),
        decreases o@.len() - j,
    {
        let ghost p = judud_s(o0, z@, j as nat, mintaqa.0, lahza, t0);
        if !mutabaqa[j] {
            let m = &o[j];
            let muarrif = MuarrifSatr(*talee);
            let ghost qabla = sutur@;
            let ghost jq = jadeeda@;
            sutur.push(
                SatrMutatabba {
                    muarrif,
                    mintaqa,
                    nass: min_nass(m.nass.as_str()),
                    mawdi: m.mawdi,
                    thiqa: m.thiqa,
                    maqisa: m.maqisa,
                    hala: HalatSatr::Yataghayyar,
                    awwal_mikro: lahza,
                    akhir_taghyeer_mikro: lahza,
                    akhir_ruya_mikro: lahza,
                    marrat: 1,
                    thabat: 0,
                    ghiyab: 0,
                    ursilat: false,
                },
            );
            jadeeda.push(muarrif);
            proof {
                lemma_jam64_wahid(t0, p.len());
                lemma_jam64_wahid(i0.hawiyat, p.len());
                assert(suwar_mutatabba(sutur@) =~= suwar_mutatabba(qabla).push(sura_mutatabba(sutur@[sutur@.len() - 1])));
                assert(sura_mutatabba(sutur@[sutur@.len() - 1]) == satr_jadeed_s(jam64(t0, p.len()), mintaqa.0, o0[j as int], lahza));
                assert(jadeeda@.map_values(|m: MuarrifSatr| m.0) =~= jq.map_values(|m: MuarrifSatr| m.0).push(muarrif.0));
                assert(p.push(satr_jadeed_s(jam64(t0, p.len()), mintaqa.0, o0[j as int], lahza)).map_values(|x: SuraMutatabba| x.muarrif) =~= p.map_values(|x: SuraMutatabba| x.muarrif).push(jam64(t0, p.len())));
                assert(s0 + p.push(satr_jadeed_s(jam64(t0, p.len()), mintaqa.0, o0[j as int], lahza)) =~= (s0 + p).push(satr_jadeed_s(jam64(t0, p.len()), mintaqa.0, o0[j as int], lahza)));
            }
            *talee = jam64_p(*talee, 1);
            ihsaat.hawiyat = jam64_p(ihsaat.hawiyat, 1);
        }
        j = j + 1;
    }
}

/// Ages the lines that were there before the pass and no pair matched.
fn ammir(sutur: &mut Vec<SatrMutatabba>, z: &[(usize, usize)], n: usize)
    requires
        n <= old(sutur)@.len(),
    ensures
        suwar_mutatabba(final(sutur)@) == ammir_s(suwar_mutatabba(old(sutur)@), z@, n as nat),
{
    let mumassa = alamat_mumassa(z, n);
    let ghost s0 = suwar_mutatabba(sutur@);
    let mut i: usize = 0;
    while i < n
        invariant
            i <= n,
            n <= s0.len(),
            sutur@.len() == s0.len(),
            mumassa@.len() == n,
            forall|t: int| 0 <= t < n ==> #[trigger] mumassa@[t] == mumass_s(z@, t),
            forall|t: int| 0 <= t < s0.len() ==> #[trigger] suwar_mutatabba(sutur@)[t] == if t < i
                && !mumass_s(z@, t) {
                SuraMutatabba { ghiyab: jam32(s0[t].ghiyab, 1), ..s0[t] }
            } else {
                s0[t]
            },
        decreases n - i,
    {
        let ghost qabla = suwar_mutatabba(sutur@);
        if !mumassa[i] {
            let ghost qv = sutur@;
            let mut x = sutur.remove(i);
            x.ghiyab = jam32_p(x.ghiyab, 1);
            sutur.insert(i, x);
            proof {
                assert(suwar_mutatabba(sutur@) =~= suwar_mutatabba(qv).update(i as int, sura_mutatabba(x)));
            }
        }
        proof {
            assert(qabla[i as int] == s0[i as int]);
            assert forall|t: int| 0 <= t < s0.len() implies #[trigger] suwar_mutatabba(sutur@)[t] == if t < i + 1
                && !mumass_s(z@, t) {
                SuraMutatabba { ghiyab: jam32(s0[t].ghiyab, 1), ..s0[t] }
            } else {
                s0[t]
            } by {
                if t != i {
                    assert(suwar_mutatabba(sutur@)[t] == qabla[t]);
                }
            }
        }
        i = i + 1;
    }
    proof {
        assert(suwar_mutatabba(sutur@) =~= ammir_s(s0, z@, n as nat));
    }
}

/// Ends the unseen lines that are due, keeping the rest in order.
fn anhi(sutur: Vec<SatrMutatabba>, ra: bool, sabr: u32) -> (r: (Vec<SatrMutatabba>, Vec<SatrMuntahi>))
    ensures
        suwar_mutatabba(r.0@) == baqi_s(suwar_mutatabba(sutur@), ra, sabr),
        r.1@.map_values(|m: SatrMuntahi| sura_muntahi(m)) == muntahi_s(suwar_mutatabba(sutur@), ra, sabr),
{
    let mut v = sutur;
    let ghost asl = suwar_mutatabba(v@);
    let n = v.len();
    let mut baqi: Vec<SatrMutatabba> = Vec::new();
    let mut muntahi: Vec<SatrMuntahi> = Vec::new();
    let mut i: usize = 0;
    while v.len() > 0
        invariant
            i <= asl.len(),
            asl.len() == n,
            v@.len() + i == n,
            suwar_mutatabba(v@) == asl.skip(i as int),
            suwar_mutatabba(baqi@) == baqi_s(asl.take(i as int), ra, sabr),
            muntahi@.map_values(|m: SatrMuntahi| sura_muntahi(m)) == muntahi_s(asl.take(i as int), ra, sabr),
        decreases v@.len(),
    {
        let ghost v0 = v@;
        proof {
            assert(suwar_mutatabba(v0)[0] == asl[i as int]);
            assert(asl.take(i + 1).drop_last() =~= asl.take(i as int));
            assert(asl.take(i + 1).last() == asl[i as int]);
        }
        let x = v.remove(0);
        proof {
            assert(v@ =~= v0.drop_first());
            assert(suwar_mutatabba(v@) =~= suwar_mutatabba(v0).drop_first());
            assert(asl.skip(i as int).drop_first() =~= asl.skip(i + 1));
        }
        if x.ghiyab > 0 && (ra || x.ghiyab > sabr) {
            let ghost mq = muntahi@;
            let istaqarr = x.hala.yastahiq_tarjama() || x.ursilat;
            muntahi.push(
                SatrMuntahi {
                    muarrif: x.muarrif,
                    mintaqa: x.mintaqa,
                    nass: min_nass(x.nass.as_str()),
                    istaqarr,
                },
            );
            proof {
                assert(muntahi@.map_values(|m: SatrMuntahi| sura_muntahi(m)) =~= mq.map_values(
                    |m: SatrMuntahi| sura_muntahi(m),
                ).push(sura_muntahi(muntahi@[muntahi@.len() - 1])));
            }
        } else {
            let ghost bq = baqi@;
            baqi.push(x);
            proof {
                assert(suwar_mutatabba(baqi@) =~= suwar_mutatabba(bq).push(sura_mutatabba(x)));
            }
        }
        i = i + 1;
    }
    proof {
        assert(asl.take(asl.len() as int) =~= asl);
    }
    (baqi, muntahi)
}

/// Settles the lines that are due, and reports.
fn sakkin(
    sutur: Vec<SatrMutatabba>,
    lahza: u64,
    marrat: u32,
    mudda: u64,
    mustaqirra: &mut Vec<MuarrifSatr>,
    namiya: &mut Vec<MuarrifSatr>,
) -> (r: (Vec<SatrMutatabba>, Vec<String>))
    requires
        old(mustaqirra)@.len() == 0,
        old(namiya)@.len() == 0,
    ensures
        suwar_mutatabba(r.0@) == sakkin_s(suwar_mutatabba(sutur@), lahza, marrat, mudda).sutur,
        suwar_nusus(r.1@) == sakkin_s(suwar_mutatabba(sutur@), lahza, marrat, mudda).istaqarrat,
        final(mustaqirra)@.map_values(|m: MuarrifSatr| m.0) == sakkin_s(
            suwar_mutatabba(sutur@),
            lahza,
            marrat,
            mudda,
        ).mustaqirra,
        final(namiya)@.map_values(|m: MuarrifSatr| m.0) == sakkin_s(
            suwar_mutatabba(sutur@),
            lahza,
            marrat,
            mudda,
        ).namiya,
{
    let mut v = sutur;
    let ghost asl = suwar_mutatabba(v@);
    let n = v.len();
    let mut out: Vec<SatrMutatabba> = Vec::new();
    let mut nusus: Vec<String> = Vec::new();
    let mut i: usize = 0;
    while v.len() > 0
        invariant
            i <= asl.len(),
            asl.len() == n,
            v@.len() + i == n,
            suwar_mutatabba(v@) == asl.skip(i as int),
            suwar_mutatabba(out@) == sakkin_s(asl.take(i as int), lahza, marrat, mudda).sutur,
            suwar_nusus(nusus@) == sakkin_s(asl.take(i as int), lahza, marrat, mudda).istaqarrat,
            mustaqirra@.map_values(|m: MuarrifSatr| m.0) == sakkin_s(asl.take(i as int), lahza, marrat, mudda).mustaqirra,
            namiya@.map_values(|m: MuarrifSatr| m.0) == sakkin_s(asl.take(i as int), lahza, marrat, mudda).namiya,
        decreases v@.len(),
    {
        let ghost v0 = v@;
        let ghost p = sakkin_s(asl.take(i as int), lahza, marrat, mudda);
        proof {
            assert(suwar_mutatabba(v0)[0] == asl[i as int]);
            assert(asl.take(i + 1).drop_last() =~= asl.take(i as int));
            assert(asl.take(i + 1).last() == asl[i as int]);
        }
        let mut x = v.remove(0);
        proof {
            assert(v@ =~= v0.drop_first());
            assert(suwar_mutatabba(v@) =~= suwar_mutatabba(v0).drop_first());
            assert(asl.skip(i as int).drop_first() =~= asl.skip(i + 1));
        }
        let ghost oq = out@;
        let ghost mq = mustaqirra@;
        let ghost nq = namiya@;
        let ghost sq = nusus@;
        if x.hala.yastahiq_tarjama() {
            if !x.ursilat {
                mustaqirra.push(x.muarrif);
            }
        } else if x.thabat >= marrat && (if lahza >= x.akhir_taghyeer_mikro {
            lahza - x.akhir_taghyeer_mikro
        } else {
            0
        }) >= mudda {
            x.hala = HalatSatr::Mustaqirr;
            mustaqirra.push(x.muarrif);
            nusus.push(min_nass(x.nass.as_str()));
        } else {
            match x.hala {
                HalatSatr::Yanmu => {
                    namiya.push(x.muarrif);
                },
                _ => {},
            }
        }
        out.push(x);
        proof {
            assert(suwar_mutatabba(out@) =~= suwar_mutatabba(oq).push(sura_mutatabba(x)));
            assert(mustaqirra@.map_values(|m: MuarrifSatr| m.0) =~= if mustaqirra@.len() > mq.len() {
                mq.map_values(|m: MuarrifSatr| m.0).push(x.muarrif.0)
            } else {
                mq.map_values(|m: MuarrifSatr| m.0)
            });
            assert(namiya@.map_values(|m: MuarrifSatr| m.0) =~= if namiya@.len() > nq.len() {
                nq.map_values(|m: MuarrifSatr| m.0).push(x.muarrif.0)
            } else {
                nq.map_values(|m: MuarrifSatr| m.0)
            });
            assert(suwar_nusus(nusus@) =~= if nusus@.len() > sq.len() {
                suwar_nusus(sq).push(x.nass@)
            } else {
                suwar_nusus(sq)
            });
        }
        i = i + 1;
    }
    proof {
        assert(asl.take(asl.len() as int) =~= asl);
    }
    (out, nusus)
}

proof fn lemma_tabbiq_tul(s: Seq<SuraMutatabba>, o: Seq<SuraMulahaza>, z: Seq<(usize, usize)>, lahza: u64, adna: nat)
    requires
        azwaj_fi_hadd(z, s.len(), o.len()),
    ensures
        tabbiq_s(s, o, z, lahza, adna).0.len() == s.len(),
    decreases z.len(),
{
    if z.len() > 0 {
        assert(azwaj_fi_hadd(z.drop_last(), s.len(), o.len())) by {
            assert forall|k: int| 0 <= k < z.drop_last().len() implies (#[trigger] z.drop_last()[k]).0 < s.len() && z.drop_last()[k].1 < o.len() by {
                assert(z.drop_last()[k] == z[k]);
            }
        }
        lemma_tabbiq_tul(s, o, z.drop_last(), lahza, adna);
        assert(z.last() == z[z.len() - 1]);
    }
}

/// One pass over a region's lines: see `sajjil_s`.
fn dawra(
    sutur: Vec<SatrMutatabba>,
    halqa: Vec<String>,
    talee: u64,
    ihsaat: IhsaatTatabbu,
    mintaqa: MuarrifMintaqa,
    lahza: u64,
    o: &Vec<QiraaMulahaza>,
    z: &[(usize, usize)],
    sy: SiyasatIstiqrar,
) -> (r: (Vec<SatrMutatabba>, Vec<String>, u64, IhsaatTatabbu, HasilatDawra))
    requires
        azwaj_fi_hadd(z@, sutur@.len(), o@.len()),
    ensures
        natija_dawra(
            r,
            sajjil_s(
                HalatMintaqaS {
                    sutur: suwar_mutatabba(sutur@),
                    halqa: suwar_nusus(halqa@),
                    talee,
                    ihsaat,
                },
                mintaqa.0,
                lahza,
                suwar_mulahaza(o@),
                z@,
                sy,
            ),
        ),
{
    let ghost s0 = suwar_mutatabba(sutur@);
    let ghost h0 = suwar_nusus(halqa@);
    let ghost o0 = suwar_mulahaza(o@);
    let mut sutur = sutur;
    let mut ihsaat = ihsaat;
    let mut talee = talee;
    let mut halqa = halqa;
    ihsaat.mulahazat = jam64_usize(ihsaat.mulahazat, o.len());
    let n = sutur.len();
    tabbiq(&mut sutur, o, z, lahza, sy.adna_bidaya, &mut ihsaat);
    proof {
        lemma_tabbiq_tul(s0, o0, z@, lahza, sy.adna_bidaya as nat);
        assert(suwar_mutatabba(sutur@).len() == sutur@.len());
    }
    let mut jadeeda: Vec<MuarrifSatr> = Vec::new();
    judud(&mut sutur, o, z, mintaqa, lahza, &mut talee, &mut ihsaat, &mut jadeeda);
    proof {
        assert(suwar_mutatabba(sutur@).len() == sutur@.len());
    }
    ammir(&mut sutur, z, n);
    let (baqi, muntahi) = anhi(sutur, o.len() > 0, sy.sabr_ghiyab);
    ihsaat.inhaat = jam64_usize(ihsaat.inhaat, muntahi.len());
    let mut mustaqirra: Vec<MuarrifSatr> = Vec::new();
    let mut namiya: Vec<MuarrifSatr> = Vec::new();
    let (sutur, nusus) = sakkin(
        baqi,
        lahza,
        sy.marrat_sukun,
        sy.mudat_sukun_mikro,
        &mut mustaqirra,
        &mut namiya,
    );
    ihsaat.istiqrarat = jam64_usize(ihsaat.istiqrarat, nusus.len());
    let mut k: usize = 0;
    while k < nusus.len()
        invariant
            k <= nusus@.len(),
            suwar_nusus(halqa@) == halqat_s(h0, suwar_nusus(nusus@).take(k as int), sy.saa_siyaq),
        decreases nusus@.len() - k,
    {
        proof {
            assert(suwar_nusus(nusus@).take(k + 1).drop_last() =~= suwar_nusus(nusus@).take(k as int));
        }
        adhif_halqa(&mut halqa, min_nass(nusus[k].as_str()), sy.saa_siyaq);
        k = k + 1;
    }
    proof {
        assert(suwar_nusus(nusus@).take(nusus@.len() as int) =~= suwar_nusus(nusus@));
        assert(muntahi@.map_values(|m: SatrMuntahi| sura_muntahi(m)).len() == muntahi@.len());
        assert(suwar_nusus(nusus@).len() == nusus@.len());
    }
    let hasila = HasilatDawra { jadeeda, mustaqirra, namiya, muntahiya: muntahi };
    (sutur, halqa, talee, ihsaat, hasila)
}

/// A line seen again on a pass that read nothing new: seen now, one more
/// reading, and, unless settled, one more identical reading.
pub open spec fn tajdid_s(x: SuraMutatabba, lahza: u64) -> SuraMutatabba {
    SuraMutatabba {
        ghiyab: 0,
        akhir_ruya_mikro: lahza,
        marrat: jam32(x.marrat, 1),
        thabat: if x.hala == HalatSatr::Mustaqirr {
            x.thabat
        } else {
            jam32(x.thabat, 1)
        },
        ..x
    }
}

/// A pass over a region whose reading did not change: every line refreshed,
/// then settled as on any pass.
pub open spec fn thabbit_s(h: HalatMintaqaS, lahza: u64, sy: SiyasatIstiqrar) -> (HalatMintaqaS, DawraS) {
    let sk = sakkin_s(
        h.sutur.map_values(|x: SuraMutatabba| tajdid_s(x, lahza)),
        lahza,
        sy.marrat_sukun,
        sy.mudat_sukun_mikro,
    );
    (
        HalatMintaqaS {
            sutur: sk.sutur,
            halqa: halqat_s(h.halqa, sk.istaqarrat, sy.saa_siyaq),
            talee: h.talee,
            ihsaat: IhsaatTatabbu {
                tatabuqat: jam64(h.ihsaat.tatabuqat, h.sutur.len()),
                istiqrarat: jam64(h.ihsaat.istiqrarat, sk.istaqarrat.len()),
                ..h.ihsaat
            },
        },
        DawraS {
            jadeeda: Seq::empty(),
            mustaqirra: sk.mustaqirra,
            namiya: sk.namiya,
            muntahiya: Seq::empty(),
        },
    )
}

/// Every region's lines, regions in increasing order.
pub open spec fn kull_sutur(q: Seq<(u64, Seq<SuraMutatabba>)>) -> Seq<SuraMutatabba>
    decreases q.len(),
{
    if q.len() == 0 {
        Seq::empty()
    } else {
        kull_sutur(q.drop_last()) + q.last().1
    }
}

/// Lines followed across frames, region by region, with the context each
/// region's settled lines leave behind.
#[derive(Debug)]
pub struct Mutatabbi {
    siyasa: SiyasatIstiqrar,
    hayya: Vec<(MuarrifMintaqa, Vec<SatrMutatabba>)>,
    siyaq: Vec<(MuarrifMintaqa, Vec<String>)>,
    talee: u64,
    ihsaat: IhsaatTatabbu,
}

/// Each region's lines as plain values.
pub open spec fn ruyat_hayya(q: Seq<(MuarrifMintaqa, Vec<SatrMutatabba>)>) -> Seq<(u64, Seq<SuraMutatabba>)> {
    q.map_values(|e: (MuarrifMintaqa, Vec<SatrMutatabba>)| (e.0.0, suwar_mutatabba(e.1@)))
}

/// Each region's context as plain values.
pub open spec fn ruyat_siyaq(q: Seq<(MuarrifMintaqa, Vec<String>)>) -> Seq<(u64, Seq<Seq<char>>)> {
    q.map_values(|e: (MuarrifMintaqa, Vec<String>)| (e.0.0, suwar_nusus(e.1@)))
}

fn bahth_hayya(q: &Vec<(MuarrifMintaqa, Vec<SatrMutatabba>)>, m: u64) -> (r: (usize, usize))
    requires
        mufatah_murattab(ruyat_hayya(q@)),
    ensures
        r.0 == mawdi_miftah(ruyat_hayya(q@), m),
        r.0 == q@.len() ==> (r.1 <= q@.len() && (forall|j: int| 0 <= j < r.1 ==> (#[trigger] q@[j]).0.0
            < m) && forall|j: int| r.1 <= j < q@.len() ==> (#[trigger] q@[j]).0.0 > m),
{
    let ghost v = ruyat_hayya(q@);
    let mut p: usize = 0;
    while p < q.len() && q[p].0.0 < m
        invariant
            p <= q@.len(),
            v == ruyat_hayya(q@),
            forall|j: int| 0 <= j < p ==> (#[trigger] q@[j]).0.0 < m,
        decreases q@.len() - p,
    {
        p = p + 1;
    }
    if p < q.len() && q[p].0.0 == m {
        proof {
            assert(v[p as int].0 == m);
            lemma_miftah_fi(v, p as int);
        }
        (p, p)
    } else {
        proof {
            assert forall|j: int| p <= j < q@.len() implies (#[trigger] q@[j]).0.0 > m by {
                assert(v[p as int].0 < v[j].0 || j == p);
            }
            assert forall|j: int| 0 <= j < v.len() implies (#[trigger] v[j]).0 != m by {
                assert(v[j].0 == q@[j].0.0);
            }
            lemma_miftah_ghaib(v, m);
        }
        (q.len(), p)
    }
}

fn bahth_siyaq(q: &Vec<(MuarrifMintaqa, Vec<String>)>, m: u64) -> (r: (usize, usize))
    requires
        mufatah_murattab(ruyat_siyaq(q@)),
    ensures
        r.0 == mawdi_miftah(ruyat_siyaq(q@), m),
        r.0 == q@.len() ==> (r.1 <= q@.len() && (forall|j: int| 0 <= j < r.1 ==> (#[trigger] q@[j]).0.0
            < m) && forall|j: int| r.1 <= j < q@.len() ==> (#[trigger] q@[j]).0.0 > m),
{
    let ghost v = ruyat_siyaq(q@);
    let mut p: usize = 0;
    while p < q.len() && q[p].0.0 < m
        invariant
            p <= q@.len(),
            v == ruyat_siyaq(q@),
            forall|j: int| 0 <= j < p ==> (#[trigger] q@[j]).0.0 < m,
        decreases q@.len() - p,
    {
        p = p + 1;
    }
    if p < q.len() && q[p].0.0 == m {
        proof {
            assert(v[p as int].0 == m);
            lemma_miftah_fi(v, p as int);
        }
        (p, p)
    } else {
        proof {
            assert forall|j: int| p <= j < q@.len() implies (#[trigger] q@[j]).0.0 > m by {
                assert(v[p as int].0 < v[j].0 || j == p);
            }
            assert forall|j: int| 0 <= j < v.len() implies (#[trigger] v[j]).0 != m by {
                assert(v[j].0 == q@[j].0.0);
            }
            lemma_miftah_ghaib(v, m);
        }
        (q.len(), p)
    }
}

impl Mutatabbi {
    /// Each region's lines, regions in increasing order.
    pub closed spec fn hayya_s(&self) -> Seq<(u64, Seq<SuraMutatabba>)> {
        ruyat_hayya(self.hayya@)
    }

    /// Each region's settled context, regions in increasing order.
    pub closed spec fn siyaq_s(&self) -> Seq<(u64, Seq<Seq<char>>)> {
        ruyat_siyaq(self.siyaq@)
    }

    /// The identity the next new line gets.
    pub closed spec fn talee_s(&self) -> u64 {
        self.talee
    }

    /// The counters.
    pub closed spec fn ihsaat_s(&self) -> IhsaatTatabbu {
        self.ihsaat
    }

    /// The policy.
    pub closed spec fn siyasa_s(&self) -> SiyasatIstiqrar {
        self.siyasa
    }

    /// Regions are held in increasing order, each once.
    pub open spec fn salima(&self) -> bool {
        mufatah_murattab(self.hayya_s()) && mufatah_murattab(self.siyaq_s())
    }

    /// A region's followed lines, none when it has none.
    pub open spec fn sutur_fi(&self, m: u64) -> Seq<SuraMutatabba> {
        qeema_fi(self.hayya_s(), m, Seq::empty())
    }

    /// A region's settled context, oldest first.
    pub open spec fn halqa_fi(&self, m: u64) -> Seq<Seq<char>> {
        qeema_fi(self.siyaq_s(), m, Seq::empty())
    }

    /// What one region's pass reads and writes.
    pub open spec fn hala_fi(&self, m: u64) -> HalatMintaqaS {
        HalatMintaqaS {
            sutur: self.sutur_fi(m),
            halqa: self.halqa_fi(m),
            talee: self.talee_s(),
            ihsaat: self.ihsaat_s(),
        }
    }

    /// A tracker with the default policy.
    pub fn jadeed() -> (r: Self)
        ensures
            r.salima(),
            r.hayya_s().len() == 0,
            r.siyaq_s().len() == 0,
            r.talee_s() == 1,
            r.ihsaat_s() == (IhsaatTatabbu {
                mulahazat: 0,
                hawiyat: 0,
                tatabuqat: 0,
                numuwwat: 0,
                istiqrarat: 0,
                inhaat: 0,
            }),
            r.siyasa_s() == siyasa_iftiradiya(),
    {
        Self::bi_siyasa(SiyasatIstiqrar::iftiradiya())
    }

    /// A tracker with a policy, following nothing yet; identities start at
    /// one.
    pub fn bi_siyasa(siyasa: SiyasatIstiqrar) -> (r: Self)
        ensures
            r.salima(),
            r.hayya_s().len() == 0,
            r.siyaq_s().len() == 0,
            r.talee_s() == 1,
            r.ihsaat_s() == (IhsaatTatabbu {
                mulahazat: 0,
                hawiyat: 0,
                tatabuqat: 0,
                numuwwat: 0,
                istiqrarat: 0,
                inhaat: 0,
            }),
            r.siyasa_s() == siyasa,
    {
        let r = Mutatabbi {
            siyasa,
            hayya: Vec::new(),
            siyaq: Vec::new(),
            talee: 1,
            ihsaat: IhsaatTatabbu {
                mulahazat: 0,
                hawiyat: 0,
                tatabuqat: 0,
                numuwwat: 0,
                istiqrarat: 0,
                inhaat: 0,
            },
        };
        proof {
            assert(r.hayya_s() =~= Seq::empty());
            assert(r.siyaq_s() =~= Seq::empty());
        }
        r
    }

    /// The policy.
    pub fn siyasa(&self) -> (r: &SiyasatIstiqrar)
        ensures
            *r == self.siyasa_s(),
    {
        &self.siyasa
    }

    /// Replaces the policy; what is followed stays.
    pub fn ayyin_siyasa(&mut self, siyasa: SiyasatIstiqrar)
        ensures
            final(self).siyasa_s() == siyasa,
            final(self).hayya_s() == old(self).hayya_s(),
            final(self).siyaq_s() == old(self).siyaq_s(),
            final(self).talee_s() == old(self).talee_s(),
            final(self).ihsaat_s() == old(self).ihsaat_s(),
    {
        self.siyasa = siyasa;
    }

    /// The counters.
    pub fn ihsaat(&self) -> (r: &IhsaatTatabbu)
        ensures
            *r == self.ihsaat_s(),
    {
        &self.ihsaat
    }

    /// One pass over a region: the readings, white space collapsed and
    /// empty ones dropped, are merged into the lines `azwaj` pairs them with
    /// (line index, reading index, in the order chosen), the rest begin new
    /// lines, unseen lines age and end, the rest settle, and the settled
    /// texts join the region's context. Other regions are untouched.
    pub fn sajjil(
        &mut self,
        mintaqa: MuarrifMintaqa,
        lahza_mikro: u64,
        mulahazat: &[QiraaMulahaza],
        azwaj: &[(usize, usize)],
    ) -> (r: HasilatDawra)
        requires
            old(self).salima(),
            azwaj_fi_hadd(
                azwaj@,
                old(self).sutur_fi(mintaqa.0).len(),
                naqqih_s(suwar_mulahaza(mulahazat@)).len(),
            ),
        ensures
            final(self).salima(),
            (final(self).hala_fi(mintaqa.0), dawra_ruya(r)) == sajjil_s(
                old(self).hala_fi(mintaqa.0),
                mintaqa.0,
                lahza_mikro,
                naqqih_s(suwar_mulahaza(mulahazat@)),
                azwaj@,
                old(self).siyasa_s(),
            ),
            forall|m2: u64|
                m2 != mintaqa.0 ==> #[trigger] final(self).sutur_fi(m2) == old(self).sutur_fi(m2)
                    && final(self).halqa_fi(m2) == old(self).halqa_fi(m2),
            final(self).siyasa_s() == old(self).siyasa_s(),
    {
        let o = naqqih(mulahazat);
        let m = mintaqa.0;
        let ghost hv = self.hayya_s();
        let ghost sv = self.siyaq_s();
        let ghost hq = self.hayya@;
        let ghost sq = self.siyaq@;
        let (k, p) = bahth_hayya(&self.hayya, m);
        let (kr, pr) = bahth_siyaq(&self.siyaq, m);
        let wujid = k < self.hayya.len();
        let wujid_r = kr < self.siyaq.len();
        proof {
            crate::tartib::lemma_awwal_hadd(hv, bi_miftah::<Seq<SuraMutatabba>>(m));
            crate::tartib::lemma_awwal_hadd(sv, bi_miftah::<Seq<Seq<char>>>(m));
        }
        let sutur = if wujid {
            let (_, v) = self.hayya.remove(k);
            v
        } else {
            Vec::new()
        };
        let halqa = if wujid_r {
            let (_, v) = self.siyaq.remove(kr);
            v
        } else {
            Vec::new()
        };
        assert(wujid ==> self.hayya@ == hq.remove(k as int));
        assert(!wujid ==> self.hayya@ == hq);
        assert(wujid_r ==> self.siyaq@ == sq.remove(kr as int));
        assert(!wujid_r ==> self.siyaq@ == sq);
        proof {
            assert(suwar_mutatabba(sutur@) == qeema_fi(hv, m, Seq::empty()));
            assert(suwar_nusus(halqa@) == qeema_fi(sv, m, Seq::empty())) by {
                if !wujid_r {
                    assert(suwar_nusus(halqa@) =~= Seq::<Seq<char>>::empty());
                }
            }
            if !wujid {
                assert(suwar_mutatabba(sutur@) =~= Seq::<SuraMutatabba>::empty());
            }
        }
        let (s2, h2, talee, ih, hasila) = dawra(
            sutur,
            halqa,
            self.talee,
            self.ihsaat,
            mintaqa,
            lahza_mikro,
            &o,
            azwaj,
            self.siyasa,
        );
        self.talee = talee;
        self.ihsaat = ih;
        let ghost e = (m, suwar_mutatabba(s2@));
        let ghost er = (m, suwar_nusus(h2@));
        if wujid {
            self.hayya.insert(k, (mintaqa, s2));
            proof {
                assert(self.hayya@ =~= hq.update(k as int, self.hayya@[k as int]));
                assert(self.hayya_s() =~= hv.update(k as int, (hv[k as int].0, e.1)));
                assert forall|m2: u64| #[trigger] qeema_fi(self.hayya_s(), m2, Seq::empty()) == if m2 == m {
                    e.1
                } else {
                    qeema_fi(hv, m2, Seq::empty())
                } by {
                    lemma_miftah_tahdith(hv, k as int, e.1, Seq::empty(), m2);
                }
                lemma_miftah_tahdith(hv, k as int, e.1, Seq::empty(), m);
            }
        } else {
            self.hayya.insert(p, (mintaqa, s2));
            proof {
                assert(self.hayya@ =~= hq.insert(p as int, self.hayya@[p as int]));
                assert(self.hayya_s() =~= hv.insert(p as int, e));
                assert forall|m2: u64| #[trigger] qeema_fi(self.hayya_s(), m2, Seq::empty()) == if m2 == m {
                    e.1
                } else {
                    qeema_fi(hv, m2, Seq::empty())
                } by {
                    lemma_miftah_idraj(hv, p as int, m, e.1, Seq::empty(), m2);
                }
                lemma_miftah_idraj(hv, p as int, m, e.1, Seq::empty(), m);
            }
        }
        if wujid_r {
            self.siyaq.insert(kr, (mintaqa, h2));
            proof {
                assert(self.siyaq@ =~= sq.update(kr as int, self.siyaq@[kr as int]));
                assert(self.siyaq_s() =~= sv.update(kr as int, (sv[kr as int].0, er.1)));
                assert forall|m2: u64| #[trigger] qeema_fi(self.siyaq_s(), m2, Seq::empty()) == if m2 == m {
                    er.1
                } else {
                    qeema_fi(sv, m2, Seq::empty())
                } by {
                    lemma_miftah_tahdith(sv, kr as int, er.1, Seq::empty(), m2);
                }
                lemma_miftah_tahdith(sv, kr as int, er.1, Seq::empty(), m);
            }
        } else {
            self.siyaq.insert(pr, (mintaqa, h2));
            proof {
                assert(self.siyaq@ =~= sq.insert(pr as int, self.siyaq@[pr as int]));
                assert(self.siyaq_s() =~= sv.insert(pr as int, er));
                assert forall|m2: u64| #[trigger] qeema_fi(self.siyaq_s(), m2, Seq::empty()) == if m2 == m {
                    er.1
                } else {
                    qeema_fi(sv, m2, Seq::empty())
                } by {
                    lemma_miftah_idraj(sv, pr as int, m, er.1, Seq::empty(), m2);
                }
                lemma_miftah_idraj(sv, pr as int, m, er.1, Seq::empty(), m);
            }
        }
        hasila
    }
}

/// Where the first line with identity `id` is: the first region holding
/// one, from `ri` on, and its place there.
pub open spec fn mawqi_muarrif_s(q: Seq<(u64, Seq<SuraMutatabba>)>, id: u64, ri: int) -> Option<(int, int)>
    decreases q.len() - ri,
{
    if ri < 0 || ri >= q.len() {
        None
    } else {
        let j = awwal_s(q[ri].1, bi_muarrif(id));
        if j < q[ri].1.len() {
            Some((ri, j as int))
        } else {
            mawqi_muarrif_s(q, id, ri + 1)
        }
    }
}

/// The test for a line's identity.
pub open spec fn bi_muarrif(id: u64) -> spec_fn(SuraMutatabba) -> bool {
    |x: SuraMutatabba| x.muarrif == id
}

proof fn lemma_mawqi(q: Seq<(u64, Seq<SuraMutatabba>)>, id: u64, ri: int)
    requires
        ri >= 0,
    ensures
        mawqi_muarrif_s(q, id, ri) matches Some((a, b)) ==> (ri <= a < q.len() && 0 <= b < q[a].1.len()
            && q[a].1[b].muarrif == id),
    decreases q.len() - ri,
{
    if ri < q.len() {
        crate::tartib::lemma_awwal_hadd(q[ri].1, bi_muarrif(id));
        lemma_mawqi(q, id, ri + 1);
    }
}

impl Mutatabbi {
    /// A region's followed lines.
    pub fn hayyat_mintaqa(&self, mintaqa: MuarrifMintaqa) -> (r: &[SatrMutatabba])
        requires
            self.salima(),
        ensures
            suwar_mutatabba(r@) == self.sutur_fi(mintaqa.0),
    {
        let (k, _) = bahth_hayya(&self.hayya, mintaqa.0);
        if k < self.hayya.len() {
            self.hayya[k].1.as_slice()
        } else {
            proof {
                assert(suwar_mutatabba(Seq::<SatrMutatabba>::empty()) =~= Seq::<SuraMutatabba>::empty());
            }
            &[]
        }
    }

    /// Every followed line, regions in increasing order.
    pub fn hayya(&self) -> (r: Vec<&SatrMutatabba>)
        ensures
            r@.map_values(|x: &SatrMutatabba| sura_mutatabba(*x)) == kull_sutur(self.hayya_s()),
    {
        let ghost hv = self.hayya_s();
        let mut r: Vec<&SatrMutatabba> = Vec::new();
        let mut ri: usize = 0;
        while ri < self.hayya.len()
            invariant
                ri <= self.hayya@.len(),
                hv == self.hayya_s(),
                r@.map_values(|x: &SatrMutatabba| sura_mutatabba(*x)) == kull_sutur(hv.take(ri as int)),
            decreases self.hayya@.len() - ri,
        {
            let sutur = &self.hayya[ri].1;
            let ghost r0 = r@.map_values(|x: &SatrMutatabba| sura_mutatabba(*x));
            let mut j: usize = 0;
            while j < sutur.len()
                invariant
                    j <= sutur@.len(),
                    r@.map_values(|x: &SatrMutatabba| sura_mutatabba(*x)) == r0 + suwar_mutatabba(sutur@).take(j as int),
                decreases sutur@.len() - j,
            {
                let ghost rq = r@;
                let x = &sutur[j];
                r.push(x);
                proof {
                    assert(r@ == rq.push(x));
                    assert(sura_mutatabba(*x) == suwar_mutatabba(sutur@)[j as int]);
                    assert(r@.map_values(|x: &SatrMutatabba| sura_mutatabba(*x)) =~= rq.map_values(|x: &SatrMutatabba| sura_mutatabba(*x)).push(sura_mutatabba(*x)));
                    assert(r@.map_values(|x: &SatrMutatabba| sura_mutatabba(*x)) =~= r0 + suwar_mutatabba(sutur@).take(j + 1));
                }
                j = j + 1;
            }
            proof {
                assert(hv.take(ri + 1).drop_last() =~= hv.take(ri as int));
                assert(suwar_mutatabba(sutur@).take(sutur@.len() as int) =~= suwar_mutatabba(sutur@));
                assert(hv.take(ri + 1).last() == hv[ri as int]);
            }
            ri = ri + 1;
        }
        proof {
            assert(hv.take(hv.len() as int) =~= hv);
        }
        r
    }

    fn mawqi(&self, muarrif: MuarrifSatr) -> (r: Option<(usize, usize)>)
        ensures
            match r {
                Some((a, b)) => mawqi_muarrif_s(self.hayya_s(), muarrif.0, 0) == Some((a as int, b as int)),
                None => mawqi_muarrif_s(self.hayya_s(), muarrif.0, 0) is None,
            },
    {
        let ghost hv = self.hayya_s();
        let mut ri: usize = 0;
        while ri < self.hayya.len()
            invariant
                ri <= self.hayya@.len(),
                hv == self.hayya_s(),
                mawqi_muarrif_s(hv, muarrif.0, 0) == mawqi_muarrif_s(hv, muarrif.0, ri as int),
            decreases self.hayya@.len() - ri,
        {
            let sutur = &self.hayya[ri].1;
            let mut j: usize = 0;
            while j < sutur.len() && sutur[j].muarrif.0 != muarrif.0
                invariant
                    j <= sutur@.len(),
                    forall|t: int| 0 <= t < j ==> !(bi_muarrif(muarrif.0))(#[trigger] suwar_mutatabba(sutur@)[t]),
                decreases sutur@.len() - j,
            {
                j = j + 1;
            }
            proof {
                crate::tartib::lemma_awwal(suwar_mutatabba(sutur@), bi_muarrif(muarrif.0), j as int);
                assert(hv[ri as int].1 == suwar_mutatabba(sutur@));
            }
            if j < sutur.len() {
                return Some((ri, j));
            }
            ri = ri + 1;
        }
        None
    }

    /// The followed line with an identity, if one is.
    pub fn satr(&self, muarrif: MuarrifSatr) -> (r: Option<&SatrMutatabba>)
        ensures
            match r {
                Some(x) => mawqi_muarrif_s(self.hayya_s(), muarrif.0, 0) matches Some((a, b)) && sura_mutatabba(*x)
                    == self.hayya_s()[a].1[b],
                None => mawqi_muarrif_s(self.hayya_s(), muarrif.0, 0) is None,
            },
    {
        proof {
            lemma_mawqi(self.hayya_s(), muarrif.0, 0);
        }
        match self.mawqi(muarrif) {
            Some((a, b)) => {
                assert(self.hayya_s()[a as int].1 == suwar_mutatabba(self.hayya@[a as int].1@));
                Some(&self.hayya[a].1[b])
            },
            None => None,
        }
    }

    /// Marks a line's translation as sent; false when no line has that
    /// identity.
    pub fn sajjil_irsal(&mut self, muarrif: MuarrifSatr) -> (r: bool)
        requires
            old(self).salima(),
        ensures
            final(self).salima(),
            r == mawqi_muarrif_s(old(self).hayya_s(), muarrif.0, 0) is Some,
            match mawqi_muarrif_s(old(self).hayya_s(), muarrif.0, 0) {
                Some((a, b)) => final(self).hayya_s() == old(self).hayya_s().update(
                    a,
                    (
                        old(self).hayya_s()[a].0,
                        old(self).hayya_s()[a].1.update(b, SuraMutatabba { ursilat: true, ..old(self).hayya_s()[a].1[b] }),
                    ),
                ),
                None => final(self).hayya_s() == old(self).hayya_s(),
            },
            final(self).siyaq_s() == old(self).siyaq_s(),
            final(self).talee_s() == old(self).talee_s(),
            final(self).ihsaat_s() == old(self).ihsaat_s(),
            final(self).siyasa_s() == old(self).siyasa_s(),
    {
        proof {
            lemma_mawqi(self.hayya_s(), muarrif.0, 0);
        }
        match self.mawqi(muarrif) {
            Some((a, b)) => {
                let ghost hq = self.hayya@;
                let ghost hv = self.hayya_s();
                assert(hv[a as int].1 == suwar_mutatabba(hq[a as int].1@));
                let (m, mut v) = self.hayya.remove(a);
                let ghost vq = v@;
                let mut x = v.remove(b);
                x.ursilat = true;
                v.insert(b, x);
                self.hayya.insert(a, (m, v));
                proof {
                    assert(v@ =~= vq.update(b as int, x));
                    assert(suwar_mutatabba(v@) =~= suwar_mutatabba(vq).update(b as int, sura_mutatabba(x)));
                    assert(self.hayya@ =~= hq.update(a as int, (m, v)));
                    assert(self.hayya_s() =~= hv.update(a as int, (hv[a as int].0, suwar_mutatabba(v@))));
                    assert forall|i: int, j: int| 0 <= i < j < self.hayya_s().len() implies (#[trigger] self.hayya_s()[i]).0 < (#[trigger] self.hayya_s()[j]).0 by {
                        assert(self.hayya_s()[i].0 == hv[i].0 && self.hayya_s()[j].0 == hv[j].0);
                    }
                }
                true
            },
            None => false,
        }
    }

    /// A region's settled context, oldest first.
    pub fn siyaq(&self, mintaqa: MuarrifMintaqa) -> (r: Vec<String>)
        requires
            self.salima(),
        ensures
            suwar_nusus(r@) == self.halqa_fi(mintaqa.0),
    {
        let (k, _) = bahth_siyaq(&self.siyaq, mintaqa.0);
        let mut r: Vec<String> = Vec::new();
        if k < self.siyaq.len() {
            let h = &self.siyaq[k].1;
            let mut j: usize = 0;
            while j < h.len()
                invariant
                    j <= h@.len(),
                    suwar_nusus(r@) == suwar_nusus(h@).take(j as int),
                decreases h@.len() - j,
            {
                let ghost rq = r@;
                let t = min_nass(h[j].as_str());
                r.push(t);
                proof {
                    assert(r@ == rq.push(t));
                    assert(t@ == suwar_nusus(h@)[j as int]);
                    assert(suwar_nusus(r@) =~= suwar_nusus(rq).push(t@));
                    assert(suwar_nusus(r@) =~= suwar_nusus(h@).take(j + 1));
                }
                j = j + 1;
            }
            proof {
                assert(suwar_nusus(h@).take(h@.len() as int) =~= suwar_nusus(h@));
            }
        } else {
            proof {
                assert(suwar_nusus(r@) =~= Seq::<Seq<char>>::empty());
            }
        }
        r
    }

    /// The context without its last text when that text is `nass`: what
    /// came before a line, not the line itself.
    pub fn siyaq_duna(&self, mintaqa: MuarrifMintaqa, nass: &str) -> (r: Vec<String>)
        requires
            self.salima(),
        ensures
            suwar_nusus(r@) == if self.halqa_fi(mintaqa.0).len() > 0 && self.halqa_fi(mintaqa.0).last()
                == nass@ {
                self.halqa_fi(mintaqa.0).drop_last()
            } else {
                self.halqa_fi(mintaqa.0)
            },
    {
        let mut r = self.siyaq(mintaqa);
        let n = r.len();
        let nass = min_nass(nass);
        if n > 0 && r[n - 1] == nass {
            let ghost rq = r@;
            let _ = r.pop();
            proof {
                assert(suwar_nusus(r@) =~= suwar_nusus(rq).drop_last());
            }
        } else {
            proof {
                if n > 0 {
                    assert(suwar_nusus(r@).last() == r@[n - 1]@);
                }
            }
        }
        r
    }

    /// Forgets a region: its lines and its context.
    pub fn ansa_mintaqa(&mut self, mintaqa: MuarrifMintaqa)
        requires
            old(self).salima(),
        ensures
            final(self).salima(),
            final(self).sutur_fi(mintaqa.0) == Seq::<SuraMutatabba>::empty(),
            final(self).halqa_fi(mintaqa.0) == Seq::<Seq<char>>::empty(),
            forall|m2: u64|
                m2 != mintaqa.0 ==> #[trigger] final(self).sutur_fi(m2) == old(self).sutur_fi(m2)
                    && final(self).halqa_fi(m2) == old(self).halqa_fi(m2),
            final(self).talee_s() == old(self).talee_s(),
            final(self).ihsaat_s() == old(self).ihsaat_s(),
            final(self).siyasa_s() == old(self).siyasa_s(),
    {
        let m = mintaqa.0;
        let ghost hv = self.hayya_s();
        let ghost sv = self.siyaq_s();
        let ghost hq = self.hayya@;
        let ghost sq = self.siyaq@;
        let (k, _) = bahth_hayya(&self.hayya, m);
        let (kr, _) = bahth_siyaq(&self.siyaq, m);
        proof {
            crate::tartib::lemma_awwal_hadd(hv, bi_miftah::<Seq<SuraMutatabba>>(m));
            crate::tartib::lemma_awwal_hadd(sv, bi_miftah::<Seq<Seq<char>>>(m));
        }
        if k < self.hayya.len() {
            let _ = self.hayya.remove(k);
            proof {
                assert(self.hayya_s() =~= hv.remove(k as int));
                assert forall|m2: u64| #[trigger] qeema_fi(self.hayya_s(), m2, Seq::empty()) == if m2 == m {
                    Seq::<SuraMutatabba>::empty()
                } else {
                    qeema_fi(hv, m2, Seq::empty())
                } by {
                    crate::tartib::lemma_miftah_hadhf(hv, k as int, Seq::empty(), m2);
                }
                crate::tartib::lemma_miftah_hadhf(hv, k as int, Seq::empty(), m);
            }
        }
        if kr < self.siyaq.len() {
            let _ = self.siyaq.remove(kr);
            proof {
                assert(self.siyaq_s() =~= sv.remove(kr as int));
                assert forall|m2: u64| #[trigger] qeema_fi(self.siyaq_s(), m2, Seq::empty()) == if m2 == m {
                    Seq::<Seq<char>>::empty()
                } else {
                    qeema_fi(sv, m2, Seq::empty())
                } by {
                    crate::tartib::lemma_miftah_hadhf(sv, kr as int, Seq::empty(), m2);
                }
                crate::tartib::lemma_miftah_hadhf(sv, kr as int, Seq::empty(), m);
            }
        }
    }

    /// Forgets every region.
    pub fn amsah(&mut self)
        ensures
            final(self).salima(),
            final(self).hayya_s().len() == 0,
            final(self).siyaq_s().len() == 0,
            final(self).talee_s() == old(self).talee_s(),
            final(self).ihsaat_s() == old(self).ihsaat_s(),
            final(self).siyasa_s() == old(self).siyasa_s(),
    {
        self.hayya = Vec::new();
        self.siyaq = Vec::new();
        proof {
            assert(self.hayya_s() =~= Seq::empty());
            assert(self.siyaq_s() =~= Seq::empty());
        }
    }
}

impl Mutatabbi {
    /// A pass over a region whose reading has not changed since the last:
    /// every line it follows is seen again and one reading older, and the
    /// ones that are due settle. A region it does not follow is left alone.
    pub fn thabbit(&mut self, mintaqa: MuarrifMintaqa, lahza_mikro: u64) -> (r: HasilatDawra)
        requires
            old(self).salima(),
        ensures
            final(self).salima(),
            (final(self).hala_fi(mintaqa.0), dawra_ruya(r)) == thabbit_s(
                old(self).hala_fi(mintaqa.0),
                lahza_mikro,
                old(self).siyasa_s(),
            ),
            forall|m2: u64|
                m2 != mintaqa.0 ==> #[trigger] final(self).sutur_fi(m2) == old(self).sutur_fi(m2)
                    && final(self).halqa_fi(m2) == old(self).halqa_fi(m2),
            final(self).siyasa_s() == old(self).siyasa_s(),
    {
        let m = mintaqa.0;
        let ghost hv = self.hayya_s();
        let ghost sv = self.siyaq_s();
        let ghost hq = self.hayya@;
        let ghost sq = self.siyaq@;
        let ghost h0 = self.hala_fi(m);
        let (k, _) = bahth_hayya(&self.hayya, m);
        let (kr, pr) = bahth_siyaq(&self.siyaq, m);
        proof {
            crate::tartib::lemma_awwal_hadd(hv, bi_miftah::<Seq<SuraMutatabba>>(m));
            crate::tartib::lemma_awwal_hadd(sv, bi_miftah::<Seq<Seq<char>>>(m));
        }
        if k >= self.hayya.len() {
            let r = HasilatDawra {
                jadeeda: Vec::new(),
                mustaqirra: Vec::new(),
                namiya: Vec::new(),
                muntahiya: Vec::new(),
            };
            proof {
                let e = Seq::<SuraMutatabba>::empty();
                assert(h0.sutur == e);
                assert(e.map_values(|x: SuraMutatabba| tajdid_s(x, lahza_mikro)) =~= e);
                assert(dawra_ruya(r).jadeeda =~= Seq::<u64>::empty());
                assert(dawra_ruya(r).mustaqirra =~= Seq::<u64>::empty());
                assert(dawra_ruya(r).namiya =~= Seq::<u64>::empty());
                assert(dawra_ruya(r).muntahiya =~= Seq::<SuraMuntahi>::empty());
            }
            return r;
        }
        let wujid_r = kr < self.siyaq.len();
        let (_, mut v) = self.hayya.remove(k);
        let halqa = if wujid_r {
            let (_, h) = self.siyaq.remove(kr);
            h
        } else {
            Vec::new()
        };
        assert(self.hayya@ == hq.remove(k as int));
        assert(kr < sq.len() ==> self.siyaq@ == sq.remove(kr as int));
        assert(kr >= sq.len() ==> self.siyaq@ == sq);
        let ghost s0 = suwar_mutatabba(v@);
        assert(s0 == h0.sutur);
        proof {
            if kr >= sq.len() {
                assert(suwar_nusus(halqa@) =~= Seq::<Seq<char>>::empty());
            }
        }
        let n = v.len();
        let mut j: usize = 0;
        while j < n
            invariant
                j <= n,
                v@.len() == n,
                s0.len() == n,
                forall|t: int| 0 <= t < n ==> #[trigger] suwar_mutatabba(v@)[t] == if t < j {
                    tajdid_s(s0[t], lahza_mikro)
                } else {
                    s0[t]
                },
            decreases n - j,
        {
            let ghost vq = v@;
            assert(suwar_mutatabba(vq)[j as int] == s0[j as int]);
            let mut x = v.remove(j);
            let ghost x0 = sura_mutatabba(x);
            assert(x == vq[j as int]);
            assert(x0 == s0[j as int]);
            x.ghiyab = 0;
            x.akhir_ruya_mikro = lahza_mikro;
            x.marrat = jam32_p(x.marrat, 1);
            if !x.hala.yastahiq_tarjama() {
                x.thabat = jam32_p(x.thabat, 1);
            }
            v.insert(j, x);
            proof {
                assert(sura_mutatabba(x) == tajdid_s(x0, lahza_mikro));
                assert(v@ =~= vq.update(j as int, x));
                assert forall|t: int| 0 <= t < n implies #[trigger] suwar_mutatabba(v@)[t] == if t < j + 1 {
                    tajdid_s(s0[t], lahza_mikro)
                } else {
                    s0[t]
                } by {
                    if t != j {
                        assert(v@[t] == vq[t]);
                        assert(suwar_mutatabba(vq)[t] == (if t < j { tajdid_s(s0[t], lahza_mikro) } else { s0[t] }));
                    }
                }
            }
            j = j + 1;
        }
        proof {
            assert(suwar_mutatabba(v@) =~= s0.map_values(|x: SuraMutatabba| tajdid_s(x, lahza_mikro)));
        }
        let mut mustaqirra: Vec<MuarrifSatr> = Vec::new();
        let mut namiya: Vec<MuarrifSatr> = Vec::new();
        let (v2, nusus) = sakkin(
            v,
            lahza_mikro,
            self.siyasa.marrat_sukun,
            self.siyasa.mudat_sukun_mikro,
            &mut mustaqirra,
            &mut namiya,
        );
        self.ihsaat.tatabuqat = jam64_usize(self.ihsaat.tatabuqat, n);
        self.ihsaat.istiqrarat = jam64_usize(self.ihsaat.istiqrarat, nusus.len());
        let mut halqa = halqa;
        let ghost hl0 = suwar_nusus(halqa@);
        let saa = self.siyasa.saa_siyaq;
        let mut t: usize = 0;
        while t < nusus.len()
            invariant
                t <= nusus@.len(),
                suwar_nusus(halqa@) == halqat_s(hl0, suwar_nusus(nusus@).take(t as int), saa),
            decreases nusus@.len() - t,
        {
            proof {
                assert(suwar_nusus(nusus@).take(t + 1).drop_last() =~= suwar_nusus(nusus@).take(t as int));
            }
            adhif_halqa(&mut halqa, min_nass(nusus[t].as_str()), saa);
            t = t + 1;
        }
        proof {
            assert(suwar_nusus(nusus@).take(nusus@.len() as int) =~= suwar_nusus(nusus@));
            assert(suwar_nusus(nusus@).len() == nusus@.len());
        }
        let ghost e1 = suwar_mutatabba(v2@);
        let ghost er = suwar_nusus(halqa@);
        self.hayya.insert(k, (mintaqa, v2));
        proof {
            assert(self.hayya@ =~= hq.update(k as int, self.hayya@[k as int]));
            assert(self.hayya_s() =~= hv.update(k as int, (hv[k as int].0, e1)));
            assert forall|m2: u64| #[trigger] qeema_fi(self.hayya_s(), m2, Seq::empty()) == if m2 == m {
                e1
            } else {
                qeema_fi(hv, m2, Seq::empty())
            } by {
                lemma_miftah_tahdith(hv, k as int, e1, Seq::empty(), m2);
            }
            lemma_miftah_tahdith(hv, k as int, e1, Seq::empty(), m);
        }
        if wujid_r {
            self.siyaq.insert(kr, (mintaqa, halqa));
            proof {
                assert(self.siyaq@ =~= sq.update(kr as int, self.siyaq@[kr as int]));
                assert(self.siyaq_s() =~= sv.update(kr as int, (sv[kr as int].0, er)));
                assert forall|m2: u64| #[trigger] qeema_fi(self.siyaq_s(), m2, Seq::empty()) == if m2 == m {
                    er
                } else {
                    qeema_fi(sv, m2, Seq::empty())
                } by {
                    lemma_miftah_tahdith(sv, kr as int, er, Seq::empty(), m2);
                }
                lemma_miftah_tahdith(sv, kr as int, er, Seq::empty(), m);
            }
        } else {
            self.siyaq.insert(pr, (mintaqa, halqa));
            proof {
                assert(self.siyaq@ =~= sq.insert(pr as int, self.siyaq@[pr as int]));
                assert(self.siyaq_s() =~= sv.insert(pr as int, (m, er)));
                assert forall|m2: u64| #[trigger] qeema_fi(self.siyaq_s(), m2, Seq::empty()) == if m2 == m {
                    er
                } else {
                    qeema_fi(sv, m2, Seq::empty())
                } by {
                    lemma_miftah_idraj(sv, pr as int, m, er, Seq::empty(), m2);
                }
                lemma_miftah_idraj(sv, pr as int, m, er, Seq::empty(), m);
            }
        }
        let r = HasilatDawra { jadeeda: Vec::new(), mustaqirra, namiya, muntahiya: Vec::new() };
        proof {
            assert(dawra_ruya(r).jadeeda =~= Seq::<u64>::empty());
            assert(dawra_ruya(r).muntahiya =~= Seq::<SuraMuntahi>::empty());
            assert(self.hala_fi(m).sutur == e1);
            assert(self.hala_fi(m).halqa == er);
        }
        r
    }
}

/// Whether a line with this identity is settled.
pub open spec fn mustaqirr_fi(s: Seq<SuraMutatabba>, id: u64) -> bool {
    exists|i: int| 0 <= i < s.len() && (#[trigger] s[i]).muarrif == id && s[i].hala == HalatSatr::Mustaqirr
}

proof fn lemma_sakkin(s: Seq<SuraMutatabba>, lahza: u64, marrat: u32, mudda: u64)
    ensures
        sakkin_s(s, lahza, marrat, mudda).sutur.len() == s.len(),
        forall|i: int| 0 <= i < s.len() ==> (#[trigger] sakkin_s(s, lahza, marrat, mudda).sutur[i]).muarrif
            == s[i].muarrif,
        forall|k: int|
            0 <= k < sakkin_s(s, lahza, marrat, mudda).mustaqirra.len() ==> mustaqirr_fi(
                sakkin_s(s, lahza, marrat, mudda).sutur,
                #[trigger] sakkin_s(s, lahza, marrat, mudda).mustaqirra[k],
            ),
    decreases s.len(),
{
    if s.len() > 0 {
        let p = sakkin_s(s.drop_last(), lahza, marrat, mudda);
        lemma_sakkin(s.drop_last(), lahza, marrat, mudda);
        let r = sakkin_s(s, lahza, marrat, mudda);
        let n = s.len() - 1;
        assert forall|i: int| 0 <= i < s.len() implies (#[trigger] r.sutur[i]).muarrif == s[i].muarrif by {
            if i < n {
                assert(r.sutur[i] == p.sutur[i]);
                assert(s.drop_last()[i] == s[i]);
            }
        }
        assert forall|k: int| 0 <= k < r.mustaqirra.len() implies mustaqirr_fi(
            r.sutur,
            #[trigger] r.mustaqirra[k],
        ) by {
            if k < p.mustaqirra.len() {
                assert(mustaqirr_fi(p.sutur, p.mustaqirra[k]));
                let i = choose|i: int|
                    0 <= i < p.sutur.len() && (#[trigger] p.sutur[i]).muarrif == p.mustaqirra[k]
                        && p.sutur[i].hala == HalatSatr::Mustaqirr;
                assert(r.sutur[i] == p.sutur[i]);
                assert(r.mustaqirra[k] == p.mustaqirra[k]);
            } else {
                assert(r.sutur[n].muarrif == r.mustaqirra[k]);
            }
        }
    }
}

/// A line settles only once it has been read the same way often enough and
/// has stopped changing for long enough: both, not either. Settling keeps
/// every line in its place; a line that was not settled and is settled
/// afterwards had at least `marrat` identical readings and at least `mudda`
/// microseconds since its last change; every text reported as newly settled
/// is such a line's; and every line reported settled either was settled
/// already or is such a line.
pub proof fn qanun_sukun_bi_al_shartayn(s: Seq<SuraMutatabba>, lahza: u64, marrat: u32, mudda: u64)
    ensures
        sakkin_s(s, lahza, marrat, mudda).sutur.len() == s.len(),
        forall|i: int|
            0 <= i < s.len() && s[i].hala != HalatSatr::Mustaqirr && (#[trigger] sakkin_s(
                s,
                lahza,
                marrat,
                mudda,
            ).sutur[i]).hala == HalatSatr::Mustaqirr ==> s[i].thabat >= marrat && (mudda == 0 || lahza
                >= s[i].akhir_taghyeer_mikro + mudda),
        forall|k: int|
            #![trigger sakkin_s(s, lahza, marrat, mudda).istaqarrat[k]]
            0 <= k < sakkin_s(s, lahza, marrat, mudda).istaqarrat.len() ==> exists|i: int|
                0 <= i < s.len() && s[i].hala != HalatSatr::Mustaqirr && (#[trigger] s[i]).nass == sakkin_s(
                    s,
                    lahza,
                    marrat,
                    mudda,
                ).istaqarrat[k] && s[i].thabat >= marrat && (mudda == 0 || lahza >= s[i].akhir_taghyeer_mikro
                    + mudda),
        forall|k: int|
            #![trigger sakkin_s(s, lahza, marrat, mudda).mustaqirra[k]]
            0 <= k < sakkin_s(s, lahza, marrat, mudda).mustaqirra.len() ==> exists|i: int|
                0 <= i < s.len() && (#[trigger] s[i]).muarrif == sakkin_s(s, lahza, marrat, mudda).mustaqirra[k]
                    && (s[i].hala == HalatSatr::Mustaqirr || (s[i].thabat >= marrat && (mudda == 0 || lahza
                    >= s[i].akhir_taghyeer_mikro + mudda))),
    decreases s.len(),
{
    if s.len() > 0 {
        let q = s.drop_last();
        qanun_sukun_bi_al_shartayn(q, lahza, marrat, mudda);
        let p = sakkin_s(q, lahza, marrat, mudda);
        let r = sakkin_s(s, lahza, marrat, mudda);
        let n = s.len() - 1;
        let x = s.last();
        assert(x == s[n]);
        assert forall|i: int|
            0 <= i < s.len() && s[i].hala != HalatSatr::Mustaqirr && (#[trigger] r.sutur[i]).hala
                == HalatSatr::Mustaqirr implies s[i].thabat >= marrat && (mudda == 0 || lahza
            >= s[i].akhir_taghyeer_mikro + mudda) by {
            if i < n {
                assert(r.sutur[i] == p.sutur[i]);
                assert(q[i] == s[i]);
            }
        }
        assert forall|k: int| #![trigger r.istaqarrat[k]] 0 <= k < r.istaqarrat.len() implies exists|i: int|
            0 <= i < s.len() && s[i].hala != HalatSatr::Mustaqirr && (#[trigger] s[i]).nass == r.istaqarrat[k]
                && s[i].thabat >= marrat && (mudda == 0 || lahza >= s[i].akhir_taghyeer_mikro + mudda) by {
            if k < p.istaqarrat.len() {
                assert(r.istaqarrat[k] == p.istaqarrat[k]);
                let i = choose|i: int|
                    0 <= i < q.len() && q[i].hala != HalatSatr::Mustaqirr && (#[trigger] q[i]).nass
                        == p.istaqarrat[k] && q[i].thabat >= marrat && (mudda == 0 || lahza
                        >= q[i].akhir_taghyeer_mikro + mudda);
                assert(q[i] == s[i]);
            } else {
                assert(s[n].nass == r.istaqarrat[k]);
            }
        }
        assert forall|k: int| #![trigger r.mustaqirra[k]] 0 <= k < r.mustaqirra.len() implies exists|i: int|
            0 <= i < s.len() && (#[trigger] s[i]).muarrif == r.mustaqirra[k] && (s[i].hala
                == HalatSatr::Mustaqirr || (s[i].thabat >= marrat && (mudda == 0 || lahza
                >= s[i].akhir_taghyeer_mikro + mudda))) by {
            if k < p.mustaqirra.len() {
                assert(r.mustaqirra[k] == p.mustaqirra[k]);
                let i = choose|i: int|
                    0 <= i < q.len() && (#[trigger] q[i]).muarrif == p.mustaqirra[k] && (q[i].hala
                        == HalatSatr::Mustaqirr || (q[i].thabat >= marrat && (mudda == 0 || lahza
                        >= q[i].akhir_taghyeer_mikro + mudda)));
                assert(q[i] == s[i]);
            } else {
                assert(s[n].muarrif == r.mustaqirra[k]);
            }
        }
    }
}

/// A pass over an unchanged region keeps every line, each under its own
/// identity, begins and ends none, and every line it reports as settled is
/// settled.
pub proof fn qanun_thabbit_yahfaz_al_sutur(h: HalatMintaqaS, lahza: u64, sy: SiyasatIstiqrar)
    ensures
        thabbit_s(h, lahza, sy).0.sutur.len() == h.sutur.len(),
        forall|i: int|
            0 <= i < h.sutur.len() ==> (#[trigger] thabbit_s(h, lahza, sy).0.sutur[i]).muarrif
                == h.sutur[i].muarrif,
        forall|k: int|
            0 <= k < thabbit_s(h, lahza, sy).1.mustaqirra.len() ==> mustaqirr_fi(
                thabbit_s(h, lahza, sy).0.sutur,
                #[trigger] thabbit_s(h, lahza, sy).1.mustaqirra[k],
            ),
        thabbit_s(h, lahza, sy).1.jadeeda.len() == 0,
        thabbit_s(h, lahza, sy).1.muntahiya.len() == 0,
{
    let t = h.sutur.map_values(|x: SuraMutatabba| tajdid_s(x, lahza));
    lemma_sakkin(t, lahza, sy.marrat_sukun, sy.mudat_sukun_mikro);
    assert forall|i: int| 0 <= i < h.sutur.len() implies t[i].muarrif == h.sutur[i].muarrif by {
    }
}

/// Every line a pass reports as settled is settled after the pass, and the
/// lines a pass begins get consecutive identities from the counter on.
pub proof fn qanun_sajjil_mustaqirr(
    h: HalatMintaqaS,
    mintaqa: u64,
    lahza: u64,
    o: Seq<SuraMulahaza>,
    z: Seq<(usize, usize)>,
    sy: SiyasatIstiqrar,
)
    ensures
        forall|k: int|
            0 <= k < sajjil_s(h, mintaqa, lahza, o, z, sy).1.mustaqirra.len() ==> mustaqirr_fi(
                sajjil_s(h, mintaqa, lahza, o, z, sy).0.sutur,
                #[trigger] sajjil_s(h, mintaqa, lahza, o, z, sy).1.mustaqirra[k],
            ),
        forall|k: int|
            0 <= k < sajjil_s(h, mintaqa, lahza, o, z, sy).1.jadeeda.len() ==> #[trigger] sajjil_s(
                h,
                mintaqa,
                lahza,
                o,
                z,
                sy,
            ).1.jadeeda[k] == jam64(h.talee, k as nat),
{
    let (s1, nn) = tabbiq_s(h.sutur, o, z, lahza, sy.adna_bidaya as nat);
    let jd = judud_s(o, z, o.len(), mintaqa, lahza, h.talee);
    let s3 = ammir_s(s1 + jd, z, h.sutur.len());
    let ra = o.len() > 0;
    let s4 = baqi_s(s3, ra, sy.sabr_ghiyab);
    lemma_sakkin(s4, lahza, sy.marrat_sukun, sy.mudat_sukun_mikro);
    lemma_judud(o, z, o.len(), mintaqa, lahza, h.talee);
}

proof fn lemma_judud(o: Seq<SuraMulahaza>, z: Seq<(usize, usize)>, k: nat, mintaqa: u64, lahza: u64, talee: u64)
    ensures
        forall|i: int|
            0 <= i < judud_s(o, z, k, mintaqa, lahza, talee).len() ==> (#[trigger] judud_s(
                o,
                z,
                k,
                mintaqa,
                lahza,
                talee,
            )[i]).muarrif == jam64(talee, i as nat),
    decreases k,
{
    if k > 0 {
        lemma_judud(o, z, (k - 1) as nat, mintaqa, lahza, talee);
        let p = judud_s(o, z, (k - 1) as nat, mintaqa, lahza, talee);
        let r = judud_s(o, z, k, mintaqa, lahza, talee);
        assert forall|i: int| 0 <= i < r.len() implies (#[trigger] r[i]).muarrif == jam64(talee, i as nat) by {
            if i < p.len() {
                assert(r[i] == p[i]);
            }
        }
    }
}

impl Default for Mutatabbi {
    fn default() -> (r: Self)
        ensures
            r.salima(),
            r.hayya_s().len() == 0,
            r.siyaq_s().len() == 0,
            r.talee_s() == 1,
            r.siyasa_s() == siyasa_iftiradiya(),
    {
        Self::jadeed()
    }
}

impl Default for SiyasatIstiqrar {
    fn default() -> (r: Self)
        ensures
            r == siyasa_iftiradiya(),
    {
        Self::iftiradiya()
    }
}

} // verus!
