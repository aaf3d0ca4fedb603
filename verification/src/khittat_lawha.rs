//! What the control panel shows, row by row, before it is measured.
//!
//! Laying the panel out is two jobs. One decides what goes on each page, in
//! which order, in which role, with which words and what pressing it does;
//! that is here. The other hands each request a rectangle from a column
//! that stops when it runs out, in fractions of a surface; that is geometry
//! in floating point and is done where the fractions live. A request says
//! how tall it is, in hundredths of a row, how its width is divided, and
//! whether a full column ends the page there or only leaves that row out.

use vstd::prelude::*;

use crate::lawhat_tahakkum::{
    satr_dhayl_s, satr_hala_s, unwan_amr, unwan_khayt_s, unwan_tarwisa_s, ism_muaddil, ism_ramz,
    watar_salih, Amr, DawrAnsur, HadafAnsur, LawhatTahakkum, SafhatLawha, SatrMintaqa,
};
use crate::manatiq::{satr_mintaqa, unwan_qaida, wasf_qaida, QaidatTarjama};
use crate::mutarjim_mahalli::{huruf, min_huruf, qassim_sutur, sutur};
use crate::nass::{aktub_ashri, ashri, farigh, ilhaq, min_nass, shadhdhib};
use crate::qissa::wasf_arabi_khayt;
use crate::wajiha::{wasf_meezaniya_s, WasfSath};
use crate::sidq::NASS_IFSAH_ARABI;
use crate::sijill_qira::{satr_madkhal, unwan_taqreer, wasf_taqreer, MadkhalQira};

verus! {

/// How a row's width is divided.
#[derive(Debug, Clone, Copy, PartialEq, Eq, Structural)]
pub enum Tawzi {
    /// The whole row.
    Kaamil,
    /// The label of a label-and-value row: its right part.
    Wasm,
    /// The value of a label-and-value row: what the label leaves, on the left.
    Qeema,
    /// The right half.
    NisfYameen,
    /// The left half.
    NisfYasar,
    /// The tab at this place, counted from the right, of a strip of five.
    Lisan(u8),
}

/// One element of a requested row.
#[derive(Debug, Clone, PartialEq)]
pub struct JuzSaf {
    /// Which part of the row it takes.
    pub tawzi: Tawzi,
    /// What it is.
    pub dawr: DawrAnsur,
    /// The text to shape into it, when there is one.
    pub nass: Option<String>,
    /// What pressing it does.
    pub hadaf: HadafAnsur,
}

/// A row asked of the panel's column.
#[derive(Debug, Clone, PartialEq)]
pub struct TalabSaf {
    /// Its height, in hundredths of a row.
    pub irtifaat_mia: u32,
    /// What fills it; nothing for a gap.
    pub ajza: Vec<JuzSaf>,
    /// Whether a full column ends the page here, rather than leaving only
    /// this row out.
    pub yaqif: bool,
}

/// The whole panel: the rows above the page, the page's own rows, and the
/// footer pinned to the bottom, which the page may never push off.
#[derive(Debug, Clone, PartialEq)]
pub struct KhittatLawha {
    /// The title, the state line, the tabs and a rule.
    pub ras: Vec<TalabSaf>,
    /// The current page.
    pub jism: Vec<TalabSaf>,
    /// How to close the panel, one row tall.
    pub dhayl: JuzSaf,
}

/// An element as the contracts speak of it.
pub type SuratJuz = (Tawzi, DawrAnsur, Option<Seq<char>>, HadafAnsur);

/// A row request as the contracts speak of it.
pub type SuratTalab = (u32, Seq<SuratJuz>, bool);

pub open spec fn surat_juz(j: JuzSaf) -> SuratJuz {
    (
        j.tawzi,
        j.dawr,
        match j.nass {
            Some(n) => Some(n@),
            None => None,
        },
        j.hadaf,
    )
}

pub open spec fn surat_talab(t: TalabSaf) -> SuratTalab {
    (t.irtifaat_mia, t.ajza@.map_values(|j: JuzSaf| surat_juz(j)), t.yaqif)
}

pub open spec fn suwar(v: Seq<TalabSaf>) -> Seq<SuratTalab> {
    v.map_values(|t: TalabSaf| surat_talab(t))
}

/// A row of one element across its whole width.
pub open spec fn saf_s(mia: u32, dawr: DawrAnsur, nass: Seq<char>, hadaf: HadafAnsur, yaqif: bool) -> SuratTalab {
    (mia, seq![(Tawzi::Kaamil, dawr, Some(nass), hadaf)], yaqif)
}

/// A quarter-row rule between groups.
pub open spec fn fasil_s() -> SuratTalab {
    (25, seq![(Tawzi::Kaamil, DawrAnsur::Fasil, None, HadafAnsur::LaShay)], false)
}

/// A label on the right and its value on the left.
pub open spec fn thunai_s(wasm: Seq<char>, qeema: Seq<char>) -> SuratTalab {
    (
        100,
        seq![
            (Tawzi::Wasm, DawrAnsur::Wasm, Some(wasm), HadafAnsur::LaShay),
            (Tawzi::Qeema, DawrAnsur::Qeema, Some(qeema), HadafAnsur::LaShay),
        ],
        false,
    )
}

/// Every page, in tab order.
pub open spec fn safahat() -> Seq<SafhatLawha> {
    seq![
        SafhatLawha::Raisiya,
        SafhatLawha::Manatiq,
        SafhatLawha::Sijill,
        SafhatLawha::Meezaniya,
        SafhatLawha::Ifsah,
    ]
}

pub open spec fn unwan_safha_s(s: SafhatLawha) -> Seq<char> {
    match s {
        SafhatLawha::Raisiya => "الرئيسية"@,
        SafhatLawha::Manatiq => "المناطق"@,
        SafhatLawha::Sijill => "السجلّ"@,
        SafhatLawha::Ifsah => "الشرح"@,
        SafhatLawha::Meezaniya => "التكلفة"@,
    }
}

/// The tab at place `k` of the strip, highlighted when it is the page
/// showing.
pub open spec fn lisan_s(hadira: SafhatLawha, k: int) -> SuratJuz {
    let s = safahat()[k];
    (
        Tawzi::Lisan(k as u8),
        if s == hadira {
            DawrAnsur::Ibraz
        } else {
            DawrAnsur::Zir
        },
        Some(unwan_safha_s(s)),
        HadafAnsur::Safha(s),
    )
}

/// The rows above every page: the title, the state line, the tab strip
/// laid right to left, and a rule; none of them ends the page.
pub open spec fn ras_s(l: LawhatTahakkum) -> Seq<SuratTalab> {
    seq![
        saf_s(140, DawrAnsur::Tarwisa, unwan_tarwisa_s(l), HadafAnsur::LaShay, false),
        saf_s(100, DawrAnsur::Qeema, satr_hala_s(l), HadafAnsur::LaShay, false),
        (100, Seq::new(5, |k: int| lisan_s(l.hala_s().safha_s(), k)), false),
        fasil_s(),
    ]
}

/// How many regions are on.
pub open spec fn adad_mumakkana(s: Seq<SatrMintaqa>) -> nat
    decreases s.len(),
{
    if s.len() == 0 {
        0
    } else {
        adad_mumakkana(s.drop_last()) + if s.last().mumakkana {
            1nat
        } else {
            0nat
        }
    }
}

/// A command button's label: the command, and its chord when it has one.
pub open spec fn nass_zir_s(l: LawhatTahakkum, amr: Amr) -> Seq<char> {
    let w = l.ikhtisarat_s().watar_s(amr);
    if watar_salih(w) {
        unwan_amr(amr) + "  ("@ + ism_muaddil(w.muaddilat.0) + ism_ramz(w.miftah.0) + ")"@
    } else {
        unwan_amr(amr)
    }
}

/// Two command buttons side by side, the first on the right; a full column
/// ends the page here.
pub open spec fn zawj_s(l: LawhatTahakkum, awwal: Amr, thani: Amr) -> SuratTalab {
    (
        100,
        seq![
            (Tawzi::NisfYameen, DawrAnsur::Zir, Some(nass_zir_s(l, awwal)), HadafAnsur::Amr(awwal)),
            (Tawzi::NisfYasar, DawrAnsur::Zir, Some(nass_zir_s(l, thani)), HadafAnsur::Amr(thani)),
        ],
        true,
    )
}

/// The main page: six label-and-value rows (regions on out of all, the
/// history's summary, the frame cost and its ceiling, opacity, font size,
/// the recognition worker), the worker's reason when it has stopped, a rule,
/// and the six main commands two to a row.
pub open spec fn raisiya_s(l: LawhatTahakkum) -> Seq<SuratTalab> {
    let m = l.meezaniya_s();
    seq![
        thunai_s(
            "المناطق"@,
            ashri(adad_mumakkana(l.manatiq_s())) + " مفعّلة من "@ + ashri(l.manatiq_s().len()),
        ),
        thunai_s(
            "السجلّ"@,
            match l.taqreer_s() {
                Some(t) => unwan_taqreer(t),
                None => "—"@,
            },
        ),
        thunai_s(
            "تكلفة الإطار"@,
            ashri(m.akhir_mikro as nat) + " ميكروثانية، والسقف "@ + ashri(m.saqf_mikro as nat),
        ),
        thunai_s("العتامة"@, ashri(l.hala_s().ataama_s() as nat) + "٪"@),
        thunai_s("حجم الخط"@, ashri(l.hala_s().miqyas_khat_s() as nat) + "٪"@),
        thunai_s("القراءة"@, unwan_khayt_s(l)),
    ] + (match l.khayt_s() {
        Some(k) => if k is Mutawaqqifa {
            seq![saf_s(200, DawrAnsur::Qeema, wasf_arabi_khayt(k), HadafAnsur::LaShay, false)]
        } else {
            Seq::empty()
        },
        None => Seq::empty(),
    }) + seq![
        fasil_s(),
        zawj_s(l, Amr::Tabdeel, Amr::TarjimAlan),
        zawj_s(l, Amr::TahrirManatiq, Amr::ArdSijill),
        zawj_s(l, Amr::Iqaf, Amr::ArdIfsah),
    ]
}

/// A line of explanation on a page with nothing to list.
pub open spec fn sharh_s(nass: Seq<char>) -> SuratTalab {
    saf_s(100, DawrAnsur::Wasm, nass, HadafAnsur::LaShay, false)
}

/// How many of `n` rows remain past the first `tamreer`.
pub open spec fn baqi_ba3d(n: nat, tamreer: nat) -> nat {
    if n > tamreer {
        (n - tamreer) as nat
    } else {
        0
    }
}

/// One region's row: its summary, in the value colour when it is on.
pub open spec fn saf_mintaqa_s(m: SatrMintaqa) -> SuratTalab {
    saf_s(
        100,
        if m.mumakkana {
            DawrAnsur::Qeema
        } else {
            DawrAnsur::Wasm
        },
        satr_mintaqa(m.ism@, m.qaida, m.mumakkana),
        HadafAnsur::Mintaqa(m.muarrif),
        true,
    )
}

/// The regions page: how to draw one when there is none, otherwise one row
/// per region from the scroll position on.
pub open spec fn safhat_manatiq_s(l: LawhatTahakkum) -> Seq<SuratTalab> {
    let s = l.manatiq_s();
    let t = l.hala_s().tamreer_s() as nat;
    if s.len() == 0 {
        seq![
            sharh_s("لا توجد مناطق بعد."@),
            sharh_s("اسحب بالفأرة فوق الصندوق الذي يظهر فيه النص لرسم منطقة."@),
            sharh_s("اسحب المنطقة لتحريكها، واسحب أحد أركانها لتغيير حجمها."@),
            sharh_s("المنطقة تُحفظ بنسبة من الشاشة، فلا تتأثّر بتغيير الدقّة."@),
        ]
    } else {
        Seq::new(baqi_ba3d(s.len(), t), |i: int| saf_mintaqa_s(s[t + i]))
    }
}

/// One history line: in the value colour once its translation arrived, in
/// the label colour until then.
pub open spec fn saf_madkhal_s(m: MadkhalQira) -> SuratTalab {
    saf_s(
        100,
        if m.arabi is Some {
            DawrAnsur::Qeema
        } else {
            DawrAnsur::Wasm
        },
        satr_madkhal(m),
        HadafAnsur::Madkhal(m.muarrif),
        true,
    )
}

/// The history page: what it will hold when it holds nothing, otherwise one
/// row per line from the scroll position on.
pub open spec fn safhat_sijill_s(l: LawhatTahakkum) -> Seq<SuratTalab> {
    let s = l.sijill_s();
    let t = l.hala_s().tamreer_s() as nat;
    if s.len() == 0 {
        seq![
            sharh_s("لم يُقرأ نصّ بعد في هذه الجلسة."@),
            sharh_s("كلّ سطر يُقرأ ويُترجم يُحفظ هنا حتى تُغلق اللعبة."@),
        ]
    } else {
        Seq::new(baqi_ba3d(s.len(), t), |i: int| saf_madkhal_s(s[t + i]))
    }
}

/// The rules in the order the budget page lists them.
pub open spec fn qawaid() -> Seq<QaidatTarjama> {
    seq![QaidatTarjama::IndaTalab, QaidatTarjama::IndaTaghyeer, QaidatTarjama::Mustamirra]
}

/// A rule's name and what it costs.
pub open spec fn qaida_s(q: QaidatTarjama) -> Seq<SuratTalab> {
    seq![
        saf_s(100, DawrAnsur::Ibraz, unwan_qaida(q), HadafAnsur::LaShay, false),
        saf_s(200, DawrAnsur::Qeema, wasf_qaida(q), HadafAnsur::LaShay, false),
    ]
}

/// The budget page: the frame cost quoted as the budget's own sentence
/// words it, what each rule costs, the history's own account when there is
/// one, and the worker's own sentence when it has said one.
pub open spec fn safhat_meezaniya_s(l: LawhatTahakkum) -> Seq<SuratTalab> {
    seq![
        sharh_s("التكلفة الحقيقية كما تُقاس، بلا تلطيف:"@),
        saf_s(200, DawrAnsur::Qeema, wasf_meezaniya_s(l.meezaniya_s()), HadafAnsur::LaShay, false),
        fasil_s(),
        sharh_s("ما تكلّفه كلّ قاعدة من قواعد المناطق:"@),
    ] + qaida_s(qawaid()[0]) + qaida_s(qawaid()[1]) + qaida_s(qawaid()[2]) + (match l.taqreer_s() {
        Some(t) => seq![fasil_s(), saf_s(150, DawrAnsur::Qeema, wasf_taqreer(t), HadafAnsur::LaShay, false)],
        None => Seq::empty(),
    }) + (match l.khayt_s() {
        Some(k) => seq![
            fasil_s(),
            sharh_s("حالة القراءة:"@),
            saf_s(200, DawrAnsur::Qeema, wasf_arabi_khayt(k), HadafAnsur::LaShay, false),
        ],
        None => Seq::empty(),
    })
}

/// One line of the disclosure: a blank one is half a row of space and
/// nothing else, and a full column ends the page at a written one.
pub open spec fn satr_ifsah_s(satr: Seq<char>) -> SuratTalab {
    if farigh(satr) {
        (50, Seq::empty(), false)
    } else {
        saf_s(100, DawrAnsur::Qeema, satr, HadafAnsur::LaShay, true)
    }
}

/// The disclosure page: the text line by line, exactly as written, from the
/// scroll position on.
pub open spec fn safhat_ifsah_s(l: LawhatTahakkum) -> Seq<SuratTalab> {
    let s = sutur(NASS_IFSAH_ARABI@);
    let t = l.hala_s().tamreer_s() as nat;
    Seq::new(baqi_ba3d(s.len(), t), |i: int| satr_ifsah_s(s[t + i]))
}

/// The current page's rows.
pub open spec fn jism_s(l: LawhatTahakkum) -> Seq<SuratTalab> {
    match l.hala_s().safha_s() {
        SafhatLawha::Raisiya => raisiya_s(l),
        SafhatLawha::Manatiq => safhat_manatiq_s(l),
        SafhatLawha::Sijill => safhat_sijill_s(l),
        SafhatLawha::Meezaniya => safhat_meezaniya_s(l),
        SafhatLawha::Ifsah => safhat_ifsah_s(l),
    }
}

/// The footer: how to close the panel, pressable to close it.
pub open spec fn dhayl_s(l: LawhatTahakkum) -> SuratJuz {
    (Tawzi::Kaamil, DawrAnsur::Wasm, Some(satr_dhayl_s(l)), HadafAnsur::Amr(Amr::Ighlaq))
}

fn juz(tawzi: Tawzi, dawr: DawrAnsur, nass: String, hadaf: HadafAnsur) -> (r: JuzSaf)
    ensures
        surat_juz(r) == (tawzi, dawr, Some(nass@), hadaf),
{
    JuzSaf { tawzi, dawr, nass: Some(nass), hadaf }
}

fn saf(mia: u32, dawr: DawrAnsur, nass: String, hadaf: HadafAnsur, yaqif: bool) -> (r: TalabSaf)
    ensures
        surat_talab(r) == saf_s(mia, dawr, nass@, hadaf, yaqif),
{
    let mut ajza: Vec<JuzSaf> = Vec::new();
    let j = juz(Tawzi::Kaamil, dawr, nass, hadaf);
    ajza.push(j);
    proof {
        assert(ajza@.map_values(|j: JuzSaf| surat_juz(j)) =~= seq![surat_juz(j)]);
    }
    TalabSaf { irtifaat_mia: mia, ajza, yaqif }
}

fn fasil() -> (r: TalabSaf)
    ensures
        surat_talab(r) == fasil_s(),
{
    let mut ajza: Vec<JuzSaf> = Vec::new();
    let j = JuzSaf { tawzi: Tawzi::Kaamil, dawr: DawrAnsur::Fasil, nass: None, hadaf: HadafAnsur::LaShay };
    ajza.push(j);
    proof {
        assert(ajza@.map_values(|j: JuzSaf| surat_juz(j)) =~= seq![surat_juz(j)]);
    }
    TalabSaf { irtifaat_mia: 25, ajza, yaqif: false }
}

fn thunai(wasm: &str, qeema: String) -> (r: TalabSaf)
    ensures
        surat_talab(r) == thunai_s(wasm@, qeema@),
{
    let mut ajza: Vec<JuzSaf> = Vec::new();
    let a = juz(Tawzi::Wasm, DawrAnsur::Wasm, min_nass(wasm), HadafAnsur::LaShay);
    let b = juz(Tawzi::Qeema, DawrAnsur::Qeema, qeema, HadafAnsur::LaShay);
    ajza.push(a);
    ajza.push(b);
    proof {
        assert(ajza@.map_values(|j: JuzSaf| surat_juz(j)) =~= seq![surat_juz(a), surat_juz(b)]);
    }
    TalabSaf { irtifaat_mia: 100, ajza, yaqif: false }
}

fn adif(v: &mut Vec<TalabSaf>, t: TalabSaf)
    ensures
        suwar(final(v)@) == suwar(old(v)@).push(surat_talab(t)),
{
    v.push(t);
    proof {
        assert(suwar(v@) =~= suwar(old(v)@).push(surat_talab(t)));
    }
}

impl LawhatTahakkum {
    fn nass_zir(&self, amr: Amr) -> (r: String)
        requires
            self.salima(),
        ensures
            r@ == nass_zir_s(*self, amr),
    {
        let watar = self.ikhtisarat().watar(amr);
        if watar.salih() {
            let mut r = min_nass(amr.unwan());
            ilhaq(&mut r, "  (");
            ilhaq(&mut r, watar.ism().as_str());
            ilhaq(&mut r, ")");
            r
        } else {
            min_nass(amr.unwan())
        }
    }

    fn zawj(&self, awwal: Amr, thani: Amr) -> (r: TalabSaf)
        requires
            self.salima(),
        ensures
            surat_talab(r) == zawj_s(*self, awwal, thani),
    {
        let mut ajza: Vec<JuzSaf> = Vec::new();
        let a = juz(Tawzi::NisfYameen, DawrAnsur::Zir, self.nass_zir(awwal), HadafAnsur::Amr(awwal));
        let b = juz(Tawzi::NisfYasar, DawrAnsur::Zir, self.nass_zir(thani), HadafAnsur::Amr(thani));
        ajza.push(a);
        ajza.push(b);
        proof {
            assert(ajza@.map_values(|j: JuzSaf| surat_juz(j)) =~= seq![surat_juz(a), surat_juz(b)]);
        }
        TalabSaf { irtifaat_mia: 100, ajza, yaqif: true }
    }

    /// The rows above every page.
    pub fn khittat_ras(&self) -> (r: Vec<TalabSaf>)
        ensures
            suwar(r@) == ras_s(*self),
    {
        let mut r: Vec<TalabSaf> = Vec::new();
        adif(&mut r, saf(140, DawrAnsur::Tarwisa, self.unwan_tarwisa(), HadafAnsur::LaShay, false));
        adif(&mut r, saf(100, DawrAnsur::Qeema, self.satr_hala(), HadafAnsur::LaShay, false));
        let hadira = self.hala().safha();
        let jamee = SafhatLawha::jamee();
        let mut alsina: Vec<JuzSaf> = Vec::new();
        let mut k: usize = 0;
        while k < 5
            invariant
                k <= 5,
                jamee@ == safahat(),
                hadira == self.hala_s().safha_s(),
                alsina@.map_values(|j: JuzSaf| surat_juz(j)) =~= Seq::new(
                    k as nat,
                    |i: int| lisan_s(hadira, i),
                ),
            decreases 5 - k,
        {
            let s = jamee[k];
            let dawr = if s == hadira {
                DawrAnsur::Ibraz
            } else {
                DawrAnsur::Zir
            };
            let j = juz(Tawzi::Lisan(k as u8), dawr, min_nass(s.unwan()), HadafAnsur::Safha(s));
            let ghost qabl = alsina@;
            alsina.push(j);
            proof {
                assert(alsina@.map_values(|j: JuzSaf| surat_juz(j)) =~= qabl.map_values(
                    |j: JuzSaf| surat_juz(j),
                ).push(surat_juz(j)));
                assert(surat_juz(j) == lisan_s(hadira, k as int));
            }
            k = k + 1;
        }
        adif(&mut r, TalabSaf { irtifaat_mia: 100, ajza: alsina, yaqif: false });
        adif(&mut r, fasil());
        proof {
            assert(suwar(r@) =~= ras_s(*self));
        }
        r
    }

    fn adad_mumakkana(&self) -> (r: usize)
        ensures
            r == adad_mumakkana(self.manatiq_s()),
    {
        let s = self.manatiq();
        let mut n: usize = 0;
        let mut i: usize = 0;
        while i < s.len()
            invariant
                s@ == self.manatiq_s(),
                i <= s@.len(),
                n == adad_mumakkana(s@.take(i as int)),
                n <= i,
            decreases s@.len() - i,
        {
            proof {
                assert(s@.take(i + 1).drop_last() =~= s@.take(i as int));
            }
            if s[i].mumakkana {
                n = n + 1;
            }
            i = i + 1;
        }
        proof {
            assert(s@.take(s@.len() as int) =~= s@);
        }
        n
    }

    /// The main page's rows.
    pub fn khittat_raisiya(&self) -> (r: Vec<TalabSaf>)
        requires
            self.salima(),
        ensures
            suwar(r@) == raisiya_s(*self),
    {
        let mut r: Vec<TalabSaf> = Vec::new();
        let mut q = String::new();
        aktub_ashri(&mut q, self.adad_mumakkana() as u64);
        ilhaq(&mut q, " مفعّلة من ");
        aktub_ashri(&mut q, self.manatiq().len() as u64);
        adif(&mut r, thunai("المناطق", q));
        let sijill = match self.taqreer() {
            Some(t) => t.unwan(),
            None => min_nass("—"),
        };
        adif(&mut r, thunai("السجلّ", sijill));
        let m = self.meezaniya();
        let mut q = String::new();
        aktub_ashri(&mut q, m.akhir_mikro);
        ilhaq(&mut q, " ميكروثانية، والسقف ");
        aktub_ashri(&mut q, m.saqf_mikro);
        adif(&mut r, thunai("تكلفة الإطار", q));
        let mut q = String::new();
        aktub_ashri(&mut q, self.hala().ataama() as u64);
        ilhaq(&mut q, "٪");
        adif(&mut r, thunai("العتامة", q));
        let mut q = String::new();
        aktub_ashri(&mut q, self.hala().miqyas_khat() as u64);
        ilhaq(&mut q, "٪");
        adif(&mut r, thunai("حجم الخط", q));
        adif(&mut r, thunai("القراءة", min_nass(self.unwan_khayt())));
        let ghost sitta = suwar(r@);
        match self.khayt() {
            Some(k) => {
                if k.mutawaqqifa() {
                    adif(&mut r, saf(200, DawrAnsur::Qeema, k.wasf_arabi(), HadafAnsur::LaShay, false));
                }
            },
            None => {},
        }
        let ghost ma_qabl = suwar(r@);
        adif(&mut r, fasil());
        adif(&mut r, self.zawj(Amr::Tabdeel, Amr::TarjimAlan));
        adif(&mut r, self.zawj(Amr::TahrirManatiq, Amr::ArdSijill));
        adif(&mut r, self.zawj(Amr::Iqaf, Amr::ArdIfsah));
        proof {
            let s = seq![
                thunai_s(
                    "المناطق"@,
                    ashri(adad_mumakkana(self.manatiq_s())) + " مفعّلة من "@ + ashri(
                        self.manatiq_s().len(),
                    ),
                ),
                thunai_s(
                    "السجلّ"@,
                    match self.taqreer_s() {
                        Some(t) => unwan_taqreer(t),
                        None => "—"@,
                    },
                ),
                thunai_s(
                    "تكلفة الإطار"@,
                    ashri(m.akhir_mikro as nat) + " ميكروثانية، والسقف "@ + ashri(m.saqf_mikro as nat),
                ),
                thunai_s("العتامة"@, ashri(self.hala_s().ataama_s() as nat) + "٪"@),
                thunai_s("حجم الخط"@, ashri(self.hala_s().miqyas_khat_s() as nat) + "٪"@),
                thunai_s("القراءة"@, unwan_khayt_s(*self)),
            ];
            assert(sitta =~= s);
            let w = match self.khayt_s() {
                Some(k) => if k is Mutawaqqifa {
                    seq![saf_s(200, DawrAnsur::Qeema, wasf_arabi_khayt(k), HadafAnsur::LaShay, false)]
                } else {
                    Seq::empty()
                },
                None => Seq::empty(),
            };
            assert(ma_qabl =~= s + w);
            assert(suwar(r@) =~= raisiya_s(*self));
        }
        r
    }

    /// The regions page's rows.
    pub fn khittat_manatiq(&self) -> (r: Vec<TalabSaf>)
        ensures
            suwar(r@) == safhat_manatiq_s(*self),
    {
        let s = self.manatiq();
        let mut r: Vec<TalabSaf> = Vec::new();
        if s.len() == 0 {
            adif(&mut r, saf(100, DawrAnsur::Wasm, min_nass("لا توجد مناطق بعد."), HadafAnsur::LaShay, false));
            adif(
                &mut r,
                saf(
                    100,
                    DawrAnsur::Wasm,
                    min_nass("اسحب بالفأرة فوق الصندوق الذي يظهر فيه النص لرسم منطقة."),
                    HadafAnsur::LaShay,
                    false,
                ),
            );
            adif(
                &mut r,
                saf(
                    100,
                    DawrAnsur::Wasm,
                    min_nass("اسحب المنطقة لتحريكها، واسحب أحد أركانها لتغيير حجمها."),
                    HadafAnsur::LaShay,
                    false,
                ),
            );
            adif(
                &mut r,
                saf(
                    100,
                    DawrAnsur::Wasm,
                    min_nass("المنطقة تُحفظ بنسبة من الشاشة، فلا تتأثّر بتغيير الدقّة."),
                    HadafAnsur::LaShay,
                    false,
                ),
            );
            proof {
                assert(suwar(r@) =~= safhat_manatiq_s(*self));
            }
            return r;
        }
        let t = self.hala().tamreer();
        let mut i: usize = t;
        while i < s.len()
            invariant
                s@ == self.manatiq_s(),
                s@.len() > 0,
                t == self.hala_s().tamreer_s(),
                i >= t,
                t < s@.len() ==> i <= s@.len(),
                t < s@.len() ==> suwar(r@) =~= Seq::new(
                    (i - t) as nat,
                    |k: int| saf_mintaqa_s(s@[t + k]),
                ),
                t >= s@.len() ==> r@.len() == 0,
            decreases s@.len() - i,
        {
            let m = &s[i];
            let dawr = if m.mumakkana {
                DawrAnsur::Qeema
            } else {
                DawrAnsur::Wasm
            };
            let ghost qabl = suwar(r@);
            adif(&mut r, saf(100, dawr, m.nass(), HadafAnsur::Mintaqa(m.muarrif), true));
            proof {
                assert(suwar(r@) =~= Seq::new(
                    (i + 1 - t) as nat,
                    |k: int| saf_mintaqa_s(s@[t + k]),
                ));
            }
            i = i + 1;
        }
        proof {
            assert(suwar(r@) =~= safhat_manatiq_s(*self));
        }
        r
    }

    /// The history page's rows.
    pub fn khittat_sijill(&self) -> (r: Vec<TalabSaf>)
        ensures
            suwar(r@) == safhat_sijill_s(*self),
    {
        let s = self.sijill();
        let mut r: Vec<TalabSaf> = Vec::new();
        if s.len() == 0 {
            adif(
                &mut r,
                saf(100, DawrAnsur::Wasm, min_nass("لم يُقرأ نصّ بعد في هذه الجلسة."), HadafAnsur::LaShay, false),
            );
            adif(
                &mut r,
                saf(
                    100,
                    DawrAnsur::Wasm,
                    min_nass("كلّ سطر يُقرأ ويُترجم يُحفظ هنا حتى تُغلق اللعبة."),
                    HadafAnsur::LaShay,
                    false,
                ),
            );
            proof {
                assert(suwar(r@) =~= safhat_sijill_s(*self));
            }
            return r;
        }
        let t = self.hala().tamreer();
        let mut i: usize = t;
        while i < s.len()
            invariant
                s@ == self.sijill_s(),
                s@.len() > 0,
                t == self.hala_s().tamreer_s(),
                i >= t,
                t < s@.len() ==> i <= s@.len(),
                t < s@.len() ==> suwar(r@) =~= Seq::new(
                    (i - t) as nat,
                    |k: int| saf_madkhal_s(s@[t + k]),
                ),
                t >= s@.len() ==> r@.len() == 0,
            decreases s@.len() - i,
        {
            let m = &s[i];
            let dawr = if m.tarjuma_wasalat() {
                DawrAnsur::Qeema
            } else {
                DawrAnsur::Wasm
            };
            adif(&mut r, saf(100, dawr, m.satr(), HadafAnsur::Madkhal(m.muarrif), true));
            proof {
                assert(suwar(r@) =~= Seq::new(
                    (i + 1 - t) as nat,
                    |k: int| saf_madkhal_s(s@[t + k]),
                ));
            }
            i = i + 1;
        }
        proof {
            assert(suwar(r@) =~= safhat_sijill_s(*self));
        }
        r
    }

    /// The budget page's rows, with the frame cost quoted verbatim.
    pub fn khittat_meezaniya(&self) -> (r: Vec<TalabSaf>)
        ensures
            suwar(r@) == safhat_meezaniya_s(*self),
    {
        let mut r: Vec<TalabSaf> = Vec::new();
        adif(
            &mut r,
            saf(100, DawrAnsur::Wasm, min_nass("التكلفة الحقيقية كما تُقاس، بلا تلطيف:"), HadafAnsur::LaShay, false),
        );
        adif(&mut r, saf(200, DawrAnsur::Qeema, self.meezaniya().wasf(), HadafAnsur::LaShay, false));
        adif(&mut r, fasil());
        adif(
            &mut r,
            saf(100, DawrAnsur::Wasm, min_nass("ما تكلّفه كلّ قاعدة من قواعد المناطق:"), HadafAnsur::LaShay, false),
        );
        let ghost s0 = suwar(r@);
        let jamee = QaidatTarjama::jamee();
        let mut k: usize = 0;
        while k < 3
            invariant
                k <= 3,
                jamee@ == qawaid(),
                s0.len() == 4,
                suwar(r@).len() == 4 + 2 * k,
                suwar(r@).take(4) == s0,
                forall|j: int| 0 <= j < k ==> suwar(r@).subrange(4 + 2 * j, 6 + 2 * j) =~= qaida_s(
                    #[trigger] qawaid()[j],
                ),
            decreases 3 - k,
        {
            let q = jamee[k];
            let ghost qabl = suwar(r@);
            adif(&mut r, saf(100, DawrAnsur::Ibraz, min_nass(q.unwan()), HadafAnsur::LaShay, false));
            adif(&mut r, saf(200, DawrAnsur::Qeema, min_nass(q.wasf()), HadafAnsur::LaShay, false));
            proof {
                assert(suwar(r@).take(4) =~= qabl.take(4));
                assert forall|j: int| 0 <= j < k + 1 implies suwar(r@).subrange(4 + 2 * j, 6 + 2 * j)
                    =~= qaida_s(#[trigger] qawaid()[j]) by {
                    if j < k {
                        assert(suwar(r@).subrange(4 + 2 * j, 6 + 2 * j) =~= qabl.subrange(
                            4 + 2 * j,
                            6 + 2 * j,
                        ));
                    }
                }
            }
            k = k + 1;
        }
        let ghost s1 = suwar(r@);
        proof {
            assert(s1.subrange(4, 6) =~= qaida_s(qawaid()[0]));
            assert(s1.subrange(6, 8) =~= qaida_s(qawaid()[1]));
            assert(s1.subrange(8, 10) =~= qaida_s(qawaid()[2]));
            assert(s1 =~= s0 + qaida_s(qawaid()[0]) + qaida_s(qawaid()[1]) + qaida_s(qawaid()[2]));
        }
        match self.taqreer() {
            Some(t) => {
                adif(&mut r, fasil());
                adif(&mut r, saf(150, DawrAnsur::Qeema, t.wasf(), HadafAnsur::LaShay, false));
            },
            None => {},
        }
        let ghost s2 = suwar(r@);
        match self.khayt() {
            Some(h) => {
                adif(&mut r, fasil());
                adif(&mut r, saf(100, DawrAnsur::Wasm, min_nass("حالة القراءة:"), HadafAnsur::LaShay, false));
                adif(&mut r, saf(200, DawrAnsur::Qeema, h.wasf_arabi(), HadafAnsur::LaShay, false));
            },
            None => {},
        }
        proof {
            let tq = match self.taqreer_s() {
                Some(t) => seq![fasil_s(), saf_s(150, DawrAnsur::Qeema, wasf_taqreer(t), HadafAnsur::LaShay, false)],
                None => Seq::<SuratTalab>::empty(),
            };
            assert(s2 =~= s1 + tq);
            assert(suwar(r@) =~= safhat_meezaniya_s(*self));
        }
        r
    }

    /// The disclosure page's rows.
    pub fn khittat_ifsah(&self) -> (r: Vec<TalabSaf>)
        ensures
            suwar(r@) == safhat_ifsah_s(*self),
    {
        let h = huruf(NASS_IFSAH_ARABI);
        let s = qassim_sutur(&h);
        let ghost l = sutur(NASS_IFSAH_ARABI@);
        let t = self.hala().tamreer();
        let mut r: Vec<TalabSaf> = Vec::new();
        let mut i: usize = t;
        while i < s.len()
            invariant
                s@.len() == l.len(),
                forall|k: int| 0 <= k < s@.len() ==> #[trigger] s@[k]@ == l[k],
                l == sutur(NASS_IFSAH_ARABI@),
                t == self.hala_s().tamreer_s(),
                i >= t,
                t < l.len() ==> i <= l.len(),
                t < l.len() ==> suwar(r@) =~= Seq::new((i - t) as nat, |k: int| satr_ifsah_s(l[t + k])),
                t >= l.len() ==> r@.len() == 0,
            decreases s@.len() - i,
        {
            let satr = &s[i];
            let m = shadhdhib(satr);
            proof {
                crate::nass::lemma_farigh_mushdhab(satr@);
                assert(satr@ == l[i as int]);
            }
            if m.len() == 0 {
                let faragh: Vec<JuzSaf> = Vec::new();
                proof {
                    assert(faragh@.map_values(|j: JuzSaf| surat_juz(j)) =~= Seq::empty());
                }
                adif(&mut r, TalabSaf { irtifaat_mia: 50, ajza: faragh, yaqif: false });
            } else {
                adif(&mut r, saf(100, DawrAnsur::Qeema, min_huruf(satr.as_slice()), HadafAnsur::LaShay, true));
            }
            proof {
                assert(suwar(r@) =~= Seq::new((i + 1 - t) as nat, |k: int| satr_ifsah_s(l[t + k])));
            }
            i = i + 1;
        }
        proof {
            assert(suwar(r@) =~= safhat_ifsah_s(*self));
        }
        r
    }

    /// What the panel shows on a surface, row by row, or nothing when it is
    /// hidden or the surface has no area: the rows above the page, the
    /// page's own rows, and the footer.
    pub fn khitta(&self, sath: WasfSath) -> (r: Option<KhittatLawha>)
        requires
            self.salima(),
        ensures
            !(self.hala_s().zahira_s() && sath.ard > 0 && sath.irtifa > 0) ==> r is None,
            self.hala_s().zahira_s() && sath.ard > 0 && sath.irtifa > 0 ==> (r matches Some(k) && suwar(
                k.ras@,
            ) == ras_s(*self) && suwar(k.jism@) == jism_s(*self) && surat_juz(k.dhayl) == dhayl_s(*self)),
    {
        if sath.ard == 0 || sath.irtifa == 0 || !self.hala().zahira() {
            return None;
        }
        let ras = self.khittat_ras();
        let jism = match self.hala().safha() {
            SafhatLawha::Raisiya => self.khittat_raisiya(),
            SafhatLawha::Manatiq => self.khittat_manatiq(),
            SafhatLawha::Sijill => self.khittat_sijill(),
            SafhatLawha::Meezaniya => self.khittat_meezaniya(),
            SafhatLawha::Ifsah => self.khittat_ifsah(),
        };
        let dhayl = juz(Tawzi::Kaamil, DawrAnsur::Wasm, self.satr_dhayl(), HadafAnsur::Amr(Amr::Ighlaq));
        Some(KhittatLawha { ras, jism, dhayl })
    }
}

/// The history page starts at the scroll position: with a history of `n`
/// lines scrolled by `t`, the page holds one row for each line from the
/// `t`th on, `n - t` rows (none when scrolled past the end), and its `i`th
/// row shows line `t + i` and, pressed, opens that line.
pub proof fn qanun_safhat_al_sijill_min_al_tamreer(l: LawhatTahakkum)
    requires
        l.sijill_s().len() > 0,
    ensures
        ({
            let s = l.sijill_s();
            let t = l.hala_s().tamreer_s() as int;
            let p = safhat_sijill_s(l);
            &&& p.len() == if s.len() > t {
                s.len() - t
            } else {
                0
            }
            &&& forall|i: int|
                0 <= i < p.len() ==> #[trigger] p[i] == saf_madkhal_s(s[t + i]) && p[i].1[0].3
                    == HadafAnsur::Madkhal(s[t + i].muarrif)
        }),
{
}

/// The disclosure page reproduces its text and nothing else: from the scroll
/// position on, each line of the text is one request, a written line
/// carried character for character in the value colour, a blank one left as
/// half a row of space.
pub proof fn qanun_ifsah_harfi(l: LawhatTahakkum, i: int)
    requires
        0 <= i,
        l.hala_s().tamreer_s() + i < sutur(NASS_IFSAH_ARABI@).len(),
    ensures
        ({
            let satr = sutur(NASS_IFSAH_ARABI@)[l.hala_s().tamreer_s() + i];
            let talab = safhat_ifsah_s(l)[i];
            &&& safhat_ifsah_s(l).len() == sutur(NASS_IFSAH_ARABI@).len() - l.hala_s().tamreer_s()
            &&& !farigh(satr) ==> talab == (
                100u32,
                seq![(Tawzi::Kaamil, DawrAnsur::Qeema, Some(satr), HadafAnsur::LaShay)],
                true,
            )
            &&& farigh(satr) ==> talab == (50u32, Seq::<SuratJuz>::empty(), false)
        }),
{
}

} // verus!
