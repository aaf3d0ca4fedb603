//! Regions: where the overlay looks, when it is allowed to look there, and
//! the set of them one game holds.
//!
//! A region's rectangle is kept in coordinates normalized to the surface, so
//! a region drawn at one resolution is still around the same dialogue box at
//! another. Those coordinates are fractions; this library carries the
//! rectangle as an opaque value `R` chosen by its caller, and every decision
//! that depends on its geometry (whether it has any area) is taken where the
//! fractions live and handed in as a `bool`.
//!
//! Changing the set never fails as a machine fails: a refused change is a
//! [`NatijatMintaqa`] the editor shows beside the control the user touched.

use vstd::prelude::*;

use crate::luba::LubaId;
use crate::mutarjim_mahalli::{fahs_mukhattat, fahs_mukhattat_s, natija_json, QeemaJson};
use crate::nass::{
    aktub_ashri, ashri, farigh, ila_saghir, ilhaq, min_nass, muwahhad, mushdhab, qita, saghir_kamil,
    shadhdhib, wahhid_nass,
};

verus! {

/// The one schema version of the region file this build reads and writes.
pub const ISDAR_MANATIQ: u64 = 1;

/// The name the region file's shape goes by.
pub const ISM_MUKHATTAT_MANATIQ: &'static str = "manatiq_luba";

/// What a refusal of the region file for a missing version adds.
pub open spec fn dhayl_haql_manatiq() -> Seq<char> {
    ", so there is no way to tell which shape it is in"@
}

/// What a refusal of the region file for its version adds.
pub open spec fn dhayl_isdar_manatiq() -> Seq<char> {
    "Nothing is guessed at here: a version this build does not know was written by a build that knew more, and reading it anyway would drop every field this one cannot see and then save the file without them."@
}

/// Why a region file for one game is not read for another.
pub open spec fn khabar_luba_s(malaf: LubaId, matlub: LubaId) -> Seq<char> {
    "it holds regions for game "@ + ashri(malaf.0 as nat) + ", and regions for game "@ + ashri(
        matlub.0 as nat,
    ) + " were asked for. Reading it would attach one game's rectangles to another game's screen."@
}

/// Whether a region set read from a file may be used for the game asked
/// for: only when the file says it belongs to that game.
pub fn natija_baad_qiraa(luba_malaf: LubaId, luba: LubaId) -> (r: Result<(), String>)
    ensures
        r is Ok <==> luba_malaf == luba,
        r matches Err(e) ==> e@ == khabar_luba_s(luba_malaf, luba),
{
    if luba_malaf.0 == luba.0 {
        return Ok(());
    }
    let mut e = min_nass("it holds regions for game ");
    aktub_ashri(&mut e, luba_malaf.0);
    ilhaq(&mut e, ", and regions for game ");
    aktub_ashri(&mut e, luba.0);
    ilhaq(&mut e, " were asked for. Reading it would attach one game's rectangles to another game's screen.");
    Err(e)
}

/// The most regions one game may hold.
pub const AQSA_MANATIQ: usize = 64;

/// The longest region name, in characters.
pub const AQSA_TUL_ISM: usize = 64;

/// The fastest any region may be polled, in milliseconds.
pub const ADNA_FASILA_MILLI: u32 = 50;

/// The slowest a region may be polled, in milliseconds.
pub const AQSA_FASILA_MILLI: u32 = 60000;

/// The interval a region with no override of its own is polled at, in
/// milliseconds.
pub const FASILA_IFTIRADIYA_MILLI: u32 = 400;

/// A number clamped into the allowed polling range.
pub open spec fn mahdud_fasila(milli: u32) -> u32 {
    if milli < ADNA_FASILA_MILLI {
        ADNA_FASILA_MILLI
    } else if milli > AQSA_FASILA_MILLI {
        AQSA_FASILA_MILLI
    } else {
        milli
    }
}

/// Clamps a polling interval into the allowed range.
pub fn hudd_fasila(milli: u32) -> (r: u32)
    ensures
        r == mahdud_fasila(milli),
        ADNA_FASILA_MILLI <= r <= AQSA_FASILA_MILLI,
{
    if milli < ADNA_FASILA_MILLI {
        ADNA_FASILA_MILLI
    } else if milli > AQSA_FASILA_MILLI {
        AQSA_FASILA_MILLI
    } else {
        milli
    }
}

/// A region's identity within one game's set: handed out in increasing
/// order and never reused, so the history recorded against it is never
/// attributed to another region.
#[derive(Debug, Clone, Copy, PartialEq, Eq, Hash, Structural)]
pub struct MuarrifMintaqa(pub u64);

/// An identity as the panel writes it: `#` and the number.
pub open spec fn nass_muarrif(m: MuarrifMintaqa) -> Seq<char> {
    "#"@ + ashri(m.0 as nat)
}

impl MuarrifMintaqa {
    /// Wraps an identity read back from disk or from a history entry.
    pub fn min_raqm(raqm: u64) -> (r: Self)
        ensures
            r.0 == raqm,
    {
        MuarrifMintaqa(raqm)
    }

    /// The underlying number.
    pub fn raqm(self) -> (r: u64)
        ensures
            r == self.0,
    {
        self.0
    }

    /// The identity as the panel writes it.
    pub fn nass(self) -> (r: String)
        ensures
            r@ == nass_muarrif(self),
    {
        let mut r = min_nass("#");
        aktub_ashri(&mut r, self.0);
        r
    }
}

/// When a region's contents are read and translated.
#[derive(Debug, Clone, Copy, PartialEq, Eq, Hash, Structural)]
pub enum QaidatTarjama {
    /// Poll on the interval, and translate only when the pixels changed.
    IndaTaghyeer,
    /// Read nothing until the user asks.
    IndaTalab,
    /// Poll on the interval and translate every time, changed or not.
    Mustamirra,
}

pub open spec fn ism_qaida(q: QaidatTarjama) -> Seq<char> {
    match q {
        QaidatTarjama::IndaTaghyeer => "on change"@,
        QaidatTarjama::IndaTalab => "on request"@,
        QaidatTarjama::Mustamirra => "continuous"@,
    }
}

pub open spec fn unwan_qaida(q: QaidatTarjama) -> Seq<char> {
    match q {
        QaidatTarjama::IndaTaghyeer => "عند التغيّر"@,
        QaidatTarjama::IndaTalab => "عند الطلب"@,
        QaidatTarjama::Mustamirra => "مستمرّة"@,
    }
}

pub open spec fn wasf_qaida(q: QaidatTarjama) -> Seq<char> {
    match q {
        QaidatTarjama::IndaTaghyeer => "One capture per interval. The captured pixels are compared against the previous capture and recognition runs only when they differ, so a dialogue box sitting still costs a capture and nothing else."@,
        QaidatTarjama::IndaTalab => "Nothing at all until you press translate-now, then one capture, one recognition pass and one translation. A region on this rule does not appear in the frame budget between requests."@,
        QaidatTarjama::Mustamirra => "The expensive one: a capture, a recognition pass and a translation request every interval, whether the text changed or not, for as long as the game is running. Use it for a region whose pixels change constantly and whose text does not \u{2014} a scrolling combat log \u{2014} and expect it in the frame budget."@,
    }
}

impl QaidatTarjama {
    /// The name used in the region file, in log lines and in the report.
    pub fn ism(self) -> (r: &'static str)
        ensures
            r@ == ism_qaida(self),
    {
        match self {
            QaidatTarjama::IndaTaghyeer => "on change",
            QaidatTarjama::IndaTalab => "on request",
            QaidatTarjama::Mustamirra => "continuous",
        }
    }

    /// The label the in-game panel shows, in Arabic.
    pub fn unwan(self) -> (r: &'static str)
        ensures
            r@ == unwan_qaida(self),
    {
        match self {
            QaidatTarjama::IndaTaghyeer => "عند التغيّر",
            QaidatTarjama::IndaTalab => "عند الطلب",
            QaidatTarjama::Mustamirra => "مستمرّة",
        }
    }

    /// What this rule costs, stated the way the frame budget states its cost.
    pub fn wasf(self) -> (r: &'static str)
        ensures
            r@ == wasf_qaida(self),
    {
        match self {
            QaidatTarjama::IndaTaghyeer => "One capture per interval. The captured pixels are compared against the previous capture and recognition runs only when they differ, so a dialogue box sitting still costs a capture and nothing else.",
            QaidatTarjama::IndaTalab => "Nothing at all until you press translate-now, then one capture, one recognition pass and one translation. A region on this rule does not appear in the frame budget between requests.",
            QaidatTarjama::Mustamirra => "The expensive one: a capture, a recognition pass and a translation request every interval, whether the text changed or not, for as long as the game is running. Use it for a region whose pixels change constantly and whose text does not \u{2014} a scrolling combat log \u{2014} and expect it in the frame budget.",
        }
    }

    /// Whether a scheduler polls this region on a timer at all.
    pub fn ala_muaqqit(self) -> (r: bool)
        ensures
            r == !(self is IndaTalab),
    {
        match self {
            QaidatTarjama::IndaTalab => false,
            _ => true,
        }
    }

    /// Whether recognition runs even when the captured pixels are unchanged.
    pub fn yatajahal_muqarana(self) -> (r: bool)
        ensures
            r == (self is Mustamirra),
    {
        match self {
            QaidatTarjama::Mustamirra => true,
            _ => false,
        }
    }

    /// Every rule, cheapest first, as the panel lists them.
    pub fn jamee() -> (r: [QaidatTarjama; 3])
        ensures
            r@ == seq![QaidatTarjama::IndaTalab, QaidatTarjama::IndaTaghyeer, QaidatTarjama::Mustamirra],
    {
        let r = [QaidatTarjama::IndaTalab, QaidatTarjama::IndaTaghyeer, QaidatTarjama::Mustamirra];
        assert(r@ =~= seq![QaidatTarjama::IndaTalab, QaidatTarjama::IndaTaghyeer, QaidatTarjama::Mustamirra]);
        r
    }
}

/// One region: a rectangle `R`, a rule, and whether it is on.
#[derive(Debug, Clone)]
pub struct Mintaqa<R> {
    /// Stable within this game's set, never reused.
    pub muarrif: MuarrifMintaqa,
    /// What the player called it.
    pub ism: String,
    /// Where it is, in surface-normalized coordinates.
    pub mustatil: R,
    /// When it is read.
    pub qaida: QaidatTarjama,
    /// Whether the scheduler considers it at all.
    pub mumakkana: bool,
    /// A per-region floor on the polling interval, in milliseconds.
    pub fasila_milli: Option<u32>,
}

/// The interval a region is polled at: its own when it has one, the set's
/// otherwise, clamped into the allowed range either way.
pub open spec fn fasila_faaila_s(fasila_milli: Option<u32>, iftiradi: u32) -> u32 {
    mahdud_fasila(
        match fasila_milli {
            Some(q) => q,
            None => iftiradi,
        },
    )
}

/// The one-line summary the panel's region page shows.
pub open spec fn satr_mintaqa(ism: Seq<char>, qaida: QaidatTarjama, mumakkana: bool) -> Seq<char> {
    ism + " — "@ + unwan_qaida(qaida) + " — "@ + if mumakkana {
        "مفعّلة"@
    } else {
        "موقوفة"@
    }
}

impl<R> Mintaqa<R> {
    /// A region with the default rule, enabled, with no interval override.
    pub fn jadeeda(muarrif: MuarrifMintaqa, ism: &str, mustatil: R) -> (r: Self)
        ensures
            r.muarrif == muarrif,
            r.ism@ == ism@,
            r.mustatil == mustatil,
            r.qaida == QaidatTarjama::IndaTaghyeer,
            r.mumakkana,
            r.fasila_milli is None,
    {
        Mintaqa {
            muarrif,
            ism: min_nass(ism),
            mustatil,
            qaida: QaidatTarjama::IndaTaghyeer,
            mumakkana: true,
            fasila_milli: None,
        }
    }

    /// Whether this region is worth capturing: a name with something in it
    /// and a rectangle with area (`mustatil_salih`, the rectangle's own
    /// test).
    pub fn salih(&self, mustatil_salih: bool) -> (r: bool)
        ensures
            r == (!farigh(self.ism@) && mustatil_salih),
    {
        let h = crate::mutarjim_mahalli::huruf(self.ism.as_str());
        let m = shadhdhib(&h);
        proof {
            crate::nass::lemma_farigh_mushdhab(self.ism@);
        }
        m.len() > 0 && mustatil_salih
    }

    /// The interval this region is actually polled at, in milliseconds.
    pub fn fasila_faaila(&self, iftiradi_milli: u32) -> (r: u32)
        ensures
            r == fasila_faaila_s(self.fasila_milli, iftiradi_milli),
    {
        let khaam = match self.fasila_milli {
            Some(q) => q,
            None => iftiradi_milli,
        };
        hudd_fasila(khaam)
    }

    /// Whether a timer-driven scheduler should be looking at this region.
    pub fn ala_muaqqit(&self) -> (r: bool)
        ensures
            r == (self.mumakkana && !(self.qaida is IndaTalab)),
    {
        self.mumakkana && self.qaida.ala_muaqqit()
    }

    /// The one-line summary the panel's region page shows.
    pub fn satr(&self) -> (r: String)
        ensures
            r@ == satr_mintaqa(self.ism@, self.qaida, self.mumakkana),
    {
        let mut r = min_nass(self.ism.as_str());
        ilhaq(&mut r, " — ");
        ilhaq(&mut r, self.qaida.unwan());
        ilhaq(&mut r, " — ");
        if self.mumakkana {
            ilhaq(&mut r, "مفعّلة");
        } else {
            ilhaq(&mut r, "موقوفة");
        }
        r
    }
}

/// A region name in the form two names are compared in: white space runs
/// collapsed to one space, none at either end, and lowercased.
pub open spec fn wahhid_ism_s(ism: Seq<char>) -> Seq<char> {
    saghir_kamil(muwahhad(ism))
}

/// Reduces a region name to the form two names are compared in.
pub fn wahhid_ism(ism: &str) -> (r: String)
    ensures
        r@ == wahhid_ism_s(ism@),
{
    let w = wahhid_nass(ism);
    ila_saghir(w.as_str())
}

/// The answer to a request to change the region set.
#[derive(Debug, Clone, PartialEq, Eq)]
pub enum NatijatMintaqa {
    /// It happened, and this is the region it happened to.
    Tammat(MuarrifMintaqa),
    /// The name was empty or only white space.
    IsmFarigh,
    /// The name was longer than [`AQSA_TUL_ISM`] characters.
    IsmTaweel {
        /// The ceiling that was exceeded.
        saqf: usize,
    },
    /// Another region already has that name.
    IsmMakrur {
        /// Which region holds it.
        sahib: MuarrifMintaqa,
        /// The name, as it was offered, trimmed.
        ism: String,
    },
    /// The rectangle has no area, so it would capture nothing.
    LaMisaha,
    /// The set is already at [`AQSA_MANATIQ`].
    TajawuzSaqf {
        /// The ceiling.
        saqf: usize,
    },
    /// No region in this set has that identity.
    GhayrMawjuda(MuarrifMintaqa),
}

pub open spec fn unwan_natija(r: NatijatMintaqa) -> Seq<char> {
    match r {
        NatijatMintaqa::Tammat(m) => "تمّ ("@ + nass_muarrif(m) + ")."@,
        NatijatMintaqa::IsmFarigh => "لا يمكن ترك اسم المنطقة فارغًا."@,
        NatijatMintaqa::IsmTaweel { saqf } => "اسم المنطقة أطول من "@ + ashri(saqf as nat) + " حرفًا."@,
        NatijatMintaqa::IsmMakrur { sahib, ism } => "الاسم ("@ + ism@ + ") مستعمل بالفعل للمنطقة ("@
            + nass_muarrif(sahib) + ")."@,
        NatijatMintaqa::LaMisaha => "المستطيل بلا مساحة، ولن تُلتقط منه صورة. اسحب مسافة أكبر."@,
        NatijatMintaqa::TajawuzSaqf { saqf } => "بلغ عدد المناطق حدّه الأقصى ("@ + ashri(saqf as nat)
            + ")."@,
        NatijatMintaqa::GhayrMawjuda(m) => "لا توجد منطقة بالمعرّف ("@ + nass_muarrif(m) + ")."@,
    }
}

pub open spec fn wasf_natija(r: NatijatMintaqa) -> Seq<char> {
    match r {
        NatijatMintaqa::Tammat(m) => "applied to region "@ + nass_muarrif(m),
        NatijatMintaqa::IsmFarigh => "a region name cannot be empty"@,
        NatijatMintaqa::IsmTaweel { saqf } => "a region name is at most "@ + ashri(saqf as nat)
            + " characters"@,
        NatijatMintaqa::IsmMakrur { sahib, ism } => "the name "@ + ism@ + " is already held by region "@
            + nass_muarrif(sahib),
        NatijatMintaqa::LaMisaha => "the rectangle has no area and would capture nothing"@,
        NatijatMintaqa::TajawuzSaqf { saqf } => "this game already holds "@ + ashri(saqf as nat)
            + " regions"@,
        NatijatMintaqa::GhayrMawjuda(m) => "no region "@ + nass_muarrif(m) + " is in this set"@,
    }
}

impl NatijatMintaqa {
    /// Whether the change was made.
    pub fn najahat(&self) -> (r: bool)
        ensures
            r == (self is Tammat),
    {
        match self {
            NatijatMintaqa::Tammat(_) => true,
            _ => false,
        }
    }

    /// The region the change applied to, when it applied.
    pub fn muarrif(&self) -> (r: Option<MuarrifMintaqa>)
        ensures
            *self matches NatijatMintaqa::Tammat(m) ==> r == Some(m),
            !(self is Tammat) ==> r is None,
    {
        match self {
            NatijatMintaqa::Tammat(m) => Some(*m),
            _ => None,
        }
    }

    /// The sentence the editor shows beside the control, in Arabic.
    pub fn unwan(&self) -> (r: String)
        ensures
            r@ == unwan_natija(*self),
    {
        match self {
            NatijatMintaqa::Tammat(m) => {
                let mut r = min_nass("تمّ (");
                ilhaq(&mut r, m.nass().as_str());
                ilhaq(&mut r, ").");
                r
            },
            NatijatMintaqa::IsmFarigh => min_nass("لا يمكن ترك اسم المنطقة فارغًا."),
            NatijatMintaqa::IsmTaweel { saqf } => {
                let mut r = min_nass("اسم المنطقة أطول من ");
                aktub_ashri(&mut r, *saqf as u64);
                ilhaq(&mut r, " حرفًا.");
                r
            },
            NatijatMintaqa::IsmMakrur { sahib, ism } => {
                let mut r = min_nass("الاسم (");
                ilhaq(&mut r, ism.as_str());
                ilhaq(&mut r, ") مستعمل بالفعل للمنطقة (");
                ilhaq(&mut r, sahib.nass().as_str());
                ilhaq(&mut r, ").");
                r
            },
            NatijatMintaqa::LaMisaha => min_nass(
                "المستطيل بلا مساحة، ولن تُلتقط منه صورة. اسحب مسافة أكبر.",
            ),
            NatijatMintaqa::TajawuzSaqf { saqf } => {
                let mut r = min_nass("بلغ عدد المناطق حدّه الأقصى (");
                aktub_ashri(&mut r, *saqf as u64);
                ilhaq(&mut r, ").");
                r
            },
            NatijatMintaqa::GhayrMawjuda(m) => {
                let mut r = min_nass("لا توجد منطقة بالمعرّف (");
                ilhaq(&mut r, m.nass().as_str());
                ilhaq(&mut r, ").");
                r
            },
        }
    }

    /// The same sentence in English, for a log line and the report.
    pub fn wasf(&self) -> (r: String)
        ensures
            r@ == wasf_natija(*self),
    {
        match self {
            NatijatMintaqa::Tammat(m) => {
                let mut r = min_nass("applied to region ");
                ilhaq(&mut r, m.nass().as_str());
                r
            },
            NatijatMintaqa::IsmFarigh => min_nass("a region name cannot be empty"),
            NatijatMintaqa::IsmTaweel { saqf } => {
                let mut r = min_nass("a region name is at most ");
                aktub_ashri(&mut r, *saqf as u64);
                ilhaq(&mut r, " characters");
                r
            },
            NatijatMintaqa::IsmMakrur { sahib, ism } => {
                let mut r = min_nass("the name ");
                ilhaq(&mut r, ism.as_str());
                ilhaq(&mut r, " is already held by region ");
                ilhaq(&mut r, sahib.nass().as_str());
                r
            },
            NatijatMintaqa::LaMisaha => min_nass("the rectangle has no area and would capture nothing"),
            NatijatMintaqa::TajawuzSaqf { saqf } => {
                let mut r = min_nass("this game already holds ");
                aktub_ashri(&mut r, *saqf as u64);
                ilhaq(&mut r, " regions");
                r
            },
            NatijatMintaqa::GhayrMawjuda(m) => {
                let mut r = min_nass("no region ");
                ilhaq(&mut r, m.nass().as_str());
                ilhaq(&mut r, " is in this set");
                r
            },
        }
    }
}

/// One of the eight grips on a region's outline.
#[derive(Debug, Clone, Copy, PartialEq, Eq, Hash, Structural)]
pub enum Miqbad {
    /// Top-left corner.
    AalaYasar,
    /// Top edge, centred.
    Aala,
    /// Top-right corner.
    AalaYameen,
    /// Left edge, centred.
    Yasar,
    /// Right edge, centred.
    Yameen,
    /// Bottom-left corner.
    AsfalYasar,
    /// Bottom edge, centred.
    Asfal,
    /// Bottom-right corner.
    AsfalYameen,
}

pub open spec fn ism_miqbad(m: Miqbad) -> Seq<char> {
    match m {
        Miqbad::AalaYasar => "top-left"@,
        Miqbad::Aala => "top"@,
        Miqbad::AalaYameen => "top-right"@,
        Miqbad::Yasar => "left"@,
        Miqbad::Yameen => "right"@,
        Miqbad::AsfalYasar => "bottom-left"@,
        Miqbad::Asfal => "bottom"@,
        Miqbad::AsfalYameen => "bottom-right"@,
    }
}

impl Miqbad {
    /// All eight, the top row first, each row left to right.
    pub fn jamee() -> (r: [Miqbad; 8])
        ensures
            r@ == seq![
                Miqbad::AalaYasar,
                Miqbad::Aala,
                Miqbad::AalaYameen,
                Miqbad::Yasar,
                Miqbad::Yameen,
                Miqbad::AsfalYasar,
                Miqbad::Asfal,
                Miqbad::AsfalYameen,
            ],
    {
        let r = [
            Miqbad::AalaYasar,
            Miqbad::Aala,
            Miqbad::AalaYameen,
            Miqbad::Yasar,
            Miqbad::Yameen,
            Miqbad::AsfalYasar,
            Miqbad::Asfal,
            Miqbad::AsfalYameen,
        ];
        assert(r@ =~= seq![
            Miqbad::AalaYasar,
            Miqbad::Aala,
            Miqbad::AalaYameen,
            Miqbad::Yasar,
            Miqbad::Yameen,
            Miqbad::AsfalYasar,
            Miqbad::Asfal,
            Miqbad::AsfalYameen,
        ]);
        r
    }

    /// The name used in a log line.
    pub fn ism(self) -> (r: &'static str)
        ensures
            r@ == ism_miqbad(self),
    {
        match self {
            Miqbad::AalaYasar => "top-left",
            Miqbad::Aala => "top",
            Miqbad::AalaYameen => "top-right",
            Miqbad::Yasar => "left",
            Miqbad::Yameen => "right",
            Miqbad::AsfalYasar => "bottom-left",
            Miqbad::Asfal => "bottom",
            Miqbad::AsfalYameen => "bottom-right",
        }
    }

    /// Whether dragging this grip moves the left edge.
    pub fn yumsik_yasar(self) -> (r: bool)
        ensures
            r == (self is AalaYasar || self is Yasar || self is AsfalYasar),
    {
        match self {
            Miqbad::AalaYasar | Miqbad::Yasar | Miqbad::AsfalYasar => true,
            _ => false,
        }
    }

    /// Whether dragging this grip moves the right edge.
    pub fn yumsik_yameen(self) -> (r: bool)
        ensures
            r == (self is AalaYameen || self is Yameen || self is AsfalYameen),
    {
        match self {
            Miqbad::AalaYameen | Miqbad::Yameen | Miqbad::AsfalYameen => true,
            _ => false,
        }
    }

    /// Whether dragging this grip moves the top edge.
    pub fn yumsik_aala(self) -> (r: bool)
        ensures
            r == (self is AalaYasar || self is Aala || self is AalaYameen),
    {
        match self {
            Miqbad::AalaYasar | Miqbad::Aala | Miqbad::AalaYameen => true,
            _ => false,
        }
    }

    /// Whether dragging this grip moves the bottom edge.
    pub fn yumsik_asfal(self) -> (r: bool)
        ensures
            r == (self is AsfalYasar || self is Asfal || self is AsfalYameen),
    {
        match self {
            Miqbad::AsfalYasar | Miqbad::Asfal | Miqbad::AsfalYameen => true,
            _ => false,
        }
    }
}

/// What the pointer is over in the region editor.
#[derive(Debug, Clone, Copy, PartialEq, Eq, Structural)]
pub struct IsabatMuharrir {
    /// Which region.
    pub hadaf: MuarrifMintaqa,
    /// Which grip, or nothing for the body.
    pub miqbad: Option<Miqbad>,
}

/// Where the region with identity `m` first stands in `s`, from `i` on.
pub open spec fn mawqi_s<R>(s: Seq<Mintaqa<R>>, m: MuarrifMintaqa, i: nat) -> Option<nat>
    decreases s.len() - i,
{
    if i >= s.len() {
        None
    } else if s[i as int].muarrif == m {
        Some(i)
    } else {
        mawqi_s(s, m, i + 1)
    }
}

/// A region found is where the search says, and none before it matches.
pub proof fn lemma_mawqi<R>(s: Seq<Mintaqa<R>>, m: MuarrifMintaqa, i: nat)
    ensures
        mawqi_s(s, m, i) matches Some(k) ==> i <= k < s.len() && s[k as int].muarrif == m
            && forall|j: int| i <= j < k ==> s[j].muarrif != m,
        mawqi_s(s, m, i) is None ==> forall|j: int| i <= j < s.len() ==> s[j].muarrif != m,
    decreases s.len() - i,
{
    if i < s.len() && s[i as int].muarrif != m {
        lemma_mawqi(s, m, i + 1);
    }
}

/// The first region other than `nafsuha` whose name compares equal to
/// `ism`, searching from `i` on.
pub open spec fn sahib_ism<R>(
    s: Seq<Mintaqa<R>>,
    miftah: Seq<char>,
    nafsuha: Option<MuarrifMintaqa>,
    i: nat,
) -> Option<MuarrifMintaqa>
    decreases s.len() - i,
{
    if i >= s.len() {
        None
    } else if Some(s[i as int].muarrif) != nafsuha && wahhid_ism_s(s[i as int].ism@) == miftah {
        Some(s[i as int].muarrif)
    } else {
        sahib_ism(s, miftah, nafsuha, i + 1)
    }
}

/// Nobody else holds the name: no region but `nafsuha` compares equal.
pub proof fn lemma_sahib_ism<R>(
    s: Seq<Mintaqa<R>>,
    miftah: Seq<char>,
    nafsuha: Option<MuarrifMintaqa>,
    i: nat,
)
    ensures
        sahib_ism(s, miftah, nafsuha, i) is None ==> forall|j: int|
            i <= j < s.len() && Some(s[j].muarrif) != nafsuha ==> wahhid_ism_s(#[trigger] s[j].ism@)
                != miftah,
    decreases s.len() - i,
{
    if i < s.len() {
        lemma_sahib_ism(s, miftah, nafsuha, i + 1);
    }
}

/// Why a proposed name is refused, or nothing when it is usable: empty
/// once trimmed, longer than the ceiling, or held by another region.
pub open spec fn radd_ism<R>(
    s: Seq<Mintaqa<R>>,
    ism: Seq<char>,
    nafsuha: Option<MuarrifMintaqa>,
) -> Option<NatijatMintaqa> {
    let munaqqah = mushdhab(ism);
    if munaqqah.len() == 0 {
        Some(NatijatMintaqa::IsmFarigh)
    } else if munaqqah.len() > AQSA_TUL_ISM {
        Some(NatijatMintaqa::IsmTaweel { saqf: AQSA_TUL_ISM })
    } else {
        match sahib_ism(s, wahhid_ism_s(munaqqah), nafsuha, 0) {
            Some(sahib) => Some(NatijatMintaqa::IsmMakrur { sahib, ism: arbitrary() }),
            None => None,
        }
    }
}

/// A refusal as the contract states it: the same variant and fields, the
/// name of a duplicate compared by its characters.
pub open spec fn nafs_radd(r: NatijatMintaqa, t: NatijatMintaqa, ism: Seq<char>) -> bool {
    match t {
        NatijatMintaqa::IsmMakrur { sahib, .. } => r matches NatijatMintaqa::IsmMakrur { sahib: s, ism: i }
            && s == sahib && i@ == mushdhab(ism),
        _ => r == t,
    }
}

/// One game's regions, in the order the panel lists them and the scheduler
/// visits them, with the next identity to hand out.
pub struct MajmuatManatiq<R> {
    luba: LubaId,
    ism_luba: String,
    manatiq: Vec<Mintaqa<R>>,
    talee: u64,
    fasila_iftiradiya_milli: u32,
    mulahazat: Vec<String>,
}

impl<R> MajmuatManatiq<R> {
    pub closed spec fn luba_s(self) -> LubaId {
        self.luba
    }

    pub closed spec fn ism_luba_s(self) -> Seq<char> {
        self.ism_luba@
    }

    pub closed spec fn manatiq_s(self) -> Seq<Mintaqa<R>> {
        self.manatiq@
    }

    pub closed spec fn talee_s(self) -> u64 {
        self.talee
    }

    pub closed spec fn fasila_s(self) -> u32 {
        self.fasila_iftiradiya_milli
    }

    pub closed spec fn mulahazat_s(self) -> Seq<String> {
        self.mulahazat@
    }

    /// What every change keeps: at most [`AQSA_MANATIQ`] regions, no
    /// identity twice, every name with something in it, every interval and
    /// the default interval in range.
    pub open spec fn salima(self) -> bool {
        let s = self.manatiq_s();
        &&& s.len() <= AQSA_MANATIQ
        &&& forall|i: int, j: int| 0 <= i < j < s.len() ==> s[i].muarrif != s[j].muarrif
        &&& forall|i: int| 0 <= i < s.len() ==> !farigh(#[trigger] s[i].ism@)
        &&& forall|i: int|
            0 <= i < s.len() ==> (#[trigger] s[i].fasila_milli matches Some(f) ==> ADNA_FASILA_MILLI
                <= f <= AQSA_FASILA_MILLI)
        &&& ADNA_FASILA_MILLI <= self.fasila_s() <= AQSA_FASILA_MILLI
    }

    /// Every identity present is below the next one to be handed out, so a
    /// new region never takes an identity a region holds or held.
    pub open spec fn talee_fawq(self) -> bool {
        forall|i: int| 0 <= i < self.manatiq_s().len() ==> (#[trigger] self.manatiq_s()[i]).muarrif.0
            < self.talee_s()
    }

    /// No two regions have names that compare equal.
    pub open spec fn asma_mutafarrida(self) -> bool {
        forall|i: int, j: int|
            0 <= i < j < self.manatiq_s().len() ==> wahhid_ism_s(self.manatiq_s()[i].ism@)
                != wahhid_ism_s(self.manatiq_s()[j].ism@)
    }

    /// Only the regions differ: the game, its name, the next identity and
    /// the default interval are as they were.
    pub open spec fn nafs_al_baqi(self, akhar: Self) -> bool {
        &&& self.luba_s() == akhar.luba_s()
        &&& self.ism_luba_s() == akhar.ism_luba_s()
        &&& self.talee_s() == akhar.talee_s()
        &&& self.fasila_s() == akhar.fasila_s()
        &&& self.mulahazat_s() == akhar.mulahazat_s()
    }

    /// Nothing changed.
    pub open spec fn kama_hiya(self, akhar: Self) -> bool {
        self.nafs_al_baqi(akhar) && self.manatiq_s() == akhar.manatiq_s()
    }

    /// An empty set for a game.
    pub fn jadeeda(luba: LubaId, ism_luba: &str) -> (r: Self)
        ensures
            r.luba_s() == luba,
            r.ism_luba_s() == ism_luba@,
            r.manatiq_s().len() == 0,
            r.talee_s() == 1,
            r.fasila_s() == FASILA_IFTIRADIYA_MILLI,
            r.mulahazat_s().len() == 0,
            r.salima(),
            r.talee_fawq(),
            r.asma_mutafarrida(),
    {
        MajmuatManatiq {
            luba,
            ism_luba: min_nass(ism_luba),
            manatiq: Vec::new(),
            talee: 1,
            fasila_iftiradiya_milli: FASILA_IFTIRADIYA_MILLI,
            mulahazat: Vec::new(),
        }
    }

    /// A set as it was stored, taken as it stands and not yet repaired:
    /// what a file reader hands over before [`MajmuatManatiq::tashih`].
    pub fn min_makhzun(
        luba: LubaId,
        ism_luba: &str,
        manatiq: Vec<Mintaqa<R>>,
        talee: u64,
        fasila_iftiradiya_milli: u32,
    ) -> (r: Self)
        ensures
            r.luba_s() == luba,
            r.ism_luba_s() == ism_luba@,
            r.manatiq_s() == manatiq@,
            r.talee_s() == talee,
            r.fasila_s() == fasila_iftiradiya_milli,
            r.mulahazat_s().len() == 0,
    {
        MajmuatManatiq {
            luba,
            ism_luba: min_nass(ism_luba),
            manatiq,
            talee,
            fasila_iftiradiya_milli,
            mulahazat: Vec::new(),
        }
    }

    /// Which game this set belongs to.
    pub fn luba(&self) -> (r: LubaId)
        ensures
            r == self.luba_s(),
    {
        self.luba
    }

    /// The game's display name.
    pub fn ism_luba(&self) -> (r: &str)
        ensures
            r@ == self.ism_luba_s(),
    {
        self.ism_luba.as_str()
    }

    /// Every region, in order.
    pub fn manatiq(&self) -> (r: &Vec<Mintaqa<R>>)
        ensures
            r@ == self.manatiq_s(),
    {
        &self.manatiq
    }

    /// The next identity a new region will get.
    pub fn talee(&self) -> (r: u64)
        ensures
            r == self.talee_s(),
    {
        self.talee
    }

    /// How many regions this set holds.
    pub fn adad(&self) -> (r: usize)
        ensures
            r == self.manatiq_s().len(),
    {
        self.manatiq.len()
    }

    /// Whether the set holds nothing.
    pub fn khaliya(&self) -> (r: bool)
        ensures
            r == (self.manatiq_s().len() == 0),
    {
        self.manatiq.len() == 0
    }

    /// The regions a scheduler should be polling right now, in order.
    pub fn ala_muaqqit(&self) -> (r: Vec<&Mintaqa<R>>)
        ensures
            r@.map_values(|x: &Mintaqa<R>| *x) == self.manatiq_s().filter(|m: Mintaqa<R>| m.mumakkana && !(m.qaida is IndaTalab)),
    {
        let mut r: Vec<&Mintaqa<R>> = Vec::new();
        let mut i: usize = 0;
        while i < self.manatiq.len()
            invariant
                i <= self.manatiq@.len(),
                r@.map_values(|x: &Mintaqa<R>| *x) == self.manatiq@.take(i as int).filter(
                    |m: Mintaqa<R>| m.mumakkana && !(m.qaida is IndaTalab),
                ),
            decreases self.manatiq@.len() - i,
        {
            let m = &self.manatiq[i];
            proof {
                assert(self.manatiq@.take(i + 1).drop_last() =~= self.manatiq@.take(i as int));
                reveal(Seq::filter);
            }
            if m.ala_muaqqit() {
                r.push(m);
            }
            i = i + 1;
        }
        proof {
            assert(self.manatiq@.take(self.manatiq@.len() as int) =~= self.manatiq@);
        }
        r
    }

    /// The regions that are enabled, whatever their rule, in order.
    pub fn mumakkana(&self) -> (r: Vec<&Mintaqa<R>>)
        ensures
            r@.map_values(|x: &Mintaqa<R>| *x) == self.manatiq_s().filter(|m: Mintaqa<R>| m.mumakkana),
    {
        let mut r: Vec<&Mintaqa<R>> = Vec::new();
        let mut i: usize = 0;
        while i < self.manatiq.len()
            invariant
                i <= self.manatiq@.len(),
                r@.map_values(|x: &Mintaqa<R>| *x) == self.manatiq@.take(i as int).filter(|m: Mintaqa<R>| m.mumakkana),
            decreases self.manatiq@.len() - i,
        {
            let m = &self.manatiq[i];
            proof {
                assert(self.manatiq@.take(i + 1).drop_last() =~= self.manatiq@.take(i as int));
                reveal(Seq::filter);
            }
            if m.mumakkana {
                r.push(m);
            }
            i = i + 1;
        }
        proof {
            assert(self.manatiq@.take(self.manatiq@.len() as int) =~= self.manatiq@);
        }
        r
    }

    /// Where a region sits in the list.
    pub fn mawqi(&self, muarrif: MuarrifMintaqa) -> (r: Option<usize>)
        ensures
            r matches Some(k) ==> mawqi_s(self.manatiq_s(), muarrif, 0) == Some(k as nat),
            r is None ==> mawqi_s(self.manatiq_s(), muarrif, 0) is None,
    {
        let mut i: usize = 0;
        while i < self.manatiq.len()
            invariant
                i <= self.manatiq@.len(),
                mawqi_s(self.manatiq@, muarrif, 0) == mawqi_s(self.manatiq@, muarrif, i as nat),
            decreases self.manatiq@.len() - i,
        {
            if self.manatiq[i].muarrif.0 == muarrif.0 {
                return Some(i);
            }
            i = i + 1;
        }
        None
    }

    /// One region by identity.
    pub fn mintaqa(&self, muarrif: MuarrifMintaqa) -> (r: Option<&Mintaqa<R>>)
        ensures
            mawqi_s(self.manatiq_s(), muarrif, 0) matches Some(k) ==> r == Some(
                &self.manatiq_s()[k as int],
            ),
            mawqi_s(self.manatiq_s(), muarrif, 0) is None ==> r is None,
    {
        proof {
            lemma_mawqi(self.manatiq@, muarrif, 0);
        }
        match self.mawqi(muarrif) {
            Some(k) => Some(&self.manatiq[k]),
            None => None,
        }
    }

    /// The interval a region with no override is polled at.
    pub fn fasila_iftiradiya_milli(&self) -> (r: u32)
        ensures
            r == self.fasila_s(),
    {
        self.fasila_iftiradiya_milli
    }

    /// Changes the set's default interval, clamped into the allowed range.
    pub fn ihdud_fasila(&mut self, milli: u32)
        ensures
            final(self).fasila_s() == mahdud_fasila(milli),
            final(self).luba_s() == old(self).luba_s(),
            final(self).ism_luba_s() == old(self).ism_luba_s(),
            final(self).talee_s() == old(self).talee_s(),
            final(self).manatiq_s() == old(self).manatiq_s(),
            final(self).mulahazat_s() == old(self).mulahazat_s(),
            old(self).salima() ==> final(self).salima(),
    {
        self.fasila_iftiradiya_milli = hudd_fasila(milli);
    }

    /// What was repaired the last time this set was read.
    pub fn mulahazat(&self) -> (r: &Vec<String>)
        ensures
            r@ == self.mulahazat_s(),
    {
        &self.mulahazat
    }

    /// Checks a proposed name, ignoring the region it is being applied to;
    /// nothing when the name is usable.
    /// Whether some region already holds a name that compares equal to
    /// `ism`.
    pub fn ism_mahjuz(&self, ism: &str) -> (r: bool)
        ensures
            r == (sahib_ism(self.manatiq_s(), wahhid_ism_s(ism@), None, 0) is Some),
    {
        let miftah = wahhid_ism(ism);
        let miftah_h = crate::mutarjim_mahalli::huruf(miftah.as_str());
        let mut i: usize = 0;
        while i < self.manatiq.len()
            invariant
                i <= self.manatiq@.len(),
                miftah_h@ == wahhid_ism_s(ism@),
                sahib_ism(self.manatiq@, miftah_h@, None, 0) == sahib_ism(
                    self.manatiq@,
                    miftah_h@,
                    None,
                    i as nat,
                ),
            decreases self.manatiq@.len() - i,
        {
            let m = &self.manatiq[i];
            let w = wahhid_ism(m.ism.as_str());
            let wh = crate::mutarjim_mahalli::huruf(w.as_str());
            if crate::nass::sawa(&wh, &miftah_h) {
                return true;
            }
            i = i + 1;
        }
        false
    }

    fn tahaqquq_ism(&self, ism: &str, nafsuha: Option<MuarrifMintaqa>) -> (r: Option<NatijatMintaqa>)
        ensures
            r is None <==> radd_ism(self.manatiq_s(), ism@, nafsuha) is None,
            r matches Some(x) ==> radd_ism(self.manatiq_s(), ism@, nafsuha) matches Some(t)
                && nafs_radd(x, t, ism@),
    {
        let huruf_ism = crate::mutarjim_mahalli::huruf(ism);
        let munaqqah = shadhdhib(&huruf_ism);
        if munaqqah.len() == 0 {
            return Some(NatijatMintaqa::IsmFarigh);
        }
        if munaqqah.len() > AQSA_TUL_ISM {
            return Some(NatijatMintaqa::IsmTaweel { saqf: AQSA_TUL_ISM });
        }
        let munaqqah_s = crate::mutarjim_mahalli::min_huruf(munaqqah.as_slice());
        let miftah = wahhid_ism(munaqqah_s.as_str());
        let miftah_h = crate::mutarjim_mahalli::huruf(miftah.as_str());
        let mut i: usize = 0;
        while i < self.manatiq.len()
            invariant
                i <= self.manatiq@.len(),
                miftah_h@ == wahhid_ism_s(mushdhab(ism@)),
                munaqqah_s@ == mushdhab(ism@),
                0 < mushdhab(ism@).len() <= AQSA_TUL_ISM,
                sahib_ism(self.manatiq@, miftah_h@, nafsuha, 0) == sahib_ism(
                    self.manatiq@,
                    miftah_h@,
                    nafsuha,
                    i as nat,
                ),
            decreases self.manatiq@.len() - i,
        {
            let m = &self.manatiq[i];
            let nafs = match nafsuha {
                Some(n) => n.0 == m.muarrif.0,
                None => false,
            };
            if !nafs {
                let w = wahhid_ism(m.ism.as_str());
                let wh = crate::mutarjim_mahalli::huruf(w.as_str());
                if crate::nass::sawa(&wh, &miftah_h) {
                    return Some(NatijatMintaqa::IsmMakrur { sahib: m.muarrif, ism: munaqqah_s });
                }
            }
            i = i + 1;
        }
        None
    }
}

/// A name trimmed to something keeps something in it.
pub proof fn lemma_mushdhab_ghayr_farigh(s: Seq<char>)
    ensures
        mushdhab(s).len() > 0 ==> !farigh(mushdhab(s)) && !crate::nass::faragh(mushdhab(s)[0]),
{
    crate::nass::lemma_faragh_awwal(s);
    let fa = crate::nass::faragh_awwal(s);
    let baqi = s.subrange(fa as int, s.len() as int);
    crate::nass::lemma_faragh_akhir(baqi);
    if mushdhab(s).len() > 0 {
        assert(mushdhab(s)[0] == baqi[0]);
        assert(baqi[0] == s[fa as int]);
    }
}

/// Outside position `k` the regions are as they were, and there are as
/// many.
pub open spec fn illa_fi<R>(jadid: Seq<Mintaqa<R>>, qadim: Seq<Mintaqa<R>>, k: int) -> bool {
    &&& jadid.len() == qadim.len()
    &&& 0 <= k < qadim.len()
    &&& forall|j: int| 0 <= j < qadim.len() && j != k ==> jadid[j] == qadim[j]
    &&& jadid[k].muarrif == qadim[k].muarrif
}

impl<R> MajmuatManatiq<R> {
    /// Replaces the region at `k`, keeping everything else.
    fn baddil(&mut self, k: usize, m: Mintaqa<R>)
        requires
            k < old(self).manatiq_s().len(),
        ensures
            final(self).manatiq_s() == old(self).manatiq_s().update(k as int, m),
            final(self).nafs_al_baqi(*old(self)),
    {
        let _ = self.manatiq.remove(k);
        self.manatiq.insert(k, m);
        proof {
            assert(self.manatiq@ =~= old(self).manatiq@.update(k as int, m));
        }
    }

    /// What adding a region does: a full set refused, then a name that is
    /// empty, too long or taken, then a rectangle with no area; otherwise
    /// the region is appended under the next identity, with its name trimmed,
    /// the rule given, enabled and with no interval of its own.
    pub open spec fn adif_s(
        self,
        baad: Self,
        r: NatijatMintaqa,
        ism: Seq<char>,
        mustatil: R,
        lahu_misaha: bool,
        qaida: QaidatTarjama,
    ) -> bool {
        if self.manatiq_s().len() >= AQSA_MANATIQ {
            r == (NatijatMintaqa::TajawuzSaqf { saqf: AQSA_MANATIQ }) && baad.kama_hiya(self)
        } else {
            match radd_ism(self.manatiq_s(), ism, None) {
                Some(t) => nafs_radd(r, t, ism) && baad.kama_hiya(self),
                None => if !lahu_misaha {
                    r == NatijatMintaqa::LaMisaha && baad.kama_hiya(self)
                } else {
                    let m = baad.manatiq_s().last();
                    &&& r == NatijatMintaqa::Tammat(MuarrifMintaqa(self.talee_s()))
                    &&& baad.manatiq_s().drop_last() == self.manatiq_s()
                    &&& baad.manatiq_s().len() == self.manatiq_s().len() + 1
                    &&& m.muarrif == MuarrifMintaqa(self.talee_s())
                    &&& m.ism@ == mushdhab(ism)
                    &&& m.mustatil == mustatil
                    &&& m.qaida == qaida
                    &&& m.mumakkana
                    &&& m.fasila_milli is None
                    &&& baad.talee_s() == if self.talee_s() < u64::MAX {
                        (self.talee_s() + 1) as u64
                    } else {
                        self.talee_s()
                    }
                    &&& baad.luba_s() == self.luba_s()
                    &&& baad.ism_luba_s() == self.ism_luba_s()
                    &&& baad.fasila_s() == self.fasila_s()
                    &&& baad.mulahazat_s() == self.mulahazat_s()
                },
            }
        }
    }

    /// Adds a region, refusing a full set, a name that is empty, too long or
    /// taken, and a rectangle with no area (`lahu_misaha` is the
    /// rectangle's own test).
    pub fn adif(&mut self, ism: &str, mustatil: R, lahu_misaha: bool, qaida: QaidatTarjama) -> (r:
        NatijatMintaqa)
        ensures
            old(self).adif_s(*final(self), r, ism@, mustatil, lahu_misaha, qaida),
            old(self).salima() && old(self).talee_fawq() ==> final(self).salima(),
            old(self).talee_fawq() && old(self).talee_s() < u64::MAX ==> final(self).talee_fawq(),
            old(self).asma_mutafarrida() ==> final(self).asma_mutafarrida(),
    {
        if self.manatiq.len() >= AQSA_MANATIQ {
            return NatijatMintaqa::TajawuzSaqf { saqf: AQSA_MANATIQ };
        }
        if let Some(radd) = self.tahaqquq_ism(ism, None) {
            return radd;
        }
        if !lahu_misaha {
            return NatijatMintaqa::LaMisaha;
        }
        let muarrif = MuarrifMintaqa(self.talee);
        self.talee = if self.talee < u64::MAX {
            self.talee + 1
        } else {
            self.talee
        };
        let h = crate::mutarjim_mahalli::huruf(ism);
        let munaqqah = crate::mutarjim_mahalli::min_huruf(shadhdhib(&h).as_slice());
        let mut mintaqa = Mintaqa::jadeeda(muarrif, munaqqah.as_str(), mustatil);
        mintaqa.qaida = qaida;
        proof {
            lemma_mushdhab_ghayr_farigh(ism@);
            lemma_sahib_ism(old(self).manatiq@, wahhid_ism_s(mushdhab(ism@)), None, 0);
        }
        self.manatiq.push(mintaqa);
        proof {
            let q = old(self).manatiq@;
            assert(self.manatiq@.drop_last() =~= q);
            assert forall|a: int| 0 <= a < self.manatiq@.len() - 1 implies self.manatiq@[a] == q[a] by {}
            if old(self).talee_fawq() && old(self).talee < u64::MAX {
                assert forall|a: int| 0 <= a < self.manatiq@.len() implies (
                #[trigger] self.manatiq@[a]).muarrif.0 < self.talee by {
                    if a < q.len() {
                        assert(self.manatiq@[a] == q[a]);
                    }
                }
            }
        }
        NatijatMintaqa::Tammat(muarrif)
    }

    /// What removing a region does: it leaves the list where it stood, or
    /// the set is unchanged and says no such region is in it.
    pub open spec fn ihdhif_s(self, baad: Self, r: NatijatMintaqa, muarrif: MuarrifMintaqa) -> bool {
        match mawqi_s(self.manatiq_s(), muarrif, 0) {
            Some(k) => r == NatijatMintaqa::Tammat(muarrif) && baad.manatiq_s()
                == self.manatiq_s().remove(k as int) && baad.nafs_al_baqi(self),
            None => r == NatijatMintaqa::GhayrMawjuda(muarrif) && baad.kama_hiya(self),
        }
    }

    /// Removes a region. Its identity is not handed out again.
    pub fn ihdhif(&mut self, muarrif: MuarrifMintaqa) -> (r: NatijatMintaqa)
        ensures
            old(self).ihdhif_s(*final(self), r, muarrif),
            old(self).salima() ==> final(self).salima(),
            old(self).talee_fawq() ==> final(self).talee_fawq(),
            old(self).asma_mutafarrida() ==> final(self).asma_mutafarrida(),
    {
        match self.mawqi(muarrif) {
            Some(k) => {
                proof {
                    lemma_mawqi(self.manatiq@, muarrif, 0);
                }
                let _ = self.manatiq.remove(k);
                proof {
                    let q = old(self).manatiq@;
                    let j = self.manatiq@;
                    q.remove_ensures(k as int);
                    assert forall|a: int| 0 <= a < j.len() implies #[trigger] j[a] == q[if a < k {
                        a
                    } else {
                        a + 1
                    }] by {}
                    assert forall|a: int| 0 <= a < j.len() implies (#[trigger] j[a]).muarrif.0
                        < old(self).talee_s() || !old(self).talee_fawq() by {
                        let qa = if a < k { a } else { a + 1 };
                        assert(j[a] == q[qa]);
                    }
                    assert forall|a: int| 0 <= a < j.len() implies !farigh(#[trigger] j[a].ism@)
                        || !old(self).salima() by {
                        let qa = if a < k { a } else { a + 1 };
                        assert(j[a] == q[qa]);
                    }
                    assert forall|a: int| 0 <= a < j.len() implies (#[trigger] j[a].fasila_milli matches Some(f) ==> ADNA_FASILA_MILLI
                <= f <= AQSA_FASILA_MILLI) || !old(self).salima() by {
                        let qa = if a < k { a } else { a + 1 };
                        assert(j[a] == q[qa]);
                    }
                    if old(self).salima() {
                        assert forall|a: int, b: int| 0 <= a < b < j.len() implies j[a].muarrif
                            != j[b].muarrif by {
                            let qa = if a < k { a } else { a + 1 };
                            let qb = if b < k { b } else { b + 1 };
                            assert(j[a] == q[qa] && j[b] == q[qb]);
                        }
                    }
                    if old(self).asma_mutafarrida() {
                        assert forall|a: int, b: int| 0 <= a < b < j.len() implies wahhid_ism_s(
                            j[a].ism@,
                        ) != wahhid_ism_s(j[b].ism@) by {
                            let qa = if a < k { a } else { a + 1 };
                            let qb = if b < k { b } else { b + 1 };
                            assert(j[a] == q[qa] && j[b] == q[qb]);
                        }
                    }
                }
                NatijatMintaqa::Tammat(muarrif)
            },
            None => NatijatMintaqa::GhayrMawjuda(muarrif),
        }
    }
}

/// Where the region at `a` after a move from `min` to `hadaf` stood before.
pub open spec fn asl_naql(min: int, hadaf: int, a: int) -> int {
    if a == hadaf {
        min
    } else {
        let b = if a < hadaf {
            a
        } else {
            a - 1
        };
        if b < min {
            b
        } else {
            b + 1
        }
    }
}

/// Moving one region leaves every region where `asl_naql` says, and no two
/// places come from one.
pub proof fn lemma_naql<R>(s: Seq<Mintaqa<R>>, min: int, hadaf: int)
    requires
        0 <= min < s.len(),
        0 <= hadaf < s.len(),
    ensures
        s.remove(min).insert(hadaf, s[min]).len() == s.len(),
        forall|a: int|
            0 <= a < s.len() ==> 0 <= asl_naql(min, hadaf, a) < s.len() && #[trigger] s.remove(
                min,
            ).insert(hadaf, s[min])[a] == s[asl_naql(min, hadaf, a)],
        forall|a: int, b: int|
            0 <= a < s.len() && 0 <= b < s.len() && a != b ==> asl_naql(min, hadaf, a) != asl_naql(
                min,
                hadaf,
                b,
            ),
{
    let r = s.remove(min);
    s.remove_ensures(min);
    r.insert_ensures(hadaf, s[min]);
    let t = r.insert(hadaf, s[min]);
    assert forall|a: int| 0 <= a < s.len() implies 0 <= asl_naql(min, hadaf, a) < s.len() && #[trigger] t[a]
        == s[asl_naql(min, hadaf, a)] by {
        if a < hadaf {
            assert(t[a] == r[a]);
        } else if a > hadaf {
            assert(t[(a - 1) + 1] == r[a - 1]);
        }
    }
}

impl<R> MajmuatManatiq<R> {
    /// What renaming a region does: an unknown region refused first, then a
    /// name that is empty, too long or held by another region; otherwise
    /// the region takes the trimmed name and nothing else changes.
    pub open spec fn ghayyir_ism_s(self, baad: Self, r: NatijatMintaqa, muarrif: MuarrifMintaqa, ism: Seq<char>) -> bool {
        match mawqi_s(self.manatiq_s(), muarrif, 0) {
            None => r == NatijatMintaqa::GhayrMawjuda(muarrif) && baad.kama_hiya(self),
            Some(k) => match radd_ism(self.manatiq_s(), ism, Some(muarrif)) {
                Some(t) => nafs_radd(r, t, ism) && baad.kama_hiya(self),
                None => {
                    let (q, j) = (self.manatiq_s()[k as int], baad.manatiq_s()[k as int]);
                    &&& r == NatijatMintaqa::Tammat(muarrif)
                    &&& baad.nafs_al_baqi(self)
                    &&& illa_fi(baad.manatiq_s(), self.manatiq_s(), k as int)
                    &&& j.ism@ == mushdhab(ism)
                    &&& j.mustatil == q.mustatil && j.qaida == q.qaida
                    &&& j.mumakkana == q.mumakkana && j.fasila_milli == q.fasila_milli
                },
            },
        }
    }

    /// Renames a region.
    pub fn ghayyir_ism(&mut self, muarrif: MuarrifMintaqa, ism: &str) -> (r: NatijatMintaqa)
        ensures
            old(self).ghayyir_ism_s(*final(self), r, muarrif, ism@),
            old(self).salima() ==> final(self).salima(),
            old(self).talee_fawq() ==> final(self).talee_fawq(),
            old(self).salima() && old(self).asma_mutafarrida() ==> final(self).asma_mutafarrida(),
    {
        let k = match self.mawqi(muarrif) {
            None => {
                return NatijatMintaqa::GhayrMawjuda(muarrif);
            },
            Some(k) => k,
        };
        proof {
            lemma_mawqi(self.manatiq@, muarrif, 0);
        }
        if let Some(radd) = self.tahaqquq_ism(ism, Some(muarrif)) {
            return radd;
        }
        let h = crate::mutarjim_mahalli::huruf(ism);
        let munaqqah = crate::mutarjim_mahalli::min_huruf(shadhdhib(&h).as_slice());
        let mut m = self.manatiq.remove(k);
        m.ism = munaqqah;
        self.manatiq.insert(k, m);
        proof {
            let q = old(self).manatiq@;
            assert(self.manatiq@ =~= q.update(k as int, m));
            lemma_mushdhab_ghayr_farigh(ism@);
            lemma_sahib_ism(q, wahhid_ism_s(mushdhab(ism@)), Some(muarrif), 0);
            if old(self).salima() && old(self).asma_mutafarrida() {
                assert forall|a: int, b: int| 0 <= a < b < q.len() implies wahhid_ism_s(
                    self.manatiq@[a].ism@,
                ) != wahhid_ism_s(self.manatiq@[b].ism@) by {
                    if a == k {
                        assert(q[b].muarrif != muarrif);
                    } else if b == k {
                        assert(q[a].muarrif != muarrif);
                    }
                }
            }
        }
        NatijatMintaqa::Tammat(muarrif)
    }

    /// What a change to one field of one region does: an unknown region is
    /// refused and nothing changes; otherwise only that region changes, and
    /// `haqq` says how.
    pub open spec fn ghayyara(
        self,
        baad: Self,
        r: NatijatMintaqa,
        muarrif: MuarrifMintaqa,
        haqq: spec_fn(Mintaqa<R>, Mintaqa<R>) -> bool,
    ) -> bool {
        match mawqi_s(self.manatiq_s(), muarrif, 0) {
            None => r == NatijatMintaqa::GhayrMawjuda(muarrif) && baad.kama_hiya(self),
            Some(k) => {
                &&& r == NatijatMintaqa::Tammat(muarrif)
                &&& baad.nafs_al_baqi(self)
                &&& illa_fi(baad.manatiq_s(), self.manatiq_s(), k as int)
                &&& haqq(self.manatiq_s()[k as int], baad.manatiq_s()[k as int])
            },
        }
    }

    /// Moves or resizes a region; a rectangle with no area (`lahu_misaha`
    /// is its own test) is refused before the region is looked for.
    pub fn harrik(&mut self, muarrif: MuarrifMintaqa, mustatil: R, lahu_misaha: bool) -> (r:
        NatijatMintaqa)
        ensures
            !lahu_misaha ==> r == NatijatMintaqa::LaMisaha && final(self).kama_hiya(*old(self)),
            lahu_misaha ==> old(self).ghayyara(
                *final(self),
                r,
                muarrif,
                |q: Mintaqa<R>, j: Mintaqa<R>|
                    j.mustatil == mustatil && j.ism == q.ism && j.qaida == q.qaida && j.mumakkana
                        == q.mumakkana && j.fasila_milli == q.fasila_milli,
            ),
            old(self).salima() ==> final(self).salima(),
            old(self).talee_fawq() ==> final(self).talee_fawq(),
            old(self).asma_mutafarrida() ==> final(self).asma_mutafarrida(),
    {
        if !lahu_misaha {
            return NatijatMintaqa::LaMisaha;
        }
        let k = match self.mawqi(muarrif) {
            None => {
                return NatijatMintaqa::GhayrMawjuda(muarrif);
            },
            Some(k) => k,
        };
        proof {
            lemma_mawqi(self.manatiq@, muarrif, 0);
        }
        let mut m = self.manatiq.remove(k);
        m.mustatil = mustatil;
        self.manatiq.insert(k, m);
        proof {
            assert(self.manatiq@ =~= old(self).manatiq@.update(k as int, m));
        }
        NatijatMintaqa::Tammat(muarrif)
    }

    /// Turns a region on or off without deleting it.
    pub fn makkin(&mut self, muarrif: MuarrifMintaqa, mumakkana: bool) -> (r: NatijatMintaqa)
        ensures
            old(self).ghayyara(
                *final(self),
                r,
                muarrif,
                |q: Mintaqa<R>, j: Mintaqa<R>|
                    j.mumakkana == mumakkana && j.ism == q.ism && j.mustatil == q.mustatil && j.qaida
                        == q.qaida && j.fasila_milli == q.fasila_milli,
            ),
            old(self).salima() ==> final(self).salima(),
            old(self).talee_fawq() ==> final(self).talee_fawq(),
            old(self).asma_mutafarrida() ==> final(self).asma_mutafarrida(),
    {
        let k = match self.mawqi(muarrif) {
            None => {
                return NatijatMintaqa::GhayrMawjuda(muarrif);
            },
            Some(k) => k,
        };
        proof {
            lemma_mawqi(self.manatiq@, muarrif, 0);
        }
        let mut m = self.manatiq.remove(k);
        m.mumakkana = mumakkana;
        self.manatiq.insert(k, m);
        proof {
            assert(self.manatiq@ =~= old(self).manatiq@.update(k as int, m));
        }
        NatijatMintaqa::Tammat(muarrif)
    }

    /// Flips a region between on and off.
    pub fn baddil_tamkeen(&mut self, muarrif: MuarrifMintaqa) -> (r: NatijatMintaqa)
        ensures
            old(self).ghayyara(
                *final(self),
                r,
                muarrif,
                |q: Mintaqa<R>, j: Mintaqa<R>|
                    j.mumakkana == !q.mumakkana && j.ism == q.ism && j.mustatil == q.mustatil && j.qaida
                        == q.qaida && j.fasila_milli == q.fasila_milli,
            ),
            old(self).salima() ==> final(self).salima(),
            old(self).talee_fawq() ==> final(self).talee_fawq(),
            old(self).asma_mutafarrida() ==> final(self).asma_mutafarrida(),
    {
        let k = match self.mawqi(muarrif) {
            None => {
                return NatijatMintaqa::GhayrMawjuda(muarrif);
            },
            Some(k) => k,
        };
        proof {
            lemma_mawqi(self.manatiq@, muarrif, 0);
        }
        let mut m = self.manatiq.remove(k);
        m.mumakkana = !m.mumakkana;
        self.manatiq.insert(k, m);
        proof {
            assert(self.manatiq@ =~= old(self).manatiq@.update(k as int, m));
        }
        NatijatMintaqa::Tammat(muarrif)
    }

    /// Changes when a region is read.
    pub fn ghayyir_qaida(&mut self, muarrif: MuarrifMintaqa, qaida: QaidatTarjama) -> (r:
        NatijatMintaqa)
        ensures
            old(self).ghayyara(
                *final(self),
                r,
                muarrif,
                |q: Mintaqa<R>, j: Mintaqa<R>|
                    j.qaida == qaida && j.ism == q.ism && j.mustatil == q.mustatil && j.mumakkana
                        == q.mumakkana && j.fasila_milli == q.fasila_milli,
            ),
            old(self).salima() ==> final(self).salima(),
            old(self).talee_fawq() ==> final(self).talee_fawq(),
            old(self).asma_mutafarrida() ==> final(self).asma_mutafarrida(),
    {
        let k = match self.mawqi(muarrif) {
            None => {
                return NatijatMintaqa::GhayrMawjuda(muarrif);
            },
            Some(k) => k,
        };
        proof {
            lemma_mawqi(self.manatiq@, muarrif, 0);
        }
        let mut m = self.manatiq.remove(k);
        m.qaida = qaida;
        self.manatiq.insert(k, m);
        proof {
            assert(self.manatiq@ =~= old(self).manatiq@.update(k as int, m));
        }
        NatijatMintaqa::Tammat(muarrif)
    }

    /// Sets or clears a region's own polling interval, clamped on the way
    /// in.
    pub fn ghayyir_fasila(&mut self, muarrif: MuarrifMintaqa, milli: Option<u32>) -> (r:
        NatijatMintaqa)
        ensures
            old(self).ghayyara(
                *final(self),
                r,
                muarrif,
                |q: Mintaqa<R>, j: Mintaqa<R>|
                    j.fasila_milli == (match milli {
                        Some(f) => Some(mahdud_fasila(f)),
                        None => None,
                    }) && j.ism == q.ism && j.mustatil == q.mustatil && j.qaida == q.qaida
                        && j.mumakkana == q.mumakkana,
            ),
            old(self).salima() ==> final(self).salima(),
            old(self).talee_fawq() ==> final(self).talee_fawq(),
            old(self).asma_mutafarrida() ==> final(self).asma_mutafarrida(),
    {
        let mahdud = match milli {
            Some(f) => Some(hudd_fasila(f)),
            None => None,
        };
        let k = match self.mawqi(muarrif) {
            None => {
                return NatijatMintaqa::GhayrMawjuda(muarrif);
            },
            Some(k) => k,
        };
        proof {
            lemma_mawqi(self.manatiq@, muarrif, 0);
        }
        let mut m = self.manatiq.remove(k);
        m.fasila_milli = mahdud;
        self.manatiq.insert(k, m);
        proof {
            assert(self.manatiq@ =~= old(self).manatiq@.update(k as int, m));
        }
        NatijatMintaqa::Tammat(muarrif)
    }

    /// Where a move of the region at `min` to position `ila` puts it: that
    /// position, or the last one when `ila` lies past the end.
    pub open spec fn hadaf_naql(self, ila: usize) -> int {
        if ila < self.manatiq_s().len() - 1 {
            ila as int
        } else {
            self.manatiq_s().len() - 1
        }
    }

    /// Moves a region to another place in the list, the others keeping
    /// their order.
    pub fn rattib(&mut self, muarrif: MuarrifMintaqa, ila: usize) -> (r: NatijatMintaqa)
        ensures
            mawqi_s(old(self).manatiq_s(), muarrif, 0) matches Some(min) ==> r
                == NatijatMintaqa::Tammat(muarrif) && final(self).nafs_al_baqi(*old(self))
                && final(self).manatiq_s() == old(self).manatiq_s().remove(min as int).insert(
                old(self).hadaf_naql(ila),
                old(self).manatiq_s()[min as int],
            ),
            mawqi_s(old(self).manatiq_s(), muarrif, 0) is None ==> r
                == NatijatMintaqa::GhayrMawjuda(muarrif) && final(self).kama_hiya(*old(self)),
            old(self).salima() ==> final(self).salima(),
            old(self).talee_fawq() ==> final(self).talee_fawq(),
            old(self).asma_mutafarrida() ==> final(self).asma_mutafarrida(),
    {
        let min = match self.mawqi(muarrif) {
            None => {
                return NatijatMintaqa::GhayrMawjuda(muarrif);
            },
            Some(k) => k,
        };
        proof {
            lemma_mawqi(self.manatiq@, muarrif, 0);
        }
        let akhir = self.manatiq.len() - 1;
        let hadaf = if ila < akhir {
            ila
        } else {
            akhir
        };
        let ghost q = old(self).manatiq@;
        proof {
            lemma_naql(q, min as int, hadaf as int);
        }
        if hadaf == min {
            proof {
                assert(q.remove(min as int).insert(hadaf as int, q[min as int]) =~= q);
            }
            return NatijatMintaqa::Tammat(muarrif);
        }
        let m = self.manatiq.remove(min);
        self.manatiq.insert(hadaf, m);
        proof {
            let t = self.manatiq@;
            assert(t =~= q.remove(min as int).insert(hadaf as int, q[min as int]));
            assert forall|a: int| 0 <= a < t.len() implies #[trigger] t[a] == q[asl_naql(
                min as int,
                hadaf as int,
                a,
            )] by {}
            if old(self).salima() {
                assert forall|a: int, b: int| 0 <= a < b < t.len() implies t[a].muarrif
                    != t[b].muarrif by {
                    assert(t[a] == q[asl_naql(min as int, hadaf as int, a)]);
                    assert(t[b] == q[asl_naql(min as int, hadaf as int, b)]);
                }
                assert forall|a: int| 0 <= a < t.len() implies !farigh(#[trigger] t[a].ism@) by {
                    assert(t[a] == q[asl_naql(min as int, hadaf as int, a)]);
                }
                assert forall|a: int| 0 <= a < t.len() implies (#[trigger] t[a].fasila_milli matches Some(
                    f,
                ) ==> ADNA_FASILA_MILLI <= f <= AQSA_FASILA_MILLI) by {
                    assert(t[a] == q[asl_naql(min as int, hadaf as int, a)]);
                }
            }
            if old(self).talee_fawq() {
                assert forall|a: int| 0 <= a < t.len() implies (#[trigger] t[a]).muarrif.0
                    < self.talee by {
                    assert(t[a] == q[asl_naql(min as int, hadaf as int, a)]);
                }
            }
            if old(self).asma_mutafarrida() {
                assert forall|a: int, b: int| 0 <= a < b < t.len() implies wahhid_ism_s(t[a].ism@)
                    != wahhid_ism_s(t[b].ism@) by {
                    let (qa, qb) = (asl_naql(min as int, hadaf as int, a), asl_naql(min as int, hadaf as int, b));
                    assert(t[a] == q[qa] && t[b] == q[qb]);
                    if qa < qb {
                        assert(wahhid_ism_s(q[qa].ism@) != wahhid_ism_s(q[qb].ism@));
                    } else {
                        assert(wahhid_ism_s(q[qb].ism@) != wahhid_ism_s(q[qa].ism@));
                    }
                }
            }
        }
        NatijatMintaqa::Tammat(muarrif)
    }
}

// ---------------------------------------------------------------------------
// Repairing a set read from disk
// ---------------------------------------------------------------------------

pub open spec fn khabar_saqf(m: MuarrifMintaqa, ism: Seq<char>) -> Seq<char> {
    "region "@ + nass_muarrif(m) + " ("@ + ism + ") was dropped: the file holds more than the ceiling of 64"@
}

pub open spec fn khabar_muzdawaj(m: MuarrifMintaqa) -> Seq<char> {
    "a second region claiming identity "@ + nass_muarrif(m)
        + " was dropped; history entries recorded against it would have been ambiguous"@
}

pub open spec fn khabar_bila_ism(m: MuarrifMintaqa) -> Seq<char> {
    "region "@ + nass_muarrif(m) + " was dropped: it has no name"@
}

pub open spec fn khabar_bila_misaha(m: MuarrifMintaqa, ism: Seq<char>) -> Seq<char> {
    "region "@ + nass_muarrif(m) + " ("@ + ism + ") was dropped: its rectangle has no area on any surface"@
}

pub open spec fn khabar_qassar(m: MuarrifMintaqa) -> Seq<char> {
    "region "@ + nass_muarrif(m) + "'s name was shortened to 64 characters"@
}

pub open spec fn khabar_sammaa(m: MuarrifMintaqa, mumayyaz: Seq<char>) -> Seq<char> {
    "region "@ + nass_muarrif(m) + " was renamed to "@ + mumayyaz
        + ": another region already held its name and the two could not be told apart in the panel"@
}

pub open spec fn khabar_fasila(m: MuarrifMintaqa, milli: u32, mahdud: u32) -> Seq<char> {
    "region "@ + nass_muarrif(m) + "'s interval of "@ + ashri(milli as nat) + " ms was clamped to "@
        + ashri(mahdud as nat) + " ms"@
}

pub open spec fn khabar_talee(talee: u64, aqsa: u64) -> Seq<char> {
    "the next identity was "@ + ashri(talee as nat) + " and a region already held "@ + ashri(
        aqsa as nat,
    ) + "; it was raised so a new region cannot inherit a deleted one's history"@
}

/// A name told apart from another by its region's number.
pub open spec fn ism_mumayyaz(ism: Seq<char>, m: MuarrifMintaqa) -> Seq<char> {
    ism + " ("@ + ashri(m.0 as nat) + ")"@
}

/// The `k`-th name tried for a region whose name another kept region
/// already holds: the name itself, then the name told apart by the
/// region's number, then by the number and a count.
pub open spec fn ism_murashshah(ism: Seq<char>, m: MuarrifMintaqa, k: nat) -> Seq<char> {
    if k == 0 {
        ism
    } else if k == 1 {
        ism_mumayyaz(ism, m)
    } else {
        ism + " ("@ + ashri(m.0 as nat) + ", "@ + ashri(k) + ")"@
    }
}

/// The first name tried, from the `k`-th on, that compares equal to none
/// of `asma`; none when every try up to one more than the most regions a
/// set holds is taken.
pub open spec fn awwal_hurr(asma: Seq<Seq<char>>, ism: Seq<char>, m: MuarrifMintaqa, k: nat) -> Option<
    nat,
>
    decreases AQSA_MANATIQ + 2 - k,
{
    if k > AQSA_MANATIQ + 1 {
        None
    } else if !asma.contains(wahhid_ism_s(ism_murashshah(ism, m, k))) {
        Some(k)
    } else {
        awwal_hurr(asma, ism, m, k + 1)
    }
}

pub open spec fn khabar_la_hurr(m: MuarrifMintaqa, ism: Seq<char>) -> Seq<char> {
    "region "@ + nass_muarrif(m) + " ("@ + ism
        + ") was dropped: every name it could be told apart by was already held"@
}

/// Where a repair stands after some regions: what was kept (where it came
/// from, its name and its interval), the notes so far, the identities and
/// compared names seen, and the greatest identity seen.
pub type HalatTashih = (Seq<(int, Seq<char>, Option<u32>)>, Seq<Seq<char>>, Seq<u64>, Seq<Seq<char>>, u64);

/// One region through the repair: dropped past the ceiling, as a second
/// holder of an identity, without a name or without area; otherwise kept,
/// its name trimmed, cut to the ceiling, told apart by its number (and then
/// a count) until no kept region's name compares equal, and its interval
/// clamped; dropped when no such name is found.
pub open spec fn khutwat_tashih<R>(h: HalatTashih, m: Mintaqa<R>, i: int, salih: bool) -> HalatTashih {
    let (mahfuza, mulahazat, muarrifat, asma, aqsa) = h;
    let id = m.muarrif;
    if mahfuza.len() >= AQSA_MANATIQ {
        (mahfuza, mulahazat.push(khabar_saqf(id, m.ism@)), muarrifat, asma, aqsa)
    } else if muarrifat.contains(id.0) {
        (mahfuza, mulahazat.push(khabar_muzdawaj(id)), muarrifat, asma, aqsa)
    } else {
        let muarrifat2 = muarrifat.push(id.0);
        let aqsa2 = if id.0 > aqsa {
            id.0
        } else {
            aqsa
        };
        if farigh(m.ism@) {
            (mahfuza, mulahazat.push(khabar_bila_ism(id)), muarrifat2, asma, aqsa2)
        } else if !salih {
            (mahfuza, mulahazat.push(khabar_bila_misaha(id, m.ism@)), muarrifat2, asma, aqsa2)
        } else {
            let n1 = mushdhab(m.ism@);
            let n2 = if n1.len() > AQSA_TUL_ISM {
                n1.take(AQSA_TUL_ISM as int)
            } else {
                n1
            };
            let mul2 = if n1.len() > AQSA_TUL_ISM {
                mulahazat.push(khabar_qassar(id))
            } else {
                mulahazat
            };
            match awwal_hurr(asma, n2, id, 0) {
                None => (mahfuza, mul2.push(khabar_la_hurr(id, n2)), muarrifat2, asma, aqsa2),
                Some(k) => {
                    let n3 = ism_murashshah(n2, id, k);
                    let mul3 = if k > 0 {
                        mul2.push(khabar_sammaa(id, n3))
                    } else {
                        mul2
                    };
                    let asma3 = asma.push(wahhid_ism_s(n3));
                    let (f, mul4) = match m.fasila_milli {
                        Some(f) => if mahdud_fasila(f) != f {
                            (Some(mahdud_fasila(f)), mul3.push(khabar_fasila(id, f, mahdud_fasila(f))))
                        } else {
                            (Some(f), mul3)
                        },
                        None => (None, mul3),
                    };
                    (mahfuza.push((i, n3, f)), mul4, muarrifat2, asma3, aqsa2)
                },
            }
        }
    }
}

/// The repair after the first `n` regions.
pub open spec fn tashih_hala<R>(s: Seq<Mintaqa<R>>, salihat: Seq<bool>, n: nat) -> HalatTashih
    decreases n,
{
    if n == 0 {
        (Seq::empty(), Seq::empty(), Seq::empty(), Seq::empty(), 0)
    } else {
        khutwat_tashih(
            tashih_hala(s, salihat, (n - 1) as nat),
            s[n - 1],
            n - 1,
            salihat[n - 1],
        )
    }
}

/// A kept region as the repair records it.
pub open spec fn mutabiq<R>(m: Mintaqa<R>, asl: Mintaqa<R>, k: (int, Seq<char>, Option<u32>)) -> bool {
    &&& m.muarrif == asl.muarrif
    &&& m.mustatil == asl.mustatil
    &&& m.qaida == asl.qaida
    &&& m.mumakkana == asl.mumakkana
    &&& m.ism@ == k.1
    &&& m.fasila_milli == k.2
}

/// The notes as texts.
pub open spec fn nusus(v: Seq<String>) -> Seq<Seq<char>> {
    v.map_values(|x: String| x@)
}

/// What the repair keeps: no more regions than the ceiling, each identity
/// once and among those seen, none above the greatest seen, every name with
/// something in it (starting with a character that is not white space),
/// every interval in range, every source position among those read, and
/// the compared names seen being those of the kept regions, no two equal.
pub open spec fn tashih_salim<R>(s: Seq<Mintaqa<R>>, h: HalatTashih, n: int) -> bool {
    let (mahfuza, _, muarrifat, _, aqsa) = h;
    &&& mahfuza.len() <= AQSA_MANATIQ
    &&& forall|k: int| 0 <= k < mahfuza.len() ==> 0 <= #[trigger] mahfuza[k].0 < n
    &&& forall|k: int|
        0 <= k < mahfuza.len() ==> muarrifat.contains(s[#[trigger] mahfuza[k].0].muarrif.0)
    &&& forall|a: int, b: int|
        0 <= a < b < mahfuza.len() ==> s[mahfuza[a].0].muarrif != s[mahfuza[b].0].muarrif
    &&& forall|k: int| 0 <= k < muarrifat.len() ==> #[trigger] muarrifat[k] <= aqsa
    &&& forall|k: int|
        0 <= k < mahfuza.len() ==> #[trigger] mahfuza[k].1.len() > 0 && !crate::nass::faragh(
            mahfuza[k].1[0],
        )
    &&& forall|k: int|
        0 <= k < mahfuza.len() ==> (#[trigger] mahfuza[k].2 matches Some(f) ==> ADNA_FASILA_MILLI
            <= f <= AQSA_FASILA_MILLI)
    &&& h.3.len() == mahfuza.len()
    &&& forall|k: int| 0 <= k < mahfuza.len() ==> #[trigger] h.3[k] == wahhid_ism_s(mahfuza[k].1)
    &&& forall|a: int, b: int| 0 <= a < b < h.3.len() ==> h.3[a] != h.3[b]
}

/// A name found free is free, and is among the tries.
proof fn lemma_awwal_hurr(asma: Seq<Seq<char>>, ism: Seq<char>, m: MuarrifMintaqa, k: nat)
    ensures
        awwal_hurr(asma, ism, m, k) matches Some(j) ==> k <= j <= AQSA_MANATIQ + 1 && !asma.contains(
            wahhid_ism_s(ism_murashshah(ism, m, j)),
        ),
    decreases AQSA_MANATIQ + 2 - k,
{
    if k <= AQSA_MANATIQ + 1 && asma.contains(wahhid_ism_s(ism_murashshah(ism, m, k))) {
        lemma_awwal_hurr(asma, ism, m, k + 1);
    }
}

/// Every step of the repair keeps what it promises.
pub proof fn lemma_tashih_salim<R>(s: Seq<Mintaqa<R>>, salihat: Seq<bool>, n: nat)
    requires
        n <= s.len(),
        s.len() == salihat.len(),
    ensures
        tashih_salim(s, tashih_hala(s, salihat, n), n as int),
    decreases n,
{
    if n > 0 {
        let p = (n - 1) as nat;
        lemma_tashih_salim(s, salihat, p);
        let h = tashih_hala(s, salihat, p);
        let m = s[p as int];
        let (mahfuza, mulahazat, muarrifat, asma, aqsa) = h;
        lemma_mushdhab_ghayr_farigh(m.ism@);
        let h2 = tashih_hala(s, salihat, n);
        assert(h2 == khutwat_tashih(h, m, p as int, salihat[p as int]));
        if mahfuza.len() < AQSA_MANATIQ && !muarrifat.contains(m.muarrif.0) {
            let muarrifat2 = muarrifat.push(m.muarrif.0);
            assert forall|k: int| 0 <= k < mahfuza.len() implies muarrifat2.contains(
                s[#[trigger] mahfuza[k].0].muarrif.0,
            ) by {
                let w = choose|w: int| 0 <= w < muarrifat.len() && muarrifat[w] == s[mahfuza[k].0].muarrif.0;
                assert(muarrifat2[w] == muarrifat[w]);
            }
            assert(muarrifat2[muarrifat.len() as int] == m.muarrif.0);
            if !farigh(m.ism@) && salihat[p as int] {
                let n1 = mushdhab(m.ism@);
                let n2 = if n1.len() > AQSA_TUL_ISM {
                    n1.take(AQSA_TUL_ISM as int)
                } else {
                    n1
                };
                crate::nass::lemma_farigh_mushdhab(m.ism@);
                assert(n2[0] == n1[0]);
                lemma_awwal_hurr(asma, n2, m.muarrif, 0);
                assert forall|k: int| 0 <= k < mahfuza.len() implies s[mahfuza[k].0].muarrif
                    != m.muarrif by {
                    if s[mahfuza[k].0].muarrif == m.muarrif {
                        assert(muarrifat.contains(s[mahfuza[k].0].muarrif.0));
                    }
                }
                match awwal_hurr(asma, n2, m.muarrif, 0) {
                    Some(j) => {
                        let n3 = ism_murashshah(n2, m.muarrif, j);
                        assert(n3[0] == n2[0]);
                        let asma3 = asma.push(wahhid_ism_s(n3));
                        assert forall|a: int, b: int| 0 <= a < b < asma3.len() implies asma3[a]
                            != asma3[b] by {
                            if b == asma.len() {
                                assert(asma3[a] == asma[a]);
                                assert(!asma.contains(wahhid_ism_s(n3)));
                            }
                        }
                    },
                    None => {},
                }
            }
        }
    }
}

/// The compared names as texts.
pub open spec fn asma_h(v: Seq<Vec<char>>) -> Seq<Seq<char>> {
    v.map_values(|x: Vec<char>| x@)
}

fn fi_muarrifat(v: &Vec<u64>, x: u64) -> (r: bool)
    ensures
        r == v@.contains(x),
{
    let mut i: usize = 0;
    while i < v.len()
        invariant
            i <= v@.len(),
            forall|k: int| 0 <= k < i ==> v@[k] != x,
        decreases v@.len() - i,
    {
        if v[i] == x {
            return true;
        }
        i = i + 1;
    }
    false
}

fn fi_asma(v: &Vec<Vec<char>>, x: &Vec<char>) -> (r: bool)
    ensures
        r == asma_h(v@).contains(x@),
{
    let mut i: usize = 0;
    while i < v.len()
        invariant
            i <= v@.len(),
            forall|k: int| 0 <= k < i ==> v@[k]@ != x@,
        decreases v@.len() - i,
    {
        if crate::nass::sawa(&v[i], x) {
            proof {
                assert(asma_h(v@)[i as int] == x@);
            }
            return true;
        }
        i = i + 1;
    }
    proof {
        if asma_h(v@).contains(x@) {
            let k = choose|k: int| 0 <= k < asma_h(v@).len() && asma_h(v@)[k] == x@;
            assert(v@[k]@ == x@);
        }
    }
    false
}

fn wahhid_huruf(n: &Vec<char>) -> (r: Vec<char>)
    ensures
        r@ == wahhid_ism_s(n@),
{
    let t = crate::mutarjim_mahalli::min_huruf(n.as_slice());
    let w = wahhid_ism(t.as_str());
    crate::mutarjim_mahalli::huruf(w.as_str())
}

fn ism_murashshah_x(ism: &Vec<char>, m: MuarrifMintaqa, k: usize) -> (r: Vec<char>)
    ensures
        r@ == ism_murashshah(ism@, m, k as nat),
{
    if k == 0 {
        return crate::nass::qita(ism, 0, ism.len());
    }
    let mut t = crate::mutarjim_mahalli::min_huruf(ism.as_slice());
    ilhaq(&mut t, " (");
    aktub_ashri(&mut t, m.0);
    if k > 1 {
        ilhaq(&mut t, ", ");
        aktub_ashri(&mut t, k as u64);
    }
    ilhaq(&mut t, ")");
    crate::mutarjim_mahalli::huruf(t.as_str())
}

/// The first name a region can be kept under beside the compared names
/// `asma`, and which try it was.
fn ism_hurr(asma: &Vec<Vec<char>>, ism: &Vec<char>, m: MuarrifMintaqa) -> (r: Option<(usize, Vec<char>)>)
    ensures
        match r {
            Some((k, n)) => awwal_hurr(asma_h(asma@), ism@, m, 0) == Some(k as nat) && n@
                == ism_murashshah(ism@, m, k as nat),
            None => awwal_hurr(asma_h(asma@), ism@, m, 0) is None,
        },
{
    let mut k: usize = 0;
    while k <= AQSA_MANATIQ + 1
        invariant
            awwal_hurr(asma_h(asma@), ism@, m, 0) == awwal_hurr(asma_h(asma@), ism@, m, k as nat),
            k <= AQSA_MANATIQ + 2,
        decreases AQSA_MANATIQ + 2 - k,
    {
        let n = ism_murashshah_x(ism, m, k);
        let w = wahhid_huruf(&n);
        if !fi_asma(asma, &w) {
            return Some((k, n));
        }
        k = k + 1;
    }
    None
}

fn khabar_qasir(bidaya: &str, m: MuarrifMintaqa, nihaya: &str) -> (r: String)
    ensures
        r@ == bidaya@ + nass_muarrif(m) + nihaya@,
{
    let mut r = min_nass(bidaya);
    ilhaq(&mut r, m.nass().as_str());
    ilhaq(&mut r, nihaya);
    r
}

fn khabar(bidaya: &str, m: MuarrifMintaqa, wasat: &str, ism: &str, nihaya: &str) -> (r: String)
    ensures
        r@ == bidaya@ + nass_muarrif(m) + wasat@ + ism@ + nihaya@,
{
    let mut r = min_nass(bidaya);
    ilhaq(&mut r, m.nass().as_str());
    ilhaq(&mut r, wasat);
    ilhaq(&mut r, ism);
    ilhaq(&mut r, nihaya);
    r
}

impl<R> MajmuatManatiq<R> {
    /// What the repair leaves: the regions it kept, in their order, with
    /// their repaired names and intervals; the next identity raised above
    /// the greatest identity seen when it was not already; the default
    /// interval clamped; and a note for everything it changed.
    pub open spec fn tashih_s(self, baad: Self, salihat: Seq<bool>) -> bool {
        let s = self.manatiq_s();
        let h = tashih_hala(s, salihat, s.len());
        let (mahfuza, mulahazat, _, _, aqsa) = h;
        let rafa = self.talee_s() <= aqsa;
        &&& baad.manatiq_s().len() == mahfuza.len()
        &&& forall|k: int|
            0 <= k < mahfuza.len() ==> 0 <= mahfuza[k].0 < s.len() && mutabiq(
                #[trigger] baad.manatiq_s()[k],
                s[mahfuza[k].0],
                mahfuza[k],
            )
        &&& baad.talee_s() == if rafa {
            if aqsa < u64::MAX {
                (aqsa + 1) as u64
            } else {
                aqsa
            }
        } else {
            self.talee_s()
        }
        &&& nusus(baad.mulahazat_s()) == if rafa {
            mulahazat.push(khabar_talee(self.talee_s(), aqsa))
        } else {
            mulahazat
        }
        &&& baad.fasila_s() == mahdud_fasila(self.fasila_s())
        &&& baad.luba_s() == self.luba_s()
        &&& baad.ism_luba_s() == self.ism_luba_s()
    }

    /// Repairs what was read from disk and cannot be used as it is, noting
    /// each repair in [`MajmuatManatiq::mulahazat`]; `misahat` holds each
    /// region's rectangle test, in order.
    pub fn tashih(&mut self, misahat: &Vec<bool>)
        requires
            old(self).manatiq_s().len() == misahat@.len(),
        ensures
            old(self).tashih_s(*final(self), misahat@),
            final(self).salima(),
            final(self).asma_mutafarrida(),
            tashih_hala(old(self).manatiq_s(), misahat@, old(self).manatiq_s().len()).4 < u64::MAX
                ==> final(self).talee_fawq(),
    {
        let mut asl: Vec<Mintaqa<R>> = Vec::new();
        std::mem::swap(&mut asl, &mut self.manatiq);
        let ghost q = asl@;
        let n = asl.len();
        let mut mahfuza: Vec<Mintaqa<R>> = Vec::new();
        let mut mulahazat: Vec<String> = Vec::new();
        let mut muarrifat: Vec<u64> = Vec::new();
        let mut asma: Vec<Vec<char>> = Vec::new();
        let mut aqsa: u64 = 0;
        let mut i: usize = 0;
        let ghost mut hg = tashih_hala(q, misahat@, 0);
        proof {
            assert(q.skip(0) =~= q);
            assert(nusus(mulahazat@) =~= Seq::<Seq<char>>::empty());
            assert(asma_h(asma@) =~= Seq::<Seq<char>>::empty());
        }
        while i < n
            invariant
                n == q.len(),
                misahat@.len() == n,
                i <= n,
                asl@ == q.skip(i as int),
                hg == tashih_hala(q, misahat@, i as nat),
                mahfuza@.len() == hg.0.len(),
                forall|k: int| 0 <= k < hg.0.len() ==> 0 <= #[trigger] hg.0[k].0 && hg.0[k].0 < i,
                forall|k: int|
                    0 <= k < mahfuza@.len() ==> mutabiq(#[trigger] mahfuza@[k], q[hg.0[k].0], hg.0[k]),
                nusus(mulahazat@) == hg.1,
                muarrifat@ == hg.2,
                asma_h(asma@) == hg.3,
                aqsa == hg.4,
            decreases n - i,
        {
            let m = asl.remove(0);
            let salih = misahat[i];
            let ghost h = tashih_hala(q, misahat@, i as nat);
            proof {
                assert(asl@ =~= q.skip(i + 1));
                assert(m == q[i as int]);
                assert(tashih_hala(q, misahat@, (i + 1) as nat) == khutwat_tashih(h, m, i as int, salih));
            }
            let ghost mul0 = mulahazat@;
            let ghost mah0 = mahfuza@;
            let ghost asma0 = asma@;
            if mahfuza.len() >= AQSA_MANATIQ {
                mulahazat.push(
                    khabar(
                        "region ",
                        m.muarrif,
                        " (",
                        m.ism.as_str(),
                        ") was dropped: the file holds more than the ceiling of 64",
                    ),
                );
                proof {
                    assert(nusus(mulahazat@) =~= nusus(mul0).push(khabar_saqf(m.muarrif, m.ism@)));
                }
            } else if fi_muarrifat(&muarrifat, m.muarrif.0) {
                mulahazat.push(
                    khabar_qasir(
                        "a second region claiming identity ",
                        m.muarrif,
                        " was dropped; history entries recorded against it would have been ambiguous",
                    ),
                );
                proof {
                    assert(nusus(mulahazat@) =~= nusus(mul0).push(khabar_muzdawaj(m.muarrif)));
                }
            } else {
                muarrifat.push(m.muarrif.0);
                if m.muarrif.0 > aqsa {
                    aqsa = m.muarrif.0;
                }
                let hm = crate::mutarjim_mahalli::huruf(m.ism.as_str());
                let n1 = shadhdhib(&hm);
                proof {
                    crate::nass::lemma_farigh_mushdhab(m.ism@);
                }
                if n1.len() == 0 {
                    mulahazat.push(khabar_qasir("region ", m.muarrif, " was dropped: it has no name"));
                    proof {
                        assert(nusus(mulahazat@) =~= nusus(mul0).push(khabar_bila_ism(m.muarrif)));
                    }
                } else if !salih {
                    mulahazat.push(
                        khabar(
                            "region ",
                            m.muarrif,
                            " (",
                            m.ism.as_str(),
                            ") was dropped: its rectangle has no area on any surface",
                        ),
                    );
                    proof {
                        assert(nusus(mulahazat@) =~= nusus(mul0).push(
                            khabar_bila_misaha(m.muarrif, m.ism@),
                        ));
                    }
                } else {
                    let n2 = if n1.len() > AQSA_TUL_ISM {
                        mulahazat.push(
                            khabar_qasir("region ", m.muarrif, "'s name was shortened to 64 characters"),
                        );
                        qita(&n1, 0, AQSA_TUL_ISM)
                    } else {
                        n1
                    };
                    let ghost mul2 = mulahazat@;
                    proof {
                        if n1@.len() > AQSA_TUL_ISM {
                            assert(nusus(mul2) =~= nusus(mul0).push(khabar_qassar(m.muarrif)));
                            assert(n2@ =~= n1@.take(AQSA_TUL_ISM as int));
                        }
                    }
                    let hurr = ism_hurr(&asma, &n2, m.muarrif);
                    if hurr.is_none() {
                        mulahazat.push(
                            khabar(
                                "region ",
                                m.muarrif,
                                " (",
                                crate::mutarjim_mahalli::min_huruf(n2.as_slice()).as_str(),
                                ") was dropped: every name it could be told apart by was already held",
                            ),
                        );
                        proof {
                            assert(nusus(mulahazat@) =~= nusus(mul2).push(khabar_la_hurr(m.muarrif, n2@)));
                        }
                    } else {
                    let (k, n3) = hurr.unwrap();
                    if k > 0 {
                        mulahazat.push(
                            khabar(
                                "region ",
                                m.muarrif,
                                " was renamed to ",
                                crate::mutarjim_mahalli::min_huruf(n3.as_slice()).as_str(),
                                ": another region already held its name and the two could not be told apart in the panel",
                            ),
                        );
                    }
                    let ghost mul3 = mulahazat@;
                    proof {
                        if k > 0 {
                            assert(nusus(mul3) =~= nusus(mul2).push(
                                khabar_sammaa(m.muarrif, n3@),
                            ));
                        }
                    }
                    asma.push(wahhid_huruf(&n3));
                    proof {
                        assert(asma_h(asma@) =~= asma_h(asma0).push(wahhid_ism_s(n3@)));
                    }
                    let f = match m.fasila_milli {
                        Some(f) => {
                            let c = hudd_fasila(f);
                            if c != f {
                                let mut t = min_nass("region ");
                                ilhaq(&mut t, m.muarrif.nass().as_str());
                                ilhaq(&mut t, "'s interval of ");
                                aktub_ashri(&mut t, f as u64);
                                ilhaq(&mut t, " ms was clamped to ");
                                aktub_ashri(&mut t, c as u64);
                                ilhaq(&mut t, " ms");
                                mulahazat.push(t);
                                proof {
                                    assert(nusus(mulahazat@) =~= nusus(mul3).push(
                                        khabar_fasila(m.muarrif, f, c),
                                    ));
                                }
                            }
                            Some(c)
                        },
                        None => None,
                    };
                    let ghost mg = m;
                    let mut m2 = m;
                    m2.ism = crate::mutarjim_mahalli::min_huruf(n3.as_slice());
                    m2.fasila_milli = f;
                    mahfuza.push(m2);
                    proof {
                        assert(mahfuza@.drop_last() =~= mah0);
                        let h2 = khutwat_tashih(h, mg, i as int, salih);
                        assert(h2.0 == h.0.push((i as int, n3@, f)));
                        assert(mutabiq(mahfuza@[mah0.len() as int], q[i as int], h2.0[mah0.len() as int]));
                    }
                    }
                }
            }
            i = i + 1;
            proof {
                hg = tashih_hala(q, misahat@, i as nat);
                assert forall|k: int| 0 <= k < hg.0.len() implies 0 <= #[trigger] hg.0[k].0 && hg.0[k].0 < i by {
                    if k < h.0.len() {
                        assert(hg.0[k] == h.0[k]);
                    }
                }
                assert forall|k: int| 0 <= k < mahfuza@.len() implies mutabiq(#[trigger] mahfuza@[k], q[hg.0[k].0], hg.0[k]) by {
                    if k < mah0.len() {
                        assert(mahfuza@[k] == mah0[k]);
                        assert(hg.0[k] == h.0[k]);
                    }
                }
            }
        }
        let rafa = self.talee <= aqsa;
        if rafa {
            let mut t = min_nass("the next identity was ");
            aktub_ashri(&mut t, self.talee);
            ilhaq(&mut t, " and a region already held ");
            aktub_ashri(&mut t, aqsa);
            ilhaq(&mut t, "; it was raised so a new region cannot inherit a deleted one's history");
            let ghost mul0 = mulahazat@;
            mulahazat.push(t);
            proof {
                assert(nusus(mulahazat@) =~= nusus(mul0).push(khabar_talee(old(self).talee, aqsa)));
            }
            self.talee = if aqsa < u64::MAX {
                aqsa + 1
            } else {
                aqsa
            };
        }
        self.fasila_iftiradiya_milli = hudd_fasila(self.fasila_iftiradiya_milli);
        self.manatiq = mahfuza;
        self.mulahazat = mulahazat;
        proof {
            lemma_tashih_salim(q, misahat@, n as nat);
            let h = tashih_hala(q, misahat@, n as nat);
            let t = self.manatiq@;
            assert forall|a: int, b: int| 0 <= a < b < t.len() implies t[a].muarrif != t[b].muarrif by {
                assert(mutabiq(t[a], q[h.0[a].0], h.0[a]));
                assert(mutabiq(t[b], q[h.0[b].0], h.0[b]));
            }
            assert forall|a: int, b: int| 0 <= a < b < t.len() implies wahhid_ism_s(t[a].ism@)
                != wahhid_ism_s(t[b].ism@) by {
                assert(mutabiq(t[a], q[h.0[a].0], h.0[a]));
                assert(mutabiq(t[b], q[h.0[b].0], h.0[b]));
                assert(h.3[a] == wahhid_ism_s(h.0[a].1));
                assert(h.3[b] == wahhid_ism_s(h.0[b].1));
            }
            assert forall|a: int, b: int| 0 <= a < b < t.len() implies wahhid_ism_s(t[a].ism@)
                != wahhid_ism_s(t[b].ism@) by {
                assert(mutabiq(t[a], q[h.0[a].0], h.0[a]));
                assert(mutabiq(t[b], q[h.0[b].0], h.0[b]));
                assert(h.3[a] == wahhid_ism_s(h.0[a].1));
                assert(h.3[b] == wahhid_ism_s(h.0[b].1));
            }
            assert forall|a: int| 0 <= a < t.len() implies !farigh(#[trigger] t[a].ism@) by {
                assert(mutabiq(t[a], q[h.0[a].0], h.0[a]));
                assert(h.0[a].1.len() > 0);
                assert(!crate::nass::faragh(t[a].ism@[0]));
            }
            assert forall|a: int| 0 <= a < t.len() implies (#[trigger] t[a].fasila_milli matches Some(
                f,
            ) ==> ADNA_FASILA_MILLI <= f <= AQSA_FASILA_MILLI) by {
                assert(mutabiq(t[a], q[h.0[a].0], h.0[a]));
            }
            if h.4 < u64::MAX {
                assert forall|a: int| 0 <= a < t.len() implies (#[trigger] t[a]).muarrif.0 < self.talee by {
                    assert(mutabiq(t[a], q[h.0[a].0], h.0[a]));
                    let w = choose|w: int| 0 <= w < h.2.len() && h.2[w] == q[h.0[a].0].muarrif.0;
                    assert(h.2[w] <= h.4);
                }
            }
        }
    }
}

/// An identity is never handed out again: once a region is deleted from a
/// set whose identities all lie below the next one, the next region added
/// gets another identity.
pub proof fn qanun_la_yuad_al_muarrif<R>(
    a: MajmuatManatiq<R>,
    b: MajmuatManatiq<R>,
    c: MajmuatManatiq<R>,
    muarrif: MuarrifMintaqa,
    r1: NatijatMintaqa,
    r2: NatijatMintaqa,
    ism: Seq<char>,
    mustatil: R,
    lahu_misaha: bool,
    qaida: QaidatTarjama,
)
    requires
        a.talee_fawq(),
        mawqi_s(a.manatiq_s(), muarrif, 0) is Some,
        a.ihdhif_s(b, r1, muarrif),
        b.adif_s(c, r2, ism, mustatil, lahu_misaha, qaida),
        r2 is Tammat,
    ensures
        r2 != NatijatMintaqa::Tammat(muarrif),
        c.manatiq_s().last().muarrif != muarrif,
{
    lemma_mawqi(a.manatiq_s(), muarrif, 0);
    let k = mawqi_s(a.manatiq_s(), muarrif, 0)->0;
    assert(a.manatiq_s()[k as int].muarrif.0 < a.talee_s());
    if b.manatiq_s().len() >= AQSA_MANATIQ {
    } else if radd_ism(b.manatiq_s(), ism, None) is Some {
        let t = radd_ism(b.manatiq_s(), ism, None)->0;
        assert(nafs_radd(r2, t, ism));
    }
}

/// The next identity only ever grows or stays where it is: no change to the
/// set lowers it.
pub proof fn qanun_talee_la_yanqus<R>(
    a: MajmuatManatiq<R>,
    b: MajmuatManatiq<R>,
    r: NatijatMintaqa,
    ism: Seq<char>,
    mustatil: R,
    lahu_misaha: bool,
    qaida: QaidatTarjama,
)
    requires
        a.adif_s(b, r, ism, mustatil, lahu_misaha, qaida),
    ensures
        b.talee_s() >= a.talee_s(),
        r is Tammat && a.talee_s() < u64::MAX ==> b.talee_s() == a.talee_s() + 1,
{
    if a.manatiq_s().len() < AQSA_MANATIQ {
        if let Some(t) = radd_ism(a.manatiq_s(), ism, None) {
            assert(nafs_radd(r, t, ism));
        }
    }
}

impl<R> MajmuatManatiq<R> {
    /// Checks the region file's bytes before they are read as a set: JSON,
    /// an object, and stamped in the field `haql` with the one schema
    /// version this build reads and writes. Nothing migrates: another
    /// version was written by a build that knew more.
    pub fn fahs_malaf(bayt: &[u8], haql: &str) -> (r: Result<QeemaJson, String>)
        ensures
            natija_json(r) == fahs_mukhattat_s(
                bayt@,
                haql@,
                ISDAR_MANATIQ as nat,
                dhayl_haql_manatiq(),
                dhayl_isdar_manatiq(),
            ),
    {
        fahs_mukhattat(
            bayt,
            haql,
            ISDAR_MANATIQ,
            ", so there is no way to tell which shape it is in",
            "Nothing is guessed at here: a version this build does not know was written by a build that knew more, and reading it anyway would drop every field this one cannot see and then save the file without them.",
        )
    }

    /// The set a read for a game ends with: a new, empty one when there was
    /// no file yet; a refusal when the file holds another game's regions;
    /// else what the file held, repaired. `misahat` holds each stored
    /// region's rectangle test, in order.
    pub fn min_qiraa(makhzun: Option<Self>, luba: LubaId, ism_luba: &str, misahat: &Vec<bool>) -> (r: Result<
        Self,
        String,
    >)
        requires
            makhzun matches Some(m) ==> m.manatiq_s().len() == misahat@.len(),
        ensures
            makhzun is None ==> (r matches Ok(m) && m.luba_s() == luba && m.ism_luba_s() == ism_luba@
                && m.manatiq_s().len() == 0 && m.talee_s() == 1 && m.fasila_s() == FASILA_IFTIRADIYA_MILLI
                && m.mulahazat_s().len() == 0 && m.salima() && m.asma_mutafarrida()),
            makhzun matches Some(m) ==> (m.luba_s() != luba ==> (r matches Err(e) && e@ == khabar_luba_s(
                m.luba_s(),
                luba,
            ))),
            makhzun matches Some(m) ==> (m.luba_s() == luba ==> (r matches Ok(x) && m.tashih_s(x, misahat@)
                && x.salima() && x.asma_mutafarrida())),
    {
        match makhzun {
            None => Ok(MajmuatManatiq::jadeeda(luba, ism_luba)),
            Some(mut m) => match natija_baad_qiraa(m.luba(), luba) {
                Err(e) => Err(e),
                Ok(()) => {
                    m.tashih(misahat);
                    Ok(m)
                },
            },
        }
    }
}

} // verus!
