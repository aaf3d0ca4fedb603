//! What the overlay will be able to do on this game, decided before it is
//! turned on: a verdict, the presentation mode it was reached about, and the
//! reasons in both languages, the verdict being the worst of the reasons.

use vstd::prelude::*;

use crate::nass::{ilhaq, min_nass};
use crate::wajiha::{ism_wajiha, WajihatRusum};

verus! {

/// A verdict, from best to worst: supported, supported with limits, not
/// determined, not supported.
#[derive(Debug, Clone, Copy, PartialEq, Eq, PartialOrd, Ord, Hash, Structural)]
pub enum HukmQudra {
    /// Everything works.
    Kamila,
    /// It works, with a limit the user is told about.
    Naqisa,
    /// The question could not be answered.
    Majhula,
    /// It cannot work.
    Mustaheela,
}

/// A verdict's place from best to worst.
pub open spec fn rutba(h: HukmQudra) -> nat {
    match h {
        HukmQudra::Kamila => 0,
        HukmQudra::Naqisa => 1,
        HukmQudra::Majhula => 2,
        HukmQudra::Mustaheela => 3,
    }
}

fn rutba_p(h: HukmQudra) -> (r: u8)
    ensures
        r == rutba(h),
{
    match h {
        HukmQudra::Kamila => 0,
        HukmQudra::Naqisa => 1,
        HukmQudra::Majhula => 2,
        HukmQudra::Mustaheela => 3,
    }
}

pub open spec fn ism_hukm(h: HukmQudra) -> Seq<char> {
    match h {
        HukmQudra::Kamila => "supported"@,
        HukmQudra::Naqisa => "supported with limits"@,
        HukmQudra::Majhula => "not determined"@,
        HukmQudra::Mustaheela => "not supported"@,
    }
}

impl HukmQudra {
    /// The verdict in English, for logs and the report.
    pub fn ism(self) -> (r: &'static str)
        ensures
            r@ == ism_hukm(self),
    {
        match self {
            HukmQudra::Kamila => "supported",
            HukmQudra::Naqisa => "supported with limits",
            HukmQudra::Majhula => "not determined",
            HukmQudra::Mustaheela => "not supported",
        }
    }

    /// The verdict in Arabic, for the screen the user decides on.
    pub fn ism_arabi(self) -> (r: &'static str)
        ensures
            r@ == match self {
                HukmQudra::Kamila => "مدعومة"@,
                HukmQudra::Naqisa => "مدعومة بحدود"@,
                HukmQudra::Majhula => "غير محسومة"@,
                HukmQudra::Mustaheela => "غير مدعومة"@,
            },
    {
        match self {
            HukmQudra::Kamila => "مدعومة",
            HukmQudra::Naqisa => "مدعومة بحدود",
            HukmQudra::Majhula => "غير محسومة",
            HukmQudra::Mustaheela => "غير مدعومة",
        }
    }

    /// Whether the overlay may be offered: supported, with limits or not.
    pub fn qabila(self) -> (r: bool)
        ensures
            r == (rutba(self) <= 1),
    {
        match self {
            HukmQudra::Kamila | HukmQudra::Naqisa => true,
            _ => false,
        }
    }

    /// Whether the verdict is an answer rather than "not determined".
    pub fn hasim(self) -> (r: bool)
        ensures
            r == !(self is Majhula),
    {
        match self {
            HukmQudra::Majhula => false,
            _ => true,
        }
    }
}

/// One finding, with its own verdict, in both languages.
#[derive(Debug, Clone, PartialEq, Eq)]
pub struct SababQudra {
    /// What this finding alone would make the verdict.
    pub hukm: HukmQudra,
    /// The finding in Arabic.
    pub arabi: String,
    /// The finding in English.
    pub injilizi: String,
}

impl SababQudra {
    fn bi_hukm(hukm: HukmQudra, arabi: &str, injilizi: &str) -> (r: Self)
        ensures
            r.hukm == hukm,
            r.arabi@ == arabi@,
            r.injilizi@ == injilizi@,
    {
        SababQudra { hukm, arabi: min_nass(arabi), injilizi: min_nass(injilizi) }
    }

    /// A finding that limits nothing.
    pub fn kamila(arabi: &str, injilizi: &str) -> (r: Self)
        ensures
            r.hukm == HukmQudra::Kamila,
            r.arabi@ == arabi@,
            r.injilizi@ == injilizi@,
    {
        Self::bi_hukm(HukmQudra::Kamila, arabi, injilizi)
    }

    /// A finding that is a limit.
    pub fn naqisa(arabi: &str, injilizi: &str) -> (r: Self)
        ensures
            r.hukm == HukmQudra::Naqisa,
            r.arabi@ == arabi@,
            r.injilizi@ == injilizi@,
    {
        Self::bi_hukm(HukmQudra::Naqisa, arabi, injilizi)
    }

    /// A finding that rules the overlay out.
    pub fn mustaheela(arabi: &str, injilizi: &str) -> (r: Self)
        ensures
            r.hukm == HukmQudra::Mustaheela,
            r.arabi@ == arabi@,
            r.injilizi@ == injilizi@,
    {
        Self::bi_hukm(HukmQudra::Mustaheela, arabi, injilizi)
    }

    /// A question that could not be answered.
    pub fn majhula(arabi: &str, injilizi: &str) -> (r: Self)
        ensures
            r.hukm == HukmQudra::Majhula,
            r.arabi@ == arabi@,
            r.injilizi@ == injilizi@,
    {
        Self::bi_hukm(HukmQudra::Majhula, arabi, injilizi)
    }
}

/// Whether the overlay can be composed over an exclusive-fullscreen game.
#[derive(Debug, Clone, Copy, PartialEq, Eq, Structural)]
pub enum MilShasha {
    /// The overlay draws into the frame the game presents.
    KhilalAlJihaz,
    /// There is nothing to draw into.
    LaShay,
}

pub open spec fn wasf_mil(m: MilShasha) -> Seq<char> {
    match m {
        MilShasha::KhilalAlJihaz => "the overlay draws into the frame the game is about to present, so exclusive fullscreen is composed over exactly as windowed mode is"@,
        MilShasha::LaShay => "this platform has no drawable for the overlay to compose into"@,
    }
}

impl MilShasha {
    /// The mode in English.
    pub fn wasf(self) -> (r: &'static str)
        ensures
            r@ == wasf_mil(self),
    {
        match self {
            MilShasha::KhilalAlJihaz => "the overlay draws into the frame the game is about to present, so exclusive fullscreen is composed over exactly as windowed mode is",
            MilShasha::LaShay => "this platform has no drawable for the overlay to compose into",
        }
    }

    /// The mode in Arabic.
    pub fn wasf_arabi(self) -> (r: &'static str)
        ensures
            r@ == match self {
                MilShasha::KhilalAlJihaz => "تُرسم الطبقة داخل الإطار الذي توشك اللعبة على عرضه، فوضع ملء الشاشة الحصري يُعامَل كوضع النافذة تمامًا."@,
                MilShasha::LaShay => "لا يوجد سطح رسم على هذه المنصة تُركَّب عليه الطبقة."@,
            },
    {
        match self {
            MilShasha::KhilalAlJihaz => "تُرسم الطبقة داخل الإطار الذي توشك اللعبة على عرضه، فوضع ملء الشاشة الحصري يُعامَل كوضع النافذة تمامًا.",
            MilShasha::LaShay => "لا يوجد سطح رسم على هذه المنصة تُركَّب عليه الطبقة.",
        }
    }
}

/// The worst verdict among findings, "supported" when there are none.
pub open spec fn hukm_s(asbab: Seq<SababQudra>) -> HukmQudra
    decreases asbab.len(),
{
    if asbab.len() == 0 {
        HukmQudra::Kamila
    } else {
        let h = hukm_s(asbab.drop_last());
        if rutba(asbab.last().hukm) > rutba(h) {
            asbab.last().hukm
        } else {
            h
        }
    }
}

/// The verdict on one game and interface, with every finding behind it.
#[derive(Debug, Clone, PartialEq, Eq)]
pub struct QudratTarkeeb {
    /// Which interface the verdict is about.
    pub wajiha: WajihatRusum,
    /// How the overlay meets exclusive fullscreen there.
    pub mil_shasha: MilShasha,
    /// Every finding, in the order it was made.
    pub asbab: Vec<SababQudra>,
}

/// The lines a verdict is reported in: the verdict, the fullscreen mode,
/// then each finding with its own verdict.
pub open spec fn satr_sabab(w: WajihatRusum, s: SababQudra) -> Seq<char> {
    ism_wajiha(w) + ": "@ + ism_hukm(s.hukm) + " — "@ + s.injilizi@
}

impl QudratTarkeeb {
    /// A verdict with no findings yet.
    pub fn jadeeda(wajiha: WajihatRusum, mil_shasha: MilShasha) -> (r: Self)
        ensures
            r.wajiha == wajiha,
            r.mil_shasha == mil_shasha,
            r.asbab@.len() == 0,
    {
        QudratTarkeeb { wajiha, mil_shasha, asbab: Vec::new() }
    }

    /// The same verdict with one more finding.
    pub fn maa(self, sabab: SababQudra) -> (r: Self)
        ensures
            r.wajiha == self.wajiha,
            r.mil_shasha == self.mil_shasha,
            r.asbab@ == self.asbab@.push(sabab),
    {
        let mut r = self;
        r.asbab.push(sabab);
        r
    }

    /// The worst of the findings, "supported" when there are none.
    pub fn hukm(&self) -> (r: HukmQudra)
        ensures
            r == hukm_s(self.asbab@),
    {
        let mut h = HukmQudra::Kamila;
        let mut i: usize = 0;
        while i < self.asbab.len()
            invariant
                i <= self.asbab@.len(),
                h == hukm_s(self.asbab@.take(i as int)),
            decreases self.asbab@.len() - i,
        {
            proof {
                assert(self.asbab@.take(i + 1).drop_last() =~= self.asbab@.take(i as int));
            }
            let g = self.asbab[i].hukm;
            if rutba_p(g) > rutba_p(h) {
                h = g;
            }
            i = i + 1;
        }
        proof {
            assert(self.asbab@.take(self.asbab@.len() as int) =~= self.asbab@);
        }
        h
    }

    /// Whether the overlay may be offered on this verdict.
    pub fn qabila(&self) -> (r: bool)
        ensures
            r == (rutba(hukm_s(self.asbab@)) <= 1),
    {
        self.hukm().qabila()
    }

    /// The findings that are open questions, in order.
    pub fn majhulat(&self) -> (r: Vec<&SababQudra>)
        ensures
            r@.map_values(|x: &SababQudra| *x) == self.asbab@.filter(
                |s: SababQudra| s.hukm is Majhula,
            ),
    {
        let mut r: Vec<&SababQudra> = Vec::new();
        let mut i: usize = 0;
        while i < self.asbab.len()
            invariant
                i <= self.asbab@.len(),
                r@.map_values(|x: &SababQudra| *x) == self.asbab@.take(i as int).filter(
                    |s: SababQudra| s.hukm is Majhula,
                ),
            decreases self.asbab@.len() - i,
        {
            let s = &self.asbab[i];
            proof {
                assert(self.asbab@.take(i + 1).drop_last() =~= self.asbab@.take(i as int));
                reveal(Seq::filter);
            }
            let ghost r0 = r@;
            if rutba_p(s.hukm) == 2 {
                r.push(s);
                proof {
                    assert(r@.map_values(|x: &SababQudra| *x) =~= r0.map_values(|x: &SababQudra| *x).push(*s));
                }
            }
            i = i + 1;
        }
        proof {
            assert(self.asbab@.take(self.asbab@.len() as int) =~= self.asbab@);
        }
        r
    }

    /// The findings at least as bad as a verdict, in order.
    pub fn asbab_min(&self, adna: HukmQudra) -> (r: Vec<&SababQudra>)
        ensures
            r@.map_values(|x: &SababQudra| *x) == self.asbab@.filter(
                |s: SababQudra| rutba(s.hukm) >= rutba(adna),
            ),
    {
        let mut r: Vec<&SababQudra> = Vec::new();
        let mut i: usize = 0;
        while i < self.asbab.len()
            invariant
                i <= self.asbab@.len(),
                r@.map_values(|x: &SababQudra| *x) == self.asbab@.take(i as int).filter(
                    |s: SababQudra| rutba(s.hukm) >= rutba(adna),
                ),
            decreases self.asbab@.len() - i,
        {
            let s = &self.asbab[i];
            proof {
                assert(self.asbab@.take(i + 1).drop_last() =~= self.asbab@.take(i as int));
                reveal(Seq::filter);
            }
            let ghost r0 = r@;
            if rutba_p(s.hukm) >= rutba_p(adna) {
                r.push(s);
                proof {
                    assert(r@.map_values(|x: &SababQudra| *x) =~= r0.map_values(|x: &SababQudra| *x).push(*s));
                }
            }
            i = i + 1;
        }
        proof {
            assert(self.asbab@.take(self.asbab@.len() as int) =~= self.asbab@);
        }
        r
    }

    /// The report's lines: the verdict, the fullscreen mode, then each
    /// finding.
    pub fn sutur(&self) -> (r: Vec<String>)
        ensures
            r@.len() == 2 + self.asbab@.len(),
            r@[0]@ == ism_wajiha(self.wajiha) + ": "@ + ism_hukm(hukm_s(self.asbab@)),
            r@[1]@ == ism_wajiha(self.wajiha) + ": "@ + wasf_mil(self.mil_shasha),
            forall|i: int|
                0 <= i < self.asbab@.len() ==> #[trigger] r@[i + 2]@ == satr_sabab(
                    self.wajiha,
                    self.asbab@[i],
                ),
    {
        let mut r: Vec<String> = Vec::new();
        let mut s0 = min_nass(self.wajiha.ism());
        ilhaq(&mut s0, ": ");
        ilhaq(&mut s0, self.hukm().ism());
        r.push(s0);
        let mut s1 = min_nass(self.wajiha.ism());
        ilhaq(&mut s1, ": ");
        ilhaq(&mut s1, self.mil_shasha.wasf());
        r.push(s1);
        let mut i: usize = 0;
        while i < self.asbab.len()
            invariant
                i <= self.asbab@.len(),
                r@.len() == 2 + i,
                r@[0]@ == ism_wajiha(self.wajiha) + ": "@ + ism_hukm(hukm_s(self.asbab@)),
                r@[1]@ == ism_wajiha(self.wajiha) + ": "@ + wasf_mil(self.mil_shasha),
                forall|k: int|
                    0 <= k < i ==> #[trigger] r@[k + 2]@ == satr_sabab(self.wajiha, self.asbab@[k]),
            decreases self.asbab@.len() - i,
        {
            let s = &self.asbab[i];
            let mut t = min_nass(self.wajiha.ism());
            ilhaq(&mut t, ": ");
            ilhaq(&mut t, s.hukm.ism());
            ilhaq(&mut t, " — ");
            ilhaq(&mut t, s.injilizi.as_str());
            let ghost r0 = r@;
            r.push(t);
            proof {
                assert forall|k: int| 0 <= k < i + 1 implies #[trigger] r@[k + 2]@ == satr_sabab(
                    self.wajiha,
                    self.asbab@[k],
                ) by {
                    if k < i {
                        assert(r@[k + 2] == r0[k + 2]);
                    }
                }
            }
            i = i + 1;
        }
        r
    }
}

/// The verdict is the worst finding: no finding is worse than it, and when
/// there are findings one of them is it.
pub proof fn qanun_al_hukm_aswa(asbab: Seq<SababQudra>)
    ensures
        forall|i: int| 0 <= i < asbab.len() ==> rutba(#[trigger] asbab[i].hukm) <= rutba(hukm_s(asbab)),
        asbab.len() > 0 ==> exists|i: int| 0 <= i < asbab.len() && asbab[i].hukm == hukm_s(asbab),
        asbab.len() == 0 ==> hukm_s(asbab) == HukmQudra::Kamila,
    decreases asbab.len(),
{
    if asbab.len() > 0 {
        let p = asbab.drop_last();
        qanun_al_hukm_aswa(p);
        assert forall|i: int| 0 <= i < asbab.len() implies rutba(#[trigger] asbab[i].hukm) <= rutba(
            hukm_s(asbab),
        ) by {
            if i < p.len() {
                assert(asbab[i] == p[i]);
            }
        }
        if rutba(asbab.last().hukm) > rutba(hukm_s(p)) {
            assert(asbab[asbab.len() - 1].hukm == hukm_s(asbab));
        } else if p.len() > 0 {
            let w = choose|w: int| 0 <= w < p.len() && p[w].hukm == hukm_s(p);
            assert(asbab[w] == p[w]);
        } else {
            assert(hukm_s(p) == HukmQudra::Kamila);
            assert(rutba(asbab.last().hukm) == 0);
            assert(asbab.last().hukm == HukmQudra::Kamila);
            assert(asbab[asbab.len() - 1].hukm == hukm_s(asbab));
        }
    }
}

/// A finding never makes the verdict better: adding one leaves a verdict at
/// least as bad.
pub proof fn qanun_al_sabab_la_yuhassin(asbab: Seq<SababQudra>, sabab: SababQudra)
    ensures
        rutba(hukm_s(asbab.push(sabab))) >= rutba(hukm_s(asbab)),
        rutba(hukm_s(asbab.push(sabab))) >= rutba(sabab.hukm),
{
    assert(asbab.push(sabab).drop_last() =~= asbab);
}

} // verus!
