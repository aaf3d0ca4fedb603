//! Recognized lines: what an engine read and where, the rules that rejoin a
//! line the engine split, and the verdict on whether a reading is text worth
//! translating.
//!
//! The engines themselves run where the platform's libraries are; this
//! module holds what is decided about their output.

use vstd::prelude::*;

use crate::mutarjim_mahalli::{huruf, kalimat, min_huruf, qassim_kalimat};
use crate::khata::KhataTabaqa;
use crate::nass::{
    aktub_ashri, ashri, faragh, faragh_p, farigh, ilhaq, min_nass, mushdhab, shadhdhib,
};
use crate::tartib::{
    awwal_s, kulluha, lemma_awwal, lemma_awwal_hadd, lemma_rattib, lemma_rattib_kulluha, mawdi_idraj,
    murattab_s, rattib_s,
};
use crate::wajiha::MustatilBiksel;

verus! {

/// The confidence carried by a line from an engine that reports none: a
/// constant, not a measurement.
pub const THIQA_GHAYR_MAQISA: u8 = 80;

/// `a + b`, stopping at the largest `u32`.
pub open spec fn jam_u32(a: u32, b: u32) -> u32 {
    if a + b > u32::MAX {
        u32::MAX
    } else {
        (a + b) as u32
    }
}

/// `a - b`, stopping at zero.
pub open spec fn tarh_u32(a: u32, b: u32) -> u32 {
    if a >= b {
        (a - b) as u32
    } else {
        0
    }
}

fn jam_p(a: u32, b: u32) -> (r: u32)
    ensures
        r == jam_u32(a, b),
{
    if a <= u32::MAX - b {
        a + b
    } else {
        u32::MAX
    }
}

fn tarh_p(a: u32, b: u32) -> (r: u32)
    ensures
        r == tarh_u32(a, b),
{
    if a >= b {
        a - b
    } else {
        0
    }
}

/// One line of text an engine read, and where it read it.
#[derive(Debug, Clone, PartialEq, Eq)]
pub struct SatrMaqru {
    /// What the engine read, trimmed.
    pub nass: String,
    /// Where it is, in the captured image's own pixels.
    pub mawdi: MustatilBiksel,
    /// Zero to a hundred.
    pub thiqa: u8,
    /// Whether `thiqa` is the engine's own number.
    pub maqisa: bool,
}

/// A box's right edge.
pub open spec fn yameen_s(m: MustatilBiksel) -> u32 {
    jam_u32(m.yasar, m.ard)
}

/// A box's bottom edge.
pub open spec fn asfal_s(m: MustatilBiksel) -> u32 {
    jam_u32(m.aala, m.irtifa)
}

/// The horizontal gap between two boxes, zero when they overlap.
pub open spec fn fajwa_s(a: MustatilBiksel, b: MustatilBiksel) -> u32 {
    if a.yasar <= b.yasar {
        tarh_u32(b.yasar, yameen_s(a))
    } else {
        tarh_u32(a.yasar, yameen_s(b))
    }
}

/// Whether two boxes share more than half of the shorter one's height.
pub open spec fn mutadakhil_s(a: MustatilBiksel, b: MustatilBiksel) -> bool {
    let aala = if a.aala >= b.aala {
        a.aala
    } else {
        b.aala
    };
    let asfal = if asfal_s(a) <= asfal_s(b) {
        asfal_s(a)
    } else {
        asfal_s(b)
    };
    let mushtarak = tarh_u32(asfal, aala);
    let aqsar = if a.irtifa <= b.irtifa {
        a.irtifa
    } else {
        b.irtifa
    };
    aqsar > 0 && 2 * mushtarak > aqsar
}

/// The lines' texts that are not empty, one per line.
pub open spec fn fiqra_s(s: Seq<SatrMaqru>) -> Seq<char>
    decreases s.len(),
{
    if s.len() == 0 {
        Seq::empty()
    } else {
        let p = fiqra_s(s.drop_last());
        let n = s.last().nass@;
        if n.len() == 0 {
            p
        } else if p.len() == 0 {
            n
        } else {
            p + "\n"@ + n
        }
    }
}

/// The lowest confidence among lines.
pub open spec fn adna_thiqa_s(s: Seq<SatrMaqru>) -> Option<u8>
    decreases s.len(),
{
    if s.len() == 0 {
        None
    } else {
        let t = s.last().thiqa;
        match adna_thiqa_s(s.drop_last()) {
            None => Some(t),
            Some(p) => Some(
                if p <= t {
                    p
                } else {
                    t
                },
            ),
        }
    }
}

impl SatrMaqru {
    /// A line, its text trimmed and its confidence held to a hundred.
    pub fn jadeed(nass: &str, mawdi: MustatilBiksel, thiqa: u8, maqisa: bool) -> (r: Self)
        ensures
            r.nass@ == mushdhab(nass@),
            r.mawdi == mawdi,
            r.thiqa == if thiqa > 100 {
                100
            } else {
                thiqa
            },
            r.maqisa == maqisa,
    {
        let h = huruf(nass);
        SatrMaqru {
            nass: min_huruf(shadhdhib(&h).as_slice()),
            mawdi,
            thiqa: if thiqa > 100 {
                100
            } else {
                thiqa
            },
            maqisa,
        }
    }

    /// Whether this line carries no text.
    pub fn khali(&self) -> (r: bool)
        ensures
            r == (self.nass@.len() == 0),
    {
        self.nass.as_str().is_empty()
    }

    /// The right edge of this line's box.
    pub fn yameen(&self) -> (r: u32)
        ensures
            r == yameen_s(self.mawdi),
    {
        jam_p(self.mawdi.yasar, self.mawdi.ard)
    }

    /// The bottom edge of this line's box.
    pub fn asfal(&self) -> (r: u32)
        ensures
            r == asfal_s(self.mawdi),
    {
        jam_p(self.mawdi.aala, self.mawdi.irtifa)
    }

    /// The horizontal gap between two boxes, zero when they overlap.
    pub fn fajwa_ufuqiya(&self, akhar: &Self) -> (r: u32)
        ensures
            r == fajwa_s(self.mawdi, akhar.mawdi),
    {
        if self.mawdi.yasar <= akhar.mawdi.yasar {
            tarh_p(akhar.mawdi.yasar, self.yameen())
        } else {
            tarh_p(self.mawdi.yasar, akhar.yameen())
        }
    }

    /// Whether two boxes share more than half of the shorter one's height,
    /// which is what it takes for them to be on one line.
    pub fn mutadakhil_amudiyan(&self, akhar: &Self) -> (r: bool)
        ensures
            r == mutadakhil_s(self.mawdi, akhar.mawdi),
    {
        let aala = if self.mawdi.aala >= akhar.mawdi.aala {
            self.mawdi.aala
        } else {
            akhar.mawdi.aala
        };
        let (a1, a2) = (self.asfal(), akhar.asfal());
        let asfal = if a1 <= a2 {
            a1
        } else {
            a2
        };
        let mushtarak = tarh_p(asfal, aala) as u64;
        let aqsar = if self.mawdi.irtifa <= akhar.mawdi.irtifa {
            self.mawdi.irtifa
        } else {
            akhar.mawdi.irtifa
        } as u64;
        aqsar > 0 && 2 * mushtarak > aqsar
    }

    /// Every line's text as one block, newline separated, empty lines left
    /// out.
    pub fn fiqra(sutur: &[SatrMaqru]) -> (r: String)
        ensures
            r@ == fiqra_s(sutur@),
    {
        let mut r = String::new();
        let mut i: usize = 0;
        while i < sutur.len()
            invariant
                i <= sutur@.len(),
                r@ == fiqra_s(sutur@.take(i as int)),
            decreases sutur@.len() - i,
        {
            proof {
                assert(sutur@.take(i + 1).drop_last() =~= sutur@.take(i as int));
            }
            let n = sutur[i].nass.as_str();
            if !n.is_empty() {
                if !r.as_str().is_empty() {
                    ilhaq(&mut r, "\n");
                }
                ilhaq(&mut r, n);
            }
            proof {
                if sutur@[i as int].nass@.len() > 0 && fiqra_s(sutur@.take(i as int)).len() == 0 {
                    assert(r@ =~= sutur@[i as int].nass@);
                }
            }
            i = i + 1;
        }
        proof {
            assert(sutur@.take(sutur@.len() as int) =~= sutur@);
        }
        r
    }

    /// The region's confidence: the lowest of its lines' when every line
    /// carries a measured one, and nothing when there are no lines or one of
    /// them carries an estimate.
    pub fn thiqa_maqisa(sutur: &[SatrMaqru]) -> (r: Option<u8>)
        ensures
            r == (if sutur@.len() > 0 && forall|k: int| 0 <= k < sutur@.len() ==> #[trigger] sutur@[k].maqisa {
                adna_thiqa_s(sutur@)
            } else {
                None
            }),
    {
        let mut i: usize = 0;
        while i < sutur.len()
            invariant
                i <= sutur@.len(),
                forall|k: int| 0 <= k < i ==> #[trigger] sutur@[k].maqisa,
            decreases sutur@.len() - i,
        {
            if !sutur[i].maqisa {
                return None;
            }
            i = i + 1;
        }
        if sutur.len() == 0 {
            return None;
        }
        SatrMaqru::adna_thiqa(sutur)
    }

    /// The lowest confidence in a set of lines, or nothing when it is empty.
    pub fn adna_thiqa(sutur: &[SatrMaqru]) -> (r: Option<u8>)
        ensures
            r == adna_thiqa_s(sutur@),
    {
        let mut r: Option<u8> = None;
        let mut i: usize = 0;
        while i < sutur.len()
            invariant
                i <= sutur@.len(),
                r == adna_thiqa_s(sutur@.take(i as int)),
            decreases sutur@.len() - i,
        {
            proof {
                assert(sutur@.take(i + 1).drop_last() =~= sutur@.take(i as int));
            }
            let t = sutur[i].thiqa;
            r = match r {
                None => Some(t),
                Some(p) => Some(
                    if p <= t {
                        p
                    } else {
                        t
                    },
                ),
            };
            i = i + 1;
        }
        proof {
            assert(sutur@.take(sutur@.len() as int) =~= sutur@);
        }
        r
    }
}

/// A line as plain values: its text, its box, its confidence, and whether
/// the confidence was measured.
pub type SuratSatr = (Seq<char>, MustatilBiksel, u8, bool);

/// A line's plain values.
pub open spec fn sura_satr(s: SatrMaqru) -> SuratSatr {
    (s.nass@, s.mawdi, s.thiqa, s.maqisa)
}

/// Each line's plain values, in order.
pub open spec fn suwar(s: Seq<SatrMaqru>) -> Seq<SuratSatr> {
    s.map_values(|x: SatrMaqru| sura_satr(x))
}

/// Reading order: higher on the screen first, then further left.
pub open spec fn qabl_satr(a: SuratSatr, b: SuratSatr) -> bool {
    a.1.aala < b.1.aala || (a.1.aala == b.1.aala && a.1.yasar < b.1.yasar)
}

/// Reading order, as a relation.
pub open spec fn qabl_f() -> spec_fn(SuratSatr, SuratSatr) -> bool {
    |a: SuratSatr, b: SuratSatr| qabl_satr(a, b)
}

/// Whether a line already placed takes in another: they share more than
/// half of the shorter height and stand at most `f` pixels apart.
pub open spec fn yandamij_s(a: MustatilBiksel, b: MustatilBiksel, f: u32) -> bool {
    mutadakhil_s(a, b) && fajwa_s(a, b) <= f
}

/// One line absorbing another: the texts joined in left-to-right order,
/// with a space unless the boxes touch; the box that covers both; the lower
/// confidence; measured only if both were.
pub open spec fn idmij_s(a: SuratSatr, b: SuratSatr) -> SuratSatr {
    let fasl = if fajwa_s(a.1, b.1) == 0 {
        Seq::<char>::empty()
    } else {
        seq![' ']
    };
    let nass = if b.1.yasar < a.1.yasar {
        b.0 + fasl + a.0
    } else {
        a.0 + fasl + b.0
    };
    let yasar = if a.1.yasar <= b.1.yasar {
        a.1.yasar
    } else {
        b.1.yasar
    };
    let aala = if a.1.aala <= b.1.aala {
        a.1.aala
    } else {
        b.1.aala
    };
    let yameen = if yameen_s(a.1) >= yameen_s(b.1) {
        yameen_s(a.1)
    } else {
        yameen_s(b.1)
    };
    let asfal = if asfal_s(a.1) >= asfal_s(b.1) {
        asfal_s(a.1)
    } else {
        asfal_s(b.1)
    };
    (
        nass,
        MustatilBiksel { yasar, aala, ard: tarh_u32(yameen, yasar), irtifa: tarh_u32(asfal, aala) },
        if a.2 <= b.2 {
            a.2
        } else {
            b.2
        },
        a.3 && b.3,
    )
}

/// Lines taken in order, each absorbed into the first line already placed
/// that takes it in, or placed after them when none does.
pub open spec fn damj_s(s: Seq<SuratSatr>, f: u32) -> Seq<SuratSatr>
    decreases s.len(),
{
    if s.len() == 0 {
        Seq::empty()
    } else {
        let acc = damj_s(s.drop_last(), f);
        let x = s.last();
        let k = awwal_s(acc, |e: SuratSatr| yandamij_s(e.1, x.1, f));
        if k < acc.len() {
            acc.update(k as int, idmij_s(acc[k as int], x))
        } else {
            acc.push(x)
        }
    }
}

/// The lines that carry text, in order.
pub open spec fn ghayr_khali_s(s: Seq<SuratSatr>) -> Seq<SuratSatr>
    decreases s.len(),
{
    if s.len() == 0 {
        s
    } else if s.last().0.len() > 0 {
        ghayr_khali_s(s.drop_last()).push(s.last())
    } else {
        ghayr_khali_s(s.drop_last())
    }
}

/// Rejoined lines: the empty ones dropped, the rest put in reading order,
/// merged, and put in reading order again.
pub open spec fn mudmaj_s(s: Seq<SuratSatr>, f: u32) -> Seq<SuratSatr> {
    rattib_s(damj_s(rattib_s(ghayr_khali_s(s), qabl_f()), f), qabl_f())
}

proof fn lemma_suwar_take(s: Seq<SatrMaqru>, i: int)
    requires
        0 <= i < s.len(),
    ensures
        suwar(s.take(i + 1)).drop_last() == suwar(s.take(i)),
        suwar(s.take(i + 1)).last() == sura_satr(s[i]),
        suwar(s.take(i + 1)).len() == i + 1,
{
    assert(suwar(s.take(i + 1)).drop_last() =~= suwar(s.take(i)));
}

proof fn lemma_suwar_kull(s: Seq<SatrMaqru>)
    ensures
        s.take(s.len() as int) == s,
{
    assert(s.take(s.len() as int) =~= s);
}

fn qabl_p(a: &SatrMaqru, b: &SatrMaqru) -> (r: bool)
    ensures
        r == qabl_satr(sura_satr(*a), sura_satr(*b)),
{
    a.mawdi.aala < b.mawdi.aala || (a.mawdi.aala == b.mawdi.aala && a.mawdi.yasar < b.mawdi.yasar)
}

/// Puts lines in reading order, keeping lines with one top-left corner in
/// the order they came.
fn rattib_sutur(v: Vec<SatrMaqru>) -> (r: Vec<SatrMaqru>)
    ensures
        suwar(r@) == rattib_s(suwar(v@), qabl_f()),
{
    let mut v = v;
    let ghost asl = v@;
    let n = v.len();
    let mut out: Vec<SatrMaqru> = Vec::new();
    let mut i: usize = 0;
    while v.len() > 0
        invariant
            i <= asl.len(),
            asl.len() == n,
            v@ == asl.skip(i as int),
            suwar(out@) == rattib_s(suwar(asl.take(i as int)), qabl_f()),
        decreases v.len(),
    {
        assert(asl.len() > i);
        assert(v@[0] == asl[i as int]);
        let x = v.remove(0);
        assert(v@ =~= asl.skip(i + 1));
        let mut k: usize = 0;
        while k < out.len() && !qabl_p(&x, &out[k])
            invariant
                k <= out@.len(),
                forall|j: int| 0 <= j < k ==> !qabl_satr(sura_satr(x), #[trigger] suwar(out@)[j]),
            decreases out@.len() - k,
        {
            k = k + 1;
        }
        proof {
            let p = suwar(out@);
            let q = |e: SuratSatr| (qabl_f())(sura_satr(x), e);
            lemma_awwal(p, q, k as int);
            assert(q =~= (|e: SuratSatr| (qabl_f())(sura_satr(x), e)));
            assert(mawdi_idraj(p, sura_satr(x), qabl_f()) == k);
            lemma_suwar_take(asl, i as int);
        }
        let ghost qabla = out@;
        out.insert(k, x);
        proof {
            assert(suwar(out@) =~= suwar(qabla).insert(k as int, sura_satr(x)));
        }
        i = i + 1;
    }
    proof {
        lemma_suwar_kull(asl);
    }
    out
}

fn yandamij_p(a: &SatrMaqru, b: &SatrMaqru, f: u32) -> (r: bool)
    ensures
        r == yandamij_s(a.mawdi, b.mawdi, f),
{
    a.mutadakhil_amudiyan(b) && a.fajwa_ufuqiya(b) <= f
}

/// One line absorbing another.
fn idmij(a: SatrMaqru, b: &SatrMaqru) -> (r: SatrMaqru)
    ensures
        sura_satr(r) == idmij_s(sura_satr(a), sura_satr(*b)),
{
    let fasl = if a.fajwa_ufuqiya(b) == 0 {
        ""
    } else {
        " "
    };
    proof {
        reveal_strlit("");
        reveal_strlit(" ");
    }
    let mut nass = String::new();
    if b.mawdi.yasar < a.mawdi.yasar {
        ilhaq(&mut nass, b.nass.as_str());
        ilhaq(&mut nass, fasl);
        ilhaq(&mut nass, a.nass.as_str());
    } else {
        ilhaq(&mut nass, a.nass.as_str());
        ilhaq(&mut nass, fasl);
        ilhaq(&mut nass, b.nass.as_str());
    }
    let yasar = if a.mawdi.yasar <= b.mawdi.yasar {
        a.mawdi.yasar
    } else {
        b.mawdi.yasar
    };
    let aala = if a.mawdi.aala <= b.mawdi.aala {
        a.mawdi.aala
    } else {
        b.mawdi.aala
    };
    let (ya, yb) = (a.yameen(), b.yameen());
    let yameen = if ya >= yb {
        ya
    } else {
        yb
    };
    let (sa, sb) = (a.asfal(), b.asfal());
    let asfal = if sa >= sb {
        sa
    } else {
        sb
    };
    let r = SatrMaqru {
        nass,
        mawdi: MustatilBiksel {
            yasar,
            aala,
            ard: tarh_p(yameen, yasar),
            irtifa: tarh_p(asfal, aala),
        },
        thiqa: if a.thiqa <= b.thiqa {
            a.thiqa
        } else {
            b.thiqa
        },
        maqisa: a.maqisa && b.maqisa,
    };
    proof {
        assert(sura_satr(r).0 =~= idmij_s(sura_satr(a), sura_satr(*b)).0);
    }
    r
}

/// Takes lines in order, each absorbed into the first line already placed
/// that takes it in.
fn damj(v: Vec<SatrMaqru>, f: u32) -> (r: Vec<SatrMaqru>)
    ensures
        suwar(r@) == damj_s(suwar(v@), f),
{
    let mut v = v;
    let ghost asl = v@;
    let n = v.len();
    let mut acc: Vec<SatrMaqru> = Vec::new();
    let mut i: usize = 0;
    while v.len() > 0
        invariant
            i <= asl.len(),
            asl.len() == n,
            v@ == asl.skip(i as int),
            suwar(acc@) == damj_s(suwar(asl.take(i as int)), f),
        decreases v.len(),
    {
        assert(v@[0] == asl[i as int]);
        let x = v.remove(0);
        assert(v@ =~= asl.skip(i + 1));
        let mut k: usize = 0;
        while k < acc.len() && !yandamij_p(&acc[k], &x, f)
            invariant
                k <= acc@.len(),
                forall|j: int| 0 <= j < k ==> !yandamij_s(#[trigger] suwar(acc@)[j].1, x.mawdi, f),
            decreases acc@.len() - k,
        {
            k = k + 1;
        }
        proof {
            let q = |e: SuratSatr| yandamij_s(e.1, sura_satr(x).1, f);
            lemma_awwal(suwar(acc@), q, k as int);
            assert(q =~= (|e: SuratSatr| yandamij_s(e.1, sura_satr(x).1, f)));
            lemma_suwar_take(asl, i as int);
        }
        let ghost qabla = acc@;
        if k < acc.len() {
            let m = acc.remove(k);
            let j = idmij(m, &x);
            acc.insert(k, j);
            proof {
                assert(suwar(acc@) =~= suwar(qabla).update(k as int, idmij_s(suwar(qabla)[k as int], sura_satr(x))));
            }
        } else {
            acc.push(x);
            proof {
                assert(suwar(acc@) =~= suwar(qabla).push(sura_satr(x)));
            }
        }
        i = i + 1;
    }
    proof {
        lemma_suwar_kull(asl);
    }
    acc
}

proof fn lemma_ghayr_khali(s: Seq<SuratSatr>)
    ensures
        kulluha(ghayr_khali_s(s), |e: SuratSatr| e.0.len() > 0),
        ghayr_khali_s(s).len() <= s.len(),
    decreases s.len(),
{
    if s.len() > 0 {
        lemma_ghayr_khali(s.drop_last());
        let g = ghayr_khali_s(s.drop_last());
        if s.last().0.len() > 0 {
            assert forall|i: int| 0 <= i < g.push(s.last()).len() implies (|e: SuratSatr| e.0.len()
                > 0)(#[trigger] g.push(s.last())[i]) by {
                if i < g.len() {
                    assert(g.push(s.last())[i] == g[i]);
                }
            }
        }
    }
}

proof fn lemma_damj(s: Seq<SuratSatr>, f: u32)
    requires
        kulluha(s, |e: SuratSatr| e.0.len() > 0),
    ensures
        kulluha(damj_s(s, f), |e: SuratSatr| e.0.len() > 0),
        damj_s(s, f).len() <= s.len(),
    decreases s.len(),
{
    if s.len() > 0 {
        assert(kulluha(s.drop_last(), |e: SuratSatr| e.0.len() > 0)) by {
            assert forall|i: int| 0 <= i < s.drop_last().len() implies (|e: SuratSatr| e.0.len()
                > 0)(#[trigger] s.drop_last()[i]) by {
                assert(s.drop_last()[i] == s[i]);
            }
        }
        lemma_damj(s.drop_last(), f);
        let acc = damj_s(s.drop_last(), f);
        let x = s.last();
        assert((|e: SuratSatr| e.0.len() > 0)(s[s.len() - 1]));
        let q = |e: SuratSatr| yandamij_s(e.1, x.1, f);
        lemma_awwal_hadd(acc, q);
        let k = awwal_s(acc, q);
        if k < acc.len() {
            let t = acc.update(k as int, idmij_s(acc[k as int], x));
            assert((|e: SuratSatr| e.0.len() > 0)(acc[k as int]));
            assert forall|i: int| 0 <= i < t.len() implies (|e: SuratSatr| e.0.len() > 0)(
                #[trigger] t[i],
            ) by {
                if i != k {
                    assert(t[i] == acc[i]);
                }
            }
        } else {
            let t = acc.push(x);
            assert forall|i: int| 0 <= i < t.len() implies (|e: SuratSatr| e.0.len() > 0)(
                #[trigger] t[i],
            ) by {
                if i < acc.len() {
                    assert(t[i] == acc[i]);
                }
            }
        }
    }
}

/// Rejoined lines come out in reading order: none stands higher than, or
/// level with and left of, a line placed before it.
pub proof fn qanun_mudmaj_murattab(s: Seq<SuratSatr>, f: u32)
    ensures
        murattab_s(mudmaj_s(s, f), qabl_f()),
{
    lemma_rattib(damj_s(rattib_s(ghayr_khali_s(s), qabl_f()), f), qabl_f());
}

/// Rejoining never yields an empty line, and never more lines than it was
/// given.
pub proof fn qanun_mudmaj_la_khali(s: Seq<SuratSatr>, f: u32)
    ensures
        forall|i: int| 0 <= i < mudmaj_s(s, f).len() ==> (#[trigger] mudmaj_s(s, f)[i]).0.len() > 0,
        mudmaj_s(s, f).len() <= s.len(),
{
    let p = |e: SuratSatr| e.0.len() > 0;
    lemma_ghayr_khali(s);
    let g = ghayr_khali_s(s);
    lemma_rattib(g, qabl_f());
    lemma_rattib_kulluha(g, qabl_f(), p);
    let d = damj_s(rattib_s(g, qabl_f()), f);
    lemma_damj(rattib_s(g, qabl_f()), f);
    lemma_rattib(d, qabl_f());
    lemma_rattib_kulluha(d, qabl_f(), p);
    assert forall|i: int| 0 <= i < mudmaj_s(s, f).len() implies (#[trigger] mudmaj_s(s, f)[i]).0.len()
        > 0 by {
        assert(p(mudmaj_s(s, f)[i]));
    }
}

impl SatrMaqru {
    /// Joins boxes that are two halves of one line: the empty lines are
    /// dropped, the rest put in reading order, each absorbed into the first
    /// line before it that shares more than half of the shorter height and
    /// stands at most `aqsa_fajwa` pixels away, and the result put in reading
    /// order again.
    pub fn mudmaj(sutur: Vec<SatrMaqru>, aqsa_fajwa: u32) -> (r: Vec<SatrMaqru>)
        ensures
            suwar(r@) == mudmaj_s(suwar(sutur@), aqsa_fajwa),
    {
        let mut v = sutur;
        let ghost asl = v@;
        let n = v.len();
        let mut g: Vec<SatrMaqru> = Vec::new();
        let mut i: usize = 0;
        while v.len() > 0
            invariant
                i <= asl.len(),
                asl.len() == n,
                v@ == asl.skip(i as int),
                suwar(g@) == ghayr_khali_s(suwar(asl.take(i as int))),
            decreases v.len(),
        {
            assert(v@[0] == asl[i as int]);
            let x = v.remove(0);
            assert(v@ =~= asl.skip(i + 1));
            proof {
                lemma_suwar_take(asl, i as int);
            }
            let ghost qabla = g@;
            if !x.khali() {
                g.push(x);
                proof {
                    assert(suwar(g@) =~= suwar(qabla).push(sura_satr(x)));
                }
            }
            i = i + 1;
        }
        proof {
            lemma_suwar_kull(asl);
        }
        let murattab = rattib_sutur(g);
        let mudmaja = damj(murattab, aqsa_fajwa);
        rattib_sutur(mudmaja)
    }
}

/// The box heights that are not zero, in order.
pub open spec fn irtifaat_s(s: Seq<SuratSatr>) -> Seq<u32>
    decreases s.len(),
{
    if s.len() == 0 {
        Seq::empty()
    } else if s.last().1.irtifa > 0 {
        irtifaat_s(s.drop_last()).push(s.last().1.irtifa)
    } else {
        irtifaat_s(s.drop_last())
    }
}

/// Smaller first.
pub open spec fn asghar_f() -> spec_fn(u32, u32) -> bool {
    |a: u32, b: u32| a < b
}

/// The merge gap a set of lines suggests: one and a half times the median
/// height of the boxes that have one (the upper median of an even count),
/// at least four pixels; twenty when no box has a height.
pub open spec fn fajwa_muqtaraha_s(s: Seq<SuratSatr>) -> u32 {
    let h = rattib_s(irtifaat_s(s), asghar_f());
    if h.len() == 0 {
        20
    } else {
        let w = h[(h.len() / 2) as int];
        let thulth = if 3 * w > u32::MAX {
            u32::MAX
        } else {
            (3 * w) as u32
        };
        let m = thulth / 2;
        if m >= 4 {
            m
        } else {
            4
        }
    }
}

fn rattib_adad(v: &Vec<u32>) -> (r: Vec<u32>)
    ensures
        r@ == rattib_s(v@, asghar_f()),
{
    let mut out: Vec<u32> = Vec::new();
    let mut i: usize = 0;
    while i < v.len()
        invariant
            i <= v@.len(),
            out@ == rattib_s(v@.take(i as int), asghar_f()),
        decreases v@.len() - i,
    {
        let x = v[i];
        let mut k: usize = 0;
        while k < out.len() && !(x < out[k])
            invariant
                k <= out@.len(),
                forall|j: int| 0 <= j < k ==> !(x < #[trigger] out@[j]),
            decreases out@.len() - k,
        {
            k = k + 1;
        }
        proof {
            let q = |e: u32| (asghar_f())(x, e);
            lemma_awwal(out@, q, k as int);
            assert(q =~= (|e: u32| (asghar_f())(x, e)));
            assert(v@.take(i + 1).drop_last() =~= v@.take(i as int));
        }
        out.insert(k, x);
        i = i + 1;
    }
    proof {
        assert(v@.take(v@.len() as int) =~= v@);
    }
    out
}

/// The merge gap a set of lines suggests, for `SatrMaqru::mudmaj`: one and
/// a half times the median height of the boxes that have one, at least four
/// pixels; twenty when none has a height.
pub fn fajwa_muqtaraha(sutur: &[SatrMaqru]) -> (r: u32)
    ensures
        r == fajwa_muqtaraha_s(suwar(sutur@)),
{
    let mut h: Vec<u32> = Vec::new();
    let mut i: usize = 0;
    while i < sutur.len()
        invariant
            i <= sutur@.len(),
            h@ == irtifaat_s(suwar(sutur@.take(i as int))),
        decreases sutur@.len() - i,
    {
        proof {
            lemma_suwar_take(sutur@, i as int);
        }
        if sutur[i].mawdi.irtifa > 0 {
            h.push(sutur[i].mawdi.irtifa);
        }
        i = i + 1;
    }
    proof {
        lemma_suwar_kull(sutur@);
    }
    let m = rattib_adad(&h);
    proof {
        lemma_rattib(h@, asghar_f());
    }
    if m.len() == 0 {
        return 20;
    }
    let w = m[m.len() / 2];
    let thulth = if w <= u32::MAX / 3 {
        3 * w
    } else {
        u32::MAX
    };
    let n = thulth / 2;
    if n >= 4 {
        n
    } else {
        4
    }
}

/// The fewest single-character insertions, deletions and substitutions that
/// turn `a` into `b`.
pub open spec fn masafa_s(a: Seq<char>, b: Seq<char>) -> nat
    decreases a.len() + b.len(),
{
    if a.len() == 0 {
        b.len()
    } else if b.len() == 0 {
        a.len()
    } else {
        let q = masafa_s(a.drop_last(), b.drop_last()) + if a.last() == b.last() {
            0nat
        } else {
            1nat
        };
        let f = masafa_s(a.drop_last(), b) + 1;
        let y = masafa_s(a, b.drop_last()) + 1;
        let m = if q <= f {
            q
        } else {
            f
        };
        if m <= y {
            m
        } else {
            y
        }
    }
}

proof fn lemma_masafa_hadd(a: Seq<char>, b: Seq<char>)
    ensures
        masafa_s(a, b) <= if a.len() >= b.len() {
            a.len()
        } else {
            b.len()
        },
    decreases a.len() + b.len(),
{
    if a.len() > 0 && b.len() > 0 {
        lemma_masafa_hadd(a.drop_last(), b.drop_last());
    }
}

/// A text is no edit away from itself.
pub proof fn qanun_masafa_sifr(a: Seq<char>)
    ensures
        masafa_s(a, a) == 0,
    decreases a.len(),
{
    if a.len() > 0 {
        qanun_masafa_sifr(a.drop_last());
    }
}

/// The distance from one text to another is the distance back.
pub proof fn qanun_masafa_mutanazira(a: Seq<char>, b: Seq<char>)
    ensures
        masafa_s(a, b) == masafa_s(b, a),
    decreases a.len() + b.len(),
{
    if a.len() > 0 && b.len() > 0 {
        qanun_masafa_mutanazira(a.drop_last(), b.drop_last());
        qanun_masafa_mutanazira(a.drop_last(), b);
        qanun_masafa_mutanazira(a, b.drop_last());
    }
}

fn jam_wahid(x: usize) -> (r: usize)
    ensures
        r == if x < usize::MAX {
            x + 1
        } else {
            x as int
        },
{
    if x < usize::MAX {
        x + 1
    } else {
        x
    }
}

/// The edit distance between two texts, in characters.
pub fn masafat_tahrir(awwal: &str, thani: &str) -> (r: usize)
    ensures
        r == masafa_s(awwal@, thani@),
{
    let a = huruf(awwal);
    let b = huruf(thani);
    let n = a.len();
    let m = b.len();
    if n == 0 {
        return m;
    }
    if m == 0 {
        return n;
    }
    let mut sabiq: Vec<usize> = Vec::new();
    sabiq.push(0);
    let mut j: usize = 0;
    while j < m
        invariant
            j <= m,
            m == b@.len(),
            sabiq@.len() == j + 1,
            forall|t: int| 0 <= t <= j ==> #[trigger] sabiq@[t] == masafa_s(a@.take(0), b@.take(t)),
        decreases m - j,
    {
        proof {
            assert(a@.take(0).len() == 0);
            assert(b@.take(j + 1).len() == j + 1);
        }
        sabiq.push(j + 1);
        j = j + 1;
    }
    let mut i: usize = 0;
    while i < n
        invariant
            i <= n,
            n == a@.len(),
            m == b@.len(),
            m > 0,
            sabiq@.len() == m + 1,
            forall|t: int| 0 <= t <= m ==> #[trigger] sabiq@[t] == masafa_s(a@.take(i as int), b@.take(t)),
        decreases n - i,
    {
        let mut hali: Vec<usize> = Vec::new();
        proof {
            assert(a@.take(i + 1).len() == i + 1);
            assert(b@.take(0).len() == 0);
        }
        hali.push(i + 1);
        let mut j: usize = 0;
        while j < m
            invariant
                i < n,
                j <= m,
                n == a@.len(),
                m == b@.len(),
                sabiq@.len() == m + 1,
                hali@.len() == j + 1,
                forall|t: int| 0 <= t <= m ==> #[trigger] sabiq@[t] == masafa_s(a@.take(i as int), b@.take(t)),
                forall|t: int| 0 <= t <= j ==> #[trigger] hali@[t] == masafa_s(a@.take(i + 1), b@.take(t)),
            decreases m - j,
        {
            let takleefa: usize = if a[i] == b[j] {
                0
            } else {
                1
            };
            let qutri_asl = sabiq[j];
            let qutri = if takleefa == 0 {
                qutri_asl
            } else {
                jam_wahid(qutri_asl)
            };
            let fawq = jam_wahid(sabiq[j + 1]);
            let yasar = jam_wahid(hali[j]);
            let q = if qutri <= fawq {
                qutri
            } else {
                fawq
            };
            let w = if q <= yasar {
                q
            } else {
                yasar
            };
            proof {
                let ai = a@.take(i + 1);
                let bj = b@.take(j + 1);
                assert(ai.drop_last() =~= a@.take(i as int));
                assert(bj.drop_last() =~= b@.take(j as int));
                assert(ai.last() == a@[i as int]);
                assert(bj.last() == b@[j as int]);
                lemma_masafa_hadd(ai, bj);
                assert(ai.len() <= n && bj.len() <= m);
            }
            hali.push(w);
            j = j + 1;
        }
        sabiq = hali;
        i = i + 1;
    }
    proof {
        assert(a@.take(n as int) =~= a@);
        assert(b@.take(m as int) =~= b@);
    }
    sabiq[m]
}

/// Whether the standard library counts a character as alphabetic.
pub uninterp spec fn harf_abjadi_s(c: char) -> bool;

/// Whether the standard library counts a character as upper case.
pub uninterp spec fn harf_kabir_s(c: char) -> bool;

/// Whether the standard library counts a character as lower case.
pub uninterp spec fn harf_saghir_s(c: char) -> bool;

/// Whether the standard library counts a character as numeric.
pub uninterp spec fn harf_raqmi_s(c: char) -> bool;

/// Calls `char::is_alphabetic`; the contract only names the result, which
/// depends on the character alone.
#[verifier::external_body]
fn harf_abjadi(c: char) -> (r: bool)
    ensures
        r == harf_abjadi_s(c),
{
    c.is_alphabetic()
}

/// Calls `char::is_uppercase`; the contract only names the result.
#[verifier::external_body]
fn harf_kabir(c: char) -> (r: bool)
    ensures
        r == harf_kabir_s(c),
{
    c.is_uppercase()
}

/// Calls `char::is_lowercase`; the contract only names the result.
#[verifier::external_body]
fn harf_saghir(c: char) -> (r: bool)
    ensures
        r == harf_saghir_s(c),
{
    c.is_lowercase()
}

/// Calls `char::is_numeric`; the contract only names the result.
#[verifier::external_body]
fn harf_raqmi(c: char) -> (r: bool)
    ensures
        r == harf_raqmi_s(c),
{
    c.is_numeric()
}

/// What the shape rules need to know of one character.
#[derive(Debug, Clone, Copy, PartialEq, Eq, Structural)]
pub struct SinfHarf {
    /// The character.
    pub harf: char,
    /// Whether it is alphabetic.
    pub abjadi: bool,
    /// Whether it is upper case.
    pub kabir: bool,
    /// Whether it is lower case.
    pub saghir: bool,
    /// Whether it is numeric.
    pub raqmi: bool,
}

/// A character's classes, as the standard library gives them.
pub open spec fn sinf_s(c: char) -> SinfHarf {
    SinfHarf {
        harf: c,
        abjadi: harf_abjadi_s(c),
        kabir: harf_kabir_s(c),
        saghir: harf_saghir_s(c),
        raqmi: harf_raqmi_s(c),
    }
}

/// Each character's classes, in order.
pub open spec fn asnaf_s(k: Seq<char>) -> Seq<SinfHarf> {
    k.map_values(|c: char| sinf_s(c))
}

/// Classifies one character.
pub fn sannif(c: char) -> (r: SinfHarf)
    ensures
        r == sinf_s(c),
{
    SinfHarf {
        harf: c,
        abjadi: harf_abjadi(c),
        kabir: harf_kabir(c),
        saghir: harf_saghir(c),
        raqmi: harf_raqmi(c),
    }
}

/// The two single-letter English words, in both cases.
pub open spec fn harf_kalima_s(c: char) -> bool {
    c == 'a' || c == 'A' || c == 'i' || c == 'I'
}

/// The case of the letters just scanned: nothing (the last character was
/// not a cased letter), a lower case letter, one capital, or a run of two or
/// more capitals.
pub open spec fn halat_jadida(h: SinfHarf, sabiq: int) -> int {
    if !h.abjadi {
        0
    } else if h.saghir {
        1
    } else if h.kabir {
        if sabiq >= 2 {
            3
        } else {
            2
        }
    } else {
        0
    }
}

/// What a scan of a token has seen: the case of the letters just scanned
/// (see [`halat_jadida`]), whether there was a letter, a digit, something
/// else, and a case change inside a word: a capital right after a lower case
/// letter (`iAW`, `McCoy`), or a lower case letter right after a run of two
/// or more capitals (`REBSDTo`). A capital that starts a word (`The`) is no
/// change.
pub open spec fn mash_s(k: Seq<SinfHarf>) -> (int, bool, bool, bool, bool)
    decreases k.len(),
{
    if k.len() == 0 {
        (0, false, false, false, false)
    } else {
        let (ss, fh, fr, fg, tg) = mash_s(k.drop_last());
        let h = k.last();
        if h.abjadi {
            (
                halat_jadida(h, ss),
                true,
                fr,
                fg,
                tg || (h.kabir && ss == 1) || (h.saghir && ss == 3),
            )
        } else if h.raqmi {
            (0, fh, true, fg, tg)
        } else {
            (0, fh, fr, true, tg)
        }
    }
}

/// Whether a token has a shape ordinary text does not: a lone letter that is
/// not a word; more than one character and nothing but punctuation; a case
/// change inside a word; letters and digits in one token.
pub open spec fn mushawwaha_s(k: Seq<SinfHarf>) -> bool {
    if k.len() == 0 {
        false
    } else if k.len() == 1 {
        k[0].abjadi && !harf_kalima_s(k[0].harf)
    } else {
        let (_, fh, fr, fg, tg) = mash_s(k);
        (!fh && !fr && fg) || tg || (fh && fr)
    }
}

/// The shape rules on classified characters.
pub fn mushawwaha_min_asnaf(k: &[SinfHarf]) -> (r: bool)
    ensures
        r == mushawwaha_s(k@),
{
    if k.len() == 0 {
        return false;
    }
    if k.len() == 1 {
        let w = k[0].harf;
        return k[0].abjadi && !(w == 'a' || w == 'A' || w == 'i' || w == 'I');
    }
    let mut ss: u8 = 0;
    let mut fh = false;
    let mut fr = false;
    let mut fg = false;
    let mut tg = false;
    let mut i: usize = 0;
    while i < k.len()
        invariant
            i <= k@.len(),
            (ss as int, fh, fr, fg, tg) == mash_s(k@.take(i as int)),
            ss <= 3,
        decreases k@.len() - i,
    {
        proof {
            assert(k@.take(i + 1).drop_last() =~= k@.take(i as int));
        }
        let h = k[i];
        if h.abjadi {
            tg = tg || (h.kabir && ss == 1) || (h.saghir && ss == 3);
            fh = true;
            ss = if h.saghir {
                1
            } else if h.kabir {
                if ss >= 2 {
                    3
                } else {
                    2
                }
            } else {
                0
            };
        } else {
            if h.raqmi {
                fr = true;
            } else {
                fg = true;
            }
            ss = 0;
        }
        i = i + 1;
    }
    proof {
        assert(k@.take(k@.len() as int) =~= k@);
    }
    (!fh && !fr && fg) || tg || (fh && fr)
}

/// Whether one white-space separated token has a shape ordinary text does
/// not.
pub fn kalima_mushawwaha(kalima: &str) -> (r: bool)
    ensures
        r == mushawwaha_s(asnaf_s(kalima@)),
{
    let h = huruf(kalima);
    let a = asnaf(&h);
    mushawwaha_min_asnaf(a.as_slice())
}

fn asnaf(h: &Vec<char>) -> (r: Vec<SinfHarf>)
    ensures
        r@ == asnaf_s(h@),
{
    let mut r: Vec<SinfHarf> = Vec::new();
    let mut i: usize = 0;
    while i < h.len()
        invariant
            i <= h@.len(),
            r@ == asnaf_s(h@.take(i as int)),
        decreases h@.len() - i,
    {
        r.push(sannif(h[i]));
        proof {
            assert(r@ =~= asnaf_s(h@.take(i + 1)));
        }
        i = i + 1;
    }
    proof {
        assert(h@.take(h@.len() as int) =~= h@);
    }
    r
}

/// Whether a character is a letter or a digit.
pub open spec fn abjadi_raqmi_s(h: SinfHarf) -> bool {
    h.abjadi || h.raqmi
}

/// Whether any character of a run is a letter or a digit.
pub open spec fn fiha_abjadi_raqmi(k: Seq<SinfHarf>) -> bool {
    exists|i: int| 0 <= i < k.len() && abjadi_raqmi_s(#[trigger] k[i])
}

/// How many question marks stand for a glyph the engine could not read:
/// those with a letter or a digit somewhere after them.
pub open spec fn majhula_s(k: Seq<SinfHarf>) -> nat
    decreases k.len(),
{
    if k.len() == 0 {
        0
    } else {
        let r = majhula_s(k.drop_first());
        if k[0].harf == '?' && fiha_abjadi_raqmi(k.drop_first()) {
            r + 1
        } else {
            r
        }
    }
}

/// The unread-glyph markers on classified characters.
pub fn majhula_min_asnaf(k: &[SinfHarf]) -> (r: usize)
    ensures
        r == majhula_s(k@),
{
    let mut adad: usize = 0;
    let mut baad = false;
    let mut i: usize = k.len();
    while i > 0
        invariant
            i <= k@.len(),
            adad == majhula_s(k@.skip(i as int)),
            adad <= k@.len() - i,
            baad == fiha_abjadi_raqmi(k@.skip(i as int)),
        decreases i,
    {
        let h = k[i - 1];
        proof {
            assert(k@.skip(i - 1).drop_first() =~= k@.skip(i as int));
            assert(k@.skip(i - 1)[0] == h);
            if fiha_abjadi_raqmi(k@.skip(i as int)) {
                let j = choose|j: int| 0 <= j < k@.skip(i as int).len() && abjadi_raqmi_s(#[trigger] k@.skip(i as int)[j]);
                assert(k@.skip(i - 1)[j + 1] == k@.skip(i as int)[j]);
            }
            if abjadi_raqmi_s(h) {
                assert(abjadi_raqmi_s(k@.skip(i - 1)[0]));
            }
            if fiha_abjadi_raqmi(k@.skip(i - 1)) {
                let j = choose|j: int| 0 <= j < k@.skip(i - 1).len() && abjadi_raqmi_s(#[trigger] k@.skip(i - 1)[j]);
                if j > 0 {
                    assert(k@.skip(i as int)[j - 1] == k@.skip(i - 1)[j]);
                }
            }
        }
        if h.harf == '?' && baad {
            adad = adad + 1;
        }
        baad = baad || h.abjadi || h.raqmi;
        i = i - 1;
    }
    proof {
        assert(k@.skip(0) =~= k@);
    }
    adad
}

/// How many unread-glyph markers one token carries.
pub fn alamat_majhula(kalima: &str) -> (r: usize)
    ensures
        r == majhula_s(asnaf_s(kalima@)),
{
    let h = huruf(kalima);
    let a = asnaf(&h);
    majhula_min_asnaf(a.as_slice())
}

/// The punctuation that appears in game text.
pub const RUMUZ_MAQBULA: &'static str = ".,:;'\"-()[]{}/\\%&+*=<>#@$_|~`^…—–°′″×÷";

/// Whether a character is one the screen plausibly carried: a letter, a
/// digit, a space, a question or exclamation mark, or punctuation game text
/// uses.
pub open spec fn maqbul_s(h: SinfHarf) -> bool {
    h.abjadi || h.raqmi || h.harf == ' ' || h.harf == '?' || h.harf == '!' || RUMUZ_MAQBULA@.contains(
        h.harf,
    )
}

/// How many characters of a run are not plausible.
pub open spec fn ramz_s(k: Seq<SinfHarf>) -> nat
    decreases k.len(),
{
    if k.len() == 0 {
        0
    } else {
        ramz_s(k.drop_last()) + if maqbul_s(k.last()) {
            0nat
        } else {
            1nat
        }
    }
}

/// `a + b`, stopping at the largest `usize`.
pub open spec fn jam_usize(a: usize, b: nat) -> usize {
    if a + b > usize::MAX {
        usize::MAX
    } else {
        (a + b) as usize
    }
}

/// The counts a read's shape is judged on.
#[derive(Debug, Clone, Copy, PartialEq, Eq, Structural)]
pub struct AdadBunya {
    /// Characters read, white space aside.
    pub huruf: usize,
    /// Of those, the ones the screen plausibly did not carry.
    pub ramz: usize,
    /// Glyphs the engine marked as unread.
    pub majhula: usize,
    /// White-space separated tokens.
    pub kalimat: usize,
    /// Of those, the ones whose shape ordinary text does not have.
    pub mushawwaha: usize,
}

/// The counts over a list of tokens, each sum stopping at the largest
/// `usize`.
pub open spec fn adad_bunya_s(t: Seq<Seq<char>>) -> AdadBunya
    decreases t.len(),
{
    if t.len() == 0 {
        AdadBunya { huruf: 0, ramz: 0, majhula: 0, kalimat: 0, mushawwaha: 0 }
    } else {
        let p = adad_bunya_s(t.drop_last());
        let k = asnaf_s(t.last());
        AdadBunya {
            huruf: jam_usize(p.huruf, k.len()),
            ramz: jam_usize(p.ramz, ramz_s(k)),
            majhula: jam_usize(p.majhula, majhula_s(k)),
            kalimat: jam_usize(p.kalimat, 1),
            mushawwaha: jam_usize(
                p.mushawwaha,
                if mushawwaha_s(k) {
                    1
                } else {
                    0
                },
            ),
        }
    }
}

fn jam_ila(a: usize, b: usize) -> (r: usize)
    ensures
        r == jam_usize(a, b as nat),
{
    if a <= usize::MAX - b {
        a + b
    } else {
        usize::MAX
    }
}

fn maqbul_min_sinf(h: SinfHarf, rumuz: &Vec<char>) -> (r: bool)
    requires
        rumuz@ == RUMUZ_MAQBULA@,
    ensures
        r == maqbul_s(h),
{
    if h.abjadi || h.raqmi || h.harf == ' ' || h.harf == '?' || h.harf == '!' {
        return true;
    }
    let mut i: usize = 0;
    while i < rumuz.len()
        invariant
            i <= rumuz@.len(),
            rumuz@ == RUMUZ_MAQBULA@,
            forall|j: int| 0 <= j < i ==> #[trigger] rumuz@[j] != h.harf,
        decreases rumuz@.len() - i,
    {
        if rumuz[i] == h.harf {
            assert(RUMUZ_MAQBULA@[i as int] == h.harf);
            return true;
        }
        i = i + 1;
    }
    false
}

/// Whether one character is one the screen plausibly carried.
pub fn harf_maqbul(harf: char) -> (r: bool)
    ensures
        r == maqbul_s(sinf_s(harf)),
{
    let rumuz = huruf(RUMUZ_MAQBULA);
    maqbul_min_sinf(sannif(harf), &rumuz)
}

fn ramz_min_asnaf(k: &Vec<SinfHarf>, rumuz: &Vec<char>) -> (r: usize)
    requires
        rumuz@ == RUMUZ_MAQBULA@,
    ensures
        r == ramz_s(k@),
{
    let mut r: usize = 0;
    let mut i: usize = 0;
    while i < k.len()
        invariant
            i <= k@.len(),
            rumuz@ == RUMUZ_MAQBULA@,
            r == ramz_s(k@.take(i as int)),
            r <= i,
        decreases k@.len() - i,
    {
        proof {
            assert(k@.take(i + 1).drop_last() =~= k@.take(i as int));
        }
        if !maqbul_min_sinf(k[i], rumuz) {
            r = r + 1;
        }
        i = i + 1;
    }
    proof {
        assert(k@.take(k@.len() as int) =~= k@);
    }
    r
}

/// Measures a read's shape without judging it: the counts of characters,
/// implausible characters, unread-glyph markers, tokens and malformed
/// tokens.
pub fn adad_bunya(nass: &str) -> (r: AdadBunya)
    ensures
        r == adad_bunya_s(kalimat(nass@)),
{
    let h = huruf(nass);
    let t = qassim_kalimat(&h);
    let rumuz = huruf(RUMUZ_MAQBULA);
    let mut r = AdadBunya { huruf: 0, ramz: 0, majhula: 0, kalimat: 0, mushawwaha: 0 };
    let mut i: usize = 0;
    while i < t.len()
        invariant
            i <= t@.len(),
            t@.len() == kalimat(nass@).len(),
            forall|j: int| 0 <= j < t@.len() ==> #[trigger] t@[j]@ == kalimat(nass@)[j],
            rumuz@ == RUMUZ_MAQBULA@,
            r == adad_bunya_s(kalimat(nass@).take(i as int)),
        decreases t@.len() - i,
    {
        proof {
            assert(kalimat(nass@).take(i + 1).drop_last() =~= kalimat(nass@).take(i as int));
        }
        let k = asnaf(&t[i]);
        let ramz = ramz_min_asnaf(&k, &rumuz);
        let majhula = majhula_min_asnaf(k.as_slice());
        let mush = mushawwaha_min_asnaf(k.as_slice());
        r = AdadBunya {
            huruf: jam_ila(r.huruf, k.len()),
            ramz: jam_ila(r.ramz, ramz),
            majhula: jam_ila(r.majhula, majhula),
            kalimat: jam_ila(r.kalimat, 1),
            mushawwaha: jam_ila(
                r.mushawwaha,
                if mush {
                    1
                } else {
                    0
                },
            ),
        };
        i = i + 1;
    }
    proof {
        assert(kalimat(nass@).take(kalimat(nass@).len() as int) =~= kalimat(nass@));
    }
    r
}

/// Whether a reading is worth translating, and if not, why.
#[derive(Debug, Clone, PartialEq, Eq)]
pub enum HukmQira {
    /// Translate it.
    Maqbul,
    /// Do not.
    Marfud {
        /// Why, in English.
        sabab: String,
    },
}

impl HukmQira {
    /// Whether the reading was accepted.
    pub fn maqbul(&self) -> (r: bool)
        ensures
            r == (*self is Maqbul),
    {
        match self {
            HukmQira::Maqbul => true,
            _ => false,
        }
    }

    /// Why the reading was refused, when it was.
    pub fn sabab(&self) -> (r: Option<&str>)
        ensures
            match *self {
                HukmQira::Maqbul => r is None,
                HukmQira::Marfud { sabab } => r matches Some(s) && s@ == sabab@,
            },
    {
        match self {
            HukmQira::Maqbul => None,
            HukmQira::Marfud { sabab } => Some(sabab.as_str()),
        }
    }
}

/// A reading that went through the checks, with its verdict.
#[derive(Debug, Clone, PartialEq, Eq)]
pub struct QiraMufattasha {
    /// The lines, rejoined.
    pub sutur: Vec<SatrMaqru>,
    /// Whether they are worth translating.
    pub hukm: HukmQira,
    /// Whether a second reading of the same image was made and agreed.
    pub tawafuq_jara: bool,
}

impl QiraMufattasha {
    /// The text to translate, when the reading was accepted.
    pub fn nass_maqbul(&self) -> (r: Option<String>)
        ensures
            self.hukm is Maqbul ==> (r matches Some(n) && n@ == fiqra_s(self.sutur@)),
            !(self.hukm is Maqbul) ==> r is None,
    {
        if self.hukm.maqbul() {
            Some(SatrMaqru::fiqra(self.sutur.as_slice()))
        } else {
            None
        }
    }
}

/// What a region's reading was judged, with its confidence when the engine
/// measured one.
#[derive(Debug, Clone, PartialEq, Eq)]
pub struct ThiqatMintaqa {
    /// The lowest measured confidence, or nothing when unmeasured.
    pub thiqa: Option<u8>,
    /// The verdict.
    pub hukm: HukmQira,
}

/// The sentence a report carries for a region's verdict.
pub open spec fn wasf_thiqa_mintaqa(t: ThiqatMintaqa) -> Seq<char> {
    let thiqa = match t.thiqa {
        None => "confidence: unmeasured — this engine reports none"@,
        Some(q) => "confidence: "@ + ashri(q as nat) + "%, the engine's own"@,
    };
    match t.hukm {
        HukmQira::Maqbul => thiqa + "; accepted"@,
        HukmQira::Marfud { sabab } => thiqa + "; refused — "@ + sabab@,
    }
}

impl ThiqatMintaqa {
    /// The sentence a report carries: the confidence, then the verdict.
    pub fn wasf(&self) -> (r: String)
        ensures
            r@ == wasf_thiqa_mintaqa(*self),
    {
        let mut r = match self.thiqa {
            None => min_nass("confidence: unmeasured — this engine reports none"),
            Some(q) => {
                let mut t = min_nass("confidence: ");
                aktub_ashri(&mut t, q as u64);
                ilhaq(&mut t, "%, the engine's own");
                t
            },
        };
        match &self.hukm {
            HukmQira::Maqbul => ilhaq(&mut r, "; accepted"),
            HukmQira::Marfud { sabab } => {
                ilhaq(&mut r, "; refused — ");
                ilhaq(&mut r, sabab.as_str());
            },
        }
        r
    }
}

/// A character with an ASCII capital lowered, as `to_ascii_lowercase` does;
/// everything else as it is.
pub open spec fn saghir_ascii(c: char) -> char {
    if 'A' <= c && c <= 'Z' {
        ((c as u32) + 32) as char
    } else {
        c
    }
}

/// A text with its ASCII capitals lowered.
pub open spec fn saghir_ascii_s(s: Seq<char>) -> Seq<char> {
    s.map_values(|c: char| saghir_ascii(c))
}

/// Where a language tag's primary subtag ends: at the first `-` or `_`,
/// searching from `i`, or at the end.
pub open spec fn nihayat_jidhr(s: Seq<char>, i: nat) -> nat
    decreases s.len() - i,
{
    if i >= s.len() {
        s.len()
    } else if s[i as int] == '-' || s[i as int] == '_' {
        i
    } else {
        nihayat_jidhr(s, i + 1)
    }
}

/// A language tag's primary subtag, ASCII-lowered.
pub open spec fn jidhr_s(s: Seq<char>) -> Seq<char> {
    saghir_ascii_s(s.take(nihayat_jidhr(s, 0) as int))
}

/// Whether an available language tag satisfies a requested one: the same
/// tag ignoring ASCII case, or the same non-empty primary subtag, so `en`
/// matches `en-US` and `en-GB` matches `en-US`.
pub open spec fn yutabiq_lugha_s(mutah: Seq<char>, matlub: Seq<char>) -> bool {
    saghir_ascii_s(mutah) == saghir_ascii_s(matlub) || (jidhr_s(mutah).len() > 0 && jidhr_s(mutah)
        == jidhr_s(matlub))
}

/// Whether an engine reading the tags `lughat` covers at least one of the
/// requested `wusum`; an empty request asks for the platform default, which
/// any engine satisfies.
pub open spec fn yaqra_al_matlub_s(lughat: Seq<Seq<char>>, wusum: Seq<Seq<char>>) -> bool {
    wusum.len() == 0 || exists|i: int, j: int|
        0 <= i < wusum.len() && 0 <= j < lughat.len() && yutabiq_lugha_s(
            #[trigger] lughat[j],
            #[trigger] wusum[i],
        )
}

fn saghir_ascii_h(s: &Vec<char>, ila: usize) -> (r: Vec<char>)
    requires
        ila <= s@.len(),
    ensures
        r@ == saghir_ascii_s(s@.take(ila as int)),
{
    let mut r: Vec<char> = Vec::new();
    let mut i: usize = 0;
    while i < ila
        invariant
            i <= ila <= s@.len(),
            r@ == saghir_ascii_s(s@.take(i as int)),
        decreases ila - i,
    {
        let c = s[i];
        let d = if 'A' <= c && c <= 'Z' {
            ((c as u32) + 32) as u8 as char
        } else {
            c
        };
        proof {
            if 'A' <= c && c <= 'Z' {
                assert(((c as u32) + 32) < 256);
            }
        }
        r.push(d);
        proof {
            assert(r@ =~= saghir_ascii_s(s@.take(i + 1)));
        }
        i = i + 1;
    }
    r
}

fn nihayat_jidhr_h(s: &Vec<char>) -> (r: usize)
    ensures
        r == nihayat_jidhr(s@, 0),
        r <= s@.len(),
{
    let mut i: usize = 0;
    while i < s.len()
        invariant
            i <= s@.len(),
            nihayat_jidhr(s@, 0) == nihayat_jidhr(s@, i as nat),
        decreases s@.len() - i,
    {
        if s[i] == '-' || s[i] == '_' {
            return i;
        }
        i = i + 1;
    }
    i
}

/// Whether an available language tag satisfies a requested one.
pub fn yutabiq_lugha(mutah: &str, matlub: &str) -> (r: bool)
    ensures
        r == yutabiq_lugha_s(mutah@, matlub@),
{
    let a = huruf(mutah);
    let b = huruf(matlub);
    let sa = saghir_ascii_h(&a, a.len());
    let sb = saghir_ascii_h(&b, b.len());
    proof {
        assert(a@.take(a@.len() as int) =~= a@);
        assert(b@.take(b@.len() as int) =~= b@);
    }
    if crate::nass::sawa(&sa, &sb) {
        return true;
    }
    let ja = saghir_ascii_h(&a, nihayat_jidhr_h(&a));
    let jb = saghir_ascii_h(&b, nihayat_jidhr_h(&b));
    ja.len() > 0 && crate::nass::sawa(&ja, &jb)
}

/// Whether an engine reading the tags `lughat` covers one of the requested
/// `wusum`.
pub fn yaqra_al_matlub(lughat: &Vec<String>, wusum: &Vec<String>) -> (r: bool)
    ensures
        r == yaqra_al_matlub_s(lughat@.map_values(|l: String| l@), wusum@.map_values(|w: String| w@)),
{
    let ghost l = lughat@.map_values(|l: String| l@);
    let ghost w = wusum@.map_values(|w: String| w@);
    if wusum.len() == 0 {
        return true;
    }
    let mut i: usize = 0;
    while i < wusum.len()
        invariant
            i <= wusum@.len(),
            l == lughat@.map_values(|l: String| l@),
            w == wusum@.map_values(|w: String| w@),
            forall|a: int, b: int| 0 <= a < i && 0 <= b < l.len() ==> !yutabiq_lugha_s(l[b], w[a]),
        decreases wusum@.len() - i,
    {
        let mut j: usize = 0;
        while j < lughat.len()
            invariant
                i < wusum@.len(),
                j <= lughat@.len(),
                l == lughat@.map_values(|l: String| l@),
                w == wusum@.map_values(|w: String| w@),
                forall|a: int, b: int| 0 <= a < i && 0 <= b < l.len() ==> !yutabiq_lugha_s(l[b], w[a]),
                forall|b: int| 0 <= b < j ==> !yutabiq_lugha_s(l[b], w[i as int]),
            decreases lughat@.len() - j,
        {
            if yutabiq_lugha(lughat[j].as_str(), wusum[i].as_str()) {
                proof {
                    assert(yutabiq_lugha_s(l[j as int], w[i as int]));
                }
                return true;
            }
            j = j + 1;
        }
        i = i + 1;
    }
    false
}

/// `v` joined with `fasil` between each two, as `join` does.
pub open spec fn wasl_s(v: Seq<Seq<char>>, fasil: Seq<char>) -> Seq<char>
    decreases v.len(),
{
    if v.len() == 0 {
        Seq::empty()
    } else if v.len() == 1 {
        v[0]
    } else {
        wasl_s(v.drop_last(), fasil) + fasil + v.last()
    }
}

/// Joins texts with a separator between each two.
pub fn wasl(v: &Vec<String>, fasil: &str) -> (r: String)
    ensures
        r@ == wasl_s(v@.map_values(|s: String| s@), fasil@),
{
    let ghost w = v@.map_values(|s: String| s@);
    let mut r = String::new();
    let mut i: usize = 0;
    while i < v.len()
        invariant
            i <= v@.len(),
            w == v@.map_values(|s: String| s@),
            r@ == wasl_s(w.take(i as int), fasil@),
        decreases v@.len() - i,
    {
        proof {
            assert(w.take(i + 1).drop_last() =~= w.take(i as int));
            assert(w.take(i + 1).last() == v@[i as int]@);
        }
        if i > 0 {
            ilhaq(&mut r, fasil);
        } else {
            proof {
                assert(w.take(1) =~= seq![v@[0]@]);
            }
        }
        ilhaq(&mut r, v[i].as_str());
        proof {
            if i == 0 {
                assert(r@ =~= v@[0]@);
            }
        }
        i = i + 1;
    }
    proof {
        assert(w.take(v@.len() as int) =~= w);
    }
    r
}

/// What a recognizer is chosen with: the source languages wanted, most
/// wanted first, the portable engine's model directory, and whether to skip
/// the platform engine.
#[derive(Debug, Clone, PartialEq, Eq)]
pub struct IdadatQira {
    /// Source language tags; empty means the platform default.
    pub lughat: Vec<String>,
    /// The directory holding the portable engine's model files.
    pub mujallad_namadhij: String,
    /// Whether to skip the platform engine even where one exists.
    pub yufaddil_al_mahmul: bool,
}

impl IdadatQira {
    /// Settings for one source language (none when empty) and a model
    /// directory, preferring the platform engine.
    pub fn jadeeda(lugha: &str, mujallad_namadhij: &str) -> (r: Self)
        ensures
            lugha@.len() == 0 ==> r.lughat@.len() == 0,
            lugha@.len() > 0 ==> r.lughat@.len() == 1 && r.lughat@[0]@ == lugha@,
            r.mujallad_namadhij@ == mujallad_namadhij@,
            !r.yufaddil_al_mahmul,
    {
        let mut lughat: Vec<String> = Vec::new();
        if lugha.unicode_len() > 0 {
            lughat.push(min_nass(lugha));
        }
        IdadatQira { lughat, mujallad_namadhij: min_nass(mujallad_namadhij), yufaddil_al_mahmul: false }
    }

    /// The languages as string slices, for the platform engines.
    pub fn wusum(&self) -> (r: Vec<&str>)
        ensures
            r@.len() == self.lughat@.len(),
            forall|i: int| 0 <= i < r@.len() ==> #[trigger] r@[i]@ == self.lughat@[i]@,
    {
        let mut r: Vec<&str> = Vec::new();
        let mut i: usize = 0;
        while i < self.lughat.len()
            invariant
                i <= self.lughat@.len(),
                r@.len() == i,
                forall|j: int| 0 <= j < i ==> #[trigger] r@[j]@ == self.lughat@[j]@,
            decreases self.lughat@.len() - i,
        {
            r.push(self.lughat[i].as_str());
            i = i + 1;
        }
        r
    }
}

/// The requested languages as the trail names them.
pub open spec fn wasf_lughat_s(wusum: Seq<Seq<char>>) -> Seq<char> {
    if wusum.len() == 0 {
        "the platform default"@
    } else {
        wasl_s(wusum, ", "@)
    }
}

pub open spec fn athar_talab_s(wusum: Seq<Seq<char>>) -> Seq<char> {
    "source languages requested: ["@ + wasf_lughat_s(wusum) + "]"@
}

pub open spec fn athar_takhatti_s() -> Seq<char> {
    "platform recognizer: skipped. The user asked for the portable engine, which is the right choice when the system recognizer only has a pack for a language the game is not in."@
}

pub open spec fn athar_ibad_s(ism: Seq<char>) -> Seq<char> {
    ism + ": discarded immediately after construction — it reported itself unavailable, which happens when a language pack is removed between the enumeration and the engine being built."@
}

pub open spec fn athar_mahmul_s(kashf: Seq<char>, taaruf: Seq<char>) -> Seq<char> {
    "portable ocrs: chosen. Models loaded from "@ + kashf + " and "@ + taaruf
        + "; it reads the Latin alphabet and reports no confidence."@
}

pub open spec fn athar_tahdhir_s(lughat: Seq<Seq<char>>, wusum: Seq<Seq<char>>) -> Seq<char> {
    "warning: the portable models were trained on ["@ + wasl_s(lughat, ", "@) + "] and none of them covers ["@
        + wasf_lughat_s(wusum) + "]. Recognition will run and its output should not be trusted."@
}

pub open spec fn athar_fashal_s(khata: Seq<char>) -> Seq<char> {
    "portable ocrs: not usable. "@ + khata
}

/// Which engine was chosen.
#[derive(Debug, Clone, Copy, PartialEq, Eq, Structural)]
pub enum MasdarQari {
    /// The platform's own recognizer.
    Manassa,
    /// The portable engine.
    Mahmul,
}

/// What the choice needs next: an engine tried, or its outcome.
#[derive(Debug, Clone, PartialEq, Eq)]
pub enum KhutwatIkhtiyar {
    /// Build the platform engine and report how that went.
    JarribManassa,
    /// Build the portable engine and report how that went.
    JarribMahmul,
    /// Chosen.
    Mukhtar(MasdarQari),
    /// Nothing is available; the whole trail, joined.
    Fashil(String),
}

/// The portable engine as built: where its models came from and what it
/// reads.
#[derive(Debug, Clone, PartialEq, Eq)]
pub struct TaarufMahmul {
    /// The detection model's path.
    pub masar_kashf: String,
    /// The recognition model's path.
    pub masar_taaruf: String,
    /// The languages its models were trained on.
    pub lughat: Vec<String>,
}

/// Choosing a recognizer, platform first and portable second, and the
/// reasoning that got there: every line an answer a user can act on.
#[derive(Debug, Clone)]
pub struct IkhtiyarQari {
    athar: Vec<String>,
    wusum: Vec<String>,
}

impl IkhtiyarQari {
    pub closed spec fn athar_s(self) -> Seq<Seq<char>> {
        self.athar@.map_values(|s: String| s@)
    }

    pub closed spec fn wusum_s(self) -> Seq<Seq<char>> {
        self.wusum@.map_values(|s: String| s@)
    }

    /// Starts a choice: the trail opens with the languages requested, then
    /// either skips the platform engine because the portable one was asked
    /// for, or asks for the platform engine to be tried.
    pub fn ibda(iadadat: &IdadatQira) -> (r: (Self, KhutwatIkhtiyar))
        ensures
            r.0.wusum_s() == iadadat.lughat@.map_values(|s: String| s@),
            iadadat.yufaddil_al_mahmul ==> r.0.athar_s() == seq![
                athar_talab_s(r.0.wusum_s()),
                athar_takhatti_s(),
            ] && r.1 == KhutwatIkhtiyar::JarribMahmul,
            !iadadat.yufaddil_al_mahmul ==> r.0.athar_s() == seq![athar_talab_s(r.0.wusum_s())]
                && r.1 == KhutwatIkhtiyar::JarribManassa,
    {
        let wusum = iadadat.lughat.clone();
        proof {
            assert(wusum@.map_values(|s: String| s@) =~= iadadat.lughat@.map_values(|s: String| s@)) by {
                assert forall|i: int| 0 <= i < wusum@.len() implies wusum@[i]@ == iadadat.lughat@[i]@ by {
                    assert(cloned::<String>(iadadat.lughat@[i], wusum@[i]));
                }
            }
        }
        let mut talab = min_nass("source languages requested: [");
        if wusum.len() == 0 {
            ilhaq(&mut talab, "the platform default");
        } else {
            ilhaq(&mut talab, wasl(&wusum, ", ").as_str());
        }
        ilhaq(&mut talab, "]");
        let mut athar: Vec<String> = Vec::new();
        athar.push(talab);
        let khutwa = if iadadat.yufaddil_al_mahmul {
            athar.push(
                min_nass(
                    "platform recognizer: skipped. The user asked for the portable engine, which is the right choice when the system recognizer only has a pack for a language the game is not in.",
                ),
            );
            KhutwatIkhtiyar::JarribMahmul
        } else {
            KhutwatIkhtiyar::JarribManassa
        };
        let r = IkhtiyarQari { athar, wusum };
        proof {
            if iadadat.yufaddil_al_mahmul {
                assert(r.athar_s() =~= seq![athar_talab_s(r.wusum_s()), athar_takhatti_s()]);
            } else {
                assert(r.athar_s() =~= seq![athar_talab_s(r.wusum_s())]);
            }
        }
        (r, khutwa)
    }

    /// Takes the platform engine's outcome: `jumla` is its own sentence for
    /// the trail, and `qari` its name and whether it is usable, when it was
    /// built. A usable one is chosen; one that reports itself unusable right
    /// after construction is noted and discarded; either way otherwise the
    /// portable engine is tried next.
    pub fn baad_al_manassa(&mut self, jumla: &str, qari: Option<(&str, bool)>) -> (r: KhutwatIkhtiyar)
        ensures
            final(self).wusum_s() == old(self).wusum_s(),
            match qari {
                Some((_, true)) => r == KhutwatIkhtiyar::Mukhtar(MasdarQari::Manassa)
                    && final(self).athar_s() == old(self).athar_s().push(jumla@),
                Some((ism, false)) => r == KhutwatIkhtiyar::JarribMahmul && final(self).athar_s()
                    == old(self).athar_s().push(jumla@).push(athar_ibad_s(ism@)),
                None => r == KhutwatIkhtiyar::JarribMahmul && final(self).athar_s() == old(
                    self,
                ).athar_s().push(jumla@),
            },
    {
        let ghost a0 = self.athar_s();
        self.athar.push(min_nass(jumla));
        proof {
            assert(self.athar_s() =~= a0.push(jumla@));
        }
        match qari {
            Some((_, true)) => KhutwatIkhtiyar::Mukhtar(MasdarQari::Manassa),
            Some((ism, false)) => {
                let ghost a1 = self.athar_s();
                let mut s = min_nass(ism);
                ilhaq(
                    &mut s,
                    ": discarded immediately after construction — it reported itself unavailable, which happens when a language pack is removed between the enumeration and the engine being built.",
                );
                self.athar.push(s);
                proof {
                    assert(self.athar_s() =~= a1.push(athar_ibad_s(ism@)));
                }
                KhutwatIkhtiyar::JarribMahmul
            },
            None => KhutwatIkhtiyar::JarribMahmul,
        }
    }

    /// Takes the portable engine's outcome. Built, it is chosen, with a
    /// warning when none of its languages covers the request (it will run,
    /// and its output on a script it was never trained on is not to be
    /// trusted). Not built, the choice fails with the whole trail, so a user
    /// with two problems is told about both.
    pub fn baad_al_mahmul(&mut self, natija: &Result<TaarufMahmul, String>) -> (r: KhutwatIkhtiyar)
        ensures
            final(self).wusum_s() == old(self).wusum_s(),
            match natija {
                Ok(t) => r == KhutwatIkhtiyar::Mukhtar(MasdarQari::Mahmul) && final(self).athar_s() == {
                    let a = old(self).athar_s().push(athar_mahmul_s(t.masar_kashf@, t.masar_taaruf@));
                    if yaqra_al_matlub_s(t.lughat@.map_values(|s: String| s@), old(self).wusum_s()) {
                        a
                    } else {
                        a.push(athar_tahdhir_s(t.lughat@.map_values(|s: String| s@), old(self).wusum_s()))
                    }
                },
                Err(khata) => final(self).athar_s() == old(self).athar_s().push(athar_fashal_s(khata@))
                    && (r matches KhutwatIkhtiyar::Fashil(s) && s@ == wasl_s(final(self).athar_s(), " | "@)),
            },
    {
        let ghost a0 = self.athar_s();
        match natija {
            Ok(t) => {
                let mut s = min_nass("portable ocrs: chosen. Models loaded from ");
                ilhaq(&mut s, t.masar_kashf.as_str());
                ilhaq(&mut s, " and ");
                ilhaq(&mut s, t.masar_taaruf.as_str());
                ilhaq(&mut s, "; it reads the Latin alphabet and reports no confidence.");
                self.athar.push(s);
                proof {
                    assert(self.athar_s() =~= a0.push(athar_mahmul_s(t.masar_kashf@, t.masar_taaruf@)));
                }
                if !yaqra_al_matlub(&t.lughat, &self.wusum) {
                    let ghost a1 = self.athar_s();
                    let mut w = min_nass("warning: the portable models were trained on [");
                    ilhaq(&mut w, wasl(&t.lughat, ", ").as_str());
                    ilhaq(&mut w, "] and none of them covers [");
                    if self.wusum.len() == 0 {
                        ilhaq(&mut w, "the platform default");
                    } else {
                        ilhaq(&mut w, wasl(&self.wusum, ", ").as_str());
                    }
                    ilhaq(&mut w, "]. Recognition will run and its output should not be trusted.");
                    self.athar.push(w);
                    proof {
                        assert(self.athar_s() =~= a1.push(
                            athar_tahdhir_s(t.lughat@.map_values(|s: String| s@), self.wusum_s()),
                        ));
                    }
                }
                KhutwatIkhtiyar::Mukhtar(MasdarQari::Mahmul)
            },
            Err(khata) => {
                let mut s = min_nass("portable ocrs: not usable. ");
                ilhaq(&mut s, khata.as_str());
                self.athar.push(s);
                proof {
                    assert(self.athar_s() =~= a0.push(athar_fashal_s(khata@)));
                }
                KhutwatIkhtiyar::Fashil(wasl(&self.athar, " | "))
            },
        }
    }

    /// The reasoning, one sentence per engine tried.
    pub fn athar(&self) -> (r: &Vec<String>)
        ensures
            r@.map_values(|s: String| s@) == self.athar_s(),
    {
        &self.athar
    }
}

/// A capture's region as an error message names it: its size, then where
/// it is on the surface.
pub open spec fn wasf_mintaqa_s(m: MustatilBiksel) -> Seq<char> {
    ashri(m.ard as nat) + "×"@ + ashri(m.irtifa as nat) + " at ("@ + ashri(m.yasar as nat) + ", "@
        + ashri(m.aala as nat) + ")"@
}

/// A capture's region as an error message names it.
pub fn wasf_mintaqa(m: MustatilBiksel) -> (r: String)
    ensures
        r@ == wasf_mintaqa_s(m),
{
    let mut r = String::new();
    aktub_ashri(&mut r, m.ard as u64);
    ilhaq(&mut r, "×");
    aktub_ashri(&mut r, m.irtifa as u64);
    ilhaq(&mut r, " at (");
    aktub_ashri(&mut r, m.yasar as u64);
    ilhaq(&mut r, ", ");
    aktub_ashri(&mut r, m.aala as u64);
    ilhaq(&mut r, ")");
    r
}

/// What one reading becomes once rejoined: the lines merged at the gap given,
/// or at the gap the lines themselves suggest when none is given; nothing
/// when merging leaves nothing, which is the reading of a region with no
/// text in it.
pub fn damj_qiraa(sutur: Vec<SatrMaqru>, aqsa_fajwa: Option<u32>) -> (r: Option<Vec<SatrMaqru>>)
    ensures
        ({
            let f = match aqsa_fajwa {
                Some(x) => x,
                None => fajwa_muqtaraha_s(suwar(sutur@)),
            };
            let m = mudmaj_s(suwar(sutur@), f);
            &&& (r is None <==> m.len() == 0)
            &&& (r matches Some(v) ==> suwar(v@) == m)
        }),
{
    let fajwa = match aqsa_fajwa {
        Some(x) => x,
        None => fajwa_muqtaraha(sutur.as_slice()),
    };
    let mudmaja = SatrMaqru::mudmaj(sutur, fajwa);
    if mudmaja.len() == 0 {
        None
    } else {
        Some(mudmaja)
    }
}

/// The lines of a reading that carry text: blank ones dropped, the others
/// kept in order.
pub open spec fn bila_farigh_s(s: Seq<SatrMaqru>) -> Seq<SatrMaqru>
    decreases s.len(),
{
    if s.len() == 0 {
        s
    } else if farigh(s.last().nass@) {
        bila_farigh_s(s.drop_last())
    } else {
        bila_farigh_s(s.drop_last()).push(s.last())
    }
}

fn farigh_p(s: &str) -> (r: bool)
    ensures
        r == farigh(s@),
{
    let h = huruf(s);
    let mut i: usize = 0;
    while i < h.len()
        invariant
            i <= h@.len(),
            h@ == s@,
            forall|k: int| 0 <= k < i ==> faragh(#[trigger] h@[k]),
        decreases h@.len() - i,
    {
        if !faragh_p(h[i]) {
            return false;
        }
        i = i + 1;
    }
    true
}

impl SatrMaqru {
    /// What an engine's lines become before they are judged: the blank ones
    /// dropped, and a refusal naming the region when none is left.
    pub fn bila_farigh(sutur: Vec<SatrMaqru>, mintaqa: MustatilBiksel) -> (r: Result<
        Vec<SatrMaqru>,
        KhataTabaqa,
    >)
        ensures
            bila_farigh_s(sutur@).len() == 0 ==> (r matches Err(KhataTabaqa::LaNassMaqru { mintaqa: m, thiqa })
                && m@ == wasf_mintaqa_s(mintaqa) && thiqa is None),
            bila_farigh_s(sutur@).len() > 0 ==> (r matches Ok(v) && v@ == bila_farigh_s(sutur@)),
    {
        let mut r: Vec<SatrMaqru> = Vec::new();
        let ghost s = sutur@;
        let ghost mut k: int = 0;
        let mut sutur = sutur;
        proof {
            assert(s.take(0) =~= Seq::<SatrMaqru>::empty());
            assert(s.skip(0) =~= s);
        }
        while sutur.len() > 0
            invariant
                0 <= k <= s.len(),
                sutur@ == s.skip(k),
                r@ == bila_farigh_s(s.take(k)),
            decreases sutur@.len(),
        {
            proof {
                assert(s.take(k + 1).drop_last() =~= s.take(k));
                assert(s.take(k + 1).last() == s[k]);
            }
            let satr = sutur.remove(0);
            if !farigh_p(satr.nass.as_str()) {
                r.push(satr);
            }
            proof {
                assert(sutur@ =~= s.skip(k + 1));
                k = k + 1;
            }
        }
        proof {
            assert(s.take(k) =~= s);
        }
        if r.len() == 0 {
            return Err(KhataTabaqa::LaNassMaqru { mintaqa: wasf_mintaqa(mintaqa), thiqa: None });
        }
        Ok(r)
    }
}

/// A reading rejoined, or a refusal naming the region when merging leaves
/// nothing: the lines merged at the gap given, or at the gap they suggest.
pub fn iqra_mudmaj(sutur: Vec<SatrMaqru>, aqsa_fajwa: Option<u32>, mintaqa: MustatilBiksel) -> (r: Result<
    Vec<SatrMaqru>,
    KhataTabaqa,
>)
    ensures
        ({
            let f = match aqsa_fajwa {
                Some(x) => x,
                None => fajwa_muqtaraha_s(suwar(sutur@)),
            };
            let m = mudmaj_s(suwar(sutur@), f);
            &&& m.len() == 0 ==> (r matches Err(KhataTabaqa::LaNassMaqru { mintaqa: w, thiqa }) && w@
                == wasf_mintaqa_s(mintaqa) && thiqa is None)
            &&& m.len() > 0 ==> (r matches Ok(v) && suwar(v@) == m)
        }),
{
    match damj_qiraa(sutur, aqsa_fajwa) {
        Some(v) => Ok(v),
        None => Err(KhataTabaqa::LaNassMaqru { mintaqa: wasf_mintaqa(mintaqa), thiqa: None }),
    }
}

} // verus!
