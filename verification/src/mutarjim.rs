//! A translation as the pipeline hands it back: the Arabic and which side
//! produced it.

use vstd::prelude::*;

use crate::luba::LubaId;
use crate::mutarjim_mahalli::huruf;
use crate::nass::{aktub_ashri, ashri, farigh, ilhaq, min_nass, shadhdhib};
use crate::sijill_qira::MasdarTarjama;
use crate::tartib::{awwal_s, lemma_awwal, lemma_awwal_hadd};

verus! {

/// The Arabic for one line, and where it came from.
#[derive(Debug, Clone, PartialEq, Eq)]
pub struct RaddSatr {
    /// The Arabic.
    pub arabi: String,
    /// Which side produced it.
    pub masdar: MasdarTarjama,
}

impl RaddSatr {
    /// A machine translation.
    pub fn aaliya(arabi: &str) -> (r: Self)
        ensures
            r.arabi@ == arabi@,
            r.masdar == MasdarTarjama::Aaliya,
    {
        RaddSatr { arabi: min_nass(arabi), masdar: MasdarTarjama::Aaliya }
    }

    /// A translation a person wrote for a project.
    pub fn basharia(arabi: &str) -> (r: Self)
        ensures
            r.arabi@ == arabi@,
            r.masdar == MasdarTarjama::Mashru,
    {
        RaddSatr { arabi: min_nass(arabi), masdar: MasdarTarjama::Mashru }
    }

    /// A translation reused from an earlier screen reading.
    pub fn mulahaza(arabi: &str) -> (r: Self)
        ensures
            r.arabi@ == arabi@,
            r.masdar == MasdarTarjama::Mulahaza,
    {
        RaddSatr { arabi: min_nass(arabi), masdar: MasdarTarjama::Mulahaza }
    }

    /// Whether there is anything to draw.
    pub fn khali(&self) -> (r: bool)
        ensures
            r == farigh(self.arabi@),
    {
        let h = huruf(self.arabi.as_str());
        let m = shadhdhib(&h);
        proof {
            crate::nass::lemma_farigh_mushdhab(self.arabi@);
        }
        m.len() == 0
    }
}

/// One line to translate: what was read, the settled lines read before it in
/// its region, the game, and the box the Arabic must fit.
#[derive(Debug)]
pub struct TalabSatr {
    /// What the recognizer read, white space collapsed.
    pub asl: String,
    /// The lines that settled before it in its region, oldest first.
    pub jiwar: Vec<String>,
    /// The game.
    pub luba: LubaId,
    /// The game's display name, where known.
    pub ism_luba: Option<String>,
    /// The box the original text occupied, in surface pixels.
    pub mawdi: crate::wajiha::MustatilBiksel,
    /// The recognizer's confidence, zero to a hundred.
    pub thiqa: u8,
}

/// How many pairs a session memory holds before the oldest is forgotten.
pub const SAA_DHAKIRAT_JALSA: usize = 2000;

/// A translation as plain values: the Arabic and where it came from.
pub open spec fn radd_s(r: RaddSatr) -> (Seq<char>, MasdarTarjama) {
    (r.arabi@, r.masdar)
}

/// One remembered pair: the game, the source line, and its translation.
#[derive(Debug)]
pub struct QaydJalsa {
    /// The game.
    pub luba: LubaId,
    /// The line as read.
    pub asl: String,
    /// Its translation.
    pub radd: RaddSatr,
}

/// A remembered pair as plain values: game, source line, Arabic, origin.
pub type SuratQayd = (u64, Seq<char>, Seq<char>, MasdarTarjama);

/// A remembered pair's plain values.
pub open spec fn surat_qayd(q: QaydJalsa) -> SuratQayd {
    (q.luba.0, q.asl@, q.radd.arabi@, q.radd.masdar)
}

/// Each pair's plain values, in order.
pub open spec fn suwar_qiyud(q: Seq<QaydJalsa>) -> Seq<SuratQayd> {
    q.map_values(|x: QaydJalsa| surat_qayd(x))
}

/// Whether a remembered pair is for this game and this line.
pub open spec fn yutabiq_qayd(e: SuratQayd, luba: u64, asl: Seq<char>) -> bool {
    e.0 == luba && e.1 == asl
}

/// Where the pair for a game and a line is held, or the length when none
/// is.
pub open spec fn mawdi_qayd(q: Seq<SuratQayd>, luba: u64, asl: Seq<char>) -> nat {
    awwal_s(q, |e: SuratQayd| yutabiq_qayd(e, luba, asl))
}

/// What the memory gives back for a game and a line.
pub open spec fn jid_s(q: Seq<SuratQayd>, luba: u64, asl: Seq<char>) -> Option<(Seq<char>, MasdarTarjama)> {
    let k = mawdi_qayd(q, luba, asl);
    if k < q.len() {
        Some((q[k as int].2, q[k as int].3))
    } else {
        None
    }
}

/// The pairs after storing one: a pair already held for that game and line
/// takes the new translation in place; otherwise the pair joins at the end
/// and the oldest go until no more than `saa` remain.
pub open spec fn adhif_s(
    q: Seq<SuratQayd>,
    saa: usize,
    luba: u64,
    asl: Seq<char>,
    radd: (Seq<char>, MasdarTarjama),
) -> Seq<SuratQayd> {
    let k = mawdi_qayd(q, luba, asl);
    let e = (luba, asl, radd.0, radd.1);
    if k < q.len() {
        q.update(k as int, e)
    } else {
        let p = q.push(e);
        if p.len() > saa {
            p.skip(p.len() - saa)
        } else {
            p
        }
    }
}

/// No two pairs for the same game and line, and no more pairs than room.
pub open spec fn qiyud_salima(q: Seq<SuratQayd>, saa: usize) -> bool {
    &&& saa >= 1
    &&& q.len() <= saa
    &&& forall|i: int, j: int|
        0 <= i < j < q.len() ==> !(#[trigger] q[i].0 == #[trigger] q[j].0 && q[i].1 == q[j].1)
}

proof fn lemma_salima_update(q: Seq<SuratQayd>, saa: usize, k: int, e: SuratQayd)
    requires
        qiyud_salima(q, saa),
        0 <= k < q.len(),
        q[k].0 == e.0,
        q[k].1 == e.1,
    ensures
        qiyud_salima(q.update(k, e), saa),
{
    let t = q.update(k, e);
    assert forall|i: int, j: int| 0 <= i < j < t.len() implies !(#[trigger] t[i].0 == #[trigger] t[j].0
        && t[i].1 == t[j].1) by {
        assert(t[i].0 == q[i].0 && t[i].1 == q[i].1);
        assert(t[j].0 == q[j].0 && t[j].1 == q[j].1);
    }
}

proof fn lemma_salima_push(q: Seq<SuratQayd>, saa: usize, e: SuratQayd)
    requires
        qiyud_salima(q, saa),
        mawdi_qayd(q, e.0, e.1) == q.len(),
    ensures
        qiyud_salima(adhif_s(q, saa, e.0, e.1, (e.2, e.3)), saa),
{
    let f = |x: SuratQayd| yutabiq_qayd(x, e.0, e.1);
    lemma_awwal_hadd(q, f);
    assert(f =~= (|x: SuratQayd| yutabiq_qayd(x, e.0, e.1)));
    let p = q.push(e);
    assert forall|i: int, j: int| 0 <= i < j < p.len() implies !(#[trigger] p[i].0 == #[trigger] p[j].0
        && p[i].1 == p[j].1) by {
        if j == q.len() {
            assert(!f(q[i]));
        } else {
            assert(p[i] == q[i] && p[j] == q[j]);
        }
    }
    if p.len() > saa {
        let t = p.skip(p.len() - saa);
        assert forall|i: int, j: int| 0 <= i < j < t.len() implies !(#[trigger] t[i].0
            == #[trigger] t[j].0 && t[i].1 == t[j].1) by {
            let d = p.len() - saa;
            assert(t[i] == p[i + d] && t[j] == p[j + d]);
        }
    }
}

/// A line looked up right after its translation was stored gives that
/// translation back.
pub proof fn qanun_qira_baad_kitaba(
    q: Seq<SuratQayd>,
    saa: usize,
    luba: u64,
    asl: Seq<char>,
    radd: (Seq<char>, MasdarTarjama),
)
    requires
        qiyud_salima(q, saa),
    ensures
        jid_s(adhif_s(q, saa, luba, asl, radd), luba, asl) == Some(radd),
{
    let f = |x: SuratQayd| yutabiq_qayd(x, luba, asl);
    lemma_awwal_hadd(q, f);
    assert(f =~= (|x: SuratQayd| yutabiq_qayd(x, luba, asl)));
    let k = mawdi_qayd(q, luba, asl);
    let e = (luba, asl, radd.0, radd.1);
    let t = adhif_s(q, saa, luba, asl, radd);
    if k < q.len() {
        assert forall|j: int| 0 <= j < k implies !f(#[trigger] t[j]) by {
            assert(t[j] == q[j]);
        }
        lemma_awwal(t, f, k as int);
    } else {
        let p = q.push(e);
        let d: int = if p.len() > saa {
            p.len() - saa
        } else {
            0
        };
        assert(t =~= p.skip(d));
        assert forall|j: int| 0 <= j < t.len() - 1 implies !f(#[trigger] t[j]) by {
            assert(t[j] == q[j + d]);
            assert(!f(q[j + d]));
        }
        assert(t[t.len() - 1] == e);
        lemma_awwal(t, f, t.len() - 1);
    }
}

/// Storing one line's translation never changes what another line gives
/// back; at most it forgets that line, when the memory was full.
pub proof fn qanun_la_yamass_ghayrah(
    q: Seq<SuratQayd>,
    saa: usize,
    luba: u64,
    asl: Seq<char>,
    radd: (Seq<char>, MasdarTarjama),
    luba2: u64,
    asl2: Seq<char>,
)
    requires
        qiyud_salima(q, saa),
        !(luba == luba2 && asl == asl2),
    ensures
        jid_s(adhif_s(q, saa, luba, asl, radd), luba2, asl2) is None || jid_s(
            adhif_s(q, saa, luba, asl, radd),
            luba2,
            asl2,
        ) == jid_s(q, luba2, asl2),
{
    let f = |x: SuratQayd| yutabiq_qayd(x, luba, asl);
    let g = |x: SuratQayd| yutabiq_qayd(x, luba2, asl2);
    lemma_awwal_hadd(q, f);
    lemma_awwal_hadd(q, g);
    assert(f =~= (|x: SuratQayd| yutabiq_qayd(x, luba, asl)));
    assert(g =~= (|x: SuratQayd| yutabiq_qayd(x, luba2, asl2)));
    let k = mawdi_qayd(q, luba, asl);
    let m = mawdi_qayd(q, luba2, asl2);
    let e = (luba, asl, radd.0, radd.1);
    let t = adhif_s(q, saa, luba, asl, radd);
    lemma_awwal_hadd(t, g);
    let mt = mawdi_qayd(t, luba2, asl2);
    if mt < t.len() {
        if k < q.len() {
            assert(t[mt as int] == q[mt as int]);
            assert forall|j: int| 0 <= j < mt implies !g(#[trigger] q[j]) by {
                assert(t[j] == q[j] || j == k);
            }
            lemma_awwal(q, g, mt as int);
        } else {
            let p = q.push(e);
            let d: int = if p.len() > saa {
                p.len() - saa
            } else {
                0
            };
            assert(t =~= p.skip(d));
            assert(mt + d < q.len());
            assert(t[mt as int] == q[mt + d]);
            assert(g(q[mt + d]));
            assert forall|j: int| 0 <= j < mt + d implies !g(#[trigger] q[j]) by {
                if j >= d {
                    assert(t[j - d] == q[j]);
                } else {
                    if g(q[j]) {
                        assert(q[j].0 == q[mt + d].0 && q[j].1 == q[mt + d].1);
                    }
                }
            }
            lemma_awwal(q, g, mt + d);
        }
    }
}

/// The translations this session has already paid for, oldest first, with
/// a fixed room.
#[derive(Debug)]
pub struct DhakiraJalsa {
    qiyud: Vec<QaydJalsa>,
    saa: usize,
    isabat: u64,
    ikhfaqat: u64,
}

impl View for DhakiraJalsa {
    type V = Seq<SuratQayd>;

    closed spec fn view(&self) -> Seq<SuratQayd> {
        suwar_qiyud(self.qiyud@)
    }
}

impl DhakiraJalsa {
    /// How many pairs it holds before forgetting the oldest.
    pub closed spec fn saa_s(&self) -> usize {
        self.saa
    }

    /// How many lookups found a pair.
    pub closed spec fn isabat_s(&self) -> u64 {
        self.isabat
    }

    /// How many lookups found none.
    pub closed spec fn ikhfaqat_s(&self) -> u64 {
        self.ikhfaqat
    }

    /// The memory's own invariant.
    pub open spec fn salima(&self) -> bool {
        qiyud_salima(self@, self.saa_s())
    }

    /// A memory of the default size.
    pub fn jadeeda() -> (r: Self)
        ensures
            r.salima(),
            r@ == Seq::<SuratQayd>::empty(),
            r.saa_s() == SAA_DHAKIRAT_JALSA,
            r.isabat_s() == 0,
            r.ikhfaqat_s() == 0,
    {
        Self::bi_saa(SAA_DHAKIRAT_JALSA)
    }

    /// A memory with room for `saa` pairs, at least one.
    pub fn bi_saa(saa: usize) -> (r: Self)
        ensures
            r.salima(),
            r@ == Seq::<SuratQayd>::empty(),
            r.saa_s() == if saa >= 1 {
                saa
            } else {
                1
            },
            r.isabat_s() == 0,
            r.ikhfaqat_s() == 0,
    {
        let r = DhakiraJalsa {
            qiyud: Vec::new(),
            saa: if saa >= 1 {
                saa
            } else {
                1
            },
            isabat: 0,
            ikhfaqat: 0,
        };
        proof {
            assert(r@ =~= Seq::<SuratQayd>::empty());
        }
        r
    }

    /// How many pairs it holds.
    pub fn adad(&self) -> (r: usize)
        ensures
            r == self@.len(),
    {
        self.qiyud.len()
    }

    /// How many lookups found a pair.
    pub fn isabat(&self) -> (r: u64)
        ensures
            r == self.isabat_s(),
    {
        self.isabat
    }

    /// How many lookups found none.
    pub fn ikhfaqat(&self) -> (r: u64)
        ensures
            r == self.ikhfaqat_s(),
    {
        self.ikhfaqat
    }

    /// The sentence the panel shows.
    pub fn wasf(&self) -> (r: String)
        ensures
            r@ == ashri(self@.len()) + " pair(s) held of "@ + ashri(self.saa_s() as nat) + "; "@
                + ashri(self.isabat_s() as nat) + " hit(s), "@ + ashri(self.ikhfaqat_s() as nat)
                + " miss(es). This memory ends with the session \u{2014} attach the shared translation memory to make a second playthrough free."@,
    {
        let mut r = String::new();
        aktub_ashri(&mut r, self.qiyud.len() as u64);
        ilhaq(&mut r, " pair(s) held of ");
        aktub_ashri(&mut r, self.saa as u64);
        ilhaq(&mut r, "; ");
        aktub_ashri(&mut r, self.isabat);
        ilhaq(&mut r, " hit(s), ");
        aktub_ashri(&mut r, self.ikhfaqat);
        ilhaq(
            &mut r,
            " miss(es). This memory ends with the session \u{2014} attach the shared translation memory to make a second playthrough free.",
        );
        r
    }

    fn mawdi(&self, luba: LubaId, asl: &str) -> (k: usize)
        ensures
            k == mawdi_qayd(self@, luba.0, asl@),
    {
        let a = min_nass(asl);
        let mut k: usize = 0;
        while k < self.qiyud.len()
            invariant
                a@ == asl@,
                k <= self@.len(),
                self@.len() == self.qiyud@.len(),
                forall|j: int| 0 <= j < k ==> !yutabiq_qayd(#[trigger] self@[j], luba.0, asl@),
            ensures
                k <= self@.len(),
                forall|j: int| 0 <= j < k ==> !yutabiq_qayd(#[trigger] self@[j], luba.0, asl@),
                k == self@.len() || yutabiq_qayd(self@[k as int], luba.0, asl@),
            decreases self@.len() - k,
        {
            let q = &self.qiyud[k];
            assert(self@[k as int] == surat_qayd(*q));
            if q.luba.0 == luba.0 && q.asl == a {
                break;
            }
            k = k + 1;
        }
        proof {
            let p = |e: SuratQayd| yutabiq_qayd(e, luba.0, asl@);
            lemma_awwal(self@, p, k as int);
            assert(p =~= (|e: SuratQayd| yutabiq_qayd(e, luba.0, asl@)));
        }
        k
    }

    /// Stores a translation for a line, replacing one already held for it,
    /// and forgets the oldest pairs past the room.
    pub fn adhif(&mut self, luba: LubaId, asl: &str, radd: RaddSatr)
        requires
            old(self).salima(),
        ensures
            final(self).salima(),
            final(self)@ == adhif_s(old(self)@, old(self).saa_s(), luba.0, asl@, radd_s(radd)),
            final(self).saa_s() == old(self).saa_s(),
            final(self).isabat_s() == old(self).isabat_s(),
            final(self).ikhfaqat_s() == old(self).ikhfaqat_s(),
    {
        let ghost q0 = self@;
        let ghost e: SuratQayd = (luba.0, asl@, radd.arabi@, radd.masdar);
        let k = self.mawdi(luba, asl);
        proof {
            lemma_awwal_hadd(q0, |x: SuratQayd| yutabiq_qayd(x, luba.0, asl@));
        }
        if k < self.qiyud.len() {
            let _qadim = self.qiyud.remove(k);
            self.qiyud.insert(k, QaydJalsa { luba, asl: min_nass(asl), radd });
            proof {
                assert(self@ =~= q0.update(k as int, e));
                lemma_salima_update(q0, self.saa, k as int, e);
            }
        } else {
            let mut v: Vec<QaydJalsa> = Vec::new();
            std::mem::swap(&mut v, &mut self.qiyud);
            v.push(QaydJalsa { luba, asl: min_nass(asl), radd });
            let ghost p = q0.push(e);
            proof {
                assert(suwar_qiyud(v@) =~= p);
                assert(p.skip(0) =~= p);
            }
            let saa = self.saa;
            let ghost mut d: int = 0;
            while v.len() > saa
                invariant
                    0 <= d <= p.len(),
                    suwar_qiyud(v@) == p.skip(d),
                    v@.len() + d == p.len(),
                    d > 0 ==> v@.len() >= saa,
                    saa >= 1,
                    p.len() <= saa + 1,
                decreases v@.len(),
            {
                let ghost v0 = v@;
                let _aqdam = v.remove(0);
                proof {
                    assert(v@ =~= v0.drop_first());
                    assert(suwar_qiyud(v@) =~= suwar_qiyud(v0).drop_first());
                    assert(p.skip(d).drop_first() =~= p.skip(d + 1));
                    d = d + 1;
                }
            }
            self.qiyud = v;
            proof {
                assert(self@.len() <= self.saa);
                if p.len() > self.saa {
                    assert(d == p.len() - self.saa);
                } else {
                    assert(d == 0);
                    assert(p.skip(0) =~= p);
                }
                lemma_salima_push(q0, self.saa, e);
            }
        }
    }

    /// Looks a line up, counting the hit or the miss.
    pub fn jid(&mut self, luba: LubaId, asl: &str) -> (r: Option<RaddSatr>)
        ensures
            final(self)@ == old(self)@,
            final(self).saa_s() == old(self).saa_s(),
            match r {
                Some(x) => jid_s(old(self)@, luba.0, asl@) == Some(radd_s(x)),
                None => jid_s(old(self)@, luba.0, asl@) is None,
            },
            final(self).isabat_s() == if r is Some && old(self).isabat_s() < u64::MAX {
                (old(self).isabat_s() + 1) as u64
            } else {
                old(self).isabat_s()
            },
            final(self).ikhfaqat_s() == if r is None && old(self).ikhfaqat_s() < u64::MAX {
                (old(self).ikhfaqat_s() + 1) as u64
            } else {
                old(self).ikhfaqat_s()
            },
    {
        let k = self.mawdi(luba, asl);
        if k < self.qiyud.len() {
            let q = &self.qiyud[k];
            assert(self@[k as int] == surat_qayd(*q));
            let r = RaddSatr { arabi: min_nass(q.radd.arabi.as_str()), masdar: q.radd.masdar };
            if self.isabat < u64::MAX {
                self.isabat = self.isabat + 1;
            }
            Some(r)
        } else {
            if self.ikhfaqat < u64::MAX {
                self.ikhfaqat = self.ikhfaqat + 1;
            }
            None
        }
    }
}

impl Default for DhakiraJalsa {
    fn default() -> (r: Self)
        ensures
            r.salima(),
            r@ == Seq::<SuratQayd>::empty(),
            r.saa_s() == SAA_DHAKIRAT_JALSA,
    {
        Self::jadeeda()
    }
}

/// A translation memory the overlay can ask: looked up by game and source
/// line, exact rather than near. A lookup may count itself but changes no
/// answer the memory gives.
pub trait DhakiraTabaqa {
    /// What the memory holds for a line in a game, as plain values.
    spec fn jawab_s(&self, luba: u64, asl: Seq<char>) -> Option<(Seq<char>, MasdarTarjama)>;

    /// The memory's own invariant.
    spec fn salima_t(&self) -> bool;

    /// Whether the memory outlives the process.
    spec fn daaima_s(&self) -> bool;

    /// The stored Arabic for this exact line in this game.
    fn ibhath_satr(&mut self, luba: LubaId, asl: &str) -> (r: Option<RaddSatr>)
        requires
            old(self).salima_t(),
        ensures
            final(self).salima_t(),
            final(self).daaima_s() == old(self).daaima_s(),
            forall|l: u64, a: Seq<char>| #[trigger] final(self).jawab_s(l, a) == old(self).jawab_s(l, a),
            match old(self).jawab_s(luba.0, asl@) {
                Some(v) => r matches Some(x) && radd_s(x) == v,
                None => r is None,
            },
    ;

    /// Whether the memory outlives the process: the panel promises a free
    /// second playthrough only for one that does.
    fn daaima(&self) -> (r: bool)
        ensures
            r == self.daaima_s(),
    ;
}

impl DhakiraTabaqa for DhakiraJalsa {
    open spec fn jawab_s(&self, luba: u64, asl: Seq<char>) -> Option<(Seq<char>, MasdarTarjama)> {
        jid_s(self@, luba, asl)
    }

    open spec fn salima_t(&self) -> bool {
        self.salima()
    }

    open spec fn daaima_s(&self) -> bool {
        false
    }

    fn ibhath_satr(&mut self, luba: LubaId, asl: &str) -> (r: Option<RaddSatr>) {
        self.jid(luba, asl)
    }

    fn daaima(&self) -> (r: bool) {
        false
    }
}

} // verus!
