//! The shared translation memory's keys and counters: what a source line is
//! stored under, and what the memory did over a session.

use vstd::prelude::*;

use crate::luba::LubaId;
use crate::mutarjim::{radd_s, DhakiraTabaqa, RaddSatr};
use crate::mutarjim_mahalli::{huruf, min_huruf};
use crate::nass::{farigh, ilhaq, min_nass, muwahhad, saghir, saghir_s, shadhdhib, wahhid_nass};
use crate::sijill_qira::{ism_masdar, MasdarTarjama};
use crate::tartib::{awwal_s, lemma_awwal, lemma_awwal_hadd};

verus! {

/// The longest source line the memory stores, in characters.
pub const AQSA_TUL_ASL: usize = 2000;

/// The key a source line is stored under: its white space normalized, so
/// two readings that differ only in spacing share one entry.
pub fn miftah_khazina(asl: &str) -> (r: String)
    ensures
        r@ == muwahhad(asl@),
{
    wahhid_nass(asl)
}

/// What the memory did over a session.
#[derive(Debug, Clone, Copy, PartialEq, Eq, Structural)]
pub struct IhsaatKhazina {
    /// Pairs held.
    pub adad: u64,
    /// Lookups answered.
    pub isabat: u64,
    /// Lookups that found nothing.
    pub ikhfaqat: u64,
    /// Pairs written.
    pub kutibat: u64,
    /// Stored lines that could not be read back.
    pub talifa: u64,
    /// Writes that failed.
    pub ikhfaqat_kitaba: u64,
}

/// The memory file's name for a language: its ASCII letters, digits and
/// hyphens, lower-cased, or `asl` when none are left, with `.jsonl` after.
pub open spec fn ism_malaf_s(lugha: Seq<char>) -> Seq<char> {
    let n = harf_malaf_s(lugha);
    (if n.len() == 0 {
        "asl"@
    } else {
        saghir_s(n)
    }) + ".jsonl"@
}

/// The characters of a language tag a file name keeps: ASCII letters and
/// digits, and hyphens.
pub open spec fn harf_malaf_s(s: Seq<char>) -> Seq<char>
    decreases s.len(),
{
    if s.len() == 0 {
        s
    } else {
        let p = harf_malaf_s(s.drop_last());
        let c = s.last();
        if 'a' <= c <= 'z' || 'A' <= c <= 'Z' || '0' <= c <= '9' || c == '-' {
            p.push(c)
        } else {
            p
        }
    }
}

/// The memory file's name for a language.
pub fn ism_malaf_khazina(lugha: &str) -> (r: String)
    ensures
        r@ == ism_malaf_s(lugha@),
{
    let h = huruf(lugha);
    let mut k: Vec<char> = Vec::new();
    let mut i: usize = 0;
    while i < h.len()
        invariant
            i <= h@.len(),
            h@ == lugha@,
            k@ == harf_malaf_s(h@.take(i as int)),
        decreases h@.len() - i,
    {
        proof {
            assert(h@.take(i + 1).drop_last() =~= h@.take(i as int));
        }
        let c = h[i];
        if ('a' <= c && c <= 'z') || ('A' <= c && c <= 'Z') || ('0' <= c && c <= '9') || c == '-' {
            k.push(c);
        }
        i = i + 1;
    }
    proof {
        assert(h@.take(h@.len() as int) =~= h@);
    }
    let mut n = if k.len() == 0 {
        min_nass("asl")
    } else {
        min_huruf(saghir(&k).as_slice())
    };
    ilhaq(&mut n, ".jsonl");
    n
}

/// One pair as the memory file holds it.
#[derive(Debug)]
pub struct QaydKhazina {
    /// The source line.
    pub asl: String,
    /// Its Arabic.
    pub arabi: String,
    /// Where the Arabic came from, by name.
    pub masdar: String,
    /// The game it was read in.
    pub luba: Option<String>,
    /// The translator that produced it.
    pub muzawwid: Option<String>,
    /// The recognizer that read the source.
    pub qari: Option<String>,
    /// The recognizer's confidence.
    pub thiqa: Option<u8>,
}

/// An optional text's characters.
pub open spec fn ruyat_ikhtiyari(o: Option<String>) -> Option<Seq<char>> {
    match o {
        Some(s) => Some(s@),
        None => None,
    }
}

/// A stored pair as plain values.
pub struct SuratQaydKhazina {
    pub asl: Seq<char>,
    pub arabi: Seq<char>,
    pub masdar: Seq<char>,
    pub luba: Option<Seq<char>>,
    pub muzawwid: Option<Seq<char>>,
    pub qari: Option<Seq<char>>,
    pub thiqa: Option<u8>,
}

/// A stored pair's plain values.
pub open spec fn surat_qayd_khazina(q: QaydKhazina) -> SuratQaydKhazina {
    SuratQaydKhazina {
        asl: q.asl@,
        arabi: q.arabi@,
        masdar: q.masdar@,
        luba: ruyat_ikhtiyari(q.luba),
        muzawwid: ruyat_ikhtiyari(q.muzawwid),
        qari: ruyat_ikhtiyari(q.qari),
        thiqa: q.thiqa,
    }
}

/// The origin a stored name stands for: a project's or a machine's by
/// name, anything else a screen reading.
pub open spec fn masdar_min_ism_s(m: Seq<char>) -> MasdarTarjama {
    if m == "project"@ {
        MasdarTarjama::Mashru
    } else if m == "machine"@ {
        MasdarTarjama::Aaliya
    } else {
        MasdarTarjama::Mulahaza
    }
}

fn nass_ikhtiyari(o: &Option<String>) -> (r: Option<String>)
    ensures
        ruyat_ikhtiyari(r) == ruyat_ikhtiyari(*o),
{
    match o {
        Some(s) => Some(min_nass(s.as_str())),
        None => None,
    }
}

impl QaydKhazina {
    /// The translation a stored pair gives back.
    pub fn radd(&self) -> (r: RaddSatr)
        ensures
            r.arabi@ == self.arabi@,
            r.masdar == masdar_min_ism_s(self.masdar@),
    {
        let mashru = min_nass("project");
        let aaliya = min_nass("machine");
        let masdar = if self.masdar == mashru {
            MasdarTarjama::Mashru
        } else if self.masdar == aaliya {
            MasdarTarjama::Aaliya
        } else {
            MasdarTarjama::Mulahaza
        };
        RaddSatr { arabi: min_nass(self.arabi.as_str()), masdar }
    }

    /// A copy.
    pub fn nuskha(&self) -> (r: Self)
        ensures
            surat_qayd_khazina(r) == surat_qayd_khazina(*self),
    {
        QaydKhazina {
            asl: min_nass(self.asl.as_str()),
            arabi: min_nass(self.arabi.as_str()),
            masdar: min_nass(self.masdar.as_str()),
            luba: nass_ikhtiyari(&self.luba),
            muzawwid: nass_ikhtiyari(&self.muzawwid),
            qari: nass_ikhtiyari(&self.qari),
            thiqa: self.thiqa,
        }
    }
}

/// A stored pair under its key, as plain values.
pub type SuratMadkhalKhazina = (Seq<char>, SuratQaydKhazina);

/// The test for a key.
pub open spec fn bi_miftah_khazina(k: Seq<char>) -> spec_fn(SuratMadkhalKhazina) -> bool {
    |e: SuratMadkhalKhazina| e.0 == k
}

/// What is held under a key.
pub open spec fn qayd_fi(q: Seq<SuratMadkhalKhazina>, k: Seq<char>) -> Option<SuratQaydKhazina> {
    let i = awwal_s(q, bi_miftah_khazina(k));
    if i < q.len() {
        Some(q[i as int].1)
    } else {
        None
    }
}

/// The pairs after storing one under a key: in place of one already there,
/// else at the end.
pub open spec fn dakhil_s(q: Seq<SuratMadkhalKhazina>, k: Seq<char>, v: SuratQaydKhazina) -> Seq<SuratMadkhalKhazina> {
    let i = awwal_s(q, bi_miftah_khazina(k));
    if i < q.len() {
        q.update(i as int, (k, v))
    } else {
        q.push((k, v))
    }
}

/// The pairs a file's readable lines give, each stored under its line's
/// key, a later line replacing an earlier one with the same key.
pub open spec fn min_asatir_s(l: Seq<SuratQaydKhazina>) -> Seq<SuratMadkhalKhazina>
    decreases l.len(),
{
    if l.len() == 0 {
        Seq::empty()
    } else {
        dakhil_s(min_asatir_s(l.drop_last()), muwahhad(l.last().asl), l.last())
    }
}

/// No key held twice.
pub open spec fn mafatih_mutafarrida(q: Seq<SuratMadkhalKhazina>) -> bool {
    forall|i: int, j: int| 0 <= i < j < q.len() ==> (#[trigger] q[i]).0 != (#[trigger] q[j]).0
}

/// Whether a pair is worth storing: a key of at most the longest source
/// line, not empty, and Arabic that is not blank.
pub open spec fn yustahaqq_s(miftah: Seq<char>, arabi: Seq<char>) -> bool {
    miftah.len() > 0 && miftah.len() <= AQSA_TUL_ASL && !farigh(arabi)
}

proof fn lemma_dakhil(q: Seq<SuratMadkhalKhazina>, k: Seq<char>, v: SuratQaydKhazina)
    requires
        mafatih_mutafarrida(q),
    ensures
        mafatih_mutafarrida(dakhil_s(q, k, v)),
        qayd_fi(dakhil_s(q, k, v), k) == Some(v),
        forall|k2: Seq<char>| k2 != k ==> #[trigger] qayd_fi(dakhil_s(q, k, v), k2) == qayd_fi(q, k2),
        dakhil_s(q, k, v).len() == q.len() + if qayd_fi(q, k) is Some {
            0int
        } else {
            1int
        },
{
    let f = bi_miftah_khazina(k);
    lemma_awwal_hadd(q, f);
    let i = awwal_s(q, f) as int;
    let t = dakhil_s(q, k, v);
    assert forall|a: int, b: int| 0 <= a < b < t.len() implies (#[trigger] t[a]).0 != (#[trigger] t[b]).0 by {
        if i < q.len() {
            assert(t[a].0 == q[a].0 && t[b].0 == q[b].0);
        } else {
            if b == q.len() {
                assert(t[a] == q[a]);
                assert(!f(q[a]));
            } else {
                assert(t[a] == q[a] && t[b] == q[b]);
            }
        }
    }
    if i < q.len() {
        assert forall|j: int| 0 <= j < i implies !f(#[trigger] t[j]) by {
            assert(t[j] == q[j]);
        }
        lemma_awwal(t, f, i);
    } else {
        assert forall|j: int| 0 <= j < q.len() implies !f(#[trigger] t[j]) by {
            assert(t[j] == q[j]);
        }
        lemma_awwal(t, f, q.len() as int);
    }
    assert forall|k2: Seq<char>| k2 != k implies #[trigger] qayd_fi(t, k2) == qayd_fi(q, k2) by {
        let g = bi_miftah_khazina(k2);
        lemma_awwal_hadd(q, g);
        let p = awwal_s(q, g) as int;
        if i < q.len() {
            assert forall|j: int| 0 <= j < p implies !g(#[trigger] t[j]) by {
                if j != i {
                    assert(t[j] == q[j]);
                }
            }
            if p < q.len() {
                assert(p != i);
                assert(t[p] == q[p]);
            }
            lemma_awwal(t, g, p);
        } else {
            assert forall|j: int| 0 <= j < p implies !g(#[trigger] t[j]) by {
                assert(t[j] == q[j]);
            }
            if p < q.len() {
                assert(t[p] == q[p]);
                lemma_awwal(t, g, p);
            } else {
                lemma_awwal(t, g, t.len() as int);
            }
        }
    }
}

/// The shared translation memory's pairs in memory, and its counters; the
/// file they are read from and appended to is the caller's.
#[derive(Debug)]
pub struct DhakiraMalaf {
    lugha: String,
    qiyud: Vec<(String, QaydKhazina)>,
    ihsaat: IhsaatKhazina,
}

/// Each stored pair under its key, as plain values.
pub open spec fn ruyat_qiyud(q: Seq<(String, QaydKhazina)>) -> Seq<SuratMadkhalKhazina> {
    q.map_values(|e: (String, QaydKhazina)| (e.0@, surat_qayd_khazina(e.1)))
}

impl View for DhakiraMalaf {
    type V = Seq<SuratMadkhalKhazina>;

    closed spec fn view(&self) -> Seq<SuratMadkhalKhazina> {
        ruyat_qiyud(self.qiyud@)
    }
}

impl DhakiraMalaf {
    /// The counters.
    pub closed spec fn ihsaat_s(&self) -> IhsaatKhazina {
        self.ihsaat
    }

    /// The language the memory is for.
    pub closed spec fn lugha_s(&self) -> Seq<char> {
        self.lugha@
    }

    /// No key held twice, and the count on record is the count held.
    pub open spec fn salima(&self) -> bool {
        mafatih_mutafarrida(self@) && self.ihsaat_s().adad == self@.len()
    }

    /// The memory a file's readable lines give, in the order they stand, with
    /// the count of lines that could not be read.
    pub fn min_qiyud(lugha: &str, asatir: Vec<QaydKhazina>, talifa: u64) -> (r: Self)
        ensures
            r.salima(),
            r@ == min_asatir_s(asatir@.map_values(|q: QaydKhazina| surat_qayd_khazina(q))),
            r.lugha_s() == lugha@,
            r.ihsaat_s() == (IhsaatKhazina {
                adad: r@.len() as u64,
                isabat: 0,
                ikhfaqat: 0,
                kutibat: 0,
                talifa,
                ikhfaqat_kitaba: 0,
            }),
    {
        let mut v = asatir;
        let ghost asl = v@.map_values(|q: QaydKhazina| surat_qayd_khazina(q));
        let n = v.len();
        let mut r = DhakiraMalaf {
            lugha: min_nass(lugha),
            qiyud: Vec::new(),
            ihsaat: IhsaatKhazina {
                adad: 0,
                isabat: 0,
                ikhfaqat: 0,
                kutibat: 0,
                talifa,
                ikhfaqat_kitaba: 0,
            },
        };
        proof {
            assert(r@ =~= Seq::<SuratMadkhalKhazina>::empty());
        }
        let mut i: usize = 0;
        while v.len() > 0
            invariant
                i <= n,
                asl.len() == n,
                v@.len() + i == n,
                v@.map_values(|q: QaydKhazina| surat_qayd_khazina(q)) == asl.skip(i as int),
                r.salima(),
                r@ == min_asatir_s(asl.take(i as int)),
                r.lugha_s() == lugha@,
                r.ihsaat_s() == (IhsaatKhazina {
                    adad: r@.len() as u64,
                    isabat: 0,
                    ikhfaqat: 0,
                    kutibat: 0,
                    talifa,
                    ikhfaqat_kitaba: 0,
                }),
                r@.len() <= i,
            decreases v@.len(),
        {
            let ghost v0 = v@;
            proof {
                assert(v0.map_values(|q: QaydKhazina| surat_qayd_khazina(q))[0] == asl[i as int]);
                assert(asl.take(i + 1).drop_last() =~= asl.take(i as int));
                assert(asl.take(i + 1).last() == asl[i as int]);
            }
            let qayd = v.remove(0);
            proof {
                assert(v@ =~= v0.drop_first());
                assert(v@.map_values(|q: QaydKhazina| surat_qayd_khazina(q)) =~= v0.map_values(|q: QaydKhazina| surat_qayd_khazina(q)).drop_first());
                assert(asl.skip(i as int).drop_first() =~= asl.skip(i + 1));
            }
            let miftah = miftah_khazina(qayd.asl.as_str());
            r.dakhil(miftah, qayd);
            i = i + 1;
        }
        proof {
            assert(asl.take(n as int) =~= asl);
        }
        r
    }

    fn mawdi(&self, miftah: &String) -> (k: usize)
        ensures
            k == awwal_s(self@, bi_miftah_khazina(miftah@)),
    {
        let mut k: usize = 0;
        while k < self.qiyud.len()
            invariant
                k <= self@.len(),
                self@.len() == self.qiyud@.len(),
                forall|j: int| 0 <= j < k ==> !(bi_miftah_khazina(miftah@))(#[trigger] self@[j]),
            ensures
                k <= self@.len(),
                forall|j: int| 0 <= j < k ==> !(bi_miftah_khazina(miftah@))(#[trigger] self@[j]),
                k == self@.len() || (bi_miftah_khazina(miftah@))(self@[k as int]),
            decreases self@.len() - k,
        {
            if self.qiyud[k].0 == *miftah {
                break;
            }
            k = k + 1;
        }
        proof {
            lemma_awwal(self@, bi_miftah_khazina(miftah@), k as int);
        }
        k
    }

    /// Stores a pair under a key, in place of one already there, counting a
    /// new key.
    fn dakhil(&mut self, miftah: String, qayd: QaydKhazina)
        requires
            old(self).salima(),
            qayd_fi(old(self)@, miftah@) is None ==> old(self)@.len() < u64::MAX,
        ensures
            final(self).salima(),
            final(self)@ == dakhil_s(old(self)@, miftah@, surat_qayd_khazina(qayd)),
            final(self).lugha_s() == old(self).lugha_s(),
            final(self).ihsaat_s() == (IhsaatKhazina { adad: final(self).ihsaat_s().adad, ..old(self).ihsaat_s() }),
    {
        let ghost q0 = self@;
        let ghost v = surat_qayd_khazina(qayd);
        proof {
            lemma_dakhil(q0, miftah@, v);
            lemma_awwal_hadd(q0, bi_miftah_khazina(miftah@));
        }
        let k = self.mawdi(&miftah);
        if k < self.qiyud.len() {
            let ghost e0 = self.qiyud@;
            let _qadim = self.qiyud.remove(k);
            self.qiyud.insert(k, (miftah, qayd));
            proof {
                assert(self.qiyud@ =~= e0.update(k as int, self.qiyud@[k as int]));
                assert(self@ =~= q0.update(k as int, (self.qiyud@[k as int].0@, v)));
            }
        } else {
            let ghost e0 = self.qiyud@;
            self.qiyud.push((miftah, qayd));
            proof {
                assert(self@ =~= q0.push((self.qiyud@[k as int].0@, v)));
            }
            self.ihsaat.adad = self.ihsaat.adad + 1;
        }
    }

    /// Looks a source line up under its key, counting the hit or the miss.
    pub fn ibhath(&mut self, asl: &str) -> (r: Option<RaddSatr>)
        requires
            old(self).salima(),
        ensures
            final(self).salima(),
            final(self)@ == old(self)@,
            final(self).lugha_s() == old(self).lugha_s(),
            match qayd_fi(old(self)@, muwahhad(asl@)) {
                Some(q) => r matches Some(x) && x.arabi@ == q.arabi && x.masdar == masdar_min_ism_s(q.masdar),
                None => r is None,
            },
            final(self).ihsaat_s() == (IhsaatKhazina {
                isabat: if r is Some && old(self).ihsaat_s().isabat < u64::MAX {
                    (old(self).ihsaat_s().isabat + 1) as u64
                } else {
                    old(self).ihsaat_s().isabat
                },
                ikhfaqat: if r is None && old(self).ihsaat_s().ikhfaqat < u64::MAX {
                    (old(self).ihsaat_s().ikhfaqat + 1) as u64
                } else {
                    old(self).ihsaat_s().ikhfaqat
                },
                ..old(self).ihsaat_s()
            }),
    {
        let miftah = miftah_khazina(asl);
        let k = self.mawdi(&miftah);
        if k < self.qiyud.len() {
            let r = self.qiyud[k].1.radd();
            if self.ihsaat.isabat < u64::MAX {
                self.ihsaat.isabat = self.ihsaat.isabat + 1;
            }
            Some(r)
        } else {
            if self.ihsaat.ikhfaqat < u64::MAX {
                self.ihsaat.ikhfaqat = self.ihsaat.ikhfaqat + 1;
            }
            None
        }
    }

    /// Whether a source line is held.
    pub fn yahwi(&self, asl: &str) -> (r: bool)
        ensures
            r == qayd_fi(self@, muwahhad(asl@)) is Some,
    {
        let miftah = miftah_khazina(asl);
        let k = self.mawdi(&miftah);
        k < self.qiyud.len()
    }

    /// How many pairs are held.
    pub fn adad(&self) -> (r: usize)
        ensures
            r == self@.len(),
    {
        self.qiyud.len()
    }

    /// The counters.
    pub fn ihsaat(&self) -> (r: IhsaatKhazina)
        ensures
            r == self.ihsaat_s(),
    {
        self.ihsaat
    }

    /// The language.
    pub fn lugha(&self) -> (r: &str)
        ensures
            r@ == self.lugha_s(),
    {
        self.lugha.as_str()
    }

    /// Stores a screen reading's translation under its source line's key:
    /// nothing when the key is empty or too long or the Arabic blank, or when
    /// the same Arabic is already held; otherwise the pair is held, and
    /// returned for the caller to append to the file.
    pub fn sajjil(
        &mut self,
        asl: &str,
        arabi: &str,
        luba: Option<&str>,
        muzawwid: Option<&str>,
        qari: Option<&str>,
        thiqa: Option<u8>,
    ) -> (r: Option<QaydKhazina>)
        requires
            old(self).salima(),
        ensures
            final(self).salima(),
            final(self).lugha_s() == old(self).lugha_s(),
            ({
                let k = muwahhad(asl@);
                let v = SuratQaydKhazina {
                    asl: k,
                    arabi: arabi@,
                    masdar: ism_masdar(MasdarTarjama::Mulahaza),
                    luba: match luba { Some(s) => Some(s@), None => None },
                    muzawwid: match muzawwid { Some(s) => Some(s@), None => None },
                    qari: match qari { Some(s) => Some(s@), None => None },
                    thiqa,
                };
                if !yustahaqq_s(k, arabi@) || (qayd_fi(old(self)@, k) matches Some(q) && q.arabi == arabi@)
                    || (qayd_fi(old(self)@, k) is None && old(self)@.len() >= u64::MAX) {
                    &&& r is None
                    &&& final(self)@ == old(self)@
                    &&& final(self).ihsaat_s() == old(self).ihsaat_s()
                } else {
                    &&& r matches Some(q) && surat_qayd_khazina(q) == v
                    &&& final(self)@ == dakhil_s(old(self)@, k, v)
                    &&& final(self).ihsaat_s() == (IhsaatKhazina { adad: final(self)@.len() as u64, ..old(self).ihsaat_s() })
                }
            }),
    {
        let miftah = miftah_khazina(asl);
        let hm = huruf(miftah.as_str());
        let ha = huruf(arabi);
        let ma = shadhdhib(&ha);
        proof {
            crate::nass::lemma_farigh_mushdhab(arabi@);
        }
        if hm.len() == 0 || hm.len() > AQSA_TUL_ASL || ma.len() == 0 {
            return None;
        }
        let k = self.mawdi(&miftah);
        let arabi_s = min_nass(arabi);
        if k < self.qiyud.len() && self.qiyud[k].1.arabi == arabi_s {
            return None;
        }
        if k >= self.qiyud.len() && self.qiyud.len() as u64 >= u64::MAX {
            return None;
        }
        let qayd = QaydKhazina {
            asl: min_nass(miftah.as_str()),
            arabi: arabi_s,
            masdar: min_nass(MasdarTarjama::Mulahaza.ism()),
            luba: match luba {
                Some(s) => Some(min_nass(s)),
                None => None,
            },
            muzawwid: match muzawwid {
                Some(s) => Some(min_nass(s)),
                None => None,
            },
            qari: match qari {
                Some(s) => Some(min_nass(s)),
                None => None,
            },
            thiqa,
        };
        let nuskha = qayd.nuskha();
        self.dakhil(miftah, qayd);
        Some(nuskha)
    }

    /// Records whether appending the last stored pair to the file worked.
    pub fn natijat_kitaba(&mut self, najah: bool)
        ensures
            final(self)@ == old(self)@,
            final(self).lugha_s() == old(self).lugha_s(),
            final(self).ihsaat_s() == if najah {
                IhsaatKhazina {
                    kutibat: if old(self).ihsaat_s().kutibat < u64::MAX {
                        (old(self).ihsaat_s().kutibat + 1) as u64
                    } else {
                        old(self).ihsaat_s().kutibat
                    },
                    ..old(self).ihsaat_s()
                }
            } else {
                IhsaatKhazina {
                    ikhfaqat_kitaba: if old(self).ihsaat_s().ikhfaqat_kitaba < u64::MAX {
                        (old(self).ihsaat_s().ikhfaqat_kitaba + 1) as u64
                    } else {
                        old(self).ihsaat_s().ikhfaqat_kitaba
                    },
                    ..old(self).ihsaat_s()
                }
            },
    {
        if najah {
            if self.ihsaat.kutibat < u64::MAX {
                self.ihsaat.kutibat = self.ihsaat.kutibat + 1;
            }
        } else {
            if self.ihsaat.ikhfaqat_kitaba < u64::MAX {
                self.ihsaat.ikhfaqat_kitaba = self.ihsaat.ikhfaqat_kitaba + 1;
            }
        }
    }
}

/// A line stored in the memory is what a lookup of it gives back, and
/// storing it changes what no other line gives back.
pub proof fn qanun_khazina_qira_baad_kitaba(
    q: Seq<SuratMadkhalKhazina>,
    k: Seq<char>,
    v: SuratQaydKhazina,
    k2: Seq<char>,
)
    requires
        mafatih_mutafarrida(q),
    ensures
        qayd_fi(dakhil_s(q, k, v), k) == Some(v),
        k2 != k ==> qayd_fi(dakhil_s(q, k, v), k2) == qayd_fi(q, k2),
        mafatih_mutafarrida(dakhil_s(q, k, v)),
{
    lemma_dakhil(q, k, v);
}

/// What the shared memory holds for a line, whatever the game: the pair
/// stored under the line's key, as plain values.
pub open spec fn jawab_malaf_s(q: Seq<SuratMadkhalKhazina>, asl: Seq<char>) -> Option<(Seq<char>, MasdarTarjama)> {
    match qayd_fi(q, muwahhad(asl)) {
        Some(v) => Some((v.arabi, masdar_min_ism_s(v.masdar))),
        None => None,
    }
}

impl DhakiraTabaqa for DhakiraMalaf {
    open spec fn jawab_s(&self, luba: u64, asl: Seq<char>) -> Option<(Seq<char>, MasdarTarjama)> {
        jawab_malaf_s(self@, asl)
    }

    open spec fn salima_t(&self) -> bool {
        self.salima()
    }

    open spec fn daaima_s(&self) -> bool {
        true
    }

    fn ibhath_satr(&mut self, luba: LubaId, asl: &str) -> (r: Option<RaddSatr>) {
        DhakiraMalaf::ibhath(self, asl)
    }

    fn daaima(&self) -> (r: bool) {
        true
    }
}

/// The first answer the layers give for a line, asking them in order up to
/// the `n`th.
pub open spec fn awwal_jawab<M: DhakiraTabaqa>(t: Seq<M>, luba: u64, asl: Seq<char>, n: nat) -> Option<
    (Seq<char>, MasdarTarjama),
>
    decreases n,
{
    if n == 0 {
        None
    } else {
        match awwal_jawab(t, luba, asl, (n - 1) as nat) {
            Some(v) => Some(v),
            None => t[n - 1].jawab_s(luba, asl),
        }
    }
}

proof fn lemma_awwal_jawab_thabit<M: DhakiraTabaqa>(t1: Seq<M>, t2: Seq<M>, luba: u64, asl: Seq<char>, n: nat)
    requires
        n <= t1.len(),
        t1.len() == t2.len(),
        forall|i: int| 0 <= i < t1.len() ==> #[trigger] t2[i].jawab_s(luba, asl) == t1[i].jawab_s(luba, asl),
    ensures
        awwal_jawab(t2, luba, asl, n) == awwal_jawab(t1, luba, asl, n),
    decreases n,
{
    if n > 0 {
        lemma_awwal_jawab_thabit(t1, t2, luba, asl, (n - 1) as nat);
        assert(t2[n - 1].jawab_s(luba, asl) == t1[n - 1].jawab_s(luba, asl));
    }
}

proof fn lemma_awwal_jawab_yabqa<M: DhakiraTabaqa>(t: Seq<M>, luba: u64, asl: Seq<char>, m: nat, n: nat)
    requires
        m <= n,
        awwal_jawab(t, luba, asl, m) is Some,
    ensures
        awwal_jawab(t, luba, asl, n) == awwal_jawab(t, luba, asl, m),
    decreases n - m,
{
    if m < n {
        lemma_awwal_jawab_yabqa(t, luba, asl, m, (n - 1) as nat);
    }
}

proof fn lemma_awwal_jawab_la_shay<M: DhakiraTabaqa>(t: Seq<M>, luba: u64, asl: Seq<char>, i: nat)
    requires
        i <= t.len(),
        forall|j: int| 0 <= j < i ==> #[trigger] t[j].jawab_s(luba, asl) is None,
    ensures
        awwal_jawab(t, luba, asl, i) is None,
    decreases i,
{
    if i > 0 {
        lemma_awwal_jawab_la_shay(t, luba, asl, (i - 1) as nat);
        assert(t[i - 1].jawab_s(luba, asl) is None);
    }
}

/// A layered memory answers with the first layer that holds the line:
/// when layer `i` holds it and none before it does, its answer is the
/// layered memory's, whatever the layers after it hold.
pub proof fn qanun_al_tabaqa_al_ula_tujib<M: DhakiraTabaqa>(d: DhakiraMurakkaba<M>, luba: u64, asl: Seq<char>, i: int)
    requires
        0 <= i < d.tabaqat_s().len(),
        d.tabaqat_s()[i].jawab_s(luba, asl) is Some,
        forall|j: int| 0 <= j < i ==> #[trigger] d.tabaqat_s()[j].jawab_s(luba, asl) is None,
    ensures
        d.jawab_s(luba, asl) == d.tabaqat_s()[i].jawab_s(luba, asl),
{
    let t = d.tabaqat_s();
    lemma_awwal_jawab_la_shay(t, luba, asl, i as nat);
    assert(awwal_jawab(t, luba, asl, (i + 1) as nat) == t[i].jawab_s(luba, asl));
    lemma_awwal_jawab_yabqa(t, luba, asl, (i + 1) as nat, t.len());
}

/// Several memories asked in order, the last one also the one written:
/// the first that holds a line answers for it.
pub struct DhakiraMurakkaba<M> {
    tabaqat: Vec<M>,
}

impl<M: DhakiraTabaqa> DhakiraMurakkaba<M> {
    /// The layers, in the order they are asked.
    pub closed spec fn tabaqat_s(&self) -> Seq<M> {
        self.tabaqat@
    }

    /// Layers asked in the given order, with `kitaba` asked last and written.
    pub fn jadeeda(qabl: Vec<M>, kitaba: M) -> (r: Self)
        ensures
            r.tabaqat_s() == qabl@.push(kitaba),
    {
        let mut tabaqat = qabl;
        tabaqat.push(kitaba);
        DhakiraMurakkaba { tabaqat }
    }
}

impl<M: DhakiraTabaqa> DhakiraTabaqa for DhakiraMurakkaba<M> {
    open spec fn jawab_s(&self, luba: u64, asl: Seq<char>) -> Option<(Seq<char>, MasdarTarjama)> {
        awwal_jawab(self.tabaqat_s(), luba, asl, self.tabaqat_s().len())
    }

    open spec fn salima_t(&self) -> bool {
        &&& self.tabaqat_s().len() > 0
        &&& forall|i: int| 0 <= i < self.tabaqat_s().len() ==> #[trigger] self.tabaqat_s()[i].salima_t()
    }

    open spec fn daaima_s(&self) -> bool {
        self.tabaqat_s().len() > 0 && self.tabaqat_s().last().daaima_s()
    }

    fn ibhath_satr(&mut self, luba: LubaId, asl: &str) -> (r: Option<RaddSatr>) {
        let ghost t0 = self.tabaqat@;
        let n = self.tabaqat.len();
        let mut i: usize = 0;
        while i < n
            invariant
                n == t0.len(),
                t0 == old(self).tabaqat_s(),
                n > 0,
                i <= n,
                self.tabaqat@.len() == n,
                forall|k: int| 0 <= k < n ==> #[trigger] self.tabaqat@[k].salima_t(),
                forall|k: int| i <= k < n ==> #[trigger] self.tabaqat@[k] == t0[k],
                forall|k: int| 0 <= k < n ==> #[trigger] self.tabaqat@[k].daaima_s() == t0[k].daaima_s(),
                forall|k: int, l: u64, a: Seq<char>|
                    0 <= k < n ==> #[trigger] self.tabaqat@[k].jawab_s(l, a) == t0[k].jawab_s(l, a),
                awwal_jawab(t0, luba.0, asl@, i as nat) is None,
            decreases n - i,
        {
            let ghost qabl = self.tabaqat@;
            let r = self.tabaqat[i].ibhath_satr(luba, asl);
            proof {
                assert(self.tabaqat@ == qabl.update(i as int, self.tabaqat@[i as int]));
                assert forall|k: int, l: u64, a: Seq<char>| 0 <= k < n implies #[trigger] self.tabaqat@[k].jawab_s(l, a)
                    == t0[k].jawab_s(l, a) by {
                    if k == i {
                        assert(self.tabaqat@[k].jawab_s(l, a) == qabl[k].jawab_s(l, a));
                    } else {
                        assert(self.tabaqat@[k] == qabl[k]);
                    }
                }
                assert forall|k: int| 0 <= k < n implies #[trigger] self.tabaqat@[k].daaima_s() == t0[k].daaima_s() by {
                    if k != i {
                        assert(self.tabaqat@[k] == qabl[k]);
                    }
                }
                assert forall|k: int| 0 <= k < n implies #[trigger] self.tabaqat@[k].salima_t() by {
                    if k != i {
                        assert(self.tabaqat@[k] == qabl[k]);
                    }
                }
            }
            if r.is_some() {
                proof {
                    self.lemma_thabit(t0, luba.0, asl@);
                    assert(self.tabaqat@[n - 1].daaima_s() == t0[n - 1].daaima_s());
                    assert(qabl[i as int] == t0[i as int]);
                    assert(awwal_jawab(t0, luba.0, asl@, (i + 1) as nat) == t0[i as int].jawab_s(luba.0, asl@));
                    lemma_awwal_jawab_yabqa(t0, luba.0, asl@, (i + 1) as nat, n as nat);
                }
                return r;
            }
            i = i + 1;
        }
        proof {
            self.lemma_thabit(t0, luba.0, asl@);
        }
        None
    }

    fn daaima(&self) -> (r: bool) {
        let n = self.tabaqat.len();
        if n == 0 {
            return false;
        }
        self.tabaqat[n - 1].daaima()
    }
}

impl<M: DhakiraTabaqa> DhakiraMurakkaba<M> {
    proof fn lemma_thabit(&self, t0: Seq<M>, luba: u64, asl: Seq<char>)
        requires
            self.tabaqat_s().len() == t0.len(),
            forall|k: int, l: u64, a: Seq<char>|
                0 <= k < t0.len() ==> #[trigger] self.tabaqat_s()[k].jawab_s(l, a) == t0[k].jawab_s(l, a),
        ensures
            forall|l: u64, a: Seq<char>| #[trigger] awwal_jawab(self.tabaqat_s(), l, a, t0.len()) == awwal_jawab(t0, l, a, t0.len()),
    {
        assert forall|l: u64, a: Seq<char>| #[trigger] awwal_jawab(self.tabaqat_s(), l, a, t0.len()) == awwal_jawab(t0, l, a, t0.len()) by {
            assert forall|i: int| 0 <= i < t0.len() implies #[trigger] self.tabaqat_s()[i].jawab_s(l, a) == t0[i].jawab_s(l, a) by {
                assert(self.tabaqat_s()[i].jawab_s(l, a) == t0[i].jawab_s(l, a));
            }
            lemma_awwal_jawab_thabit(t0, self.tabaqat_s(), l, a, t0.len());
        }
    }
}

} // verus!
