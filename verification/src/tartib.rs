//! Orderings the library puts things in: the first element that passes a
//! test, and the stable order that insertion gives.

use vstd::prelude::*;

verus! {

/// The index of the first element that passes `p`, or the length when none
/// does.
pub open spec fn awwal_s<A>(s: Seq<A>, p: spec_fn(A) -> bool) -> nat
    decreases s.len(),
{
    if s.len() == 0 {
        0
    } else if p(s[0]) {
        0
    } else {
        1 + awwal_s(s.drop_first(), p)
    }
}

/// The first index that passes is the one a scan from the left stops at.
pub proof fn lemma_awwal<A>(s: Seq<A>, p: spec_fn(A) -> bool, k: int)
    requires
        0 <= k <= s.len(),
        forall|j: int| 0 <= j < k ==> !p(#[trigger] s[j]),
        k == s.len() || p(s[k]),
    ensures
        awwal_s(s, p) == k,
    decreases s.len(),
{
    if s.len() > 0 && k > 0 {
        assert(!p(s[0]));
        assert forall|j: int| 0 <= j < k - 1 implies !p(#[trigger] s.drop_first()[j]) by {
            assert(s.drop_first()[j] == s[j + 1]);
        }
        if k < s.len() {
            assert(s.drop_first()[k - 1] == s[k]);
        }
        lemma_awwal(s.drop_first(), p, k - 1);
    }
}

/// `awwal_s` never passes the end.
pub proof fn lemma_awwal_hadd<A>(s: Seq<A>, p: spec_fn(A) -> bool)
    ensures
        awwal_s(s, p) <= s.len(),
        awwal_s(s, p) < s.len() ==> p(s[awwal_s(s, p) as int]),
        forall|j: int| 0 <= j < awwal_s(s, p) ==> !p(#[trigger] s[j]),
    decreases s.len(),
{
    if s.len() > 0 && !p(s[0]) {
        lemma_awwal_hadd(s.drop_first(), p);
        assert forall|j: int| 0 <= j < awwal_s(s, p) implies !p(#[trigger] s[j]) by {
            if j > 0 {
                assert(s[j] == s.drop_first()[j - 1]);
            }
        }
    }
}

/// Where insertion puts `x`: before the first element it strictly precedes,
/// so that equal elements keep the order they came in.
pub open spec fn mawdi_idraj<A>(s: Seq<A>, x: A, qabl: spec_fn(A, A) -> bool) -> nat {
    awwal_s(s, |e: A| qabl(x, e))
}

/// The order insertion gives: each element in turn put before the first
/// already placed that it strictly precedes.
pub open spec fn rattib_s<A>(s: Seq<A>, qabl: spec_fn(A, A) -> bool) -> Seq<A>
    decreases s.len(),
{
    if s.len() == 0 {
        s
    } else {
        let p = rattib_s(s.drop_last(), qabl);
        p.insert(mawdi_idraj(p, s.last(), qabl) as int, s.last())
    }
}

/// No element strictly precedes one placed before it.
pub open spec fn murattab_s<A>(s: Seq<A>, qabl: spec_fn(A, A) -> bool) -> bool {
    forall|i: int, j: int| 0 <= i < j < s.len() ==> !qabl(#[trigger] s[j], #[trigger] s[i])
}

/// Whether `qabl` is a strict order: nothing precedes itself, and
/// preceding is transitive.
pub open spec fn mutaaddi<A>(qabl: spec_fn(A, A) -> bool) -> bool {
    &&& forall|a: A| !#[trigger] qabl(a, a)
    &&& forall|a: A, b: A, c: A| #[trigger] qabl(a, b) && #[trigger] qabl(b, c) ==> qabl(a, c)
}

/// Whether every element passes `p`.
pub open spec fn kulluha<A>(s: Seq<A>, p: spec_fn(A) -> bool) -> bool {
    forall|i: int| 0 <= i < s.len() ==> p(#[trigger] s[i])
}

/// Inserting at `mawdi_idraj` keeps an ordered sequence ordered.
pub proof fn lemma_idraj_murattab<A>(s: Seq<A>, x: A, qabl: spec_fn(A, A) -> bool)
    requires
        murattab_s(s, qabl),
        mutaaddi(qabl),
    ensures
        murattab_s(s.insert(mawdi_idraj(s, x, qabl) as int, x), qabl),
{
    let p = |e: A| qabl(x, e);
    lemma_awwal_hadd(s, p);
    assert(p =~= (|e: A| qabl(x, e)));
    let k = mawdi_idraj(s, x, qabl) as int;
    assert(k == awwal_s(s, p));
    let t = s.insert(k, x);
    assert forall|i: int, j: int| 0 <= i < j < t.len() implies !qabl(#[trigger] t[j], #[trigger] t[i]) by {
        if j < k {
            assert(t[i] == s[i] && t[j] == s[j]);
        } else if j == k {
            assert(t[i] == s[i]);
            assert(!p(s[i]));
        } else if i == k {
            assert(t[j] == s[j - 1]);
            assert(p(s[k]));
            assert(qabl(x, s[k]));
            if k < j - 1 {
                assert(!qabl(s[j - 1], s[k]));
            }
            if qabl(s[j - 1], x) {
                assert(qabl(s[j - 1], s[k]));
            }
        } else if i < k {
            assert(t[i] == s[i] && t[j] == s[j - 1]);
            assert(!qabl(s[j - 1], s[i]));
        } else {
            assert(k <= s.len());
            assert(0 <= i - 1 < j - 1 < s.len());
            assert(t[i] == s[i - 1]);
            assert(t[j] == s[j - 1]);
            assert(!qabl(s[j - 1], s[i - 1]));
        }
    }
}

/// Insertion order is ordered, and as long as what it orders.
pub proof fn lemma_rattib<A>(s: Seq<A>, qabl: spec_fn(A, A) -> bool)
    requires
        mutaaddi(qabl),
    ensures
        murattab_s(rattib_s(s, qabl), qabl),
        rattib_s(s, qabl).len() == s.len(),
    decreases s.len(),
{
    if s.len() > 0 {
        let p = rattib_s(s.drop_last(), qabl);
        lemma_rattib(s.drop_last(), qabl);
        let q = |e: A| qabl(s.last(), e);
        lemma_awwal_hadd(p, q);
        assert(q =~= (|e: A| qabl(s.last(), e)));
        lemma_idraj_murattab(p, s.last(), qabl);
    }
}

/// Whatever holds of every element before ordering holds of every element
/// after.
pub proof fn lemma_rattib_kulluha<A>(s: Seq<A>, qabl: spec_fn(A, A) -> bool, p: spec_fn(A) -> bool)
    requires
        kulluha(s, p),
    ensures
        kulluha(rattib_s(s, qabl), p),
    decreases s.len(),
{
    if s.len() > 0 {
        let r = rattib_s(s.drop_last(), qabl);
        assert(kulluha(s.drop_last(), p)) by {
            assert forall|i: int| 0 <= i < s.drop_last().len() implies p(#[trigger] s.drop_last()[i]) by {
                assert(s.drop_last()[i] == s[i]);
            }
        }
        lemma_rattib_kulluha(s.drop_last(), qabl, p);
        let q = |e: A| qabl(s.last(), e);
        lemma_awwal_hadd(r, q);
        assert(q =~= (|e: A| qabl(s.last(), e)));
        let k = mawdi_idraj(r, s.last(), qabl) as int;
        assert(k == awwal_s(r, q));
        let t = r.insert(k, s.last());
        assert forall|i: int| 0 <= i < t.len() implies p(#[trigger] t[i]) by {
            if i < k {
                assert(t[i] == r[i]);
            } else if i > k {
                assert(t[i] == r[i - 1]);
            }
        }
    }
}

/// An association list whose keys strictly increase.
pub open spec fn mufatah_murattab<V>(q: Seq<(u64, V)>) -> bool {
    forall|i: int, j: int| 0 <= i < j < q.len() ==> (#[trigger] q[i]).0 < (#[trigger] q[j]).0
}

/// The test for key `m`.
pub open spec fn bi_miftah<V>(m: u64) -> spec_fn((u64, V)) -> bool {
    |e: (u64, V)| e.0 == m
}

/// Where key `m` is held, or the length when it is not.
pub open spec fn mawdi_miftah<V>(q: Seq<(u64, V)>, m: u64) -> nat {
    awwal_s(q, bi_miftah(m))
}

/// The value held under `m`, or `d` when none is.
pub open spec fn qeema_fi<V>(q: Seq<(u64, V)>, m: u64, d: V) -> V {
    let k = mawdi_miftah(q, m);
    if k < q.len() {
        q[k as int].1
    } else {
        d
    }
}

/// In a list with increasing keys, the entry at `k` is the one found for
/// its key.
pub proof fn lemma_miftah_fi<V>(q: Seq<(u64, V)>, k: int)
    requires
        mufatah_murattab(q),
        0 <= k < q.len(),
    ensures
        mawdi_miftah(q, q[k].0) == k,
{
    let f = bi_miftah::<V>(q[k].0);
    assert forall|j: int| 0 <= j < k implies !f(#[trigger] q[j]) by {
        assert(q[j].0 < q[k].0);
    }
    lemma_awwal(q, f, k);
}

/// A key no entry carries is not found.
pub proof fn lemma_miftah_ghaib<V>(q: Seq<(u64, V)>, m: u64)
    requires
        forall|j: int| 0 <= j < q.len() ==> (#[trigger] q[j]).0 != m,
    ensures
        mawdi_miftah(q, m) == q.len(),
{
    let f = bi_miftah::<V>(m);
    lemma_awwal(q, f, q.len() as int);
}

/// Replacing the value at one entry changes what its key gives and nothing
/// else, and keeps the keys increasing.
pub proof fn lemma_miftah_tahdith<V>(q: Seq<(u64, V)>, k: int, v: V, d: V, m2: u64)
    requires
        mufatah_murattab(q),
        0 <= k < q.len(),
    ensures
        mufatah_murattab(q.update(k, (q[k].0, v))),
        qeema_fi(q.update(k, (q[k].0, v)), m2, d) == if m2 == q[k].0 {
            v
        } else {
            qeema_fi(q, m2, d)
        },
{
    let t = q.update(k, (q[k].0, v));
    assert forall|i: int, j: int| 0 <= i < j < t.len() implies (#[trigger] t[i]).0 < (
    #[trigger] t[j]).0 by {
        assert(t[i].0 == q[i].0 && t[j].0 == q[j].0);
    }
    if m2 == q[k].0 {
        lemma_miftah_fi(t, k);
    } else {
        let g = bi_miftah::<V>(m2);
        lemma_awwal_hadd(q, g);
        let p = awwal_s(q, g);
        assert forall|j: int| 0 <= j < p implies !g(#[trigger] t[j]) by {
            assert(t[j].0 == q[j].0);
        }
        if p < q.len() {
            assert(t[p as int].0 == q[p as int].0);
        }
        lemma_awwal(t, g, p as int);
    }
}

/// Inserting a new key where the keys around it are smaller before and
/// larger after adds that key and changes nothing else.
pub proof fn lemma_miftah_idraj<V>(q: Seq<(u64, V)>, p: int, m: u64, v: V, d: V, m2: u64)
    requires
        mufatah_murattab(q),
        0 <= p <= q.len(),
        forall|j: int| 0 <= j < p ==> (#[trigger] q[j]).0 < m,
        forall|j: int| p <= j < q.len() ==> (#[trigger] q[j]).0 > m,
    ensures
        mufatah_murattab(q.insert(p, (m, v))),
        qeema_fi(q.insert(p, (m, v)), m2, d) == if m2 == m {
            v
        } else {
            qeema_fi(q, m2, d)
        },
{
    let t = q.insert(p, (m, v));
    assert forall|i: int, j: int| 0 <= i < j < t.len() implies (#[trigger] t[i]).0 < (
    #[trigger] t[j]).0 by {
        if j < p {
            assert(t[i] == q[i] && t[j] == q[j]);
        } else if j == p {
            assert(t[i] == q[i]);
        } else if i == p {
            assert(t[j] == q[j - 1]);
        } else if i < p {
            assert(t[i] == q[i] && t[j] == q[j - 1]);
        } else {
            assert(t[i] == q[i - 1] && t[j] == q[j - 1]);
        }
    }
    if m2 == m {
        assert(t[p] == (m, v));
        lemma_miftah_fi(t, p);
    } else {
        let g = bi_miftah::<V>(m2);
        lemma_awwal_hadd(q, g);
        let k = awwal_s(q, g) as int;
        if k < p {
            assert forall|j: int| 0 <= j < k implies !g(#[trigger] t[j]) by {
                assert(t[j] == q[j]);
            }
            assert(t[k] == q[k]);
            lemma_awwal(t, g, k);
        } else {
            assert forall|j: int| 0 <= j < k + 1 implies !g(#[trigger] t[j]) by {
                if j < p {
                    assert(t[j] == q[j]);
                } else if j > p {
                    assert(t[j] == q[j - 1]);
                }
            }
            if k < q.len() {
                assert(t[k + 1] == q[k]);
            }
            lemma_awwal(t, g, k + 1);
        }
    }
}

/// Removing the entry for a key forgets that key and changes nothing else.
pub proof fn lemma_miftah_hadhf<V>(q: Seq<(u64, V)>, k: int, d: V, m2: u64)
    requires
        mufatah_murattab(q),
        0 <= k < q.len(),
    ensures
        mufatah_murattab(q.remove(k)),
        qeema_fi(q.remove(k), m2, d) == if m2 == q[k].0 {
            d
        } else {
            qeema_fi(q, m2, d)
        },
{
    let t = q.remove(k);
    assert forall|i: int, j: int| 0 <= i < j < t.len() implies (#[trigger] t[i]).0 < (
    #[trigger] t[j]).0 by {
        if j < k {
            assert(t[i] == q[i] && t[j] == q[j]);
        } else if i < k {
            assert(t[i] == q[i] && t[j] == q[j + 1]);
        } else {
            assert(t[i] == q[i + 1] && t[j] == q[j + 1]);
        }
    }
    let g = bi_miftah::<V>(m2);
    lemma_awwal_hadd(q, g);
    let p = awwal_s(q, g) as int;
    if m2 == q[k].0 {
        assert forall|j: int| 0 <= j < t.len() implies (#[trigger] t[j]).0 != m2 by {
            if j < k {
                assert(t[j] == q[j]);
                assert(q[j].0 < q[k].0);
            } else {
                assert(t[j] == q[j + 1]);
                assert(q[k].0 < q[j + 1].0);
            }
        }
        lemma_miftah_ghaib(t, m2);
    } else if p < k {
        assert forall|j: int| 0 <= j < p implies !g(#[trigger] t[j]) by {
            assert(t[j] == q[j]);
        }
        assert(t[p] == q[p]);
        lemma_awwal(t, g, p);
    } else {
        assert(p != k);
        assert forall|j: int| 0 <= j < p - 1 implies !g(#[trigger] t[j]) by {
            if j < k {
                assert(t[j] == q[j]);
            } else {
                assert(t[j] == q[j + 1]);
            }
        }
        if p < q.len() {
            assert(t[p - 1] == q[p]);
        }
        lemma_awwal(t, g, p - 1);
    }
}

} // verus!
