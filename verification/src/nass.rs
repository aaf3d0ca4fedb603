//! Text helpers shared by every module that builds a sentence: numbers written
//! out in decimal and in hexadecimal, the whitespace rule, and the few
//! character properties that only the standard library can answer.

use vstd::arithmetic::power2::{lemma2_to64, lemma_pow2_unfold, pow2};
use vstd::prelude::*;

verus! {

/// The digit for a value below sixteen, lower-case past nine.
pub open spec fn harf_raqm(d: nat) -> char {
    if d < 10 {
        ((48 + d) as u32) as char
    } else {
        ((87 + d) as u32) as char
    }
}

/// Dividing by a base of at least two makes a number of at least that base
/// smaller.
pub proof fn lemma_qisma_tasghur(n: nat, asas: nat)
    requires
        asas >= 2,
        n >= asas,
    ensures
        n / asas < n,
{
    assert(n / asas < n) by (nonlinear_arith)
        requires
            asas >= 2,
            n >= asas,
    ;
}

/// A number written in a base from two to sixteen, most significant digit
/// first, with no leading zeros (zero itself is one digit).
pub open spec fn bi_asas(n: nat, asas: nat) -> Seq<char>
    decreases n,
{
    if asas < 2 || n < asas {
        seq![harf_raqm(n)]
    } else {
        proof {
            lemma_qisma_tasghur(n, asas);
        }
        bi_asas(n / asas, asas).push(harf_raqm(n % asas))
    }
}

/// A number in decimal, as `{}` writes it.
pub open spec fn ashri(n: nat) -> Seq<char> {
    bi_asas(n, 10)
}

/// A number in lower-case hexadecimal, as `{:x}` writes it.
pub open spec fn sittat_ashar(n: nat) -> Seq<char> {
    bi_asas(n, 16)
}

/// `n` copies of a character.
pub open spec fn takrar(c: char, n: nat) -> Seq<char>
    decreases n,
{
    if n == 0 {
        Seq::empty()
    } else {
        takrar(c, (n - 1) as nat).push(c)
    }
}

/// Text padded on the left with zeros to at least `ard` characters.
pub open spec fn bi_hashw(s: Seq<char>, ard: nat) -> Seq<char> {
    if s.len() >= ard {
        s
    } else {
        takrar('0', (ard - s.len()) as nat) + s
    }
}

/// Whether a character is white space in Unicode's sense, which is the sense
/// `char::is_whitespace`, `str::trim` and `str::split_whitespace` use.
pub open spec fn faragh(c: char) -> bool {
    let u = c as u32;
    (0x09 <= u && u <= 0x0D) || u == 0x20 || u == 0x85 || u == 0xA0 || u == 0x1680 || (0x2000
        <= u && u <= 0x200A) || u == 0x2028 || u == 0x2029 || u == 0x202F || u == 0x205F || u
        == 0x3000
}

/// The same test, run.
pub fn faragh_p(c: char) -> (r: bool)
    ensures
        r == faragh(c),
{
    let u = c as u32;
    (0x09 <= u && u <= 0x0D) || u == 0x20 || u == 0x85 || u == 0xA0 || u == 0x1680 || (0x2000
        <= u && u <= 0x200A) || u == 0x2028 || u == 0x2029 || u == 0x202F || u == 0x205F || u
        == 0x3000
}

/// How many characters at the front of `s` are white space.
pub open spec fn faragh_awwal(s: Seq<char>) -> nat
    decreases s.len(),
{
    if s.len() > 0 && faragh(s[0]) {
        1 + faragh_awwal(s.drop_first())
    } else {
        0
    }
}

/// How many characters at the back of `s` are white space.
pub open spec fn faragh_akhir(s: Seq<char>) -> nat
    decreases s.len(),
{
    if s.len() > 0 && faragh(s.last()) {
        1 + faragh_akhir(s.drop_last())
    } else {
        0
    }
}

/// Text with white space removed from both ends, as `str::trim` does.
pub open spec fn mushdhab(s: Seq<char>) -> Seq<char> {
    let bidaya = faragh_awwal(s);
    let baqi = s.subrange(bidaya as int, s.len() as int);
    baqi.subrange(0, baqi.len() - faragh_akhir(baqi))
}

/// Whether the text holds nothing but white space.
pub open spec fn farigh(s: Seq<char>) -> bool {
    forall|i: int| 0 <= i < s.len() ==> faragh(#[trigger] s[i])
}

/// Appends one character.
///
/// Calls `String::push`, which the standard library documents as adding the
/// character at the end; that is all the contract claims.
#[verifier::external_body]
pub fn adhif_harf(s: &mut String, c: char)
    ensures
        final(s)@ == old(s)@.push(c),
{
    s.push(c)
}

fn harf_min(d: u8) -> (c: char)
    requires
        d < 16,
    ensures
        c == harf_raqm(d as nat),
{
    if d < 10 {
        (48u8 + d) as char
    } else {
        (87u8 + d) as char
    }
}

/// Appends a number written in a base from two to sixteen.
pub fn aktub_bi_asas(s: &mut String, n: u64, asas: u64)
    requires
        2 <= asas <= 16,
    ensures
        final(s)@ == old(s)@ + bi_asas(n as nat, asas as nat),
    decreases n,
{
    if n >= asas {
        proof {
            lemma_qisma_tasghur(n as nat, asas as nat);
        }
        aktub_bi_asas(s, n / asas, asas);
        adhif_harf(s, harf_min((n % asas) as u8));
    } else {
        adhif_harf(s, harf_min(n as u8));
    }
}

/// Appends a number in decimal.
pub fn aktub_ashri(s: &mut String, n: u64)
    ensures
        final(s)@ == old(s)@ + ashri(n as nat),
{
    aktub_bi_asas(s, n, 10);
}

/// Appends text.
pub fn ilhaq(s: &mut String, t: &str)
    ensures
        final(s)@ == old(s)@ + t@,
{
    s.append(t);
}

/// A new string holding `t`.
pub fn min_nass(t: &str) -> (r: String)
    ensures
        r@ == t@,
{
    t.to_owned()
}

/// Appends a number in lower-case hexadecimal, zero-padded to `ard` digits.
pub fn aktub_sittat_ashar(s: &mut String, n: u64, ard: u64)
    ensures
        final(s)@ == old(s)@ + bi_hashw(sittat_ashar(n as nat), ard as nat),
{
    let mut raqm = String::new();
    aktub_bi_asas(&mut raqm, n, 16);
    let tul = adad_arqam(n, 16);
    let ghost r = raqm@;
    if tul < ard {
        let mut i: u64 = 0;
        let ghost asl = s@;
        while i < ard - tul
            invariant
                i <= ard - tul,
                tul == r.len(),
                tul < ard,
                s@ == asl + takrar('0', i as nat),
            decreases ard - tul - i,
        {
            adhif_harf(s, '0');
            i = i + 1;
        }
    }
    s.append(raqm.as_str());
}

/// How many digits a number takes in a base.
fn adad_arqam(n: u64, asas: u64) -> (r: u64)
    requires
        2 <= asas <= 16,
    ensures
        r == bi_asas(n as nat, asas as nat).len(),
        r <= 64,
    decreases n,
{
    proof {
        lemma2_to64();
        lemma_tul_hadd(n as nat, asas as nat, 64);
    }
    if n >= asas {
        proof {
            lemma_qisma_tasghur(n as nat, asas as nat);
        }
        let r = adad_arqam(n / asas, asas);
        proof {
            lemma2_to64();
            lemma_tul_hadd(n as nat, asas as nat, 64);
        }
        r + 1
    } else {
        1
    }
}

/// A number below 2^k takes at most k digits in any base of two or more.
proof fn lemma_tul_hadd(n: nat, asas: nat, k: nat)
    requires
        2 <= asas <= 16,
        k >= 1,
        n < pow2(k),
    ensures
        bi_asas(n, asas).len() <= k,
    decreases n,
{
    if n >= asas {
        lemma_qisma_tasghur(n, asas);
        let q = n / asas;
        assert(q * 2 <= n) by (nonlinear_arith)
            requires
                q == n / asas,
                asas >= 2,
        ;
        lemma_pow2_unfold(k);
        if k == 1 {
            assert(pow2(0) == 1) by {
                lemma2_to64();
            }
        }
        assert(k >= 2);
        lemma_tul_hadd(q, asas, (k - 1) as nat);
    }
}

} // verus!

verus! {

/// Reading text left to right with runs of white space collapsed to one
/// space and none kept at either end: what was produced so far, and whether
/// white space is waiting to be written before the next character.
pub open spec fn wahhid_hala(s: Seq<char>) -> (Seq<char>, bool)
    decreases s.len(),
{
    if s.len() == 0 {
        (Seq::empty(), false)
    } else {
        let (o, p) = wahhid_hala(s.drop_last());
        let c = s.last();
        if faragh(c) {
            (o, true)
        } else if p && o.len() > 0 {
            (o.push(' ').push(c), false)
        } else {
            (o.push(c), false)
        }
    }
}

/// Text with its white space collapsed and its edges trimmed.
pub open spec fn muwahhad(s: Seq<char>) -> Seq<char> {
    wahhid_hala(s).0
}

/// Text already in the collapsed form, but for a trailing space: no white
/// space first, no white space but the plain space, and no two spaces in a
/// row.
pub open spec fn munazzam(t: Seq<char>) -> bool {
    &&& t.len() > 0 ==> !faragh(t[0])
    &&& forall|i: int| 0 <= i < t.len() && faragh(#[trigger] t[i]) ==> t[i] == ' '
    &&& forall|i: int| 0 <= i < t.len() - 1 && #[trigger] t[i] == ' ' ==> t[i + 1] != ' '
}

/// What collapsing produces is in that form and ends in no white space.
proof fn lemma_muwahhad_munazzam(s: Seq<char>)
    ensures
        munazzam(wahhid_hala(s).0),
        wahhid_hala(s).0.len() > 0 ==> !faragh(wahhid_hala(s).0.last()),
    decreases s.len(),
{
    if s.len() > 0 {
        lemma_muwahhad_munazzam(s.drop_last());
        let (o, p) = wahhid_hala(s.drop_last());
        let c = s.last();
        assert(faragh(' '));
        if !faragh(c) {
            if p && o.len() > 0 {
                let t = o.push(' ').push(c);
                assert(t[0] == o[0]);
                assert forall|i: int| 0 <= i < t.len() && faragh(#[trigger] t[i]) implies t[i] == ' ' by {
                    if i < o.len() {
                        assert(t[i] == o[i]);
                    }
                }
                assert forall|i: int| 0 <= i < t.len() - 1 && #[trigger] t[i] == ' ' implies t[i + 1]
                    != ' ' by {
                    if i < o.len() - 1 {
                        assert(t[i] == o[i]);
                        assert(t[i + 1] == o[i + 1]);
                    } else if i == o.len() - 1 {
                        assert(t[i] == o.last());
                    }
                }
            } else {
                let t = o.push(c);
                if o.len() > 0 {
                    assert(t[0] == o[0]);
                }
                assert forall|i: int| 0 <= i < t.len() && faragh(#[trigger] t[i]) implies t[i] == ' ' by {
                    if i < o.len() {
                        assert(t[i] == o[i]);
                    }
                }
                assert forall|i: int| 0 <= i < t.len() - 1 && #[trigger] t[i] == ' ' implies t[i + 1]
                    != ' ' by {
                    assert(t[i] == o[i]);
                    if i < o.len() - 1 {
                        assert(t[i + 1] == o[i + 1]);
                    } else {
                        assert(t[i] == o.last());
                    }
                }
            }
        }
    }
}

/// Collapsing text in that form gives it back, a trailing space held as
/// waiting white space.
proof fn lemma_munazzam_thabit(t: Seq<char>)
    requires
        munazzam(t),
    ensures
        wahhid_hala(t) == if t.len() > 0 && t.last() == ' ' {
            (t.drop_last(), true)
        } else {
            (t, false)
        },
    decreases t.len(),
{
    if t.len() > 0 {
        let u = t.drop_last();
        assert(munazzam(u)) by {
            if u.len() > 0 {
                assert(u[0] == t[0]);
            }
            assert forall|i: int| 0 <= i < u.len() && faragh(#[trigger] u[i]) implies u[i] == ' ' by {
                assert(u[i] == t[i]);
            }
            assert forall|i: int| 0 <= i < u.len() - 1 && #[trigger] u[i] == ' ' implies u[i + 1] != ' ' by {
                assert(u[i] == t[i]);
                assert(u[i + 1] == t[i + 1]);
            }
        }
        lemma_munazzam_thabit(u);
        let c = t.last();
        assert(faragh(' '));
        if faragh(c) {
            assert(c == t[t.len() - 1]);
            assert(c == ' ');
            if u.len() > 0 {
                assert(u.last() == t[t.len() - 2]);
                assert(t[t.len() - 2] != ' ');
            } else {
                assert(!faragh(t[0]));
            }
        } else if u.len() > 0 && u.last() == ' ' {
            assert(u.len() >= 2) by {
                if u.len() == 1 {
                    assert(u[0] == t[0]);
                }
            }
            assert(u.drop_last().push(' ').push(c) =~= t);
        } else {
            assert(u.push(c) =~= t);
        }
    }
}

/// Collapsing white space twice is collapsing it once.
pub proof fn qanun_wahhid_thabit(s: Seq<char>)
    ensures
        muwahhad(muwahhad(s)) == muwahhad(s),
{
    lemma_muwahhad_munazzam(s);
    lemma_munazzam_thabit(muwahhad(s));
}

/// The same, run.
pub fn wahhid_nass(nass: &str) -> (r: String)
    ensures
        r@ == muwahhad(nass@),
{
    let mut munaqqah = String::new();
    let mut fi_faragh = false;
    let ghost mut qara: Seq<char> = Seq::empty();
    for harf in it: nass.chars()
        invariant
            it.seq() == nass@,
            qara == nass@.take(it.index() as int),
            (munaqqah@, fi_faragh) == wahhid_hala(qara),
    {
        proof {
            qara = nass@.take(it.index() + 1);
            assert(qara.drop_last() =~= nass@.take(it.index() as int));
        }
        if faragh_p(harf) {
            fi_faragh = true;
        } else {
            if fi_faragh && !munaqqah.as_str().is_empty() {
                adhif_harf(&mut munaqqah, ' ');
            }
            fi_faragh = false;
            adhif_harf(&mut munaqqah, harf);
        }
    }
    proof {
        assert(qara =~= nass@);
    }
    munaqqah
}

} // verus!

verus! {

/// Characters `[min, ila)` of a text, copied.
pub fn qita(s: &Vec<char>, min: usize, ila: usize) -> (r: Vec<char>)
    requires
        min <= ila <= s@.len(),
    ensures
        r@ == s@.subrange(min as int, ila as int),
{
    let mut r: Vec<char> = Vec::new();
    let mut i = min;
    while i < ila
        invariant
            min <= i <= ila <= s@.len(),
            r@ == s@.subrange(min as int, i as int),
        decreases ila - i,
    {
        r.push(s[i]);
        i = i + 1;
        proof {
            assert(r@ =~= s@.subrange(min as int, i as int));
        }
    }
    r
}

/// Whether two texts are the same characters.
pub fn sawa(a: &Vec<char>, b: &Vec<char>) -> (r: bool)
    ensures
        r == (a@ == b@),
{
    if a.len() != b.len() {
        return false;
    }
    let mut i: usize = 0;
    while i < a.len()
        invariant
            i <= a@.len(),
            a@.len() == b@.len(),
            forall|k: int| 0 <= k < i ==> a@[k] == b@[k],
        decreases a@.len() - i,
    {
        if a[i] != b[i] {
            return false;
        }
        i = i + 1;
    }
    proof {
        assert(a@ =~= b@);
    }
    true
}

/// Text with white space removed from both ends.
pub fn shadhdhib(s: &Vec<char>) -> (r: Vec<char>)
    ensures
        r@ == mushdhab(s@),
{
    let mut i: usize = 0;
    proof {
        assert(s@.skip(0) =~= s@);
    }
    while i < s.len() && faragh_p(s[i])
        invariant
            i <= s@.len(),
            faragh_awwal(s@) == i + faragh_awwal(s@.skip(i as int)),
        decreases s@.len() - i,
    {
        proof {
            assert(s@.skip(i as int).drop_first() =~= s@.skip(i + 1));
        }
        i = i + 1;
    }
    let ghost baqi = s@.subrange(i as int, s@.len() as int);
    proof {
        assert(baqi =~= s@.skip(i as int));
        assert(baqi.take(s@.len() - i) =~= baqi);
    }
    let mut j: usize = s.len();
    while j > i && faragh_p(s[j - 1])
        invariant
            i <= j <= s@.len(),
            baqi == s@.subrange(i as int, s@.len() as int),
            faragh_akhir(baqi) == (s@.len() - j) + faragh_akhir(baqi.take(j - i)),
        decreases j,
    {
        proof {
            assert(baqi.take(j - i).drop_last() =~= baqi.take(j - 1 - i));
        }
        j = j - 1;
    }
    proof {
        assert(baqi.subrange(0, baqi.len() - faragh_akhir(baqi)) =~= s@.subrange(i as int, j as int));
    }
    qita(s, i, j)
}

/// A character as `char::to_ascii_lowercase` leaves it.
pub open spec fn saghir_harf(c: char) -> char {
    if 'A' <= c && c <= 'Z' {
        ((c as u32) + 32) as char
    } else {
        c
    }
}

/// Text with its ASCII capitals made small, as `str::to_ascii_lowercase` does.
pub open spec fn saghir_s(s: Seq<char>) -> Seq<char> {
    s.map_values(|c: char| saghir_harf(c))
}

/// The same, run.
pub fn saghir(s: &Vec<char>) -> (r: Vec<char>)
    ensures
        r@ == saghir_s(s@),
{
    let mut r: Vec<char> = Vec::new();
    let mut i: usize = 0;
    while i < s.len()
        invariant
            i <= s@.len(),
            r@ == saghir_s(s@.take(i as int)),
        decreases s@.len() - i,
    {
        let c = s[i];
        let d = if 'A' <= c && c <= 'Z' {
            ((c as u32) + 32) as u8 as char
        } else {
            c
        };
        r.push(d);
        i = i + 1;
        proof {
            assert(r@ =~= saghir_s(s@.take(i as int)));
        }
    }
    proof {
        assert(s@.take(s@.len() as int) =~= s@);
    }
    r
}

/// Whether `k` occurs in `s` starting at `i`.
pub open spec fn yabda_fi(s: Seq<char>, i: int, k: Seq<char>) -> bool {
    0 <= i && i + k.len() <= s.len() && s.subrange(i, i + k.len()) == k
}

/// Whether `k` occurs anywhere in `s`, as `str::contains` asks.
pub open spec fn yahwi_s(s: Seq<char>, k: Seq<char>) -> bool {
    exists|i: int| yabda_fi(s, i, k)
}

/// The same, run.
pub fn yahwi(s: &Vec<char>, k: &Vec<char>) -> (r: bool)
    ensures
        r == yahwi_s(s@, k@),
{
    if k.len() > s.len() {
        return false;
    }
    let n = s.len();
    let mut i: usize = 0;
    while i <= n - k.len()
        invariant
            n == s@.len(),
            k@.len() <= s@.len(),
            i <= s@.len() - k@.len() + 1,
            forall|j: int| 0 <= j < i ==> !yabda_fi(s@, j, k@),
        decreases s@.len() - i,
    {
        let mut t: usize = 0;
        let mut sawaa = true;
        while t < k.len()
            invariant
                i + k@.len() <= s@.len(),
                n == s@.len(),
                t <= k@.len(),
                sawaa == (forall|m: int| 0 <= m < t ==> s@[i + m] == k@[m]),
            decreases k@.len() - t,
        {
            if s[i + t] != k[t] {
                sawaa = false;
            }
            t = t + 1;
        }
        if sawaa {
            proof {
                assert(s@.subrange(i as int, i + k@.len()) =~= k@);
                assert(yabda_fi(s@, i as int, k@));
            }
            return true;
        }
        proof {
            if yabda_fi(s@, i as int, k@) {
                assert forall|m: int| 0 <= m < k@.len() implies s@[i + m] == k@[m] by {
                    assert(s@.subrange(i as int, i + k@.len())[m] == s@[i + m]);
                }
            }
        }
        i = i + 1;
    }
    proof {
        assert forall|j: int| !yabda_fi(s@, j, k@) by {
            if 0 <= j && j + k@.len() <= s@.len() {
                assert(j < i);
            }
        }
    }
    false
}

/// Where character `c` first occurs in `s` at or after `i`.
pub open spec fn awwal_harf(s: Seq<char>, c: char, i: nat) -> Option<nat>
    decreases s.len() - i,
{
    if i >= s.len() {
        None
    } else if s[i as int] == c {
        Some(i)
    } else {
        awwal_harf(s, c, i + 1)
    }
}

/// The same, run from the start.
pub fn bahth_harf(s: &Vec<char>, c: char) -> (r: Option<usize>)
    ensures
        r matches Some(k) ==> awwal_harf(s@, c, 0) == Some(k as nat) && k < s@.len(),
        r is None ==> awwal_harf(s@, c, 0) is None,
{
    let mut i: usize = 0;
    while i < s.len()
        invariant
            i <= s@.len(),
            awwal_harf(s@, c, 0) == awwal_harf(s@, c, i as nat),
        decreases s@.len() - i,
    {
        if s[i] == c {
            return Some(i);
        }
        i = i + 1;
    }
    None
}

} // verus!

verus! {

/// The white space counted at the front is white space, and the character
/// after it is not.
pub proof fn lemma_faragh_awwal(s: Seq<char>)
    ensures
        faragh_awwal(s) <= s.len(),
        forall|i: int| 0 <= i < faragh_awwal(s) ==> faragh(#[trigger] s[i]),
        faragh_awwal(s) < s.len() ==> !faragh(s[faragh_awwal(s) as int]),
    decreases s.len(),
{
    if s.len() > 0 && faragh(s[0]) {
        lemma_faragh_awwal(s.drop_first());
        assert forall|i: int| 0 <= i < faragh_awwal(s) implies faragh(#[trigger] s[i]) by {
            if i > 0 {
                assert(s[i] == s.drop_first()[i - 1]);
            }
        }
    }
}

/// The white space counted at the back is white space.
pub proof fn lemma_faragh_akhir(s: Seq<char>)
    ensures
        faragh_akhir(s) <= s.len(),
        forall|i: int| s.len() - faragh_akhir(s) <= i < s.len() ==> faragh(#[trigger] s[i]),
    decreases s.len(),
{
    if s.len() > 0 && faragh(s.last()) {
        lemma_faragh_akhir(s.drop_last());
        assert forall|i: int| s.len() - faragh_akhir(s) <= i < s.len() implies faragh(#[trigger] s[i]) by {
            if i < s.len() - 1 {
                assert(s[i] == s.drop_last()[i]);
            }
        }
    }
}

/// A text trims to nothing exactly when it is all white space.
pub proof fn lemma_farigh_mushdhab(s: Seq<char>)
    ensures
        farigh(s) <==> mushdhab(s).len() == 0,
{
    lemma_faragh_awwal(s);
    let fa = faragh_awwal(s);
    let baqi = s.subrange(fa as int, s.len() as int);
    lemma_faragh_akhir(baqi);
    if fa < s.len() {
        assert(!faragh(s[fa as int]));
        assert(baqi[0] == s[fa as int]);
        if faragh_akhir(baqi) == baqi.len() {
            assert(faragh(baqi[0]));
        }
        assert(!farigh(s));
    } else {
        assert(baqi.len() == 0);
        assert forall|i: int| 0 <= i < s.len() implies faragh(#[trigger] s[i]) by {}
    }
}

/// What `str::to_lowercase` makes of a text: every character mapped through
/// Unicode's lowercase mapping.
pub uninterp spec fn saghir_kamil(s: Seq<char>) -> Seq<char>;

/// Lowercases a text.
///
/// Calls `str::to_lowercase`; the contract only names its result, which
/// depends on the text alone.
#[verifier::external_body]
pub(crate) fn ila_saghir(s: &str) -> (r: String)
    ensures
        r@ == saghir_kamil(s@),
{
    s.to_lowercase()
}

} // verus!
