//! The local translation provider's wire format: reading an HTTP/1.1 reply
//! off a plain socket, with its status line, its headers, a body delimited by
//! its length or sent in chunks, and the sentence that says why a reply is
//! not a translation.
//!
//! The socket itself is opened elsewhere; this is the part that decides what
//! the bytes that came back mean, down to the translation inside the JSON.

use vstd::prelude::*;

use crate::tartib::awwal_s;
use crate::nass::{
    adhif_harf, ashri, aktub_ashri, awwal_harf, bahth_harf, faragh, faragh_p, farigh, ilhaq,
    min_nass, mushdhab, qita, saghir, saghir_s, sawa, shadhdhib, yahwi, yahwi_s,
};

verus! {

/// What `String::from_utf8_lossy` makes of some bytes: the text they encode,
/// with every invalid sequence replaced by U+FFFD.
pub uninterp spec fn fakk_mutasamih(bayt: Seq<u8>) -> Seq<char>;

/// Decodes bytes as UTF-8, replacing what is not UTF-8.
///
/// Calls `String::from_utf8_lossy`; the contract only names its result,
/// which depends on the bytes alone.
#[verifier::external_body]
pub fn nass_min_bayt(bayt: &[u8]) -> (r: String)
    ensures
        r@ == fakk_mutasamih(bayt@),
{
    String::from_utf8_lossy(bayt).into_owned()
}

/// The characters of a string, one by one.
pub fn huruf(nass: &str) -> (r: Vec<char>)
    ensures
        r@ == nass@,
{
    let mut r: Vec<char> = Vec::new();
    for harf in it: nass.chars()
        invariant
            it.seq() == nass@,
            r@ == nass@.take(it.index() as int),
    {
        r.push(harf);
        proof {
            assert(r@ =~= nass@.take(it.index() + 1));
        }
    }
    proof {
        assert(r@ =~= nass@);
    }
    r
}

/// A string from characters.
pub fn min_huruf(huruf: &[char]) -> (r: String)
    ensures
        r@ == huruf@,
{
    let mut r = String::new();
    let mut i: usize = 0;
    while i < huruf.len()
        invariant
            i <= huruf@.len(),
            r@ == huruf@.take(i as int),
        decreases huruf@.len() - i,
    {
        adhif_harf(&mut r, huruf[i]);
        i = i + 1;
        proof {
            assert(r@ =~= huruf@.take(i as int));
        }
    }
    proof {
        assert(r@ =~= huruf@);
    }
    r
}

// ---------------------------------------------------------------------------
// Lines and tokens, as `str::lines` and `str::split_whitespace` cut them
// ---------------------------------------------------------------------------

/// A line with the carriage return that preceded its newline removed.
pub open spec fn bila_cr(c: Seq<char>) -> Seq<char> {
    if c.len() > 0 && c.last() == '\r' {
        c.drop_last()
    } else {
        c
    }
}

/// The lines finished so far, and the one being read.
pub open spec fn sutur_hala(s: Seq<char>) -> (Seq<Seq<char>>, Seq<char>)
    decreases s.len(),
{
    if s.len() == 0 {
        (Seq::empty(), Seq::empty())
    } else {
        let (l, c) = sutur_hala(s.drop_last());
        let x = s.last();
        if x == '\n' {
            (l.push(bila_cr(c)), Seq::empty())
        } else {
            (l, c.push(x))
        }
    }
}

/// The lines of a text, as `str::lines` gives them: split at each newline,
/// a carriage return before the newline dropped, and no empty last line for
/// a text that ends with a newline.
pub open spec fn sutur(s: Seq<char>) -> Seq<Seq<char>> {
    let (l, c) = sutur_hala(s);
    if c.len() > 0 {
        l.push(c)
    } else {
        l
    }
}

/// The tokens finished so far, and the one being read.
pub open spec fn kalimat_hala(s: Seq<char>) -> (Seq<Seq<char>>, Seq<char>)
    decreases s.len(),
{
    if s.len() == 0 {
        (Seq::empty(), Seq::empty())
    } else {
        let (l, c) = kalimat_hala(s.drop_last());
        let x = s.last();
        if faragh(x) {
            if c.len() > 0 {
                (l.push(c), Seq::empty())
            } else {
                (l, c)
            }
        } else {
            (l, c.push(x))
        }
    }
}

/// The white-space separated tokens of a text.
pub open spec fn kalimat(s: Seq<char>) -> Seq<Seq<char>> {
    let (l, c) = kalimat_hala(s);
    if c.len() > 0 {
        l.push(c)
    } else {
        l
    }
}

/// Splits text into lines.
pub fn qassim_sutur(s: &Vec<char>) -> (r: Vec<Vec<char>>)
    ensures
        r@.len() == sutur(s@).len(),
        forall|i: int| 0 <= i < r@.len() ==> #[trigger] r@[i]@ == sutur(s@)[i],
{
    let mut l: Vec<Vec<char>> = Vec::new();
    let mut c: Vec<char> = Vec::new();
    let mut i: usize = 0;
    while i < s.len()
        invariant
            i <= s@.len(),
            l@.len() == sutur_hala(s@.take(i as int)).0.len(),
            forall|k: int| 0 <= k < l@.len() ==> #[trigger] l@[k]@ == sutur_hala(s@.take(i as int)).0[k],
            c@ == sutur_hala(s@.take(i as int)).1,
        decreases s@.len() - i,
    {
        let x = s[i];
        proof {
            assert(s@.take(i + 1).drop_last() =~= s@.take(i as int));
            assert(s@.take(i + 1).last() == x);
        }
        if x == '\n' {
            if c.len() > 0 && c[c.len() - 1] == '\r' {
                c.pop();
            }
            l.push(c);
            c = Vec::new();
        } else {
            c.push(x);
        }
        i = i + 1;
    }
    proof {
        assert(s@.take(s@.len() as int) =~= s@);
    }
    if c.len() > 0 {
        l.push(c);
    }
    l
}

/// Splits text at white space, dropping the white space.
pub fn qassim_kalimat(s: &Vec<char>) -> (r: Vec<Vec<char>>)
    ensures
        r@.len() == kalimat(s@).len(),
        forall|i: int| 0 <= i < r@.len() ==> #[trigger] r@[i]@ == kalimat(s@)[i],
{
    let mut l: Vec<Vec<char>> = Vec::new();
    let mut c: Vec<char> = Vec::new();
    let mut i: usize = 0;
    while i < s.len()
        invariant
            i <= s@.len(),
            l@.len() == kalimat_hala(s@.take(i as int)).0.len(),
            forall|k: int|
                0 <= k < l@.len() ==> #[trigger] l@[k]@ == kalimat_hala(s@.take(i as int)).0[k],
            c@ == kalimat_hala(s@.take(i as int)).1,
        decreases s@.len() - i,
    {
        let x = s[i];
        proof {
            assert(s@.take(i + 1).drop_last() =~= s@.take(i as int));
            assert(s@.take(i + 1).last() == x);
        }
        if faragh_p(x) {
            if c.len() > 0 {
                l.push(c);
                c = Vec::new();
            }
        } else {
            c.push(x);
        }
        i = i + 1;
    }
    proof {
        assert(s@.take(s@.len() as int) =~= s@);
    }
    if c.len() > 0 {
        l.push(c);
    }
    l
}

// ---------------------------------------------------------------------------
// Numbers, as `str::parse` and `from_str_radix` read them
// ---------------------------------------------------------------------------

/// The value of a digit in base ten or sixteen, or nothing.
pub open spec fn qeemat_raqm(c: char, asas: nat) -> Option<nat> {
    let u = c as u32;
    if 48 <= u <= 57 && (u - 48) < asas {
        Some((u - 48) as nat)
    } else if asas == 16 && 97 <= u <= 102 {
        Some((u - 87) as nat)
    } else if asas == 16 && 65 <= u <= 70 {
        Some((u - 55) as nat)
    } else {
        None
    }
}

/// The value of a run of digits, or nothing when one is not a digit.
pub open spec fn qeemat_arqam(d: Seq<char>, asas: nat) -> Option<nat>
    decreases d.len(),
{
    if d.len() == 0 {
        Some(0)
    } else {
        match (qeemat_arqam(d.drop_last(), asas), qeemat_raqm(d.last(), asas)) {
            (Some(v), Some(x)) => Some(v * asas + x),
            _ => None,
        }
    }
}

/// An unsigned number as `str::parse` reads it: an optional `+`, then at
/// least one digit, and no more than `saqf`.
pub open spec fn hall_raqm(s: Seq<char>, asas: nat, saqf: nat) -> Option<nat> {
    let d = if s.len() > 0 && s[0] == '+' {
        s.drop_first()
    } else {
        s
    };
    if d.len() == 0 {
        None
    } else {
        match qeemat_arqam(d, asas) {
            Some(v) => if v <= saqf {
                Some(v)
            } else {
                None
            },
            None => None,
        }
    }
}

fn qeemat_raqm_p(c: char, asas: u64) -> (r: Option<u64>)
    requires
        asas == 10 || asas == 16,
    ensures
        r matches Some(v) ==> qeemat_raqm(c, asas as nat) == Some(v as nat),
        r is None ==> qeemat_raqm(c, asas as nat) is None,
{
    let u = c as u32;
    if 48 <= u && u <= 57 && ((u - 48) as u64) < asas {
        Some((u - 48) as u64)
    } else if asas == 16 && 97 <= u && u <= 102 {
        Some((u - 87) as u64)
    } else if asas == 16 && 65 <= u && u <= 70 {
        Some((u - 55) as u64)
    } else {
        None
    }
}

proof fn lemma_arqam_tazid(d: Seq<char>, asas: nat, n: int)
    requires
        0 <= n <= d.len(),
        asas >= 1,
        qeemat_arqam(d, asas) is Some,
    ensures
        qeemat_arqam(d.take(n), asas) is Some,
        qeemat_arqam(d.take(n), asas)->0 <= qeemat_arqam(d, asas)->0,
    decreases d.len(),
{
    if n < d.len() {
        let p = d.drop_last();
        assert(d.take(n) =~= p.take(n));
        lemma_arqam_tazid(p, asas, n);
        let v = qeemat_arqam(p, asas)->0;
        let x = qeemat_raqm(d.last(), asas)->0;
        assert(v <= v * asas + x) by (nonlinear_arith)
            requires
                asas >= 1,
        ;
    } else {
        assert(d.take(n) =~= d);
    }
}

/// Reads an unsigned number from characters `[min, ila)`.
pub fn iqra_raqm(s: &Vec<char>, min: usize, ila: usize, asas: u64, saqf: u64) -> (r: Option<u64>)
    requires
        min <= ila <= s@.len(),
        asas == 10 || asas == 16,
    ensures
        r matches Some(v) ==> hall_raqm(s@.subrange(min as int, ila as int), asas as nat, saqf as nat)
            == Some(v as nat),
        r is None ==> hall_raqm(s@.subrange(min as int, ila as int), asas as nat, saqf as nat) is None,
{
    let ghost t = s@.subrange(min as int, ila as int);
    let mut bidaya = min;
    if min < ila && s[min] == '+' {
        bidaya = min + 1;
    }
    let ghost d = s@.subrange(bidaya as int, ila as int);
    proof {
        if t.len() > 0 && t[0] == '+' {
            assert(d =~= t.drop_first());
        } else {
            assert(d =~= t);
        }
    }
    if bidaya == ila {
        return None;
    }
    let mut v: u64 = 0;
    let mut i = bidaya;
    while i < ila
        invariant
            bidaya <= i <= ila <= s@.len(),
            d == s@.subrange(bidaya as int, ila as int),
            t == s@.subrange(min as int, ila as int),
            d.len() > 0,
            t.len() > 0 && t[0] == '+' ==> d == t.drop_first(),
            !(t.len() > 0 && t[0] == '+') ==> d == t,
            asas == 10 || asas == 16,
            qeemat_arqam(d.take(i - bidaya), asas as nat) == Some(v as nat),
            v <= saqf,
        decreases ila - i,
    {
        let x = match qeemat_raqm_p(s[i], asas) {
            Some(x) => x,
            None => {
                proof {
                    assert(d.take(i - bidaya + 1).drop_last() =~= d.take(i - bidaya));
                    assert(d.take(i - bidaya + 1).last() == s@[i as int]);
                    if qeemat_arqam(d, asas as nat) is Some {
                        lemma_arqam_tazid(d, asas as nat, i - bidaya + 1);
                    }
                }
                return None;
            },
        };
        proof {
            assert(d.take(i - bidaya + 1).drop_last() =~= d.take(i - bidaya));
            assert(d.take(i - bidaya + 1).last() == s@[i as int]);
        }
        let ghost (vi, ai, xi, si) = (v as int, asas as int, x as int, saqf as int);
        if x > saqf || v > (saqf - x) / asas {
            proof {
                if xi > si {
                    assert(vi * ai + xi > si) by (nonlinear_arith)
                        requires
                            vi >= 0,
                            ai >= 1,
                            xi > si,
                    ;
                } else {
                    assert(vi * ai + xi > si) by (nonlinear_arith)
                        requires
                            vi > (si - xi) / ai,
                            ai >= 1,
                            xi <= si,
                    ;
                }
                if qeemat_arqam(d, asas as nat) is Some {
                    lemma_arqam_tazid(d, asas as nat, i - bidaya + 1);
                }
            }
            return None;
        }
        proof {
            assert(vi * ai + xi <= si) by (nonlinear_arith)
                requires
                    vi <= (si - xi) / ai,
                    ai >= 1,
                    xi <= si,
                    vi >= 0,
            ;
        }
        v = v * asas + x;
        i = i + 1;
    }
    proof {
        assert(d.take(ila - bidaya) =~= d);
    }
    Some(v)
}

// ---------------------------------------------------------------------------
// Byte patterns
// ---------------------------------------------------------------------------

/// Whether the bytes `p` stand in `b` from position `i` on.
pub open spec fn yaqau(b: Seq<u8>, i: int, p: Seq<u8>) -> bool {
    0 <= i && i + p.len() <= b.len() && b.subrange(i, i + p.len()) == p
}

/// The first position at or after `i` where `p` stands in `b`, as
/// `windows(..).position(..)` finds it.
pub open spec fn awwal_mawdi(b: Seq<u8>, p: Seq<u8>, i: nat) -> Option<nat>
    decreases b.len() + 1 - i,
{
    if i + p.len() > b.len() {
        None
    } else if yaqau(b, i as int, p) {
        Some(i)
    } else {
        awwal_mawdi(b, p, i + 1)
    }
}

/// A carriage return and a line feed.
pub open spec fn crlf() -> Seq<u8> {
    seq![13u8, 10u8]
}

/// The blank line that ends an HTTP header block.
pub open spec fn crlf_crlf() -> Seq<u8> {
    seq![13u8, 10u8, 13u8, 10u8]
}

/// Finds the first place where `p` stands in `b`.
pub fn bahth_bayt(b: &[u8], p: &Vec<u8>) -> (r: Option<usize>)
    ensures
        r matches Some(k) ==> awwal_mawdi(b@, p@, 0) == Some(k as nat),
        r is None ==> awwal_mawdi(b@, p@, 0) is None,
{
    let n = b.len();
    if p.len() > n {
        return None;
    }
    let mut i: usize = 0;
    while i <= n - p.len()
        invariant
            n == b@.len(),
            p@.len() <= n,
            i <= n - p@.len() + 1,
            awwal_mawdi(b@, p@, 0) == awwal_mawdi(b@, p@, i as nat),
        decreases n - i,
    {
        let mut t: usize = 0;
        let mut sawaa = true;
        while t < p.len()
            invariant
                n == b@.len(),
                i + p@.len() <= n,
                t <= p@.len(),
                sawaa == (forall|m: int| 0 <= m < t ==> b@[i + m] == p@[m]),
            decreases p@.len() - t,
        {
            if b[i + t] != p[t] {
                sawaa = false;
            }
            t = t + 1;
        }
        if sawaa {
            proof {
                assert(b@.subrange(i as int, i + p@.len()) =~= p@);
            }
            return Some(i);
        }
        proof {
            if yaqau(b@, i as int, p@) {
                assert forall|m: int| 0 <= m < p@.len() implies b@[i + m] == p@[m] by {
                    assert(b@.subrange(i as int, i + p@.len())[m] == b@[i + m]);
                }
            }
        }
        i = i + 1;
    }
    None
}

/// Bytes `[min, ila)`, copied.
pub fn qita_bayt(b: &[u8], min: usize, ila: usize) -> (r: Vec<u8>)
    requires
        min <= ila <= b@.len(),
    ensures
        r@ == b@.subrange(min as int, ila as int),
{
    let mut r: Vec<u8> = Vec::new();
    let mut i = min;
    while i < ila
        invariant
            min <= i <= ila <= b@.len(),
            r@ == b@.subrange(min as int, i as int),
        decreases ila - i,
    {
        r.push(b[i]);
        i = i + 1;
        proof {
            assert(r@ =~= b@.subrange(min as int, i as int));
        }
    }
    r
}

fn nass_crlf(arba: bool) -> (r: Vec<u8>)
    ensures
        arba ==> r@ == crlf_crlf(),
        !arba ==> r@ == crlf(),
{
    let mut r: Vec<u8> = Vec::new();
    r.push(13u8);
    r.push(10u8);
    if arba {
        r.push(13u8);
        r.push(10u8);
    }
    proof {
        if arba {
            assert(r@ =~= crlf_crlf());
        } else {
            assert(r@ =~= crlf());
        }
    }
    r
}

// ---------------------------------------------------------------------------
// Chunked transfer coding
// ---------------------------------------------------------------------------

/// A first place found lies inside the bytes, at or after where the search
/// began, and the pattern stands there.
pub proof fn lemma_awwal_mawdi(b: Seq<u8>, p: Seq<u8>, i: nat)
    ensures
        awwal_mawdi(b, p, i) matches Some(k) ==> i <= k && k + p.len() <= b.len() && yaqau(b, k as int, p),
    decreases b.len() + 1 - i,
{
    if i + p.len() <= b.len() && !yaqau(b, i as int, p) {
        lemma_awwal_mawdi(b, p, i + 1);
    }
}

/// The size field of a chunk-size line: what stands before the first `;`
/// (the rest are extensions), trimmed.
pub open spec fn nass_hajm(satr: Seq<char>) -> Seq<char> {
    match awwal_harf(satr, ';', 0) {
        Some(k) => mushdhab(satr.take(k as int)),
        None => mushdhab(satr),
    }
}

/// The bytes from `m` on, or none when `m` lies past the end.
pub open spec fn baqi_min(b: Seq<u8>, m: int) -> Seq<u8> {
    if 0 <= m <= b.len() {
        b.skip(m)
    } else {
        Seq::empty()
    }
}

/// The body of a chunked message, decoded: each chunk is a size line in
/// hexadecimal (extensions after `;` ignored), a CRLF, that many bytes and a
/// CRLF; a chunk of size zero ends the body, and whatever follows it is not
/// read.
pub open spec fn fakk_tajzia_s(b: Seq<u8>) -> Result<Seq<u8>, Seq<char>>
    decreases b.len(),
{
    match awwal_mawdi(b, crlf(), 0) {
        None => Err("a chunk size line was not terminated"@),
        Some(n) => {
            let hn = nass_hajm(fakk_mutasamih(b.take(n as int)));
            match hall_raqm(hn, 16, usize::MAX as nat) {
                None => Err("\""@ + hn + "\" is not a chunk size"@),
                Some(h) => {
                    proof {
                        lemma_awwal_mawdi(b, crlf(), 0);
                    }
                    let baqi = b.skip(n + 2int);
                    if h == 0 {
                        Ok(Seq::empty())
                    } else if h > baqi.len() {
                        Err("a chunk was shorter than its declared size"@)
                    } else {
                        match fakk_tajzia_s(baqi_min(baqi, h + 2int)) {
                            Ok(r) => Ok(baqi.take(h as int) + r),
                            Err(e) => Err(e),
                        }
                    }
                },
            }
        },
    }
}

/// `p` put before a decoded body, an error left as it is.
pub open spec fn qabla(p: Seq<u8>, r: Result<Seq<u8>, Seq<char>>) -> Result<Seq<u8>, Seq<char>> {
    match r {
        Ok(v) => Ok(p + v),
        Err(e) => Err(e),
    }
}

/// A decoded body, or the sentence that says why it is not one, as values.
pub open spec fn natija_bayt(r: Result<Vec<u8>, String>) -> Result<Seq<u8>, Seq<char>> {
    match r {
        Ok(v) => Ok(v@),
        Err(e) => Err(e@),
    }
}

/// Undoes `Transfer-Encoding: chunked`.
pub fn fukk_tajzia(khaam: &[u8]) -> (r: Result<Vec<u8>, String>)
    ensures
        natija_bayt(r) == fakk_tajzia_s(khaam@),
{
    let crlf_v = nass_crlf(false);
    let mut kharj: Vec<u8> = Vec::new();
    let mut mawdi: usize = 0;
    proof {
        assert(khaam@.skip(0) =~= khaam@);
        assert(Seq::<u8>::empty() + khaam@ =~= khaam@);
        match fakk_tajzia_s(khaam@) {
            Ok(v) => assert(Seq::<u8>::empty() + v =~= v),
            Err(e) => {},
        }
    }
    loop
        invariant
            mawdi <= khaam@.len(),
            crlf_v@ == crlf(),
            fakk_tajzia_s(khaam@) == qabla(kharj@, fakk_tajzia_s(khaam@.skip(mawdi as int))),
        decreases khaam@.len() - mawdi,
    {
        let ghost bs = khaam@.skip(mawdi as int);
        let baqi = qita_bayt(khaam, mawdi, khaam.len());
        proof {
            assert(baqi@ =~= bs);
        }
        let n = match bahth_bayt(baqi.as_slice(), &crlf_v) {
            None => {
                return Err(min_nass("a chunk size line was not terminated"));
            },
            Some(n) => n,
        };
        proof {
            lemma_awwal_mawdi(bs, crlf(), 0);
        }
        let satr_b = qita_bayt(baqi.as_slice(), 0, n);
        let satr = nass_min_bayt(satr_b.as_slice());
        let satr_h = huruf(satr.as_str());
        proof {
            assert(satr_b@ =~= bs.take(n as int));
        }
        let qabl = match bahth_harf(&satr_h, ';') {
            Some(k) => qita(&satr_h, 0, k),
            None => qita(&satr_h, 0, satr_h.len()),
        };
        proof {
            if awwal_harf(satr_h@, ';', 0) is None {
                assert(qabl@ =~= satr_h@);
            }
        }
        let hn = shadhdhib(&qabl);
        proof {
            assert(hn@.subrange(0, hn@.len() as int) =~= hn@);
        }
        let saqf: u64 = usize::MAX as u64;
        assert(saqf as nat == usize::MAX as nat);
        let h = match iqra_raqm(&hn, 0, hn.len(), 16, saqf) {
            None => {
                let mut e = min_nass("\"");
                let hn_s = min_huruf(hn.as_slice());
                ilhaq(&mut e, hn_s.as_str());
                ilhaq(&mut e, "\" is not a chunk size");
                return Err(e);
            },
            Some(h) => h as usize,
        };
        mawdi = mawdi + n + 2;
        let ghost baqi2 = khaam@.skip(mawdi as int);
        proof {
            assert(bs.skip(n + 2) =~= baqi2);
        }
        if h == 0 {
            proof {
                assert(kharj@ + Seq::<u8>::empty() =~= kharj@);
            }
            return Ok(kharj);
        }
        if h > khaam.len() - mawdi {
            return Err(min_nass("a chunk was shorter than its declared size"));
        }
        let ghost qadim = kharj@;
        let mut j = mawdi;
        let hadd = mawdi + h;
        while j < hadd
            invariant
                hadd == mawdi + h,
                mawdi <= j <= hadd <= khaam@.len(),
                kharj@ == qadim + khaam@.subrange(mawdi as int, j as int),
            decreases hadd - j,
        {
            kharj.push(khaam[j]);
            j = j + 1;
            proof {
                assert(kharj@ =~= qadim + khaam@.subrange(mawdi as int, j as int));
            }
        }
        let ghost qita_h = baqi2.take(h as int);
        proof {
            assert(khaam@.subrange(mawdi as int, (mawdi + h) as int) =~= qita_h);
        }
        let tali: usize = if khaam.len() - (mawdi + h) >= 2 {
            mawdi + h + 2
        } else {
            khaam.len()
        };
        proof {
            assert(khaam@.skip(tali as int) =~= baqi_min(baqi2, h + 2));
            match fakk_tajzia_s(khaam@.skip(tali as int)) {
                Ok(v) => {
                    assert(qadim + (qita_h + v) =~= (qadim + qita_h) + v);
                },
                Err(e) => {},
            }
        }
        mawdi = tali;
    }
}

// ---------------------------------------------------------------------------
// The reply
// ---------------------------------------------------------------------------

/// A header line cut at its first colon: the name, trimmed and in small
/// letters, and the value, trimmed; nothing for a line without a colon.
pub open spec fn ism_wa_qeema(satr: Seq<char>) -> Option<(Seq<char>, Seq<char>)> {
    match awwal_harf(satr, ':', 0) {
        None => None,
        Some(k) => Some((saghir_s(mushdhab(satr.take(k as int))), mushdhab(satr.skip(k + 1int)))),
    }
}

/// What the header lines, read in order, say of the body: whether it is sent
/// in chunks, and the length the last `Content-Length` gave (nothing where
/// that value was not a number).
pub open spec fn ruus_hala(sutur: Seq<Seq<char>>) -> (bool, Option<nat>)
    decreases sutur.len(),
{
    if sutur.len() == 0 {
        (false, None)
    } else {
        let (m, t) = ruus_hala(sutur.drop_last());
        match ism_wa_qeema(sutur.last()) {
            None => (m, t),
            Some((ism, q)) => if ism == "transfer-encoding"@ && yahwi_s(saghir_s(q), "chunked"@) {
                (true, t)
            } else if ism == "content-length"@ {
                (m, hall_raqm(q, 10, usize::MAX as nat))
            } else {
                (m, t)
            },
        }
    }
}

/// The lines of a header block after its status line.
pub open spec fn sutur_ruus(sutur: Seq<Seq<char>>) -> Seq<Seq<char>> {
    if sutur.len() > 0 {
        sutur.drop_first()
    } else {
        Seq::empty()
    }
}

/// The status line of a header block, empty where there is none.
pub open spec fn satr_hala(sutur: Seq<Seq<char>>) -> Seq<char> {
    if sutur.len() > 0 {
        sutur[0]
    } else {
        Seq::empty()
    }
}

/// The status code: the second token of the status line, read as a `u16`.
pub open spec fn ramz_hala(hala: Seq<char>) -> Option<nat> {
    let k = kalimat(hala);
    if k.len() > 1 {
        hall_raqm(k[1], 10, 65535)
    } else {
        None
    }
}

/// The body bytes: decoded when sent in chunks, else cut to the declared
/// length where one was given and is shorter than what came.
pub open spec fn badan_s(mujazza: bool, tul: Option<nat>, jasad: Seq<u8>) -> Result<Seq<u8>, Seq<char>> {
    if mujazza {
        fakk_tajzia_s(jasad)
    } else {
        let hadd = match tul {
            Some(t) => if t < jasad.len() {
                t
            } else {
                jasad.len()
            },
            None => jasad.len(),
        };
        Ok(jasad.take(hadd as int))
    }
}

/// The first characters of a text, at most `n` of them.
pub open spec fn awail(s: Seq<char>, n: nat) -> Seq<char> {
    if s.len() <= n {
        s
    } else {
        s.take(n as int)
    }
}

/// What a raw HTTP reply means: the body as text for a 2xx status, or the
/// sentence that says why there is no such body: no blank line ending the
/// headers, a status line that is not HTTP, a chunked body that does not
/// decode, or a status outside 2xx (with the first 160 characters of the
/// body).
pub open spec fn jasad_min_radd_s(khaam: Seq<u8>) -> Result<Seq<char>, Seq<char>> {
    match awwal_mawdi(khaam, crlf_crlf(), 0) {
        None => Err("the reply carried no header block"@),
        Some(f) => match ruus_radd_s(fakk_mutasamih(khaam.take(f as int))) {
            Err(e) => Err(e),
            Ok((ramz, mujazza, tul)) => match badan_s(mujazza, tul, baqi_min(khaam, f + 4int)) {
                Err(e) => Err(e),
                Ok(b) => {
                    let nass = fakk_mutasamih(b);
                    if 200 <= ramz < 300 {
                        Ok(nass)
                    } else {
                        Err("the server answered HTTP "@ + ashri(ramz) + ": "@ + awail(nass, 160))
                    }
                },
            },
        },
    }
}

/// What a decoded header block says: the status code, whether the body comes
/// in chunks and the declared length; or, where the status line is not
/// HTTP, the sentence that says so.
pub open spec fn ruus_radd_s(nass: Seq<char>) -> Result<(nat, bool, Option<nat>), Seq<char>> {
    let sutur = sutur(nass);
    let hala = satr_hala(sutur);
    match ramz_hala(hala) {
        None => Err("the status line \""@ + hala + "\" is not HTTP"@),
        Some(ramz) => {
            let (mujazza, tul) = ruus_hala(sutur_ruus(sutur));
            Ok((ramz, mujazza, tul))
        },
    }
}

/// What a header block was read as, as values.
pub open spec fn natija_ruus(r: Result<(u64, bool, Option<u64>), String>) -> Result<
    (nat, bool, Option<nat>),
    Seq<char>,
> {
    match r {
        Ok((ramz, mujazza, tul)) => Ok((ramz as nat, mujazza, adad_ikhtiyari(tul))),
        Err(e) => Err(e@),
    }
}

/// A text, or the sentence that says why there is none, as values.
pub open spec fn natija_nass(r: Result<String, String>) -> Result<Seq<char>, Seq<char>> {
    match r {
        Ok(v) => Ok(v@),
        Err(e) => Err(e@),
    }
}

/// A number that may be missing, as a value.
pub open spec fn adad_ikhtiyari(o: Option<u64>) -> Option<nat> {
    match o {
        Some(v) => Some(v as nat),
        None => None,
    }
}

/// Reads a decoded header block: the status code from the status line's
/// second token, then each header line in order for `Transfer-Encoding:
/// chunked` and `Content-Length`.
pub fn ruus_radd(ruus: &str) -> (r: Result<(u64, bool, Option<u64>), String>)
    ensures
        natija_ruus(r) == ruus_radd_s(ruus@),
        r matches Ok((_, _, Some(t))) ==> t <= usize::MAX,
{
    let ruus_h = huruf(ruus);
    let sutur_v = qassim_sutur(&ruus_h);
    let ghost sutur_s = sutur(ruus_h@);
    let hala = if sutur_v.len() > 0 {
        qita(&sutur_v[0], 0, sutur_v[0].len())
    } else {
        Vec::new()
    };
    proof {
        if sutur_v@.len() > 0 {
            assert(hala@ =~= sutur_v@[0]@);
        } else {
            assert(hala@ =~= Seq::<char>::empty());
        }
    }
    let kalimat_v = qassim_kalimat(&hala);
    let ramz = if kalimat_v.len() > 1 {
        let k1 = &kalimat_v[1];
        proof {
            assert(k1@.subrange(0, k1@.len() as int) =~= k1@);
        }
        iqra_raqm(k1, 0, k1.len(), 10, 65535)
    } else {
        None
    };
    let ramz = match ramz {
        None => {
            let mut e = min_nass("the status line \"");
            let hala_s = min_huruf(hala.as_slice());
            ilhaq(&mut e, hala_s.as_str());
            ilhaq(&mut e, "\" is not HTTP");
            return Err(e);
        },
        Some(r) => r,
    };
    let te = huruf("transfer-encoding");
    let cl = huruf("content-length");
    let chunked = huruf("chunked");
    let saqf: u64 = usize::MAX as u64;
    let mut mujazza = false;
    let mut tul: Option<u64> = None;
    let mut j: usize = 1;
    proof {
        if sutur_s.len() > 0 {
            assert(sutur_s.subrange(1, 1) =~= Seq::<Seq<char>>::empty());
        }
    }
    while j < sutur_v.len()
        invariant
            1 <= j,
            sutur_v@.len() > 0 ==> j <= sutur_v@.len(),
            sutur_v@.len() == sutur_s.len(),
            forall|i: int| 0 <= i < sutur_v@.len() ==> #[trigger] sutur_v@[i]@ == sutur_s[i],
            te@ == "transfer-encoding"@,
            cl@ == "content-length"@,
            chunked@ == "chunked"@,
            saqf as nat == usize::MAX as nat,
            sutur_s.len() > 0 ==> (mujazza, adad_ikhtiyari(tul)) == ruus_hala(
                sutur_s.subrange(1, j as int),
            ),
            sutur_s.len() == 0 ==> !mujazza && tul is None,
            tul matches Some(t) ==> t <= saqf,
            sutur_s == sutur(ruus@),
            ramz_hala(satr_hala(sutur_s)) == Some(ramz as nat),
        decreases sutur_v@.len() - j,
    {
        let satr = &sutur_v[j];
        let ghost qabl = sutur_s.subrange(1, j as int);
        proof {
            assert(sutur_s.subrange(1, j + 1).drop_last() =~= qabl);
            assert(sutur_s.subrange(1, j + 1).last() == satr@);
        }
        match bahth_harf(satr, ':') {
            None => {},
            Some(k) => {
                let ism = saghir(&shadhdhib(&qita(satr, 0, k)));
                let tul_satr = satr.len();
                let qeema = shadhdhib(&qita(satr, k + 1, tul_satr));
                proof {
                    assert(satr@.subrange(0, k as int) =~= satr@.take(k as int));
                    assert(satr@.subrange(k + 1, satr@.len() as int) =~= satr@.skip(k + 1int));
                    assert(qeema@.subrange(0, qeema@.len() as int) =~= qeema@);
                }
                if sawa(&ism, &te) && yahwi(&saghir(&qeema), &chunked) {
                    mujazza = true;
                } else if sawa(&ism, &cl) {
                    tul = iqra_raqm(&qeema, 0, qeema.len(), 10, saqf);
                }
            },
        }
        j = j + 1;
    }
    proof {
        if sutur_s.len() > 0 {
            assert(sutur_s.subrange(1, sutur_s.len() as int) =~= sutur_ruus(sutur_s));
        } else {
            assert(sutur_ruus(sutur_s) =~= Seq::<Seq<char>>::empty());
        }
    }
    Ok((ramz, mujazza, tul))
}

/// The text of a reply's body, or why the reply is not a usable one.
pub fn jasad_min_radd(khaam: &[u8]) -> (r: Result<String, String>)
    ensures
        natija_nass(r) == jasad_min_radd_s(khaam@),
{
    let fasil_v = nass_crlf(true);
    let fasil = match bahth_bayt(khaam, &fasil_v) {
        None => {
            return Err(min_nass("the reply carried no header block"));
        },
        Some(f) => f,
    };
    proof {
        lemma_awwal_mawdi(khaam@, crlf_crlf(), 0);
    }
    let ruus_b = qita_bayt(khaam, 0, fasil);
    let ruus = nass_min_bayt(ruus_b.as_slice());
    proof {
        assert(ruus_b@ =~= khaam@.take(fasil as int));
    }
    let (ramz, mujazza, tul) = match ruus_radd(ruus.as_str()) {
        Ok(t) => t,
        Err(e) => {
            proof {
                assert(ruus_radd_s(fakk_mutasamih(khaam@.take(fasil as int))) == Err::<
                    (nat, bool, Option<nat>),
                    Seq<char>,
                >(e@));
            }
            return Err(e);
        },
    };
    proof {
        assert(ruus_radd_s(fakk_mutasamih(khaam@.take(fasil as int))) == Ok::<
            (nat, bool, Option<nat>),
            Seq<char>,
        >((ramz as nat, mujazza, adad_ikhtiyari(tul))));
    }
    let kl = khaam.len();
    let jasad = qita_bayt(khaam, fasil + 4, kl);
    proof {
        assert(jasad@ =~= baqi_min(khaam@, fasil + 4int));
    }
    let badan: Vec<u8> = if mujazza {
        match fukk_tajzia(jasad.as_slice()) {
            Ok(b) => b,
            Err(e) => {
                return Err(e);
            },
        }
    } else {
        let hadd: usize = match tul {
            Some(t) => if (t as usize) < jasad.len() {
                t as usize
            } else {
                jasad.len()
            },
            None => jasad.len(),
        };
        proof {
            assert(jasad@.subrange(0, hadd as int) =~= jasad@.take(hadd as int));
        }
        qita_bayt(jasad.as_slice(), 0, hadd)
    };
    let nass = nass_min_bayt(badan.as_slice());
    if ramz < 200 || ramz >= 300 {
        let nass_h = huruf(nass.as_str());
        let hadd: usize = if nass_h.len() < 160 {
            nass_h.len()
        } else {
            160
        };
        let muqtataf = min_huruf(qita(&nass_h, 0, hadd).as_slice());
        proof {
            assert(nass_h@.subrange(0, hadd as int) =~= awail(nass@, 160));
        }
        let mut e = min_nass("the server answered HTTP ");
        aktub_ashri(&mut e, ramz);
        ilhaq(&mut e, ": ");
        ilhaq(&mut e, muqtataf.as_str());
        return Err(e);
    }
    Ok(nass)
}

// ---------------------------------------------------------------------------
// The provider's address
// ---------------------------------------------------------------------------

/// Whether a text starts with another.
pub open spec fn yabda_bi(s: Seq<char>, p: Seq<char>) -> bool {
    p.len() <= s.len() && s.take(p.len() as int) == p
}

/// The last position before `n` of a character.
pub open spec fn akhir_harf(s: Seq<char>, c: char, n: nat) -> Option<nat>
    decreases n,
{
    if n == 0 || n > s.len() {
        None
    } else if s[n - 1] == c {
        Some((n - 1) as nat)
    } else {
        akhir_harf(s, c, (n - 1) as nat)
    }
}

/// A text with every trailing `c` removed.
pub open spec fn bila_nihaya(s: Seq<char>, c: char) -> Seq<char>
    decreases s.len(),
{
    if s.len() > 0 && s.last() == c {
        bila_nihaya(s.drop_last(), c)
    } else {
        s
    }
}

/// Whether a character is a square bracket.
pub open spec fn qaws(c: char) -> bool {
    c == '[' || c == ']'
}

/// A text with every leading square bracket removed.
pub open spec fn bila_qaws_bidaya(s: Seq<char>) -> Seq<char>
    decreases s.len(),
{
    if s.len() > 0 && qaws(s[0]) {
        bila_qaws_bidaya(s.drop_first())
    } else {
        s
    }
}

/// A text with every trailing square bracket removed.
pub open spec fn bila_qaws_nihaya(s: Seq<char>) -> Seq<char>
    decreases s.len(),
{
    if s.len() > 0 && qaws(s.last()) {
        bila_qaws_nihaya(s.drop_last())
    } else {
        s
    }
}

/// A host with the brackets around an IPv6 literal removed.
pub open spec fn bila_qaws(s: Seq<char>) -> Seq<char> {
    bila_qaws_nihaya(bila_qaws_bidaya(s))
}

/// Whether a character occurs in a text.
pub open spec fn fihi(s: Seq<char>, c: char) -> bool {
    exists|i: int| 0 <= i < s.len() && s[i] == c
}

/// Where the provider is reached: a plain-HTTP host, port and path prefix.
#[derive(Debug, Clone, PartialEq, Eq)]
pub struct Unwan {
    /// The host, without brackets.
    pub mudeef: String,
    /// The port.
    pub manfadh: u16,
    /// The path prefix, without a trailing slash.
    pub masar: String,
}

pub open spec fn khata_tls() -> (Seq<char>, Seq<char>) {
    (
        "it is reachable only over a secure connection, and the overlay carries no TLS stack; a local model server over plain HTTP (Ollama, LM Studio) is what the overlay can use."@,
        "لا يُوصَل إليه إلا باتصال مؤمَّن، والطبقة لا تحمل مكدّس TLS؛ ما تستطيع الطبقة استعماله هو خادم نموذج محلّي عبر HTTP عادي (Ollama أو LM Studio)."@,
    )
}

/// What an address reads as: plain HTTP only; the host and port before the
/// first `/` after the scheme, the path after it without trailing slashes;
/// the port after the last `:` unless that colon lies inside an IPv6
/// literal, and 80 otherwise; the host without brackets, and not empty.
/// Each refusal is an English and an Arabic sentence naming what is wrong.
pub open spec fn min_asas_s(asas: Seq<char>) -> Result<(Seq<char>, u16, Seq<char>), (Seq<char>, Seq<char>)> {
    let a = mushdhab(asas);
    if !yabda_bi(a, "http://"@) {
        if yabda_bi(a, "https://"@) {
            Err(khata_tls())
        } else {
            Err(
                (
                    "its endpoint \""@ + a + "\" is not an http:// address."@,
                    "عنوانه \""@ + a + "\" ليس عنوان http://."@,
                ),
            )
        }
    } else {
        let baqi = a.skip(7);
        let hp = match awwal_harf(baqi, '/', 0) {
            Some(k) => baqi.take(k as int),
            None => baqi,
        };
        let masar = match awwal_harf(baqi, '/', 0) {
            Some(k) => bila_nihaya(baqi.skip(k as int), '/'),
            None => Seq::empty(),
        };
        let nuqta = akhir_harf(hp, ':', hp.len());
        let bi_manfadh = nuqta is Some && (!fihi(hp.take(nuqta->0 as int), ']') || (nuqta->0 > 0
            && hp[nuqta->0 - 1] == ']'));
        if bi_manfadh {
            let k = nuqta->0 as int;
            let p = hp.skip(k + 1);
            match hall_raqm(p, 10, 65535) {
                None => Err(
                    (
                        "its port \""@ + p + "\" is not a number."@,
                        "منفذه \""@ + p + "\" ليس رقمًا."@,
                    ),
                ),
                Some(n) => {
                    let mudeef = bila_qaws(hp.take(k));
                    if mudeef.len() == 0 {
                        Err(("its endpoint names no host."@, "عنوانه لا يسمّي مضيفًا."@))
                    } else {
                        Ok((mudeef, n as u16, masar))
                    }
                },
            }
        } else {
            let mudeef = bila_qaws(hp);
            if mudeef.len() == 0 {
                Err(("its endpoint names no host."@, "عنوانه لا يسمّي مضيفًا."@))
            } else {
                Ok((mudeef, 80u16, masar))
            }
        }
    }
}

/// An address as values.
pub open spec fn natija_unwan(r: Result<Unwan, (String, String)>) -> Result<
    (Seq<char>, u16, Seq<char>),
    (Seq<char>, Seq<char>),
> {
    match r {
        Ok(u) => Ok((u.mudeef@, u.manfadh, u.masar@)),
        Err((a, b)) => Err((a@, b@)),
    }
}

fn yabda_bi_p(s: &Vec<char>, p: &Vec<char>) -> (r: bool)
    ensures
        r == yabda_bi(s@, p@),
{
    if p.len() > s.len() {
        return false;
    }
    let mut i: usize = 0;
    while i < p.len()
        invariant
            i <= p@.len(),
            p@.len() <= s@.len(),
            forall|k: int| 0 <= k < i ==> s@[k] == p@[k],
        decreases p@.len() - i,
    {
        if s[i] != p[i] {
            proof {
                assert(s@.take(p@.len() as int)[i as int] == s@[i as int]);
            }
            return false;
        }
        i = i + 1;
    }
    proof {
        assert(s@.take(p@.len() as int) =~= p@);
    }
    true
}

#[verifier::rlimit(30)]
fn bila_qaws_p(s: &Vec<char>) -> (r: Vec<char>)
    ensures
        r@ == bila_qaws(s@),
{
    let mut i: usize = 0;
    proof {
        assert(s@.skip(0) =~= s@);
    }
    while i < s.len() && (s[i] == '[' || s[i] == ']')
        invariant
            i <= s@.len(),
            bila_qaws_bidaya(s@) == bila_qaws_bidaya(s@.skip(i as int)),
        decreases s@.len() - i,
    {
        proof {
            assert(s@.skip(i as int).drop_first() =~= s@.skip(i + 1));
        }
        i = i + 1;
    }
    let ghost b = s@.skip(i as int);
    proof {
        assert(bila_qaws_bidaya(b) == b);
        assert(b.take(b.len() as int) =~= b);
    }
    let mut j = s.len();
    while j > i && (s[j - 1] == '[' || s[j - 1] == ']')
        invariant
            i <= j <= s@.len(),
            b == s@.skip(i as int),
            bila_qaws_nihaya(b) == bila_qaws_nihaya(b.take(j - i)),
        decreases j,
    {
        proof {
            assert(b.take(j - i).drop_last() =~= b.take(j - 1 - i));
        }
        j = j - 1;
    }
    proof {
        assert(s@.subrange(i as int, j as int) =~= b.take(j - i));
    }
    qita(s, i, j)
}

impl Unwan {
    /// Parses a base address, accepting plain HTTP only.
    pub fn min_asas(asas: &str) -> (r: Result<Self, (String, String)>)
        ensures
            natija_unwan(r) == min_asas_s(asas@),
    {
        let h = huruf(asas);
        let a = shadhdhib(&h);
        let http = huruf("http://");
        let https = huruf("https://");
        if !yabda_bi_p(&a, &http) {
            if yabda_bi_p(&a, &https) {
                return Err(
                    (
                        min_nass(
                            "it is reachable only over a secure connection, and the overlay carries no TLS stack; a local model server over plain HTTP (Ollama, LM Studio) is what the overlay can use.",
                        ),
                        min_nass(
                            "لا يُوصَل إليه إلا باتصال مؤمَّن، والطبقة لا تحمل مكدّس TLS؛ ما تستطيع الطبقة استعماله هو خادم نموذج محلّي عبر HTTP عادي (Ollama أو LM Studio).",
                        ),
                    ),
                );
            }
            let a_s = min_huruf(a.as_slice());
            let mut e1 = min_nass("its endpoint \"");
            ilhaq(&mut e1, a_s.as_str());
            ilhaq(&mut e1, "\" is not an http:// address.");
            let mut e2 = min_nass("عنوانه \"");
            ilhaq(&mut e2, a_s.as_str());
            ilhaq(&mut e2, "\" ليس عنوان http://.");
            return Err((e1, e2));
        }
        proof {
            reveal_strlit("http://");
        }
        let baqi = qita(&a, 7, a.len());
        proof {
            assert(baqi@ =~= a@.skip(7));
        }
        let (hp, masar) = match bahth_harf(&baqi, '/') {
            Some(k) => {
                let hp = qita(&baqi, 0, k);
                let mut e = baqi.len();
                while e > k && baqi[e - 1] == '/'
                    invariant
                        k <= e <= baqi@.len(),
                        k < baqi@.len(),
                        bila_nihaya(baqi@.skip(k as int), '/') == bila_nihaya(
                            baqi@.subrange(k as int, e as int),
                            '/',
                        ),
                    decreases e,
                {
                    proof {
                        assert(baqi@.subrange(k as int, e as int).drop_last() =~= baqi@.subrange(
                            k as int,
                            e - 1,
                        ));
                    }
                    e = e - 1;
                }
                let masar = qita(&baqi, k, e);
                proof {
                    assert(hp@ =~= baqi@.take(k as int));
                    assert(baqi@.skip(k as int) =~= baqi@.subrange(k as int, baqi@.len() as int));
                    let t = baqi@.subrange(k as int, e as int);
                    if e > k {
                        assert(t.last() != '/');
                    }
                    assert(bila_nihaya(t, '/') == t);
                }
                (hp, masar)
            },
            None => (baqi, Vec::new()),
        };
        let mut nuqta: Option<usize> = None;
        let mut i = hp.len();
        while nuqta.is_none() && i > 0
            invariant
                i <= hp@.len(),
                nuqta is None ==> akhir_harf(hp@, ':', hp@.len()) == akhir_harf(hp@, ':', i as nat),
                nuqta matches Some(k) ==> akhir_harf(hp@, ':', hp@.len()) == Some(k as nat) && k < hp@.len(),
            decreases i + if nuqta is None {
                1int
            } else {
                0int
            },
        {
            if hp[i - 1] == ':' {
                nuqta = Some(i - 1);
            } else {
                i = i - 1;
            }
        }
        let (mudeef_h, manfadh): (Vec<char>, u16) = match nuqta {
            Some(k) => {
                let h0 = qita(&hp, 0, k);
                let mut fihi_qaws = false;
                let mut t: usize = 0;
                while t < h0.len()
                    invariant
                        t <= h0@.len(),
                        fihi_qaws == (exists|x: int| 0 <= x < t && h0@[x] == ']'),
                    decreases h0@.len() - t,
                {
                    if h0[t] == ']' {
                        fihi_qaws = true;
                    }
                    t = t + 1;
                }
                let yantahi = k > 0 && hp[k - 1] == ']';
                proof {
                    assert(h0@ =~= hp@.take(k as int));
                }
                if !fihi_qaws || yantahi {
                    let p = qita(&hp, k + 1, hp.len());
                    proof {
                        assert(p@ =~= hp@.skip(k + 1));
                        assert(p@.subrange(0, p@.len() as int) =~= p@);
                    }
                    match iqra_raqm(&p, 0, p.len(), 10, 65535) {
                        None => {
                            let p_s = min_huruf(p.as_slice());
                            let mut e1 = min_nass("its port \"");
                            ilhaq(&mut e1, p_s.as_str());
                            ilhaq(&mut e1, "\" is not a number.");
                            let mut e2 = min_nass("منفذه \"");
                            ilhaq(&mut e2, p_s.as_str());
                            ilhaq(&mut e2, "\" ليس رقمًا.");
                            return Err((e1, e2));
                        },
                        Some(n) => (bila_qaws_p(&h0), n as u16),
                    }
                } else {
                    (bila_qaws_p(&hp), 80u16)
                }
            },
            None => (bila_qaws_p(&hp), 80u16),
        };
        if mudeef_h.len() == 0 {
            return Err((min_nass("its endpoint names no host."), min_nass("عنوانه لا يسمّي مضيفًا.")));
        }
        Ok(
            Unwan {
                mudeef: min_huruf(mudeef_h.as_slice()),
                manfadh,
                masar: min_huruf(masar.as_slice()),
            },
        )
    }
}

// ---------------------------------------------------------------------------
// The provider the settings elect
// ---------------------------------------------------------------------------

/// What the settings say of the provider elected on this machine, as far as
/// the overlay reads it.
#[derive(Debug, Clone, PartialEq, Eq)]
pub struct TarifMuzawwid {
    /// The provider's own identifier.
    pub muarrif: String,
    /// Whether it is a local model server or speaks the OpenAI-compatible
    /// dialect, the only ones reachable from inside a game.
    pub mutawafiq: bool,
    /// Whether it needs a stored credential.
    pub lahu_miftah: bool,
    /// The endpoint, when one is configured.
    pub asas: Option<String>,
    /// The model it is asked for.
    pub namudhaj: String,
}

/// The settings' own account of why no provider is elected, in both
/// languages.
#[derive(Debug, Clone, PartialEq, Eq)]
pub struct HalatMuzawwidin {
    /// In English.
    pub injilizi: String,
    /// In Arabic.
    pub arabi: String,
}

/// Whether the overlay can translate, stated for the panel.
#[derive(Debug, Clone, PartialEq, Eq)]
pub enum HalatMutarjim {
    /// A provider the overlay can reach is attached.
    Mutah {
        /// The provider's identifier.
        ism: String,
        /// The model it is asked for.
        namudhaj: String,
        /// The endpoint, as configured.
        asas: String,
    },
    /// No provider is elected on this machine.
    Ghaib(HalatMuzawwidin),
    /// A provider is elected, and the overlay cannot reach it.
    GhayrQabil {
        /// The provider's identifier.
        ism: String,
        /// Why, in English.
        sabab: String,
        /// Why, in Arabic.
        sabab_arabi: String,
    },
    /// The settings could not be read.
    LaIdadat {
        /// What went wrong.
        sabab: String,
    },
}

pub open spec fn wasf_mutarjim(h: HalatMutarjim) -> Seq<char> {
    match h {
        HalatMutarjim::Mutah { ism, namudhaj, asas } => "translating through "@ + ism@ + " ("@
            + namudhaj@ + ") at "@ + asas@,
        HalatMutarjim::Ghaib(hala) => "no translator: "@ + hala.injilizi@
            + " Lines already in the cache or in the installed patch are still drawn."@,
        HalatMutarjim::GhayrQabil { ism, sabab, .. } => "the elected provider "@ + ism@
            + " cannot be reached from inside a game: "@ + sabab@
            + " Lines already in the cache or in the installed patch are still drawn."@,
        HalatMutarjim::LaIdadat { sabab } =>
            "the settings could not be read, so no translator is attached: "@ + sabab@,
    }
}

pub open spec fn wasf_arabi_mutarjim(h: HalatMutarjim) -> Seq<char> {
    match h {
        HalatMutarjim::Mutah { ism, namudhaj, asas } => "الترجمة عبر "@ + ism@ + " ("@ + namudhaj@
            + ") على "@ + asas@,
        HalatMutarjim::Ghaib(hala) => "لا مترجم: "@ + hala.arabi@
            + " تُرسم السطور الموجودة في الخزينة أو في الرقعة المثبّتة كما هي."@,
        HalatMutarjim::GhayrQabil { ism, sabab_arabi, .. } => "المزوّد المحدّد "@ + ism@
            + " لا يمكن الوصول إليه من داخل اللعبة: "@ + sabab_arabi@
            + " تُرسم السطور الموجودة في الخزينة أو في الرقعة المثبّتة كما هي."@,
        HalatMutarjim::LaIdadat { sabab } => "تعذّرت قراءة الإعدادات فلم يُربط مترجم: "@ + sabab@,
    }
}

impl HalatMutarjim {
    /// Whether a provider is attached.
    pub fn mutah(&self) -> (r: bool)
        ensures
            r == (*self is Mutah),
    {
        match self {
            HalatMutarjim::Mutah { .. } => true,
            _ => false,
        }
    }

    /// The sentence the panel shows, in English.
    pub fn wasf(&self) -> (r: String)
        ensures
            r@ == wasf_mutarjim(*self),
    {
        match self {
            HalatMutarjim::Mutah { ism, namudhaj, asas } => {
                let mut r = min_nass("translating through ");
                ilhaq(&mut r, ism.as_str());
                ilhaq(&mut r, " (");
                ilhaq(&mut r, namudhaj.as_str());
                ilhaq(&mut r, ") at ");
                ilhaq(&mut r, asas.as_str());
                r
            },
            HalatMutarjim::Ghaib(hala) => {
                let mut r = min_nass("no translator: ");
                ilhaq(&mut r, hala.injilizi.as_str());
                ilhaq(&mut r, " Lines already in the cache or in the installed patch are still drawn.");
                r
            },
            HalatMutarjim::GhayrQabil { ism, sabab, .. } => {
                let mut r = min_nass("the elected provider ");
                ilhaq(&mut r, ism.as_str());
                ilhaq(&mut r, " cannot be reached from inside a game: ");
                ilhaq(&mut r, sabab.as_str());
                ilhaq(&mut r, " Lines already in the cache or in the installed patch are still drawn.");
                r
            },
            HalatMutarjim::LaIdadat { sabab } => {
                let mut r = min_nass("the settings could not be read, so no translator is attached: ");
                ilhaq(&mut r, sabab.as_str());
                r
            },
        }
    }

    /// The same sentence in Arabic.
    pub fn wasf_arabi(&self) -> (r: String)
        ensures
            r@ == wasf_arabi_mutarjim(*self),
    {
        match self {
            HalatMutarjim::Mutah { ism, namudhaj, asas } => {
                let mut r = min_nass("الترجمة عبر ");
                ilhaq(&mut r, ism.as_str());
                ilhaq(&mut r, " (");
                ilhaq(&mut r, namudhaj.as_str());
                ilhaq(&mut r, ") على ");
                ilhaq(&mut r, asas.as_str());
                r
            },
            HalatMutarjim::Ghaib(hala) => {
                let mut r = min_nass("لا مترجم: ");
                ilhaq(&mut r, hala.arabi.as_str());
                ilhaq(&mut r, " تُرسم السطور الموجودة في الخزينة أو في الرقعة المثبّتة كما هي.");
                r
            },
            HalatMutarjim::GhayrQabil { ism, sabab_arabi, .. } => {
                let mut r = min_nass("المزوّد المحدّد ");
                ilhaq(&mut r, ism.as_str());
                ilhaq(&mut r, " لا يمكن الوصول إليه من داخل اللعبة: ");
                ilhaq(&mut r, sabab_arabi.as_str());
                ilhaq(&mut r, " تُرسم السطور الموجودة في الخزينة أو في الرقعة المثبّتة كما هي.");
                r
            },
            HalatMutarjim::LaIdadat { sabab } => {
                let mut r = min_nass("تعذّرت قراءة الإعدادات فلم يُربط مترجم: ");
                ilhaq(&mut r, sabab.as_str());
                r
            },
        }
    }
}

/// The endpoint a provider with none configured is reached at.
pub open spec fn asas_iftiradi() -> Seq<char> {
    "http://127.0.0.1:11434"@
}

/// Whether the overlay can use an elected provider: the endpoint it would
/// use, or the two sentences that say why not. Checked in order: the
/// dialect, the credential, the address, the model name.
pub open spec fn qabiliyya_s(t: TarifMuzawwid) -> Result<Seq<char>, (Seq<char>, Seq<char>)> {
    let asas = match t.asas {
        Some(a) => a@,
        None => asas_iftiradi(),
    };
    if !t.mutawafiq {
        Err(
            (
                "it speaks a dialect the overlay does not carry; only a local model server with an OpenAI-compatible endpoint is reachable from inside a game."@,
                "يتكلّم لهجة لا تحملها الطبقة؛ لا يُوصَل من داخل اللعبة إلا إلى خادم نموذج محلّي بواجهة متوافقة مع OpenAI."@,
            ),
        )
    } else if t.lahu_miftah {
        Err(
            (
                "it needs a stored credential, and the overlay reads no keychain; a local model server that needs no key is what the overlay can use."@,
                "يحتاج إلى مفتاح محفوظ، والطبقة لا تقرأ سلسلة المفاتيح؛ ما تستطيع الطبقة استعماله هو خادم نموذج محلّي لا يحتاج إلى مفتاح."@,
            ),
        )
    } else if min_asas_s(asas) is Err {
        Err(min_asas_s(asas)->Err_0)
    } else if farigh(t.namudhaj@) {
        Err(("no model name is configured for it."@, "لم يُضبط له اسم نموذج."@))
    } else {
        Ok(asas)
    }
}

/// A local Chat Completions server the overlay can reach: who it is, the
/// model, the endpoint as configured and as parsed.
#[derive(Debug, Clone, PartialEq, Eq)]
pub struct MutarjimMahalli {
    /// The provider's identifier.
    pub ism: String,
    /// The model.
    pub namudhaj: String,
    /// The endpoint, as configured.
    pub asas: String,
    /// The endpoint, parsed.
    pub unwan: Unwan,
}

/// What building the elected provider gives: the provider and its state
/// where the overlay can use it, else no provider and the reason.
pub open spec fn natija_idadat(t: TarifMuzawwid, r: (Option<MutarjimMahalli>, HalatMutarjim)) -> bool {
    match qabiliyya_s(t) {
        Err((a, b)) => {
            &&& r.0 is None
            &&& (r.1 matches HalatMutarjim::GhayrQabil { ism, sabab, sabab_arabi } && ism@
                == t.muarrif@ && sabab@ == a && sabab_arabi@ == b)
        },
        Ok(asas) => {
            &&& (r.0 matches Some(m) && m.ism@ == t.muarrif@ && m.namudhaj@ == t.namudhaj@
                && m.asas@ == asas && natija_unwan(Ok(m.unwan)) == min_asas_s(asas))
            &&& (r.1 matches HalatMutarjim::Mutah { ism, namudhaj, asas: s } && ism@
                == t.muarrif@ && namudhaj@ == t.namudhaj@ && s@ == asas)
        },
    }
}

impl MutarjimMahalli {
    /// Builds the provider the settings elect, or says why the overlay
    /// cannot use it; with none elected, the settings' own account.
    pub fn min_idadat(muntakhab: Option<&TarifMuzawwid>, hala: HalatMuzawwidin) -> (r: (
        Option<Self>,
        HalatMutarjim,
    ))
        ensures
            muntakhab is None ==> (r.0 is None && r.1 == HalatMutarjim::Ghaib(hala)),
            muntakhab matches Some(t) ==> natija_idadat(*t, r),
    {
        let tarif = match muntakhab {
            None => {
                return (None, HalatMutarjim::Ghaib(hala));
            },
            Some(t) => t,
        };
        if !tarif.mutawafiq {
            return (
                None,
                HalatMutarjim::GhayrQabil {
                    ism: min_nass(tarif.muarrif.as_str()),
                    sabab: min_nass(
                        "it speaks a dialect the overlay does not carry; only a local model server with an OpenAI-compatible endpoint is reachable from inside a game.",
                    ),
                    sabab_arabi: min_nass(
                        "يتكلّم لهجة لا تحملها الطبقة؛ لا يُوصَل من داخل اللعبة إلا إلى خادم نموذج محلّي بواجهة متوافقة مع OpenAI.",
                    ),
                },
            );
        }
        if tarif.lahu_miftah {
            return (
                None,
                HalatMutarjim::GhayrQabil {
                    ism: min_nass(tarif.muarrif.as_str()),
                    sabab: min_nass(
                        "it needs a stored credential, and the overlay reads no keychain; a local model server that needs no key is what the overlay can use.",
                    ),
                    sabab_arabi: min_nass(
                        "يحتاج إلى مفتاح محفوظ، والطبقة لا تقرأ سلسلة المفاتيح؛ ما تستطيع الطبقة استعماله هو خادم نموذج محلّي لا يحتاج إلى مفتاح.",
                    ),
                },
            );
        }
        let asas = match &tarif.asas {
            Some(a) => min_nass(a.as_str()),
            None => min_nass("http://127.0.0.1:11434"),
        };
        let unwan = match Unwan::min_asas(asas.as_str()) {
            Ok(u) => u,
            Err((sabab, sabab_arabi)) => {
                return (
                    None,
                    HalatMutarjim::GhayrQabil { ism: min_nass(tarif.muarrif.as_str()), sabab, sabab_arabi },
                );
            },
        };
        let hn = huruf(tarif.namudhaj.as_str());
        let mn = shadhdhib(&hn);
        proof {
            crate::nass::lemma_farigh_mushdhab(tarif.namudhaj@);
        }
        if mn.len() == 0 {
            return (
                None,
                HalatMutarjim::GhayrQabil {
                    ism: min_nass(tarif.muarrif.as_str()),
                    sabab: min_nass("no model name is configured for it."),
                    sabab_arabi: min_nass("لم يُضبط له اسم نموذج."),
                },
            );
        }
        let mutarjim = MutarjimMahalli {
            ism: min_nass(tarif.muarrif.as_str()),
            namudhaj: min_nass(tarif.namudhaj.as_str()),
            asas: min_nass(asas.as_str()),
            unwan,
        };
        (
            Some(mutarjim),
            HalatMutarjim::Mutah {
                ism: min_nass(tarif.muarrif.as_str()),
                namudhaj: min_nass(tarif.namudhaj.as_str()),
                asas,
            },
        )
    }

    /// A provider at an explicit address, refusing one that is not plain
    /// HTTP with the English sentence that says why.
    pub fn jadeed(ism: &str, asas: &str, namudhaj: &str) -> (r: Result<Self, crate::khata::KhataTabaqa>)
        ensures
            min_asas_s(asas@) is Ok <==> r is Ok,
            r matches Ok(m) ==> m.ism@ == ism@ && m.namudhaj@ == namudhaj@ && m.asas@ == mushdhab(
                asas@,
            ) && natija_unwan(Ok(m.unwan)) == min_asas_s(asas@),
            r matches Err(e) ==> (e matches crate::khata::KhataTabaqa::MawridFashil { mawrid, sabab }
                && mawrid@ == "local translator endpoint"@ && sabab@ == min_asas_s(
                asas@,
            )->Err_0.0),
    {
        let unwan = match Unwan::min_asas(asas) {
            Ok(u) => u,
            Err((sabab, _)) => {
                return Err(
                    crate::khata::KhataTabaqa::MawridFashil { mawrid: "local translator endpoint", sabab },
                );
            },
        };
        let h = huruf(asas);
        Ok(
            MutarjimMahalli {
                ism: min_nass(ism),
                namudhaj: min_nass(namudhaj),
                asas: min_huruf(shadhdhib(&h).as_slice()),
                unwan,
            },
        )
    }

    /// The endpoint, as configured.
    pub fn asas(&self) -> (r: &str)
        ensures
            r@ == self.asas@,
    {
        self.asas.as_str()
    }
}

/// A JSON value as the library reads it: strings and numbers as their
/// text, arrays and objects in the order they came.
#[derive(Debug)]
pub enum QeemaJson {
    /// `null`.
    Fargh,
    /// `true` or `false`.
    Mantiqi(bool),
    /// A number, as its text.
    Raqm(String),
    /// A string.
    Nass(String),
    /// An array.
    Qaima(Vec<QeemaJson>),
    /// An object: its keys and values.
    Kain(Vec<(String, QeemaJson)>),
}

#[verifier::external_type_specification]
#[verifier::external_body]
pub struct ExQeemaSerde(serde_json::Value);

/// What `serde_json` makes of a text: the value, or its error's message.
pub uninterp spec fn json_s(nass: Seq<char>) -> Result<QeemaJson, Seq<char>>;

/// Turns a parsed `serde_json::Value` into the library's value, one variant
/// for one, numbers by their text.
#[verifier::external_body]
fn qeema_min_serde(v: serde_json::Value) -> QeemaJson {
    match v {
        serde_json::Value::Null => QeemaJson::Fargh,
        serde_json::Value::Bool(b) => QeemaJson::Mantiqi(b),
        serde_json::Value::Number(n) => QeemaJson::Raqm(n.to_string()),
        serde_json::Value::String(s) => QeemaJson::Nass(s),
        serde_json::Value::Array(a) => QeemaJson::Qaima(a.into_iter().map(qeema_min_serde).collect()),
        serde_json::Value::Object(o) => QeemaJson::Kain(
            o.into_iter().map(|(k, v)| (k, qeema_min_serde(v))).collect(),
        ),
    }
}

/// Parses a text as JSON with `serde_json::from_str`. The contract only
/// names the result, which depends on the text alone.
#[verifier::external_body]
fn hallil_json(nass: &str) -> (r: Result<QeemaJson, String>)
    ensures
        match r {
            Ok(v) => json_s(nass@) == Ok::<QeemaJson, Seq<char>>(v),
            Err(e) => json_s(nass@) == Err::<QeemaJson, Seq<char>>(e@),
        },
{
    match serde_json::from_str::<serde_json::Value>(nass) {
        Ok(v) => Ok(qeema_min_serde(v)),
        Err(e) => Err(e.to_string()),
    }
}

/// What `serde_json` makes of a file's bytes: the value, or its error's
/// message.
pub uninterp spec fn json_bayt_s(bayt: Seq<u8>) -> Result<QeemaJson, Seq<char>>;

/// Parses bytes as JSON with `serde_json::from_slice`. The contract only
/// names the result, which depends on the bytes alone.
#[verifier::external_body]
fn hallil_json_bayt(bayt: &[u8]) -> (r: Result<QeemaJson, String>)
    ensures
        match r {
            Ok(v) => json_bayt_s(bayt@) == Ok::<QeemaJson, Seq<char>>(v),
            Err(e) => json_bayt_s(bayt@) == Err::<QeemaJson, Seq<char>>(e@),
        },
{
    match serde_json::from_slice::<serde_json::Value>(bayt) {
        Ok(v) => Ok(qeema_min_serde(v)),
        Err(e) => Err(e.to_string()),
    }
}

/// The test for an object key.
pub open spec fn bi_haql(k: Seq<char>) -> spec_fn((String, QeemaJson)) -> bool {
    |e: (String, QeemaJson)| e.0@ == k
}

/// An object's value under a key, the first when it repeats; nothing for a
/// value that is not an object.
pub open spec fn haql_s(v: QeemaJson, k: Seq<char>) -> Option<QeemaJson> {
    match v {
        QeemaJson::Kain(es) => {
            let i = awwal_s(es@, bi_haql(k));
            if i < es@.len() {
                Some(es@[i as int].1)
            } else {
                None
            }
        },
        _ => None,
    }
}

/// A string value's text.
pub open spec fn nass_json_s(v: Option<QeemaJson>) -> Option<Seq<char>> {
    match v {
        Some(QeemaJson::Nass(s)) => Some(s@),
        _ => None,
    }
}

/// An array's first element.
pub open spec fn awwal_qaima_s(v: Option<QeemaJson>) -> Option<QeemaJson> {
    match v {
        Some(QeemaJson::Qaima(a)) => if a@.len() > 0 {
            Some(a@[0])
        } else {
            None
        },
        _ => None,
    }
}

/// A key of an optional value.
pub open spec fn haql_o(v: Option<QeemaJson>, k: Seq<char>) -> Option<QeemaJson> {
    match v {
        Some(x) => haql_s(x, k),
        None => None,
    }
}

/// What a Chat Completions reply says: the server's error, by its message,
/// or the first choice's content.
pub open spec fn muhtawa_s(v: QeemaJson) -> Result<Seq<char>, Seq<char>> {
    match haql_s(v, "error"@) {
        Some(e) => {
            let risala = match nass_json_s(haql_s(e, "message"@)) {
                Some(m) => m,
                None => match nass_json_s(Some(e)) {
                    Some(m) => m,
                    None => "unnamed"@,
                },
            };
            Err("the server reported an error: "@ + risala)
        },
        None => match nass_json_s(
            haql_o(haql_o(awwal_qaima_s(haql_s(v, "choices"@)), "message"@), "content"@),
        ) {
            Some(m) => Ok(m),
            None => Err("the reply carries no assistant content"@),
        },
    }
}

/// A text with every trailing code fence removed.
pub open spec fn bila_siyaj_s(s: Seq<char>) -> Seq<char>
    decreases s.len(),
{
    if s.len() >= 3 && s[s.len() - 3] == '`' && s[s.len() - 2] == '`' && s[s.len() - 1] == '`' {
        bila_siyaj_s(s.take(s.len() - 3))
    } else {
        s
    }
}

/// A model's content with a code fence around it taken off: trimmed, a
/// leading "```json" or "```" and every trailing "```" removed, trimmed.
pub open spec fn munaqqah_s(m: Seq<char>) -> Seq<char> {
    let t = mushdhab(m);
    if yabda_bi(t, "```json"@) {
        mushdhab(bila_siyaj_s(t.skip(7)))
    } else if yabda_bi(t, "```"@) {
        mushdhab(bila_siyaj_s(t.skip(3)))
    } else {
        mushdhab(t)
    }
}

/// Lines joined with single spaces.
pub open spec fn damm_sutur_s(l: Seq<Seq<char>>) -> Seq<char>
    decreases l.len(),
{
    if l.len() == 0 {
        Seq::empty()
    } else if l.len() == 1 {
        l[0]
    } else {
        damm_sutur_s(l.drop_last()) + " "@ + l.last()
    }
}

/// The translation an answer object carries: its "tarjama" string, trimmed,
/// its lines joined with spaces; nothing when it carries none or a blank one.
pub open spec fn tarjama_min_kain_s(k: QeemaJson) -> Option<Seq<char>> {
    match nass_json_s(haql_s(k, "tarjama"@)) {
        Some(t) => if mushdhab(t).len() > 0 {
            Some(damm_sutur_s(sutur(mushdhab(t))))
        } else {
            None
        },
        None => None,
    }
}

/// The first `n` characters, or all of them.
pub open spec fn awail_s(s: Seq<char>, n: nat) -> Seq<char> {
    if s.len() <= n {
        s
    } else {
        s.take(n as int)
    }
}

/// What a parse result, as values.
pub open spec fn natija_json(r: Result<QeemaJson, String>) -> Result<QeemaJson, Seq<char>> {
    match r {
        Ok(v) => Ok(v),
        Err(e) => Err(e@),
    }
}

/// What the parsed reply body leads to: the model's content with its code
/// fence taken off, or why there is none (the body was not JSON, the server
/// reported an error, or no content came).
pub open spec fn muhtawa_munaqqah_s(qeema: Result<QeemaJson, Seq<char>>) -> Result<Seq<char>, Seq<char>> {
    match qeema {
        Err(e) => Err("the reply is not JSON: "@ + e),
        Ok(v) => match muhtawa_s(v) {
            Err(x) => Err(x),
            Ok(m) => Ok(munaqqah_s(m)),
        },
    }
}

/// What the parsed content leads to: the translation its object carries, or
/// why there is none (the content was not JSON, with its first 64
/// characters; or the object has no usable "tarjama" string).
pub open spec fn tarjama_min_jawab_s(munaqqah: Seq<char>, kain: Result<QeemaJson, Seq<char>>) -> Result<
    Seq<char>,
    Seq<char>,
> {
    match kain {
        Err(_) => Err("the model did not answer with a JSON object: "@ + awail_s(munaqqah, 64)),
        Ok(k) => match tarjama_min_kain_s(k) {
            Some(t) => Ok(t),
            None => Err("the object carries no \"tarjama\" string"@),
        },
    }
}

/// The translation a reply body carries, or why there is none: the body is
/// parsed, its content taken, and the content parsed in turn.
pub open spec fn tarjama_s(nass: Seq<char>) -> Result<Seq<char>, Seq<char>> {
    match muhtawa_munaqqah_s(json_s(mushdhab(nass))) {
        Err(e) => Err(e),
        Ok(u) => tarjama_min_jawab_s(u, json_s(u)),
    }
}

fn haql<'a>(v: &'a QeemaJson, k: &str) -> (r: Option<&'a QeemaJson>)
    ensures
        match r {
            Some(x) => haql_s(*v, k@) == Some(*x),
            None => haql_s(*v, k@) is None,
        },
{
    match *v {
        QeemaJson::Kain(ref es) => {
            let kk = min_nass(k);
            assert(*v == QeemaJson::Kain(*es));
            let mut i: usize = 0;
            while i < es.len()
                invariant
                    i <= es@.len(),
                    *v == QeemaJson::Kain(*es),
                    kk@ == k@,
                    forall|j: int| 0 <= j < i ==> !(bi_haql(k@))(#[trigger] es@[j]),
                decreases es@.len() - i,
            {
                if es[i].0 == kk {
                    proof {
                        assert(es@[i as int].0@ == k@);
                        assert((bi_haql(k@))(es@[i as int]));
                        crate::tartib::lemma_awwal(es@, bi_haql(k@), i as int);
                        assert(*v == QeemaJson::Kain(*es));
                    }
                    return Some(&es[i].1);
                }
                i = i + 1;
            }
            proof {
                crate::tartib::lemma_awwal(es@, bi_haql(k@), es@.len() as int);
            }
            None
        },
        _ => None,
    }
}

fn haql_ikhtiyari<'a>(v: Option<&'a QeemaJson>, k: &str) -> (r: Option<&'a QeemaJson>)
    ensures
        match r {
            Some(x) => haql_o(match v { Some(y) => Some(*y), None => None }, k@) == Some(*x),
            None => haql_o(match v { Some(y) => Some(*y), None => None }, k@) is None,
        },
{
    match v {
        Some(x) => haql(x, k),
        None => None,
    }
}

fn nass_json(v: Option<&QeemaJson>) -> (r: Option<String>)
    ensures
        match r {
            Some(x) => nass_json_s(match v { Some(y) => Some(*y), None => None }) == Some(x@),
            None => nass_json_s(match v { Some(y) => Some(*y), None => None }) is None,
        },
{
    match v {
        Some(QeemaJson::Nass(s)) => Some(min_nass(s.as_str())),
        _ => None,
    }
}

/// What a parsed Chat Completions reply says: the server's error, by its
/// message, or the first choice's content.
pub fn muhtawa_min_radd(qeema: &QeemaJson) -> (r: Result<String, String>)
    ensures
        match r {
            Ok(m) => muhtawa_s(*qeema) == Ok::<Seq<char>, Seq<char>>(m@),
            Err(e) => muhtawa_s(*qeema) == Err::<Seq<char>, Seq<char>>(e@),
        },
{
    match haql(qeema, "error") {
        Some(e) => {
            let risala = match nass_json(haql(e, "message")) {
                Some(m) => m,
                None => match nass_json(Some(e)) {
                    Some(m) => m,
                    None => min_nass("unnamed"),
                },
            };
            let mut r = min_nass("the server reported an error: ");
            ilhaq(&mut r, risala.as_str());
            Err(r)
        },
        None => {
            let choices = haql(qeema, "choices");
            let awwal = match choices {
                Some(QeemaJson::Qaima(a)) => if a.len() > 0 {
                    Some(&a[0])
                } else {
                    None
                },
                _ => None,
            };
            let risala = haql_ikhtiyari(awwal, "message");
            let muhtawa = haql_ikhtiyari(risala, "content");
            match nass_json(muhtawa) {
                Some(m) => Ok(m),
                None => Err(min_nass("the reply carries no assistant content")),
            }
        },
    }
}

fn bila_siyaj(s: &Vec<char>) -> (r: Vec<char>)
    ensures
        r@ == bila_siyaj_s(s@),
{
    let mut n = s.len();
    proof {
        assert(s@.take(n as int) =~= s@);
    }
    while n >= 3 && s[n - 3] == '`' && s[n - 2] == '`' && s[n - 1] == '`'
        invariant
            n <= s@.len(),
            bila_siyaj_s(s@.take(n as int)) == bila_siyaj_s(s@),
        decreases n,
    {
        proof {
            let t = s@.take(n as int);
            assert(t[t.len() - 3] == '`' && t[t.len() - 2] == '`' && t[t.len() - 1] == '`');
            assert(t.take(t.len() - 3) =~= s@.take(n - 3));
        }
        n = n - 3;
    }
    proof {
        let t = s@.take(n as int);
        if n >= 3 {
            assert(t[t.len() - 3] == s@[n - 3] && t[t.len() - 2] == s@[n - 2] && t[t.len() - 1] == s@[n - 1]);
        }
    }
    qita(s, 0, n)
}

/// A field's value read as an unsigned 64-bit number, as `Value::as_u64`
/// reads one: a number written as decimal digits that fits.
pub open spec fn adad_json_s(v: Option<QeemaJson>) -> Option<nat> {
    match v {
        Some(QeemaJson::Raqm(t)) => hall_raqm(t@, 10, u64::MAX as nat),
        _ => None,
    }
}

/// What a stored file's bytes say before they are read as a type: the
/// parsed object when it is one and its schema-version field `haql` holds
/// `isdar`; else why the file is refused (not JSON, not an object, no
/// version, or another version, naming both), each refusal followed by the
/// file's own words `dhayl_haql` or `dhayl_isdar`.
pub open spec fn fahs_mukhattat_s(
    bayt: Seq<u8>,
    haql: Seq<char>,
    isdar: nat,
    dhayl_haql: Seq<char>,
    dhayl_isdar: Seq<char>,
) -> Result<QeemaJson, Seq<char>> {
    match json_bayt_s(bayt) {
        Err(e) => Err("it is not JSON: "@ + e),
        Ok(v) => if !(v is Kain) {
            Err("its top level is not a JSON object"@)
        } else {
            match adad_json_s(haql_s(v, haql)) {
                None => Err("it carries no `"@ + haql + "` field"@ + dhayl_haql),
                Some(m) => if m == isdar {
                    Ok(v)
                } else {
                    Err(
                        "it declares schema version "@ + ashri(m)
                            + ", and this build reads and writes version "@ + ashri(isdar) + ". "@
                            + dhayl_isdar,
                    )
                },
            }
        },
    }
}

/// Checks a stored file's bytes before they are read as a type: parsed with
/// `serde_json::from_slice`, an object, and stamped with this build's schema
/// version in the field `haql`.
pub fn fahs_mukhattat(
    bayt: &[u8],
    haql_isdar: &str,
    isdar: u64,
    dhayl_haql: &str,
    dhayl_isdar: &str,
) -> (r: Result<QeemaJson, String>)
    ensures
        natija_json(r) == fahs_mukhattat_s(bayt@, haql_isdar@, isdar as nat, dhayl_haql@, dhayl_isdar@),
{
    let v = match hallil_json_bayt(bayt) {
        Ok(v) => v,
        Err(e) => {
            let mut r = min_nass("it is not JSON: ");
            ilhaq(&mut r, e.as_str());
            return Err(r);
        },
    };
    let kain = match v {
        QeemaJson::Kain(_) => true,
        _ => false,
    };
    if !kain {
        return Err(min_nass("its top level is not a JSON object"));
    }
    let mawjud = match haql(&v, haql_isdar) {
        Some(QeemaJson::Raqm(t)) => {
            let h = huruf(t.as_str());
            proof {
                assert(h@.subrange(0, h@.len() as int) =~= h@);
            }
            iqra_raqm(&h, 0, h.len(), 10, u64::MAX)
        },
        _ => None,
    };
    match mawjud {
        None => {
            let mut r = min_nass("it carries no `");
            ilhaq(&mut r, haql_isdar);
            ilhaq(&mut r, "` field");
            ilhaq(&mut r, dhayl_haql);
            Err(r)
        },
        Some(m) => if m == isdar {
            Ok(v)
        } else {
            let mut r = min_nass("it declares schema version ");
            aktub_ashri(&mut r, m);
            ilhaq(&mut r, ", and this build reads and writes version ");
            aktub_ashri(&mut r, isdar);
            ilhaq(&mut r, ". ");
            ilhaq(&mut r, dhayl_isdar);
            Err(r)
        },
    }
}

/// A model's content with a code fence around it taken off.
pub fn naqqih_muhtawa(m: &str) -> (r: String)
    ensures
        r@ == munaqqah_s(m@),
{
    let h = huruf(m);
    let t = shadhdhib(&h);
    let j = huruf("```json");
    let f = huruf("```");
    proof {
        reveal_strlit("```json");
        reveal_strlit("```");
    }
    let baqi = if yabda_bi_p(&t, &j) {
        let b = qita(&t, 7, t.len());
        bila_siyaj(&b)
    } else if yabda_bi_p(&t, &f) {
        let b = qita(&t, 3, t.len());
        bila_siyaj(&b)
    } else {
        t
    };
    proof {
        reveal_strlit("```json");
        reveal_strlit("```");
    }
    min_huruf(shadhdhib(&baqi).as_slice())
}

/// The translation an answer object carries: its "tarjama" string, trimmed,
/// its lines joined with spaces; nothing when it carries none or a blank one.
pub fn tarjama_min_kain(kain: &QeemaJson) -> (r: Option<String>)
    ensures
        match r {
            Some(t) => tarjama_min_kain_s(*kain) == Some(t@),
            None => tarjama_min_kain_s(*kain) is None,
        },
{
    let t = match nass_json(haql(kain, "tarjama")) {
        Some(t) => t,
        None => {
            return None;
        },
    };
    let h = huruf(t.as_str());
    let m = shadhdhib(&h);
    if m.len() == 0 {
        return None;
    }
    let l = qassim_sutur(&m);
    let mut r = String::new();
    let mut i: usize = 0;
    while i < l.len()
        invariant
            i <= l@.len(),
            l@.len() == sutur(m@).len(),
            forall|k: int| 0 <= k < l@.len() ==> #[trigger] l@[k]@ == sutur(m@)[k],
            r@ == damm_sutur_s(sutur(m@).take(i as int)),
        decreases l@.len() - i,
    {
        proof {
            assert(sutur(m@).take(i + 1).drop_last() =~= sutur(m@).take(i as int));
        }
        if i > 0 {
            ilhaq(&mut r, " ");
        }
        let s = min_huruf(l[i].as_slice());
        ilhaq(&mut r, s.as_str());
        proof {
            if i == 0 {
                assert(r@ =~= sutur(m@).take(1)[0]);
            }
        }
        i = i + 1;
    }
    proof {
        assert(sutur(m@).take(sutur(m@).len() as int) =~= sutur(m@));
    }
    Some(r)
}

/// The model's content from a parsed reply body, fence taken off, or the
/// sentence that says why there is none.
pub fn muhtawa_munaqqah(qeema: Result<QeemaJson, String>) -> (r: Result<String, String>)
    ensures
        natija_nass(r) == muhtawa_munaqqah_s(natija_json(qeema)),
{
    let q = match qeema {
        Ok(q) => q,
        Err(sabab) => {
            let mut r = min_nass("the reply is not JSON: ");
            ilhaq(&mut r, sabab.as_str());
            return Err(r);
        },
    };
    match muhtawa_min_radd(&q) {
        Ok(m) => Ok(naqqih_muhtawa(m.as_str())),
        Err(e) => Err(e),
    }
}

/// The translation carried by the object the content was read as, or the
/// sentence that says why there is none.
pub fn tarjama_min_jawab(munaqqah: &str, kain: Result<QeemaJson, String>) -> (r: Result<String, String>)
    ensures
        natija_nass(r) == tarjama_min_jawab_s(munaqqah@, natija_json(kain)),
{
    match kain {
        Ok(k) => match tarjama_min_kain(&k) {
            Some(t) => Ok(t),
            None => Err(min_nass("the object carries no \"tarjama\" string")),
        },
        Err(_) => {
            let hm = huruf(munaqqah);
            let n = if hm.len() <= 64 {
                hm.len()
            } else {
                64
            };
            let muqtataf = qita(&hm, 0, n);
            let mut r = min_nass("the model did not answer with a JSON object: ");
            ilhaq(&mut r, min_huruf(muqtataf.as_slice()).as_str());
            proof {
                if hm@.len() <= 64 {
                    assert(hm@.subrange(0, n as int) =~= hm@);
                }
            }
            Err(r)
        },
    }
}

/// The translation a Chat Completions reply body carries, or the sentence
/// that says why there is none.
pub fn tarjama_min_radd(nass: &str) -> (r: Result<String, String>)
    ensures
        natija_nass(r) == tarjama_s(nass@),
{
    let h = huruf(nass);
    let mushdhab_n = min_huruf(shadhdhib(&h).as_slice());
    let munaqqah = match muhtawa_munaqqah(hallil_json(mushdhab_n.as_str())) {
        Ok(u) => u,
        Err(e) => {
            return Err(e);
        },
    };
    tarjama_min_jawab(munaqqah.as_str(), hallil_json(munaqqah.as_str()))
}

/// The system instruction: role, register, the one-line constraint with
/// the width the Arabic has, and the answer's shape.
pub open spec fn tawjih_s(ism_luba: Option<Seq<char>>, ard: u32) -> Seq<char> {
    "أنت مترجم ألعاب محترف تنقل نصوص لعبة من لغتها الأصلية إلى العربية. النص التالي سطر واحد قُرئ من شاشة اللعبة آليًا، فقد يحمل خطأ قراءة في حرف أو حرفين؛ ترجم المعنى المقصود."@ + match ism_luba {
        Some(ism) => "\nاللعبة: "@ + ism + "."@,
        None => Seq::empty(),
    } + "\n\nإن كان السطر حوارًا فترجمه بعربية فصيحة مبسّطة قريبة من إيقاع الكلام، بجمل قصيرة يقولها متحدث فعلًا. وإن كان عنصر واجهة — زرًا أو بند قائمة — فترجمه بفصحى موجزة على عرف الواجهات العربية: المصدر لا فعل الأمر، كلمة أو كلمتان، بلا نقطة في الآخر. أبقِ الأرقام وأسماء الأعلام والمفاتيح كما هي."@ + "\n\nيُعرض هذا النص في سطر واحد لا يلتف، في مساحة عرضها "@ + ashri(ard as nat) + " بكسل؛ قدّم أوجز صياغة صحيحة تفي بالمعنى."@ + "\n\nأجب بكائن JSON واحد لا شيء غيره: لا شرح قبله ولا بعده ولا علامات تنسيق حوله. الحقل «tarjama» يحمل الترجمة العربية وحدها."@
}

/// The context lines, one per line after a dash.
pub open spec fn qaimat_jiwar_s(jiwar: Seq<Seq<char>>) -> Seq<char>
    decreases jiwar.len(),
{
    if jiwar.len() == 0 {
        Seq::empty()
    } else {
        qaimat_jiwar_s(jiwar.drop_last()) + "- "@ + jiwar.last() + "\n"@
    }
}

/// The user message: the lines said before, then the line, fenced last.
pub open spec fn risala_s(jiwar: Seq<Seq<char>>, asl: Seq<char>) -> Seq<char> {
    (if jiwar.len() == 0 {
        Seq::empty()
    } else {
        "السطور التي سبقت هذا السطر على الشاشة، للسياق فقط ولا تُترجم:\n"@ + qaimat_jiwar_s(jiwar) + "\n"@
    }) + "النص المطلوب ترجمته:\n«"@ + asl + "»"@
}

/// The system instruction for a line.
pub fn tawjih(talab: &crate::mutarjim::TalabSatr) -> (r: String)
    ensures
        r@ == tawjih_s(
            match talab.ism_luba {
                Some(s) => Some(s@),
                None => None,
            },
            talab.mawdi.ard,
        ),
{
    let mut r = min_nass("أنت مترجم ألعاب محترف تنقل نصوص لعبة من لغتها الأصلية إلى العربية. النص التالي سطر واحد قُرئ من شاشة اللعبة آليًا، فقد يحمل خطأ قراءة في حرف أو حرفين؛ ترجم المعنى المقصود.");
    match &talab.ism_luba {
        Some(ism) => {
            ilhaq(&mut r, "\nاللعبة: ");
            ilhaq(&mut r, ism.as_str());
            ilhaq(&mut r, ".");
        },
        None => {},
    }
    ilhaq(&mut r, "\n\nإن كان السطر حوارًا فترجمه بعربية فصيحة مبسّطة قريبة من إيقاع الكلام، بجمل قصيرة يقولها متحدث فعلًا. وإن كان عنصر واجهة — زرًا أو بند قائمة — فترجمه بفصحى موجزة على عرف الواجهات العربية: المصدر لا فعل الأمر، كلمة أو كلمتان، بلا نقطة في الآخر. أبقِ الأرقام وأسماء الأعلام والمفاتيح كما هي.");
    ilhaq(&mut r, "\n\nيُعرض هذا النص في سطر واحد لا يلتف، في مساحة عرضها ");
    aktub_ashri(&mut r, talab.mawdi.ard as u64);
    ilhaq(&mut r, " بكسل؛ قدّم أوجز صياغة صحيحة تفي بالمعنى.");
    ilhaq(&mut r, "\n\nأجب بكائن JSON واحد لا شيء غيره: لا شرح قبله ولا بعده ولا علامات تنسيق حوله. الحقل «tarjama» يحمل الترجمة العربية وحدها.");
    proof {
        assert(r@ =~= tawjih_s(
            match talab.ism_luba {
                Some(s) => Some(s@),
                None => None,
            },
            talab.mawdi.ard,
        ));
    }
    r
}

/// Each text's characters.
pub open spec fn nusus_s(v: Seq<String>) -> Seq<Seq<char>> {
    v.map_values(|x: String| x@)
}

/// The user message for a line.
pub fn risala(talab: &crate::mutarjim::TalabSatr) -> (r: String)
    ensures
        r@ == risala_s(nusus_s(talab.jiwar@), talab.asl@),
{
    let mut r = String::new();
    if talab.jiwar.len() > 0 {
        ilhaq(&mut r, "السطور التي سبقت هذا السطر على الشاشة، للسياق فقط ولا تُترجم:\n");
        let mut i: usize = 0;
        while i < talab.jiwar.len()
            invariant
                i <= talab.jiwar@.len(),
                talab.jiwar@.len() > 0,
                r@ == "السطور التي سبقت هذا السطر على الشاشة، للسياق فقط ولا تُترجم:\n"@ + qaimat_jiwar_s(nusus_s(talab.jiwar@).take(i as int)),
            decreases talab.jiwar@.len() - i,
        {
            proof {
                assert(nusus_s(talab.jiwar@).take(i + 1).drop_last() =~= nusus_s(talab.jiwar@).take(i as int));
            }
            ilhaq(&mut r, "- ");
            ilhaq(&mut r, talab.jiwar[i].as_str());
            ilhaq(&mut r, "\n");
            proof {
                assert(r@ =~= "السطور التي سبقت هذا السطر على الشاشة، للسياق فقط ولا تُترجم:\n"@ + qaimat_jiwar_s(nusus_s(talab.jiwar@).take(i + 1)));
            }
            i = i + 1;
        }
        proof {
            assert(nusus_s(talab.jiwar@).take(talab.jiwar@.len() as int) =~= nusus_s(talab.jiwar@));
        }
        ilhaq(&mut r, "\n");
    }
    ilhaq(&mut r, "النص المطلوب ترجمته:\n«");
    ilhaq(&mut r, talab.asl.as_str());
    ilhaq(&mut r, "»");
    proof {
        assert(r@ =~= risala_s(nusus_s(talab.jiwar@), talab.asl@));
    }
    r
}

/// One character inside a JSON string literal as `serde_json` writes it:
/// the quote and the backslash behind a backslash, backspace, tab, line
/// feed, form feed and carriage return as `\b \t \n \f \r`, any other
/// character below U+0020 as `\u00` and two lower-case hex digits, and
/// everything else as it is.
pub open spec fn harf_json_s(c: char) -> Seq<char> {
    let u = c as u32;
    if c == '"' {
        "\\\""@
    } else if c == '\\' {
        "\\\\"@
    } else if u == 0x08 {
        "\\b"@
    } else if u == 0x09 {
        "\\t"@
    } else if u == 0x0A {
        "\\n"@
    } else if u == 0x0C {
        "\\f"@
    } else if u == 0x0D {
        "\\r"@
    } else if u < 0x20 {
        "\\u00"@ + crate::nass::bi_hashw(crate::nass::sittat_ashar(u as nat), 2)
    } else {
        seq![c]
    }
}

/// The characters of a text escaped one by one.
pub open spec fn harfiyat_json_s(s: Seq<char>) -> Seq<char>
    decreases s.len(),
{
    if s.len() == 0 {
        Seq::empty()
    } else {
        harfiyat_json_s(s.drop_last()) + harf_json_s(s.last())
    }
}

/// What `serde_json::to_string` writes for a text: the JSON string literal,
/// the escaped characters between two quotes.
pub open spec fn json_nass_s(s: Seq<char>) -> Seq<char> {
    "\""@ + harfiyat_json_s(s) + "\""@
}

/// Writes a text as a JSON string literal with `serde_json::to_string`,
/// which cannot fail for a `str` and escapes as `serde_json`'s escape table
/// says: the contract states that literal.
#[verifier::external_body]
fn ila_json(s: &str) -> (r: String)
    ensures
        r@ == json_nass_s(s@),
{
    match serde_json::to_string(s) {
        Ok(t) => t,
        Err(_) => String::new(),
    }
}

/// The request body, in the dialect every local server accepts: the model,
/// the system and user turns, temperature 0.2 as `f32` widens to `f64`, at
/// most 512 tokens, no streaming, and a JSON object asked for; keys in the
/// order `serde_json` writes an object's.
pub open spec fn jasad_s(namudhaj: Seq<char>, tawjih: Seq<char>, risala: Seq<char>) -> Seq<char> {
    "{\"max_tokens\":512,\"messages\":[{\"content\":"@ + json_nass_s(tawjih)
        + ",\"role\":\"system\"},{\"content\":"@ + json_nass_s(risala)
        + ",\"role\":\"user\"}],\"model\":"@ + json_nass_s(namudhaj)
        + ",\"response_format\":{\"type\":\"json_object\"},\"stream\":false,\"temperature\":0.20000000298023224}"@
}

impl MutarjimMahalli {
    /// The request body for a line.
    pub fn jasad(&self, talab: &crate::mutarjim::TalabSatr) -> (r: String)
        ensures
            r@ == jasad_s(
                self.namudhaj@,
                tawjih_s(
                    match talab.ism_luba {
                        Some(s) => Some(s@),
                        None => None,
                    },
                    talab.mawdi.ard,
                ),
                risala_s(nusus_s(talab.jiwar@), talab.asl@),
            ),
    {
        let t = tawjih(talab);
        let m = risala(talab);
        let mut r = min_nass("{\"max_tokens\":512,\"messages\":[{\"content\":");
        ilhaq(&mut r, ila_json(t.as_str()).as_str());
        ilhaq(&mut r, ",\"role\":\"system\"},{\"content\":");
        ilhaq(&mut r, ila_json(m.as_str()).as_str());
        ilhaq(&mut r, ",\"role\":\"user\"}],\"model\":");
        ilhaq(&mut r, ila_json(self.namudhaj.as_str()).as_str());
        ilhaq(
            &mut r,
            ",\"response_format\":{\"type\":\"json_object\"},\"stream\":false,\"temperature\":0.20000000298023224}",
        );
        proof {
            assert(r@ =~= jasad_s(self.namudhaj@, t@, m@));
        }
        r
    }
}

/// Consecutive connection failures that put the provider to sleep.
pub const AQSA_FASHAL_MUTATALI: u32 = 3;

/// How long it sleeps, in microseconds, before the next line tries again.
pub const MUDAT_SUKUN_MIKRO: u64 = 30_000_000;

/// The connection's recent history, for the cooldown.
#[derive(Debug, Clone, Copy, PartialEq, Eq, Structural)]
pub struct HalatWusul {
    /// Failures in a row.
    pub fashal_mutatali: u32,
    /// When, in microseconds on the caller's clock, the sleep ends.
    pub sakin_hatta_mikro: Option<u64>,
}

impl HalatWusul {
    /// No failures, awake.
    pub fn jadeeda() -> (r: Self)
        ensures
            r == (HalatWusul { fashal_mutatali: 0, sakin_hatta_mikro: None }),
    {
        HalatWusul { fashal_mutatali: 0, sakin_hatta_mikro: None }
    }

    /// Records a connection outcome at `al_aan_mikro`: a success clears the
    /// count and wakes the provider; a failure counts, and the third in a row
    /// and every one after puts it to sleep from now.
    pub fn sajjil_wusul(&mut self, najah: bool, al_aan_mikro: u64)
        ensures
            najah ==> *final(self) == (HalatWusul { fashal_mutatali: 0, sakin_hatta_mikro: None }),
            !najah ==> final(self).fashal_mutatali == (if old(self).fashal_mutatali < u32::MAX {
                (old(self).fashal_mutatali + 1) as u32
            } else {
                u32::MAX
            }),
            !najah ==> final(self).sakin_hatta_mikro == if final(self).fashal_mutatali >= AQSA_FASHAL_MUTATALI {
                Some(
                    if al_aan_mikro <= u64::MAX - MUDAT_SUKUN_MIKRO {
                        (al_aan_mikro + MUDAT_SUKUN_MIKRO) as u64
                    } else {
                        u64::MAX
                    },
                )
            } else {
                old(self).sakin_hatta_mikro
            },
    {
        if najah {
            self.fashal_mutatali = 0;
            self.sakin_hatta_mikro = None;
            return;
        }
        if self.fashal_mutatali < u32::MAX {
            self.fashal_mutatali = self.fashal_mutatali + 1;
        }
        if self.fashal_mutatali >= AQSA_FASHAL_MUTATALI {
            self.sakin_hatta_mikro = Some(
                if al_aan_mikro <= u64::MAX - MUDAT_SUKUN_MIKRO {
                    al_aan_mikro + MUDAT_SUKUN_MIKRO
                } else {
                    u64::MAX
                },
            );
        }
    }

    /// Whether the provider is awake at `al_aan_mikro`.
    pub fn mutah(&self, al_aan_mikro: u64) -> (r: bool)
        ensures
            r == match self.sakin_hatta_mikro {
                None => true,
                Some(h) => al_aan_mikro >= h,
            },
    {
        match self.sakin_hatta_mikro {
            None => true,
            Some(h) => al_aan_mikro >= h,
        }
    }
}

impl MutarjimMahalli {
    /// What a sent request came to: a failed connection is recorded and
    /// returned; a reply is recorded as a success and read for its
    /// translation, a reply without one refused as the local translator's.
    pub fn tarjim_min_radd(
        &self,
        wusul: &mut HalatWusul,
        radd: Result<String, crate::khata::KhataTabaqa>,
        al_aan_mikro: u64,
    ) -> (r: Result<crate::mutarjim::RaddSatr, crate::khata::KhataTabaqa>)
        ensures
            match radd {
                Err(e) => r == Err::<crate::mutarjim::RaddSatr, crate::khata::KhataTabaqa>(e)
                    && final(wusul).fashal_mutatali == (if old(wusul).fashal_mutatali < u32::MAX {
                    (old(wusul).fashal_mutatali + 1) as u32
                } else {
                    u32::MAX
                }),
                Ok(b) => *final(wusul) == (HalatWusul { fashal_mutatali: 0, sakin_hatta_mikro: None })
                    && match tarjama_s(b@) {
                    Ok(t) => r matches Ok(x) && x.arabi@ == t && x.masdar == crate::sijill_qira::MasdarTarjama::Aaliya,
                    Err(sabab) => r matches Err(crate::khata::KhataTabaqa::MawridFashil { mawrid, sabab: s })
                        && mawrid@ == "local translator reply"@ && s@ == sabab,
                },
            },
    {
        match radd {
            Err(e) => {
                wusul.sajjil_wusul(false, al_aan_mikro);
                Err(e)
            },
            Ok(b) => {
                wusul.sajjil_wusul(true, al_aan_mikro);
                match tarjama_min_radd(b.as_str()) {
                    Ok(t) => Ok(crate::mutarjim::RaddSatr::aaliya(t.as_str())),
                    Err(sabab) => Err(
                        crate::khata::KhataTabaqa::MawridFashil { mawrid: "local translator reply", sabab },
                    ),
                }
            },
        }
    }
}

/// The HTTP/1.1 request that carries a body to the endpoint's Chat
/// Completions path: the path, the host and port, JSON both ways, the
/// connection closed after, and the body's length in bytes.
pub open spec fn talab_http_s(u: Unwan, jasad: Seq<char>) -> Seq<char> {
    "POST "@ + u.masar@ + "/v1/chat/completions HTTP/1.1\r\nHost: "@ + u.mudeef@ + ":"@ + ashri(
        u.manfadh as nat,
    ) + "\r\nContent-Type: application/json\r\nAccept: application/json\r\nConnection: close\r\nContent-Length: "@
        + ashri(vstd::utf8::encode_utf8(jasad).len()) + "\r\n\r\n"@ + jasad
}

impl MutarjimMahalli {
    /// The request to send for a body.
    pub fn talab_http(&self, jasad: &str) -> (r: String)
        ensures
            r@ == talab_http_s(self.unwan, jasad@),
    {
        let mut r = min_nass("POST ");
        ilhaq(&mut r, self.unwan.masar.as_str());
        ilhaq(&mut r, "/v1/chat/completions HTTP/1.1\r\nHost: ");
        ilhaq(&mut r, self.unwan.mudeef.as_str());
        ilhaq(&mut r, ":");
        aktub_ashri(&mut r, self.unwan.manfadh as u64);
        ilhaq(
            &mut r,
            "\r\nContent-Type: application/json\r\nAccept: application/json\r\nConnection: close\r\nContent-Length: ",
        );
        aktub_ashri(&mut r, jasad.as_bytes().len() as u64);
        ilhaq(&mut r, "\r\n\r\n");
        ilhaq(&mut r, jasad);
        proof {
            assert(r@ =~= talab_http_s(self.unwan, jasad@));
        }
        r
    }
}

} // verus!
