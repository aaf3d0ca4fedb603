//! The disclosure: what the overlay is and is not, stated before it is turned
//! on, and the fingerprint that says which text an acknowledgement was given
//! for.
//!
//! The fingerprint is FNV-1a over the UTF-8 bytes of both texts. It is
//! stable across builds and platforms, so an acknowledgement stays valid
//! exactly as long as the text it acknowledged stays the same.

use vstd::prelude::*;

use crate::khata::KhataTabaqa;
use crate::nass::{aktub_ashri, aktub_sittat_ashar, ashri, bi_hashw, ilhaq, min_nass, sittat_ashar};

verus! {

/// The disclosure, in Arabic.
pub const NASS_IFSAH_ARABI: &'static str = "الطبقة العامة هي الحل الأخير، وتعمل بطريقة مختلفة عن بقية طرق التعريب.\n\n• اللعبة نفسها لا تُعدَّل. يُقرأ النص من الصورة المعروضة على الشاشة، ثم تُرسم العربية فوقه.\n• القراءة الآلية تُخطئ أحيانًا: قد يُقرأ حرف مكان آخر، وقد لا يُقرأ نص صغير أو موضوع على خلفية مزخرفة.\n• هناك تأخير بين ظهور النص الأصلي وظهور ترجمته، لأن كل سطر يُقرأ ويُترجم بعد عرضه.\n• سرعة اللعبة ستنخفض بمقدار يمكن قياسه، وتُعرض التكلفة الفعلية بالمللي ثانية في لوحة التحكم أثناء اللعب.\n• النص الذي لا تراه القراءة الآلية لا يُترجم، ولا توجد طريقة لمعرفة أنه فاتها.\n\nإن كانت لعبتك مدعومة بطريقة أخرى في تعريب، فتلك الطريقة أفضل من هذه في كل شيء.";

/// The disclosure, in English.
pub const NASS_IFSAH_INJILIZI: &'static str = "The universal overlay is the last resort, and it works differently from every other way Taarib translates a game.\n\n• The game itself is not modified. Text is read from the picture on screen, and Arabic is drawn over it.\n• Automatic reading makes mistakes: one letter can be read as another, and small text or text on a busy background may not be read at all.\n• There is a delay between the original line appearing and its translation appearing, because each line is read and translated after it is shown.\n• The game will run measurably slower. The actual cost in milliseconds is shown in the control panel while you play.\n• Text the reader does not see is not translated, and there is no way to know what it missed.\n\nIf your game is supported by any other Taarib method, that method is better than this one in every respect.";

/// FNV-1a's offset basis.
pub const BIDAYA_FNV: u64 = 0xcbf29ce484222325;

/// FNV-1a's prime.
pub const ADAD_AWWALI_FNV: u64 = 0x100000001b3;

/// FNV-1a carried from `h` over bytes, first to last.
pub open spec fn fnv(h: u64, b: Seq<u8>) -> u64
    decreases b.len(),
{
    if b.len() == 0 {
        h
    } else {
        (fnv(h, b.drop_last()) ^ (b.last() as u64)).wrapping_mul(ADAD_AWWALI_FNV)
    }
}

/// The fingerprint of two texts: FNV-1a over the bytes of the first, then
/// of the second.
pub open spec fn basma_s(awwal: &str, thani: &str) -> u64 {
    fnv(fnv(BIDAYA_FNV, vstd::utf8::encode_utf8(awwal@)), vstd::utf8::encode_utf8(thani@))
}

/// Carries FNV-1a over bytes.
fn fnv_ala(h: u64, b: &[u8]) -> (r: u64)
    ensures
        r == fnv(h, b@),
{
    let mut r = h;
    let mut i: usize = 0;
    while i < b.len()
        invariant
            i <= b@.len(),
            r == fnv(h, b@.take(i as int)),
        decreases b@.len() - i,
    {
        proof {
            assert(b@.take(i + 1).drop_last() =~= b@.take(i as int));
        }
        r = (r ^ (b[i] as u64)).wrapping_mul(ADAD_AWWALI_FNV);
        i = i + 1;
    }
    proof {
        assert(b@.take(b@.len() as int) =~= b@);
    }
    r
}

/// The fingerprint of two texts.
pub fn basma_thabita(awwal: &str, thani: &str) -> (r: u64)
    ensures
        r == basma_s(awwal, thani),
{
    let h = fnv_ala(BIDAYA_FNV, awwal.as_bytes());
    fnv_ala(h, thani.as_bytes())
}

/// Which disclosure text an acknowledgement was given for.
#[derive(Debug, Clone, Copy, PartialEq, Eq, Hash, Structural)]
pub struct BasmatIfsah(pub u64);

/// This build's fingerprint.
pub open spec fn basmat_al_bina() -> u64 {
    basma_s(NASS_IFSAH_ARABI, NASS_IFSAH_INJILIZI)
}

impl BasmatIfsah {
    /// The fingerprint of the disclosure this build shows.
    pub fn hadhihi_al_bina() -> (r: Self)
        ensures
            r.0 == basmat_al_bina(),
    {
        BasmatIfsah(basma_thabita(NASS_IFSAH_ARABI, NASS_IFSAH_INJILIZI))
    }

    /// The number, for storage.
    pub fn raqm(self) -> (r: u64)
        ensures
            r == self.0,
    {
        self.0
    }

    /// A fingerprint read back from storage.
    pub fn min_raqm(raqm: u64) -> (r: Self)
        ensures
            r.0 == raqm,
    {
        BasmatIfsah(raqm)
    }

    /// The fingerprint as sixteen hexadecimal digits.
    pub fn nass(self) -> (r: String)
        ensures
            r@ == bi_hashw(sittat_ashar(self.0 as nat), 16),
    {
        let mut r = String::new();
        aktub_sittat_ashar(&mut r, self.0, 16);
        r
    }
}

/// Whether a stored acknowledgement is for the disclosure this build shows.
pub fn mahfuz_salih(mahfuz: BasmatIfsah) -> (r: bool)
    ensures
        r == (mahfuz.0 == basmat_al_bina()),
{
    mahfuz.0 == BasmatIfsah::hadhihi_al_bina().0
}

/// A user's acknowledgement of the disclosure: for which text, when, and
/// for which game.
#[derive(Debug)]
pub struct Iqrar {
    basma: BasmatIfsah,
    lahza: u64,
    luba: String,
}

impl Iqrar {
    pub closed spec fn basma_s(self) -> BasmatIfsah {
        self.basma
    }

    pub closed spec fn lahza_s(self) -> u64 {
        self.lahza
    }

    pub closed spec fn luba_s(self) -> Seq<char> {
        self.luba@
    }

    /// Records an acknowledgement, refusing one given for another text.
    pub fn baad_ard(basma: BasmatIfsah, lahza: u64, luba: &str) -> (r: Result<Self, KhataTabaqa>)
        ensures
            basma.0 == basmat_al_bina() <==> r is Ok,
            r matches Ok(i) ==> i.basma_s() == basma && i.lahza_s() == lahza && i.luba_s() == luba@,
            r matches Err(e) ==> e == KhataTabaqa::IfsahMafqud,
    {
        if basma.0 != BasmatIfsah::hadhihi_al_bina().0 {
            return Err(KhataTabaqa::IfsahMafqud);
        }
        Ok(Iqrar { basma, lahza, luba: min_nass(luba) })
    }

    /// Which text was acknowledged.
    pub fn basma(&self) -> (r: BasmatIfsah)
        ensures
            r == self.basma_s(),
    {
        self.basma
    }

    /// When, in seconds since the epoch.
    pub fn lahza(&self) -> (r: u64)
        ensures
            r == self.lahza_s(),
    {
        self.lahza
    }

    /// For which game.
    pub fn luba(&self) -> (r: &str)
        ensures
            r@ == self.luba_s(),
    {
        self.luba.as_str()
    }

    /// The line a log records for it.
    pub fn satr_sijill(&self) -> (r: String)
        ensures
            r@ == "tier-3 disclosure "@ + bi_hashw(sittat_ashar(self.basma_s().0 as nat), 16)
                + " acknowledged for "@ + self.luba_s() + " at "@ + ashri(self.lahza_s() as nat),
    {
        let mut r = min_nass("tier-3 disclosure ");
        aktub_sittat_ashar(&mut r, self.basma.0, 16);
        ilhaq(&mut r, " acknowledged for ");
        ilhaq(&mut r, self.luba.as_str());
        ilhaq(&mut r, " at ");
        aktub_ashri(&mut r, self.lahza);
        r
    }
}

/// Recording and checking agree on what counts: an acknowledgement is
/// accepted when it is given exactly when the stored-fingerprint test
/// accepts it later.
pub proof fn qanun_iqrar_mahfuz(basma: BasmatIfsah, salih: bool, r: Result<Iqrar, KhataTabaqa>)
    requires
        salih == (basma.0 == basmat_al_bina()),
        basma.0 == basmat_al_bina() <==> r is Ok,
    ensures
        salih <==> r is Ok,
{
}

} // verus!
