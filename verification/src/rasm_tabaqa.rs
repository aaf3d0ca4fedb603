//! The overlay's colours and the conversion of a glyph atlas page into the
//! texels a renderer uploads.

use vstd::prelude::*;

use crate::khata::KhataTabaqa;
use crate::nass::{aktub_ashri, ashri, ilhaq, min_nass};
use crate::wajiha::{MustatilBiksel, WasfSath};

verus! {

/// The largest atlas page side this build uploads, in texels.
pub const AQSA_DILA_LAWHA: u32 = 16384;

/// The overlay's colours, each straight RGBA in sRGB.
#[derive(Debug, Clone, Copy, PartialEq, Eq)]
pub struct AlwanTabaqa {
    /// Translated text.
    pub nass: [u8; 4],
    /// The plate behind translated text.
    pub lawh: [u8; 4],
    /// The control panel's background.
    pub khalfiyat_lawha: [u8; 4],
    /// Emphasis.
    pub tashdeed: [u8; 4],
    /// Secondary text.
    pub thanawi: [u8; 4],
    /// A region's outline in the editor.
    pub hudud_mintaqa: [u8; 4],
}

impl AlwanTabaqa {
    /// The colours this build ships with.
    pub fn iftiradiya() -> (r: Self)
        ensures
            r.nass@ == seq![0xF2u8, 0xF2u8, 0xF0u8, 0xFFu8],
            r.lawh@ == seq![0x0Cu8, 0x0Cu8, 0x10u8, 0xBFu8],
            r.khalfiyat_lawha@ == seq![0x14u8, 0x16u8, 0x1Cu8, 0xF2u8],
            r.tashdeed@ == seq![0x7Au8, 0xC8u8, 0xFFu8, 0xFFu8],
            r.thanawi@ == seq![0xA0u8, 0xA4u8, 0xACu8, 0xFFu8],
            r.hudud_mintaqa@ == seq![0x4Au8, 0xE0u8, 0x8Cu8, 0xE6u8],
    {
        let r = AlwanTabaqa {
            nass: [0xF2, 0xF2, 0xF0, 0xFF],
            lawh: [0x0C, 0x0C, 0x10, 0xBF],
            khalfiyat_lawha: [0x14, 0x16, 0x1C, 0xF2],
            tashdeed: [0x7A, 0xC8, 0xFF, 0xFF],
            thanawi: [0xA0, 0xA4, 0xAC, 0xFF],
            hudud_mintaqa: [0x4A, 0xE0, 0x8C, 0xE6],
        };
        assert(r.nass@ =~= seq![0xF2u8, 0xF2u8, 0xF0u8, 0xFFu8]);
        assert(r.lawh@ =~= seq![0x0Cu8, 0x0Cu8, 0x10u8, 0xBFu8]);
        assert(r.khalfiyat_lawha@ =~= seq![0x14u8, 0x16u8, 0x1Cu8, 0xF2u8]);
        assert(r.tashdeed@ =~= seq![0x7Au8, 0xC8u8, 0xFFu8, 0xFFu8]);
        assert(r.thanawi@ =~= seq![0xA0u8, 0xA4u8, 0xACu8, 0xFFu8]);
        assert(r.hudud_mintaqa@ =~= seq![0x4Au8, 0xE0u8, 0x8Cu8, 0xE6u8]);
        r
    }
}

/// Every coverage byte repeated four times: a premultiplied texel whose
/// colour and alpha both carry the coverage.
pub open spec fn rgba_s(bayt: Seq<u8>) -> Seq<u8> {
    Seq::new(4 * bayt.len(), |i: int| bayt[i / 4])
}

/// Turns an atlas page of coverage bytes into RGBA texels, refusing a page
/// too large or one whose bytes do not match its declared size.
pub fn ila_rgba(bayt: &[u8], ard: u16, irtifa: u16) -> (r: Result<Vec<u8>, KhataTabaqa>)
    ensures
        r is Ok <==> (ard <= AQSA_DILA_LAWHA && irtifa <= AQSA_DILA_LAWHA && ard * irtifa == bayt@.len()),
        r matches Ok(v) ==> v@ == rgba_s(bayt@),
        (ard > AQSA_DILA_LAWHA || irtifa > AQSA_DILA_LAWHA) ==> (r matches Err(
            KhataTabaqa::HajmMufrit { haql, qeema, saqf },
        ) && haql@ == "an atlas page's dimension"@ && qeema == (if ard >= irtifa {
            ard as u64
        } else {
            irtifa as u64
        }) && saqf == AQSA_DILA_LAWHA as u64),
        (ard <= AQSA_DILA_LAWHA && irtifa <= AQSA_DILA_LAWHA && ard * irtifa != bayt@.len()) ==> (
        r matches Err(KhataTabaqa::MawridFashil { mawrid, sabab }) && mawrid@ == "glyph atlas page"@
            && sabab@ == "the page declares "@ + ashri(ard as nat) + "×"@ + ashri(irtifa as nat)
            + ", which is "@ + ashri((ard * irtifa) as nat) + " texel(s), and carries "@ + ashri(
            bayt@.len(),
        ) + " byte(s)"@),
{
    let ard32 = ard as u32;
    let irtifa32 = irtifa as u32;
    if ard32 > AQSA_DILA_LAWHA || irtifa32 > AQSA_DILA_LAWHA {
        return Err(
            KhataTabaqa::HajmMufrit {
                haql: "an atlas page's dimension",
                qeema: if ard32 >= irtifa32 {
                    ard32 as u64
                } else {
                    irtifa32 as u64
                },
                saqf: AQSA_DILA_LAWHA as u64,
            },
        );
    }
    assert((ard32 as u64) * (irtifa32 as u64) <= 16384 * 16384) by (nonlinear_arith)
        requires
            ard32 <= 16384,
            irtifa32 <= 16384,
    ;
    let mutawaqqa = (ard32 as u64) * (irtifa32 as u64);
    if mutawaqqa != bayt.len() as u64 {
        let mut sabab = min_nass("the page declares ");
        aktub_ashri(&mut sabab, ard as u64);
        ilhaq(&mut sabab, "×");
        aktub_ashri(&mut sabab, irtifa as u64);
        ilhaq(&mut sabab, ", which is ");
        aktub_ashri(&mut sabab, mutawaqqa);
        ilhaq(&mut sabab, " texel(s), and carries ");
        aktub_ashri(&mut sabab, bayt.len() as u64);
        ilhaq(&mut sabab, " byte(s)");
        return Err(KhataTabaqa::MawridFashil { mawrid: "glyph atlas page", sabab });
    }
    let mut kharj: Vec<u8> = Vec::new();
    let mut i: usize = 0;
    while i < bayt.len()
        invariant
            i <= bayt@.len(),
            bayt@.len() <= 16384 * 16384,
            kharj@ == rgba_s(bayt@.take(i as int)),
        decreases bayt@.len() - i,
    {
        let t = bayt[i];
        kharj.push(t);
        kharj.push(t);
        kharj.push(t);
        kharj.push(t);
        i = i + 1;
        proof {
            assert(kharj@ =~= rgba_s(bayt@.take(i as int))) by {
                assert forall|k: int| 0 <= k < 4 * i implies kharj@[k] == bayt@.take(i as int)[k / 4] by {}
            }
        }
    }
    proof {
        assert(bayt@.take(bayt@.len() as int) =~= bayt@);
    }
    Ok(kharj)
}

/// Whether a quad's box lands on the surface at all: it has area, and its
/// top-left corner is inside.
pub open spec fn yaqau_ala_al_sath(m: MustatilBiksel, sath: WasfSath) -> bool {
    m.ard > 0 && m.irtifa > 0 && m.yasar < sath.ard && m.aala < sath.irtifa
}

/// The quads a finished batch keeps, in submission order: those whose box
/// lands on the surface.
pub open spec fn ikhtim_s<Q>(s: Seq<(MustatilBiksel, Q)>, sath: WasfSath) -> Seq<(MustatilBiksel, Q)>
    decreases s.len(),
{
    if s.len() == 0 {
        s
    } else if yaqau_ala_al_sath(s.last().0, sath) {
        ikhtim_s(s.drop_last(), sath).push(s.last())
    } else {
        ikhtim_s(s.drop_last(), sath)
    }
}

/// Finishes a batch: every quad that lands entirely off the surface, or has
/// no area, is dropped whole rather than cut, so a glyph the layout put in
/// the wrong place shows as missing; the others keep their order. Each quad
/// is its pixel box with whatever else it carries.
pub fn ikhtim<Q>(qitaat: Vec<(MustatilBiksel, Q)>, sath: WasfSath) -> (r: Vec<(MustatilBiksel, Q)>)
    ensures
        r@ == ikhtim_s(qitaat@, sath),
{
    let ghost s = qitaat@;
    let ghost mut k: int = 0;
    let mut qitaat = qitaat;
    let mut r: Vec<(MustatilBiksel, Q)> = Vec::new();
    proof {
        assert(s.take(0) =~= Seq::<(MustatilBiksel, Q)>::empty());
        assert(s.skip(0) =~= s);
    }
    while qitaat.len() > 0
        invariant
            0 <= k <= s.len(),
            qitaat@ == s.skip(k),
            r@ == ikhtim_s(s.take(k), sath),
        decreases qitaat@.len(),
    {
        proof {
            assert(s.take(k + 1).drop_last() =~= s.take(k));
            assert(s.take(k + 1).last() == s[k]);
        }
        let qita = qitaat.remove(0);
        let m = qita.0;
        if m.ard > 0 && m.irtifa > 0 && m.yasar < sath.ard && m.aala < sath.irtifa {
            r.push(qita);
        }
        proof {
            assert(qitaat@ =~= s.skip(k + 1));
            k = k + 1;
        }
    }
    proof {
        assert(s.take(k) =~= s);
    }
    r
}

} // verus!
