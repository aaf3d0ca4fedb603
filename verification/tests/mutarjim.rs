use taarib_tabaqa::luba::LubaId;
use taarib_tabaqa::mutarjim::{DhakiraJalsa, RaddSatr, SAA_DHAKIRAT_JALSA};
use taarib_tabaqa::sijill_qira::MasdarTarjama;

#[test]
fn ma_kutiba_yuqra() {
    let mut d = DhakiraJalsa::jadeeda();
    d.adhif(LubaId(7), "Continue", RaddSatr::mulahaza("متابعة"));
    let r = d.jid(LubaId(7), "Continue");
    assert_eq!(r, Some(RaddSatr { arabi: "متابعة".to_owned(), masdar: MasdarTarjama::Mulahaza }));
    assert_eq!(d.isabat(), 1);
    assert_eq!(d.ikhfaqat(), 0);
}

#[test]
fn luba_ukhra_la_tara_al_qayd() {
    let mut d = DhakiraJalsa::jadeeda();
    d.adhif(LubaId(7), "Continue", RaddSatr::aaliya("متابعة"));
    assert_eq!(d.jid(LubaId(8), "Continue"), None);
    assert_eq!(d.ikhfaqat(), 1);
}

#[test]
fn al_aqdam_yunsa_ind_al_imtila() {
    let mut d = DhakiraJalsa::bi_saa(2);
    d.adhif(LubaId(1), "a", RaddSatr::aaliya("أ"));
    d.adhif(LubaId(1), "b", RaddSatr::aaliya("ب"));
    d.adhif(LubaId(1), "a", RaddSatr::aaliya("ألف"));
    assert_eq!(d.adad(), 2);
    d.adhif(LubaId(1), "c", RaddSatr::aaliya("ج"));
    assert_eq!(d.adad(), 2);
    assert_eq!(d.jid(LubaId(1), "a"), None);
    assert_eq!(d.jid(LubaId(1), "b").map(|r| r.arabi), Some("ب".to_owned()));
    assert_eq!(d.jid(LubaId(1), "c").map(|r| r.arabi), Some("ج".to_owned()));
}

#[test]
fn saa_sifr_tusbih_wahid() {
    let mut d = DhakiraJalsa::bi_saa(0);
    d.adhif(LubaId(1), "a", RaddSatr::aaliya("أ"));
    assert_eq!(d.adad(), 1);
    assert!(d.jid(LubaId(1), "a").is_some());
}

#[test]
fn wasf_al_dhakira() {
    let mut d = DhakiraJalsa::default();
    d.adhif(LubaId(1), "a", RaddSatr::aaliya("أ"));
    let _ = d.jid(LubaId(1), "a");
    let _ = d.jid(LubaId(1), "z");
    assert_eq!(
        d.wasf(),
        format!(
            "1 pair(s) held of {SAA_DHAKIRAT_JALSA}; 1 hit(s), 1 miss(es). This memory ends with the session \u{2014} attach the shared translation memory to make a second playthrough free."
        )
    );
}

#[test]
fn radd_khali() {
    assert!(RaddSatr::aaliya("  \n").khali());
    assert!(!RaddSatr::basharia("نعم").khali());
}
