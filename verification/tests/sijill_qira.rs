use taarib_tabaqa::luba::LubaId;
use taarib_tabaqa::manatiq::MuarrifMintaqa;
use taarib_tabaqa::sijill_qira::{NatijatIdraj, SijillQira, ThiqatSatr, ADNA_SAA};

#[test]
fn al_mukarrar_yuhsab_wa_la_yudaf() {
    let mut s = SijillQira::jadeed(LubaId(1));
    let m = MuarrifMintaqa(1);
    let a = s.sajjil(10, m, "dialogue", "Hello there", ThiqatSatr::maqisa_bi(90));
    assert!(a.judida());
    let b = s.sajjil(20, m, "dialogue", "Hello there", ThiqatSatr::maqisa_bi(90));
    assert_eq!(b, NatijatIdraj::Mukarrara(a.muarrif().unwrap()));
    assert_eq!(s.adad(), 1);
    assert_eq!(s.sajjil(30, m, "dialogue", "   ", ThiqatSatr::maqisa_bi(90)), NatijatIdraj::Farigha);
}

#[test]
fn al_sijill_la_yatajawaz_saatahu() {
    let mut s = SijillQira::bi_saa(LubaId(1), ADNA_SAA);
    for i in 0..(ADNA_SAA + 5) {
        let _ = s.sajjil(i as u64, MuarrifMintaqa(1), "r", &format!("line {i}"), ThiqatSatr::maqisa_bi(50));
    }
    assert_eq!(s.adad(), ADNA_SAA);
    assert_eq!(s.taqreer().mahfuza, ADNA_SAA);
    assert_eq!(s.taqreer().mustabaada, 5);
}

#[test]
fn al_aqdam_yakhruj_awwalan() {
    let mut s = SijillQira::bi_saa(LubaId(1), ADNA_SAA);
    for i in 0..(ADNA_SAA + 3) {
        let _ = s.sajjil(i as u64, MuarrifMintaqa(1), "r", &format!("line {i}"), ThiqatSatr::maqisa_bi(50));
    }
    let asliyya: Vec<String> = s.madakhil().iter().map(|m| m.asl.clone()).collect();
    let mutawaqqa: Vec<String> = (3..(ADNA_SAA + 3)).map(|i| format!("line {i}")).collect();
    assert_eq!(asliyya, mutawaqqa);
    assert_eq!(s.taqreer().mustabaada, 3);
}
