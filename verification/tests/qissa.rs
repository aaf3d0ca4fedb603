use taarib_tabaqa::mutarjim::RaddSatr;
use taarib_tabaqa::qissa::{
    muhawala, thiqa_dunya, IhsaatQissa, KhulasatMualaja, KhutwatTaswiya, NatijatSatr,
    ADNA_THIQA_LIL_TARJAMA,
};
use taarib_tabaqa::sijill_qira::ThiqatSatr;
use taarib_tabaqa::tatabbu::HasilatDawra;

fn sifr() -> IhsaatQissa {
    IhsaatQissa {
        iltiqatat: 0,
        mumarrara: 0,
        mahjuba: 0,
        maqruaat: 0,
        talabat: 0,
        isabat_dhakira: 0,
        thiqa_dunya: 0,
        ikhfaqat: 0,
        ikhfaqat_hifz: 0,
        laqtat: 0,
    }
}

#[test]
fn ghayr_al_maqis_la_yuhjab() {
    assert!(!thiqa_dunya(ThiqatSatr::Ghayr, ADNA_THIQA_LIL_TARJAMA));
    assert!(thiqa_dunya(ThiqatSatr::Maqisa(10), ADNA_THIQA_LIL_TARJAMA));
    assert!(!thiqa_dunya(ThiqatSatr::Maqisa(35), ADNA_THIQA_LIL_TARJAMA));
    let mut i = sifr();
    assert_eq!(i.qabl_al_dhakira(ThiqatSatr::Ghayr, 35), KhutwatTaswiya::IbhathDhakira);
    assert_eq!(i.thiqa_dunya, 0);
    assert_eq!(
        i.qabl_al_dhakira(ThiqatSatr::Maqisa(20), 35),
        KhutwatTaswiya::Intaha(NatijatSatr::LaShay)
    );
    assert_eq!(i.thiqa_dunya, 1);
}

#[test]
fn al_dhakira_thumma_al_mutarjim() {
    let mut i = sifr();
    let mut h = None;
    assert_eq!(
        i.baad_al_dhakira(true, Some(true), &mut h, "Continue", 2),
        KhutwatTaswiya::Intaha(NatijatSatr::Dhakira)
    );
    assert_eq!(i.isabat_dhakira, 1);
    assert_eq!(h, None);
    assert_eq!(
        i.baad_al_dhakira(false, None, &mut h, "Continue", 2),
        KhutwatTaswiya::Intaha(NatijatSatr::LaShay)
    );
    assert_eq!(
        i.baad_al_dhakira(false, Some(false), &mut h, "Continue", 2),
        KhutwatTaswiya::Intaha(NatijatSatr::Ikhfaq)
    );
    assert_eq!(i.ikhfaqat, 1);
    assert_eq!(i.talabat, 0);
}

#[test]
fn saqf_al_muhawalat_li_kull_nass() {
    let mut i = sifr();
    let mut h = None;
    assert_eq!(i.baad_al_dhakira(false, Some(true), &mut h, "Continue", 2), KhutwatTaswiya::UtlubTarjama);
    assert_eq!(i.baad_al_dhakira(false, Some(true), &mut h, "Continue", 2), KhutwatTaswiya::UtlubTarjama);
    assert_eq!(
        i.baad_al_dhakira(false, Some(true), &mut h, "Continue", 2),
        KhutwatTaswiya::Intaha(NatijatSatr::LaShay)
    );
    assert_eq!(i.talabat, 2);
    assert_eq!(h, Some(("Continue".to_owned(), 2)));
    // A line that says something else is a different sentence.
    assert_eq!(i.baad_al_dhakira(false, Some(true), &mut h, "Continue?", 2), KhutwatTaswiya::UtlubTarjama);
    assert_eq!(h, Some(("Continue?".to_owned(), 1)));
    let mut k = None;
    assert!(muhawala(&mut k, "a", 1));
    assert!(!muhawala(&mut k, "a", 1));
}

#[test]
fn radd_al_mutarjim() {
    let mut i = sifr();
    assert_eq!(i.baad_al_tarjama(&Ok(RaddSatr::aaliya("متابعة"))), NatijatSatr::Talab);
    assert_eq!(i.ikhfaqat, 0);
    assert_eq!(i.baad_al_tarjama(&Ok(RaddSatr::aaliya("  "))), NatijatSatr::Ikhfaq);
    assert_eq!(i.baad_al_tarjama(&Err("timeout".to_owned())), NatijatSatr::Ikhfaq);
    assert_eq!(i.ikhfaqat, 2);
    i.baad_al_hifz(true);
    assert_eq!(i.ikhfaqat_hifz, 0);
    i.baad_al_hifz(false);
    assert_eq!(i.ikhfaqat_hifz, 1);
}

#[test]
fn khulasat_al_mualaja_tahsib() {
    let mut k = KhulasatMualaja {
        taghayyarat: true,
        maqru: 3,
        hasila: HasilatDawra { jadeeda: vec![], mustaqirra: vec![], namiya: vec![], muntahiya: vec![] },
        talabat: 0,
        isabat: 0,
        ikhfaqat: 0,
    };
    for n in [NatijatSatr::Talab, NatijatSatr::Dhakira, NatijatSatr::Talab, NatijatSatr::LaShay, NatijatSatr::Ikhfaq] {
        k.ahsib(n);
    }
    assert_eq!((k.talabat, k.isabat, k.ikhfaqat), (2, 1, 1));
    assert_eq!(k.maqru, 3);
}

#[test]
fn kull_iltiqat_yuhsab_marra() {
    let mut i = IhsaatQissa::jadeeda();
    assert_eq!(i, sifr());
    for taghayyarat in [true, false, false, true, true] {
        i.sajjil_iltiqat(taghayyarat);
    }
    assert_eq!((i.iltiqatat, i.mumarrara, i.mahjuba), (5, 3, 2));
    i.sajjil_maqruaat(4);
    i.sajjil_maqruaat(3);
    assert_eq!(i.maqruaat, 7);
    i.maqruaat = u64::MAX - 1;
    i.sajjil_maqruaat(5);
    assert_eq!(i.maqruaat, u64::MAX);
}
