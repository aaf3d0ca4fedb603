use taarib_tabaqa::iktishaf::{
    ism_muqtarah, ism_tabanni, tabanna_iqtirah, IktishafTilqai, AQSA_MURASHSHAHAT,
    HADD_IQTIRAH_IFTIRADI, INHILAL_IFTIRADI, SAQF_THABAT,
};
use taarib_tabaqa::luba::LubaId;
use taarib_tabaqa::manatiq::{MajmuatManatiq, MuarrifMintaqa, NatijatMintaqa, QaidatTarjama};

type Mustatil = (u32, u32);

/// One sample in which each block matches the candidate at the given place,
/// or none.
fn ayyina(k: &mut IktishafTilqai<Mustatil>, kutal: &[(Mustatil, Option<usize>)]) -> u64 {
    k.ibda_jeel();
    for (nisbi, mutabiq) in kutal {
        k.sajjil_kutla(*nisbi, mutabiq.map(|i| (i, *nisbi)));
    }
    k.akmil_jeel()
}

#[test]
fn kashif_jadeed_farigh() {
    let k: IktishafTilqai<Mustatil> = IktishafTilqai::jadeed();
    assert_eq!(k.jeel(), 0);
    assert_eq!(k.muhmala(), 0);
    assert_eq!(k.hadd_iqtirah(), HADD_IQTIRAH_IFTIRADI);
    assert_eq!(k.inhilal(), INHILAL_IFTIRADI);
    assert!(k.murashshahat().is_empty());
}

#[test]
fn sunduq_al_hiwar_yuqtarah_baad_arbaa_wa_ishrin() {
    let mut k: IktishafTilqai<Mustatil> = IktishafTilqai::jadeed();
    assert_eq!(ayyina(&mut k, &[((10, 20), None)]), 1);
    for _ in 1..23 {
        ayyina(&mut k, &[((10, 20), Some(0))]);
    }
    assert_eq!(k.murashshahat()[0].thabat(), 23);
    assert!(k.mustaqirra().is_empty());
    ayyina(&mut k, &[((10, 20), Some(0))]);
    let m = k.mustaqirra();
    assert_eq!(m.len(), 1);
    assert_eq!(m[0].thabat(), 24);
    assert_eq!(m[0].marrat(), 24);
    assert_eq!(m[0].jeel_awwal(), 1);
    assert_eq!(m[0].jeel_akhir(), 24);
    assert_eq!(m[0].wasf(), "seen in 24 of the samples since 1, stability 24");
}

#[test]
fn kutlatan_fi_ayyina_wahida_tarfaan_marra() {
    let mut k: IktishafTilqai<Mustatil> = IktishafTilqai::jadeed();
    ayyina(&mut k, &[((1, 1), None)]);
    ayyina(&mut k, &[((1, 1), Some(0)), ((1, 2), Some(0))]);
    assert_eq!(k.murashshahat().len(), 1);
    assert_eq!(k.murashshahat()[0].thabat(), 2);
    assert_eq!(k.murashshahat()[0].marrat(), 2);
    assert_eq!(*k.murashshahat()[0].mustatil(), (1, 1));
}

#[test]
fn al_ghiyab_yukallif_thalatha() {
    let mut k: IktishafTilqai<Mustatil> = IktishafTilqai::jadeed();
    ayyina(&mut k, &[((1, 1), None)]);
    for _ in 0..4 {
        ayyina(&mut k, &[((1, 1), Some(0))]);
    }
    assert_eq!(k.murashshahat()[0].thabat(), 5);
    ayyina(&mut k, &[]);
    assert_eq!(k.murashshahat()[0].thabat(), 2);
    ayyina(&mut k, &[]);
    assert!(k.murashshahat().is_empty());
}

#[test]
fn al_thabat_la_yatajawaz_al_saqf() {
    let mut k: IktishafTilqai<Mustatil> = IktishafTilqai::jadeed();
    ayyina(&mut k, &[((1, 1), None)]);
    for _ in 0..300 {
        ayyina(&mut k, &[((1, 1), Some(0))]);
    }
    assert_eq!(k.murashshahat()[0].thabat(), SAQF_THABAT);
    assert_eq!(k.murashshahat()[0].marrat(), 301);
}

#[test]
fn al_jadwal_al_mumtali_yarfud() {
    let mut k: IktishafTilqai<Mustatil> = IktishafTilqai::jadeed();
    let kutal: Vec<(Mustatil, Option<usize>)> =
        (0..AQSA_MURASHSHAHAT as u32 + 1).map(|i| ((i, i), None)).collect();
    k.ibda_jeel();
    for (nisbi, _) in &kutal {
        k.sajjil_kutla(*nisbi, None);
    }
    assert_eq!(k.murashshahat().len(), AQSA_MURASHSHAHAT);
    assert_eq!(k.muhmala(), 1);
    k.akmil_jeel();
    // The next sample: the newcomer takes the place of the first candidate at
    // the floor, which is absent from this sample.
    k.ibda_jeel();
    k.sajjil_kutla((500, 500), None);
    assert_eq!(k.murashshahat().len(), AQSA_MURASHSHAHAT);
    assert_eq!(k.muhmala(), 1);
    assert_eq!(*k.murashshahat()[0].mustatil(), (1, 1));
    assert_eq!(*k.murashshahat()[AQSA_MURASHSHAHAT - 1].mustatil(), (500, 500));
}

#[test]
fn mutabaqa_khaarij_al_jadwal_la_tughayyir() {
    let mut k: IktishafTilqai<Mustatil> = IktishafTilqai::jadeed();
    ayyina(&mut k, &[((1, 1), None)]);
    k.ibda_jeel();
    k.sajjil_kutla((9, 9), Some((7, (9, 9))));
    assert_eq!(k.murashshahat().len(), 1);
    assert_eq!(k.murashshahat()[0].thabat(), 1);
}

#[test]
fn al_idadat_lahuma_ardiyya() {
    let mut k: IktishafTilqai<Mustatil> = IktishafTilqai::jadeed();
    k.ihdud_hadd_iqtirah(1);
    assert_eq!(k.hadd_iqtirah(), 2);
    k.ihdud_hadd_iqtirah(10);
    assert_eq!(k.hadd_iqtirah(), 10);
    k.ihdud_inhilal(0);
    assert_eq!(k.inhilal(), 1);
    ayyina(&mut k, &[((1, 1), None)]);
    k.imsah();
    assert_eq!(k.jeel(), 0);
    assert!(k.murashshahat().is_empty());
    assert_eq!(k.hadd_iqtirah(), 10);
}

#[test]
fn asma_al_iqtirahat() {
    assert_eq!(ism_muqtarah(0), "منطقة مكتشفة 1");
    assert_eq!(ism_muqtarah(11), "منطقة مكتشفة 12");
    let mut m: MajmuatManatiq<Mustatil> = MajmuatManatiq::jadeeda(LubaId(1), "game");
    assert_eq!(ism_tabanni(&m, 0), "منطقة مكتشفة 1");
    assert!(m.adif("  منطقة   مكتشفة 1 ", (1, 1), true, QaidatTarjama::IndaTalab).najahat());
    assert_eq!(ism_tabanni(&m, 0), "منطقة مكتشفة 1 (1)");
    assert!(m.adif("منطقة مكتشفة 1 (1)", (1, 1), true, QaidatTarjama::IndaTalab).najahat());
    assert_eq!(ism_tabanni(&m, 0), "منطقة مكتشفة 1 (2)");
}

#[test]
fn tabanni_yudif_mintaqa() {
    let mut m: MajmuatManatiq<Mustatil> = MajmuatManatiq::jadeeda(LubaId(1), "game");
    let r = tabanna_iqtirah(&mut m, 2, (4, 4), true);
    assert_eq!(r, NatijatMintaqa::Tammat(MuarrifMintaqa(1)));
    let mintaqa = m.mintaqa(MuarrifMintaqa(1)).unwrap();
    assert_eq!(mintaqa.ism, "منطقة مكتشفة 3");
    assert_eq!(mintaqa.qaida, QaidatTarjama::IndaTaghyeer);
    assert_eq!(tabanna_iqtirah(&mut m, 3, (0, 0), false), NatijatMintaqa::LaMisaha);
}

#[test]
fn thalatha_min_arbaa_tahfaz_al_makan() {
    let mut k: IktishafTilqai<Mustatil> = IktishafTilqai::jadeed();
    ayyina(&mut k, &[((1, 1), None)]);
    for _ in 0..9 {
        ayyina(&mut k, &[((1, 1), Some(0))]);
    }
    assert_eq!(k.murashshahat()[0].thabat(), 10);
    for _ in 0..5 {
        ayyina(&mut k, &[((1, 1), Some(0))]);
        ayyina(&mut k, &[((1, 1), Some(0))]);
        ayyina(&mut k, &[((1, 1), Some(0))]);
        ayyina(&mut k, &[]);
    }
    assert_eq!(k.murashshahat()[0].thabat(), 10);
}

#[test]
fn raqm_al_darar_yakhtafi_fi_thamani_ayyinat() {
    let mut k: IktishafTilqai<Mustatil> = IktishafTilqai::jadeed();
    ayyina(&mut k, &[((1, 1), None)]);
    for _ in 0..23 {
        ayyina(&mut k, &[((1, 1), Some(0))]);
    }
    assert_eq!(k.murashshahat()[0].thabat(), 24);
    for _ in 0..7 {
        ayyina(&mut k, &[]);
    }
    assert_eq!(k.murashshahat()[0].thabat(), 3);
    ayyina(&mut k, &[]);
    assert!(k.murashshahat().is_empty());
}

#[test]
fn la_shay_yubqa_ila_al_abad() {
    let mut k: IktishafTilqai<Mustatil> = IktishafTilqai::jadeed();
    ayyina(&mut k, &[((1, 1), None), ((2, 2), None)]);
    for _ in 0..300 {
        ayyina(&mut k, &[((1, 1), Some(0)), ((2, 2), Some(1))]);
    }
    assert_eq!(k.murashshahat()[0].thabat(), SAQF_THABAT);
    for _ in 0..79 {
        ayyina(&mut k, &[]);
    }
    assert_eq!(k.murashshahat().len(), 2);
    assert_eq!(k.murashshahat()[1].thabat(), 3);
    ayyina(&mut k, &[]);
    assert!(k.murashshahat().is_empty());
}

#[test]
fn jeel_wahid_la_yarfa_akthar_min_marra() {
    let mut k: IktishafTilqai<Mustatil> = IktishafTilqai::jadeed();
    ayyina(&mut k, &[((1, 1), None), ((2, 2), None)]);
    ayyina(&mut k, &[((1, 1), Some(0)), ((1, 1), Some(0)), ((1, 1), Some(0)), ((3, 3), None), ((2, 2), Some(1))]);
    let m = k.murashshahat();
    assert_eq!(m.len(), 3);
    assert_eq!((m[0].thabat(), m[0].marrat()), (2, 2));
    assert_eq!((m[1].thabat(), m[1].marrat()), (2, 2));
    assert_eq!((m[2].thabat(), m[2].marrat(), m[2].jeel_awwal()), (1, 1, 2));
}
