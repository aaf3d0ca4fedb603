use taarib_tabaqa::manatiq::MuarrifMintaqa;
use taarib_tabaqa::tatabbu::{
    naqqih, wahhid, yanmu, HalatSatr, MuarrifSatr, Mutatabbi, QiraaMulahaza, SatrMuntahi, SiyasatIstiqrar,
};
use taarib_tabaqa::wajiha::MustatilBiksel;

fn qiraa(nass: &str) -> QiraaMulahaza {
    QiraaMulahaza {
        nass: nass.to_owned(),
        mawdi: MustatilBiksel { yasar: 10, aala: 20, ard: 200, irtifa: 24 },
        thiqa: 90,
        maqisa: true,
    }
}

#[test]
fn satr_yabda_thumma_yastaqirr_thumma_yanmu_thumma_yantahi() {
    let mut t = Mutatabbi::jadeed();
    let m = MuarrifMintaqa(1);

    let h = t.sajjil(m, 0, &[qiraa("Hello   world ")], &[]);
    assert_eq!(h.jadeeda, vec![MuarrifSatr(1)]);
    assert!(h.mustaqirra.is_empty());
    let sutur = t.hayyat_mintaqa(m);
    assert_eq!(sutur.len(), 1);
    assert_eq!(sutur[0].nass, "Hello world");
    assert_eq!(sutur[0].hala, HalatSatr::Yataghayyar);

    let h = t.sajjil(m, 300_000, &[qiraa("Hello world")], &[(0, 0)]);
    assert!(h.jadeeda.is_empty());
    assert_eq!(h.mustaqirra, vec![MuarrifSatr(1)]);
    assert_eq!(t.siyaq(m), vec!["Hello world".to_owned()]);
    assert_eq!(t.siyaq_duna(m, "Hello world"), Vec::<String>::new());
    assert_eq!(t.satr(MuarrifSatr(1)).map(|s| s.hala), Some(HalatSatr::Mustaqirr));

    assert!(t.sajjil_irsal(MuarrifSatr(1)));
    assert!(!t.sajjil_irsal(MuarrifSatr(9)));
    let h = t.thabbit(m, 400_000);
    assert!(h.mustaqirra.is_empty());
    assert!(h.hadia());

    let h = t.sajjil(m, 500_000, &[qiraa("Hello world!")], &[(0, 0)]);
    assert_eq!(h.namiya, vec![MuarrifSatr(1)]);
    assert_eq!(t.ihsaat().numuwwat, 1);
    assert!(!t.hayyat_mintaqa(m)[0].ursilat);

    let h = t.sajjil(m, 600_000, &[], &[]);
    assert!(h.muntahiya.is_empty());
    let h = t.sajjil(m, 700_000, &[], &[]);
    assert_eq!(
        h.muntahiya,
        vec![SatrMuntahi {
            muarrif: MuarrifSatr(1),
            mintaqa: m,
            nass: "Hello world!".to_owned(),
            istaqarr: false,
        }]
    );
    assert!(t.hayyat_mintaqa(m).is_empty());
    assert_eq!(t.ihsaat().inhaat, 1);
}

#[test]
fn qiraa_jadeeda_fi_mintaqa_tunhi_ghayr_al_mutabaq() {
    let mut t = Mutatabbi::jadeed();
    let m = MuarrifMintaqa(3);
    let _ = t.sajjil(m, 0, &[qiraa("one"), qiraa("two")], &[]);
    let h = t.sajjil(m, 10, &[qiraa("three")], &[(1, 0)]);
    assert_eq!(h.muntahiya.len(), 1);
    assert_eq!(h.muntahiya[0].nass, "one");
    let baqi = t.hayyat_mintaqa(m);
    assert_eq!(baqi.len(), 1);
    assert_eq!(baqi[0].muarrif, MuarrifSatr(2));
    assert_eq!(baqi[0].nass, "three");
}

#[test]
fn al_manatiq_munfasila() {
    let mut t = Mutatabbi::jadeed();
    let _ = t.sajjil(MuarrifMintaqa(5), 0, &[qiraa("five")], &[]);
    let _ = t.sajjil(MuarrifMintaqa(2), 0, &[qiraa("two")], &[]);
    let kull: Vec<String> = t.hayya().iter().map(|s| s.nass.clone()).collect();
    assert_eq!(kull, vec!["two".to_owned(), "five".to_owned()]);
    t.ansa_mintaqa(MuarrifMintaqa(2));
    assert!(t.hayyat_mintaqa(MuarrifMintaqa(2)).is_empty());
    assert_eq!(t.hayyat_mintaqa(MuarrifMintaqa(5)).len(), 1);
    t.amsah();
    assert!(t.hayya().is_empty());
}

#[test]
fn al_siyaq_mahdud() {
    let siyasa = SiyasatIstiqrar { saa_siyaq: 2, mudat_sukun_mikro: 0, ..SiyasatIstiqrar::iftiradiya() };
    let mut t = Mutatabbi::bi_siyasa(siyasa);
    let m = MuarrifMintaqa(1);
    for (i, nass) in ["a", "b", "c"].iter().enumerate() {
        let _ = t.sajjil(m, (i as u64) * 10, &[qiraa(nass)], &[]);
        let _ = t.thabbit(m, (i as u64) * 10 + 5);
        t.ansa_mintaqa(MuarrifMintaqa(99));
        let _ = t.sajjil(m, (i as u64) * 10 + 6, &[], &[]);
        let _ = t.sajjil(m, (i as u64) * 10 + 7, &[], &[]);
    }
    assert_eq!(t.siyaq(m), vec!["b".to_owned(), "c".to_owned()]);
}

#[test]
fn tanqiya_al_qiraat() {
    let n = naqqih(&[qiraa("  "), qiraa(" a  b "), qiraa("c")]);
    let nusus: Vec<&str> = n.iter().map(|q| q.nass.as_str()).collect();
    assert_eq!(nusus, vec!["a b", "c"]);
}

#[test]
fn numuw_al_nass() {
    assert!(yanmu("Hel", "Hello", 3));
    assert!(!yanmu("He", "Hello", 3));
    assert!(!yanmu("Hello", "Hello", 3));
    assert!(!yanmu("Help", "Hello", 3));
}

#[test]
fn al_tawhid_marra_ka_marratayn() {
    let r = wahhid("  The  old \t  road ");
    assert_eq!(r, "The old road");
    assert_eq!(wahhid(&r), r);
    assert_eq!(wahhid(" \n "), "");
    for nass in ["a  b", " x\u{3000}y ", "single"] {
        let r = wahhid(nass);
        assert_eq!(r, nass.split_whitespace().collect::<Vec<_>>().join(" "));
        assert_eq!(wahhid(&r), r);
    }
}
