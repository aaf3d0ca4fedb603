use taarib_tabaqa::qira::{
    adad_bunya, alamat_majhula, fajwa_muqtaraha, kalima_mushawwaha, masafat_tahrir, SatrMaqru,
    damj_qiraa, harf_maqbul, wasf_mintaqa, wasl, yaqra_al_matlub, yutabiq_lugha, IdadatQira, IkhtiyarQari, KhutwatIkhtiyar, MasdarQari,
    TaarufMahmul, THIQA_GHAYR_MAQISA,
};
use taarib_tabaqa::wajiha::MustatilBiksel;

fn mustatil(yasar: u32, aala: u32, ard: u32, irtifa: u32) -> MustatilBiksel {
    MustatilBiksel { yasar, aala, ard, irtifa }
}

#[test]
fn satr_maqsum_yundamaj_bi_fasila() {
    let sutur = vec![
        SatrMaqru::jadeed("north is closed", mustatil(130, 10, 120, 20), 90, true),
        SatrMaqru::jadeed("The old road", mustatil(10, 12, 110, 20), 70, true),
    ];
    let mudmaj = SatrMaqru::mudmaj(sutur, 30);
    assert_eq!(mudmaj.len(), 1);
    assert_eq!(mudmaj[0].nass, "The old road north is closed");
    assert_eq!(mudmaj[0].mawdi, mustatil(10, 10, 240, 22));
    assert_eq!(mudmaj[0].thiqa, 70);
    assert!(mudmaj[0].maqisa);
}

#[test]
fn sunduqan_mutalasiqan_bila_fasila() {
    let sutur = vec![
        SatrMaqru::jadeed("clos", mustatil(0, 0, 40, 20), 80, false),
        SatrMaqru::jadeed("ed", mustatil(40, 0, 20, 20), 60, true),
    ];
    let mudmaj = SatrMaqru::mudmaj(sutur, 10);
    assert_eq!(mudmaj.len(), 1);
    assert_eq!(mudmaj[0].nass, "closed");
    assert!(!mudmaj[0].maqisa);
}

#[test]
fn sutur_mutabaida_la_tundamaj_wa_turattab() {
    let sutur = vec![
        SatrMaqru::jadeed("second", mustatil(0, 100, 50, 20), 80, true),
        SatrMaqru::jadeed("   ", mustatil(0, 50, 50, 20), 80, true),
        SatrMaqru::jadeed("first", mustatil(0, 0, 50, 20), 80, true),
        SatrMaqru::jadeed("far right", mustatil(900, 0, 50, 20), 80, true),
    ];
    let mudmaj = SatrMaqru::mudmaj(sutur, 30);
    let nusus: Vec<&str> = mudmaj.iter().map(|s| s.nass.as_str()).collect();
    assert_eq!(nusus, vec!["first", "far right", "second"]);
}

#[test]
fn fajwa_min_al_wasit() {
    let sutur = vec![
        SatrMaqru::jadeed("a", mustatil(0, 0, 5, 10), THIQA_GHAYR_MAQISA, false),
        SatrMaqru::jadeed("b", mustatil(0, 0, 5, 30), THIQA_GHAYR_MAQISA, false),
        SatrMaqru::jadeed("c", mustatil(0, 0, 5, 20), THIQA_GHAYR_MAQISA, false),
        SatrMaqru::jadeed("d", mustatil(0, 0, 5, 0), THIQA_GHAYR_MAQISA, false),
    ];
    assert_eq!(fajwa_muqtaraha(&sutur), 30);
    assert_eq!(fajwa_muqtaraha(&[]), 20);
    let saghir = vec![SatrMaqru::jadeed("x", mustatil(0, 0, 1, 1), 50, true)];
    assert_eq!(fajwa_muqtaraha(&saghir), 4);
}

#[test]
fn masafat_tahrir_qiyasiya() {
    assert_eq!(masafat_tahrir("kitten", "sitting"), 3);
    assert_eq!(masafat_tahrir("", "abc"), 3);
    assert_eq!(masafat_tahrir("abc", ""), 3);
    assert_eq!(masafat_tahrir("same", "same"), 0);
    assert_eq!(masafat_tahrir("flaw", "lawn"), masafat_tahrir("lawn", "flaw"));
    assert_eq!(masafat_tahrir("متابعة", "متابعه"), 1);
}

#[test]
fn ashkal_al_kalimat() {
    assert!(kalima_mushawwaha("iAW"));
    assert!(kalima_mushawwaha("Me2"));
    assert!(kalima_mushawwaha("e"));
    assert!(kalima_mushawwaha("?!"));
    assert!(!kalima_mushawwaha("a"));
    assert!(!kalima_mushawwaha("I"));
    assert!(!kalima_mushawwaha("3"));
    assert!(!kalima_mushawwaha("-"));
    assert!(!kalima_mushawwaha("lantern"));
    assert!(!kalima_mushawwaha("well-Known"));
    assert!(!kalima_mushawwaha(""));
    assert!(kalima_mushawwaha("REBSDTo"));
    assert!(kalima_mushawwaha("McCoy"));
    assert!(!kalima_mushawwaha("The"));
    assert!(!kalima_mushawwaha("GUPKNS"));
    assert!(!kalima_mushawwaha("Blacksmith"));
}

#[test]
fn alamat_majhula_bi_mawdiiha() {
    assert_eq!(alamat_majhula("FW?REDLANTERN"), 1);
    assert_eq!(alamat_majhula("Ready?"), 0);
    assert_eq!(alamat_majhula("What?!"), 0);
    assert_eq!(alamat_majhula("?a?b"), 2);
}

#[test]
fn adad_bunya_li_jumla() {
    let a = adad_bunya("Press F to pick up the lantern");
    assert_eq!(a.kalimat, 7);
    assert_eq!(a.mushawwaha, 1);
    assert_eq!(a.huruf, 24);
    assert_eq!(a.ramz, 0);
    assert_eq!(a.majhula, 0);
    let b = adad_bunya("e d B R M BEUA8G ?R THENE");
    assert_eq!(b.kalimat, 8);
    assert_eq!(b.mushawwaha, 6);
    assert_eq!(b.majhula, 1);
    let c = adad_bunya("x\u{263A}y");
    assert_eq!(c.ramz, 1);
}

#[test]
fn al_lugha_tutabiq_bi_jidhriha() {
    assert!(yutabiq_lugha("en-US", "en"));
    assert!(yutabiq_lugha("en-US", "en-GB"));
    assert!(yutabiq_lugha("EN-us", "en-US"));
    assert!(yutabiq_lugha("zh_Hans", "ZH-hant"));
    assert!(!yutabiq_lugha("fr-FR", "en-US"));
    assert!(!yutabiq_lugha("-x", "-y"));
    assert!(yutabiq_lugha("", ""));
    assert!(!yutabiq_lugha("", "en"));
}

#[test]
fn al_qari_yaqra_al_matlub() {
    let lughat = vec!["en-US".to_owned(), "de-DE".to_owned()];
    assert!(yaqra_al_matlub(&lughat, &vec![]));
    assert!(yaqra_al_matlub(&lughat, &vec!["ja".to_owned(), "de".to_owned()]));
    assert!(!yaqra_al_matlub(&lughat, &vec!["ja".to_owned()]));
    assert!(!yaqra_al_matlub(&vec![], &vec!["en".to_owned()]));
}

#[test]
fn al_wasl_ka_join() {
    assert_eq!(wasl(&vec![], ", "), "");
    assert_eq!(wasl(&vec!["a".to_owned()], ", "), "a");
    assert_eq!(wasl(&vec!["a".to_owned(), "b".to_owned(), "c".to_owned()], " | "), "a | b | c");
}

#[test]
fn ikhtiyar_yafshal_bi_al_athar_kulluh() {
    let idadat = IdadatQira::jadeeda("en-US", "/models");
    assert_eq!(idadat.lughat, vec!["en-US".to_owned()]);
    let (mut ikhtiyar, khutwa) = IkhtiyarQari::ibda(&idadat);
    assert_eq!(khutwa, KhutwatIkhtiyar::JarribManassa);
    assert_eq!(ikhtiyar.athar(), &vec!["source languages requested: [en-US]".to_owned()]);
    let khutwa = ikhtiyar.baad_al_manassa("Windows Runtime OCR: not usable. no pack", None);
    assert_eq!(khutwa, KhutwatIkhtiyar::JarribMahmul);
    let khutwa = ikhtiyar.baad_al_mahmul(&Err("no model files".to_owned()));
    assert_eq!(
        khutwa,
        KhutwatIkhtiyar::Fashil(
            "source languages requested: [en-US] | Windows Runtime OCR: not usable. no pack | \
             portable ocrs: not usable. no model files"
                .to_owned()
        )
    );
}

#[test]
fn ikhtiyar_al_manassa_wa_al_mahmul() {
    let (mut ikhtiyar, khutwa) = IkhtiyarQari::ibda(&IdadatQira::jadeeda("", "/m"));
    assert_eq!(khutwa, KhutwatIkhtiyar::JarribManassa);
    assert_eq!(ikhtiyar.athar()[0], "source languages requested: [the platform default]");
    let khutwa = ikhtiyar.baad_al_manassa("macOS Vision: chosen.", Some(("macOS Vision", true)));
    assert_eq!(khutwa, KhutwatIkhtiyar::Mukhtar(MasdarQari::Manassa));
    assert_eq!(ikhtiyar.athar().len(), 2);

    let (mut ikhtiyar, _) = IkhtiyarQari::ibda(&IdadatQira::jadeeda("ar", "/m"));
    let khutwa = ikhtiyar.baad_al_manassa("Windows Runtime OCR: chosen.", Some(("Windows Runtime OCR", false)));
    assert_eq!(khutwa, KhutwatIkhtiyar::JarribMahmul);
    assert!(ikhtiyar.athar()[2].starts_with("Windows Runtime OCR: discarded immediately after construction"));
    let mahmul = TaarufMahmul {
        masar_kashf: "/m/det.rten".to_owned(),
        masar_taaruf: "/m/rec.rten".to_owned(),
        lughat: vec!["en".to_owned()],
    };
    assert_eq!(ikhtiyar.baad_al_mahmul(&Ok(mahmul)), KhutwatIkhtiyar::Mukhtar(MasdarQari::Mahmul));
    assert_eq!(
        ikhtiyar.athar()[3],
        "portable ocrs: chosen. Models loaded from /m/det.rten and /m/rec.rten; it reads the Latin \
         alphabet and reports no confidence."
    );
    assert_eq!(
        ikhtiyar.athar()[4],
        "warning: the portable models were trained on [en] and none of them covers [ar]. \
         Recognition will run and its output should not be trusted."
    );
}

#[test]
fn ikhtiyar_yatakhatta_al_manassa_idha_tuliba() {
    let mut idadat = IdadatQira::jadeeda("en", "/m");
    idadat.yufaddil_al_mahmul = true;
    let (mut ikhtiyar, khutwa) = IkhtiyarQari::ibda(&idadat);
    assert_eq!(khutwa, KhutwatIkhtiyar::JarribMahmul);
    assert!(ikhtiyar.athar()[1].starts_with("platform recognizer: skipped."));
    let mahmul = TaarufMahmul { masar_kashf: "a".to_owned(), masar_taaruf: "b".to_owned(), lughat: vec!["en".to_owned()] };
    assert_eq!(ikhtiyar.baad_al_mahmul(&Ok(mahmul)), KhutwatIkhtiyar::Mukhtar(MasdarQari::Mahmul));
    assert_eq!(ikhtiyar.athar().len(), 3);
}

#[test]
fn wasf_al_mintaqa_fi_al_khata() {
    assert_eq!(wasf_mintaqa(mustatil(5, 7, 100, 20)), "100×20 at (5, 7)");
}

#[test]
fn qiraa_bila_nass_la_tundamaj() {
    assert_eq!(damj_qiraa(vec![], None), None);
    let farigha = vec![SatrMaqru::jadeed("   ", mustatil(0, 0, 10, 10), 90, true)];
    assert_eq!(damj_qiraa(farigha, Some(30)), None);
    let sutur = vec![
        SatrMaqru::jadeed("north is closed", mustatil(130, 10, 120, 20), 90, true),
        SatrMaqru::jadeed("The old road", mustatil(10, 12, 110, 20), 70, true),
    ];
    let mudmaja = damj_qiraa(sutur, Some(30)).unwrap();
    assert_eq!(mudmaja.len(), 1);
    assert_eq!(mudmaja[0].nass, "The old road north is closed");
}

#[test]
fn al_huruf_al_maqbula() {
    for harf in ['a', 'Z', '7', 'ع', '٣', ' ', '?', '!', '…', '—', '%'] {
        assert!(harf_maqbul(harf), "{harf}");
    }
    for harf in ['\u{fffd}', '\t', '§', '¤'] {
        assert!(!harf_maqbul(harf), "{harf:?}");
    }
}

#[test]
fn wusum_al_idadat() {
    let mut idadat = IdadatQira::jadeeda("en-US", "/m");
    idadat.lughat.push("fr".to_owned());
    assert_eq!(idadat.wusum(), vec!["en-US", "fr"]);
    assert!(IdadatQira::jadeeda("", "/m").wusum().is_empty());
}

use taarib_tabaqa::khata::KhataTabaqa;
use taarib_tabaqa::qira::iqra_mudmaj;

fn satr(nass: &str, mawdi: MustatilBiksel, thiqa: u8, maqisa: bool) -> SatrMaqru {
    SatrMaqru { nass: nass.to_owned(), mawdi, thiqa, maqisa }
}

#[test]
fn thiqa_maqisa_li_al_mintaqa() {
    let a = satr("a", mustatil(0, 0, 10, 10), 80, true);
    let b = satr("b", mustatil(0, 20, 10, 10), 60, true);
    assert_eq!(SatrMaqru::thiqa_maqisa(&[a.clone(), b.clone()]), Some(60));
    assert_eq!(SatrMaqru::thiqa_maqisa(&[]), None);
    let c = satr("c", mustatil(0, 40, 10, 10), 10, false);
    assert_eq!(SatrMaqru::thiqa_maqisa(&[a, b, c]), None);
}

#[test]
fn al_sutur_al_farigha_tusqat() {
    let m = mustatil(3, 4, 50, 20);
    let v = vec![
        satr("  ", mustatil(0, 0, 5, 5), 0, false),
        satr("Hi", mustatil(0, 0, 5, 5), 0, false),
        satr("\t\n", mustatil(0, 0, 5, 5), 0, false),
    ];
    let r = SatrMaqru::bila_farigh(v, m).unwrap();
    assert_eq!(r.len(), 1);
    assert_eq!(r[0].nass, "Hi");
    assert_eq!(
        SatrMaqru::bila_farigh(vec![satr(" ", m, 0, false)], m),
        Err(KhataTabaqa::LaNassMaqru { mintaqa: "50×20 at (3, 4)".to_owned(), thiqa: None })
    );
}

#[test]
fn iqra_mudmaj_yarfud_al_farigh() {
    let m = mustatil(0, 0, 100, 40);
    assert_eq!(
        iqra_mudmaj(vec![], None, m),
        Err(KhataTabaqa::LaNassMaqru { mintaqa: "100×40 at (0, 0)".to_owned(), thiqa: None })
    );
    let r = iqra_mudmaj(vec![satr("Hello", mustatil(0, 0, 40, 10), 90, true)], Some(20), m).unwrap();
    assert_eq!(r.len(), 1);
    assert_eq!(r[0].nass, "Hello");
}
