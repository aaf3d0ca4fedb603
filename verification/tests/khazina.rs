use taarib_tabaqa::khazina::{ism_malaf_khazina, miftah_khazina, DhakiraMalaf, QaydKhazina};
use taarib_tabaqa::sijill_qira::MasdarTarjama;

fn qayd(asl: &str, arabi: &str, masdar: &str) -> QaydKhazina {
    QaydKhazina {
        asl: asl.to_owned(),
        arabi: arabi.to_owned(),
        masdar: masdar.to_owned(),
        luba: None,
        muzawwid: None,
        qari: None,
        thiqa: None,
    }
}

#[test]
fn ism_al_malaf() {
    assert_eq!(ism_malaf_khazina("en-US"), "en-us.jsonl");
    assert_eq!(ism_malaf_khazina("**"), "asl.jsonl");
    assert_eq!(ism_malaf_khazina("pt_BR"), "ptbr.jsonl");
}

#[test]
fn al_akhir_yaghlib_wa_al_masdar_yuqra() {
    let mut d = DhakiraMalaf::min_qiyud(
        "en",
        vec![qayd("New  game", "لعبة", "machine"), qayd("New game", "لعبة جديدة", "project")],
        2,
    );
    assert_eq!(d.adad(), 1);
    assert_eq!(d.ihsaat().adad, 1);
    assert_eq!(d.ihsaat().talifa, 2);
    let r = d.ibhath(" New game ").unwrap();
    assert_eq!(r.arabi, "لعبة جديدة");
    assert_eq!(r.masdar, MasdarTarjama::Mashru);
    assert!(d.ibhath("Quit").is_none());
    assert_eq!(d.ihsaat().isabat, 1);
    assert_eq!(d.ihsaat().ikhfaqat, 1);
}

#[test]
fn ma_yukhzan_yuqra_wa_la_yukarrar() {
    let mut d = DhakiraMalaf::min_qiyud("en", Vec::new(), 0);
    assert!(d.sajjil("  ", "x", None, None, None, None).is_none());
    assert!(d.sajjil("Quit", "   ", None, None, None, None).is_none());
    let q = d.sajjil("Quit  game", "خروج", Some("Game"), Some("local"), Some("ocrs"), Some(80)).unwrap();
    assert_eq!(q.asl, "Quit game");
    assert_eq!(q.masdar, MasdarTarjama::Mulahaza.ism());
    assert_eq!(q.luba.as_deref(), Some("Game"));
    d.natijat_kitaba(true);
    assert_eq!(d.ihsaat().kutibat, 1);
    assert!(d.sajjil("Quit game", "خروج", None, None, None, None).is_none());
    assert!(d.yahwi("Quit   game"));
    let r = d.ibhath("Quit game").unwrap();
    assert_eq!(r.arabi, "خروج");
    assert_eq!(r.masdar, MasdarTarjama::Mulahaza);
    assert_eq!(miftah_khazina(" a \t b "), "a b");
    let taweel = "x".repeat(2001);
    assert!(d.sajjil(&taweel, "س", None, None, None, None).is_none());
}

use taarib_tabaqa::khazina::DhakiraMurakkaba;
use taarib_tabaqa::luba::LubaId;
use taarib_tabaqa::mutarjim::{DhakiraJalsa, DhakiraTabaqa, RaddSatr};

#[test]
fn al_tabaqa_al_ula_allati_tahwi_tujib() {
    let ula = DhakiraMalaf::min_qiyud("en", vec![qayd("Start", "ابدأ", "project")], 0);
    let thaniya = DhakiraMalaf::min_qiyud(
        "en",
        vec![qayd("Start", "البدء", "machine"), qayd("Quit", "خروج", "machine")],
        0,
    );
    let mut d = DhakiraMurakkaba::jadeeda(vec![ula], thaniya);
    assert_eq!(d.ibhath_satr(LubaId(1), "Start").unwrap().arabi, "ابدأ");
    assert_eq!(d.ibhath_satr(LubaId(1), "Quit").unwrap().arabi, "خروج");
    assert!(d.ibhath_satr(LubaId(1), "Load").is_none());
    assert!(d.daaima());

    let mut jalsa = DhakiraJalsa::jadeeda();
    jalsa.adhif(LubaId(2), "Save", RaddSatr::mulahaza("حفظ"));
    let mut j = DhakiraMurakkaba::jadeeda(vec![], jalsa);
    assert!(!j.daaima());
    assert_eq!(j.ibhath_satr(LubaId(2), "Save").unwrap().arabi, "حفظ");
    assert!(j.ibhath_satr(LubaId(3), "Save").is_none());
}
