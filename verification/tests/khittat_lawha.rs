use taarib_tabaqa::khittat_lawha::{KhittatLawha, Tawzi};
use taarib_tabaqa::lawhat_tahakkum::{Amr, DawrAnsur, HadafAnsur, LawhatTahakkum, SafhatLawha};
use taarib_tabaqa::luba::LubaId;
use taarib_tabaqa::manatiq::{MajmuatManatiq, MuarrifMintaqa, QaidatTarjama};
use taarib_tabaqa::qissa::HalatKhayt;
use taarib_tabaqa::sidq::NASS_IFSAH_ARABI;
use taarib_tabaqa::wajiha::{MeezaniyatItar, WasfSath};

const SATH: WasfSath = WasfSath { ard: 1280, irtifa: 720 };

fn zahira(ism: &str) -> LawhatTahakkum {
    let mut l = LawhatTahakkum::jadeeda(ism);
    l.hala_mut().irfa();
    l
}

fn khitta(l: &LawhatTahakkum) -> KhittatLawha {
    l.khitta(SATH).expect("the panel is showing")
}

#[test]
fn al_lawha_al_makhfiya_la_khitta_laha() {
    let l = LawhatTahakkum::jadeeda("game");
    assert!(l.khitta(SATH).is_none());
}

#[test]
fn sath_bila_misaha_la_khitta_lahu() {
    let l = zahira("game");
    assert!(l.khitta(WasfSath { ard: 0, irtifa: 720 }).is_none());
    assert!(l.khitta(WasfSath { ard: 1280, irtifa: 0 }).is_none());
    assert!(l.khitta(WasfSath { ard: 1, irtifa: 1 }).is_some());
}

#[test]
fn al_ras_wa_al_dhayl() {
    let l = zahira("game");
    let k = khitta(&l);
    assert_eq!(k.ras.len(), 4);
    assert_eq!(k.ras[0].irtifaat_mia, 140);
    assert_eq!(k.ras[0].ajza[0].nass.as_deref(), Some("تعريب — game"));
    assert_eq!(k.ras[0].ajza[0].dawr, DawrAnsur::Tarwisa);
    let alsina = &k.ras[2].ajza;
    assert_eq!(alsina.len(), 5);
    assert_eq!(alsina[0].tawzi, Tawzi::Lisan(0));
    assert_eq!(alsina[0].dawr, DawrAnsur::Ibraz);
    assert_eq!(alsina[0].hadaf, HadafAnsur::Safha(SafhatLawha::Raisiya));
    assert_eq!(alsina[4].nass.as_deref(), Some("الشرح"));
    assert_eq!(alsina[4].dawr, DawrAnsur::Zir);
    assert_eq!(k.ras[3].ajza[0].dawr, DawrAnsur::Fasil);
    assert!(k.ras.iter().all(|t| !t.yaqif));
    assert_eq!(k.dhayl.hadaf, HadafAnsur::Amr(Amr::Ighlaq));
    assert!(k.dhayl.nass.as_deref().unwrap().starts_with("إغلاق اللوحة — "));
    let bila_ism = zahira("  ");
    assert_eq!(khitta(&bila_ism).ras[0].ajza[0].nass.as_deref(), Some("تعريب — لوحة التحكّم"));
}

#[test]
fn al_safha_al_raisiya() {
    let mut l = zahira("game");
    let mut m: MajmuatManatiq<u8> = MajmuatManatiq::jadeeda(LubaId(1), "game");
    assert!(m.adif("a", 1, true, QaidatTarjama::IndaTaghyeer).najahat());
    assert!(m.adif("b", 1, true, QaidatTarjama::IndaTaghyeer).najahat());
    m.makkin(MuarrifMintaqa(2), false);
    l.hadith_manatiq(&m);
    let k = khitta(&l);
    assert_eq!(k.jism.len(), 10);
    assert_eq!(k.jism[0].ajza[0].nass.as_deref(), Some("المناطق"));
    assert_eq!(k.jism[0].ajza[0].tawzi, Tawzi::Wasm);
    assert_eq!(k.jism[0].ajza[1].nass.as_deref(), Some("1 مفعّلة من 2"));
    assert_eq!(k.jism[1].ajza[1].nass.as_deref(), Some("—"));
    assert_eq!(k.jism[2].ajza[1].nass.as_deref(), Some("0 ميكروثانية، والسقف 0"));
    assert_eq!(k.jism[5].ajza[1].nass.as_deref(), Some("—"));
    assert_eq!(k.jism[6].ajza[0].dawr, DawrAnsur::Fasil);
    let zir = &k.jism[7];
    assert!(zir.yaqif);
    assert_eq!(zir.ajza[0].tawzi, Tawzi::NisfYameen);
    assert_eq!(zir.ajza[0].hadaf, HadafAnsur::Amr(Amr::Tabdeel));
    assert!(zir.ajza[0].nass.as_deref().unwrap().starts_with("تشغيل/إيقاف الطبقة"));
    assert_eq!(zir.ajza[1].hadaf, HadafAnsur::Amr(Amr::TarjimAlan));
    assert_eq!(k.jism[9].ajza[1].hadaf, HadafAnsur::Amr(Amr::ArdIfsah));

    l.hadith_khayt(HalatKhayt::Mutawaqqifa { sabab: "x".to_owned(), sabab_arabi: "س".to_owned() });
    let k = khitta(&l);
    assert_eq!(k.jism.len(), 11);
    assert_eq!(k.jism[5].ajza[1].nass.as_deref(), Some("متوقّفة"));
    assert_eq!(k.jism[6].irtifaat_mia, 200);
    assert!(k.jism[6].ajza[0].nass.as_deref().unwrap().contains("س"));
    assert!(k.ras[1].ajza[0].nass.as_deref().unwrap().ends_with(" · القراءة متوقّفة"));
}

#[test]
fn safhat_al_manatiq() {
    let mut l = zahira("game");
    l.hala_mut().ruh_ila(SafhatLawha::Manatiq);
    let k = khitta(&l);
    assert_eq!(k.jism.len(), 4);
    assert_eq!(k.jism[0].ajza[0].nass.as_deref(), Some("لا توجد مناطق بعد."));
    assert!(k.jism.iter().all(|t| !t.yaqif && t.ajza[0].dawr == DawrAnsur::Wasm));

    let mut m: MajmuatManatiq<u8> = MajmuatManatiq::jadeeda(LubaId(1), "game");
    assert!(m.adif("dialogue", 1, true, QaidatTarjama::IndaTaghyeer).najahat());
    assert!(m.adif("menu", 1, true, QaidatTarjama::IndaTalab).najahat());
    m.makkin(MuarrifMintaqa(2), false);
    l.hadith_manatiq(&m);
    let k = khitta(&l);
    assert_eq!(k.jism.len(), 2);
    assert_eq!(k.jism[0].ajza[0].hadaf, HadafAnsur::Mintaqa(MuarrifMintaqa(1)));
    assert_eq!(k.jism[0].ajza[0].dawr, DawrAnsur::Qeema);
    assert_eq!(k.jism[1].ajza[0].dawr, DawrAnsur::Wasm);
    assert!(k.jism[1].yaqif);
    assert_eq!(k.jism[1].ajza[0].nass.as_deref(), Some("menu — عند الطلب — موقوفة"));
}

#[test]
fn safhat_al_sijill_al_farigha() {
    let mut l = zahira("game");
    l.hala_mut().ruh_ila(SafhatLawha::Sijill);
    let k = khitta(&l);
    assert_eq!(k.jism.len(), 2);
    assert_eq!(k.jism[0].ajza[0].nass.as_deref(), Some("لم يُقرأ نصّ بعد في هذه الجلسة."));
}

#[test]
fn safhat_al_meezaniya() {
    let mut l = zahira("game");
    l.hala_mut().ruh_ila(SafhatLawha::Meezaniya);
    l.hadith_meezaniya(MeezaniyatItar { akhir_mikro: 850, saqf_mikro: 2000 });
    let k = l.khitta(SATH).unwrap();
    assert_eq!(k.jism.len(), 10);
    assert_eq!(
        k.jism[1].ajza[0].nass.as_deref(),
        Some("آخر إطار كلّف الطبقة 850 ميكروثانية، والسقف الذي تلتزم به 2000 ميكروثانية.")
    );
    assert_eq!(k.jism[1].irtifaat_mia, 200);
    assert_eq!(k.jism[4].ajza[0].nass.as_deref(), Some(QaidatTarjama::IndaTalab.unwan()));
    assert_eq!(k.jism[4].ajza[0].dawr, DawrAnsur::Ibraz);
    assert_eq!(k.jism[9].ajza[0].nass.as_deref(), Some(QaidatTarjama::Mustamirra.wasf()));
    assert!(k.jism.iter().all(|t| !t.yaqif));
}

#[test]
fn safhat_al_ifsah_harfiyya() {
    let mut l = zahira("game");
    l.hala_mut().ruh_ila(SafhatLawha::Ifsah);
    let k = khitta(&l);
    let sutur: Vec<&str> = NASS_IFSAH_ARABI.lines().collect();
    assert_eq!(k.jism.len(), sutur.len());
    for (talab, satr) in k.jism.iter().zip(sutur.iter()) {
        if satr.trim().is_empty() {
            assert_eq!(talab.irtifaat_mia, 50);
            assert!(talab.ajza.is_empty());
        } else {
            assert_eq!(talab.ajza[0].nass.as_deref(), Some(*satr));
            assert!(talab.yaqif);
        }
    }
}
