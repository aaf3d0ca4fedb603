use taarib_tabaqa::luba::LubaId;
use taarib_tabaqa::manatiq::{
    hudd_fasila, MajmuatManatiq, Mintaqa, MuarrifMintaqa, NatijatMintaqa, QaidatTarjama, AQSA_MANATIQ,
    AQSA_TUL_ISM,
};

type Majmua = MajmuatManatiq<(u32, u32)>;

#[test]
fn al_muarrif_la_yuad() {
    let mut m: Majmua = MajmuatManatiq::jadeeda(LubaId(1), "game");
    let a = m.adif("dialogue", (1, 1), true, QaidatTarjama::IndaTaghyeer);
    assert_eq!(a, NatijatMintaqa::Tammat(MuarrifMintaqa(1)));
    assert_eq!(m.ihdhif(MuarrifMintaqa(1)), NatijatMintaqa::Tammat(MuarrifMintaqa(1)));
    let b = m.adif("dialogue", (1, 1), true, QaidatTarjama::IndaTaghyeer);
    assert_eq!(b, NatijatMintaqa::Tammat(MuarrifMintaqa(2)));
    assert_eq!(m.talee(), 3);
    assert_eq!(m.adad(), 1);
}

#[test]
fn akhta_al_idafa() {
    let mut m: Majmua = MajmuatManatiq::jadeeda(LubaId(1), "game");
    assert_eq!(m.adif("   ", (1, 1), true, QaidatTarjama::IndaTalab), NatijatMintaqa::IsmFarigh);
    let taweel = "x".repeat(AQSA_TUL_ISM + 1);
    assert_eq!(
        m.adif(&taweel, (1, 1), true, QaidatTarjama::IndaTalab),
        NatijatMintaqa::IsmTaweel { saqf: AQSA_TUL_ISM }
    );
    assert_eq!(m.adif("box", (0, 0), false, QaidatTarjama::IndaTalab), NatijatMintaqa::LaMisaha);
    assert!(m.adif("box", (1, 1), true, QaidatTarjama::IndaTalab).najahat());
    assert_eq!(
        m.adif("box", (2, 2), true, QaidatTarjama::IndaTalab),
        NatijatMintaqa::IsmMakrur { sahib: MuarrifMintaqa(1), ism: "box".to_owned() }
    );
    assert_eq!(m.ihdhif(MuarrifMintaqa(42)), NatijatMintaqa::GhayrMawjuda(MuarrifMintaqa(42)));
}

#[test]
fn saqf_al_manatiq() {
    let mut m: Majmua = MajmuatManatiq::jadeeda(LubaId(1), "game");
    for i in 0..AQSA_MANATIQ {
        assert!(m.adif(&format!("r{i}"), (1, 1), true, QaidatTarjama::Mustamirra).najahat());
    }
    assert_eq!(
        m.adif("one more", (1, 1), true, QaidatTarjama::Mustamirra),
        NatijatMintaqa::TajawuzSaqf { saqf: AQSA_MANATIQ }
    );
}

#[test]
fn al_fasila_mahduda() {
    assert_eq!(hudd_fasila(0), 50);
    assert_eq!(hudd_fasila(400), 400);
    assert_eq!(hudd_fasila(1_000_000), 60_000);
}

#[test]
fn unwan_al_natija() {
    assert_eq!(NatijatMintaqa::Tammat(MuarrifMintaqa(3)).unwan(), "تمّ (#3).");
    assert_eq!(
        NatijatMintaqa::GhayrMawjuda(MuarrifMintaqa(9)).wasf(),
        "no region #9 is in this set"
    );
}

#[test]
fn al_asma_tabqa_mutafarrida_baad_al_islah() {
    let manatiq = vec![
        Mintaqa::jadeeda(MuarrifMintaqa(1), "x", (1, 1)),
        Mintaqa::jadeeda(MuarrifMintaqa(2), "x (3)", (1, 1)),
        Mintaqa::jadeeda(MuarrifMintaqa(3), "x", (1, 1)),
    ];
    let mut m: Majmua = MajmuatManatiq::min_makhzun(LubaId(1), "game", manatiq, 4, 400);
    m.tashih(&vec![true, true, true]);
    let asma: Vec<&str> = m.manatiq().iter().map(|x| x.ism.as_str()).collect();
    assert_eq!(asma, vec!["x", "x (3)", "x (3, 2)"]);
    assert_eq!(m.mulahazat().len(), 1);
    assert!(m.mulahazat()[0].contains("renamed to x (3, 2)"));

    let manatiq = vec![
        Mintaqa::jadeeda(MuarrifMintaqa(5), "Box", (1, 1)),
        Mintaqa::jadeeda(MuarrifMintaqa(6), "box ", (1, 1)),
    ];
    let mut m: Majmua = MajmuatManatiq::min_makhzun(LubaId(1), "game", manatiq, 1, 10);
    m.tashih(&vec![true, true]);
    let asma: Vec<&str> = m.manatiq().iter().map(|x| x.ism.as_str()).collect();
    assert_eq!(asma, vec!["Box", "box (6)"]);
    assert_eq!(m.talee(), 7);
    assert_eq!(m.fasila_iftiradiya_milli(), 50);
}

use taarib_tabaqa::manatiq::natija_baad_qiraa;

#[test]
fn natija_baad_al_qiraa() {
    assert_eq!(natija_baad_qiraa(LubaId(3), LubaId(3)), Ok(()));
    assert_eq!(
        natija_baad_qiraa(LubaId(3), LubaId(4)),
        Err("it holds regions for game 3, and regions for game 4 were asked for. Reading it would \
             attach one game's rectangles to another game's screen."
            .to_owned())
    );
}

#[test]
fn majmua_min_qiraa() {
    let m: Majmua = MajmuatManatiq::min_qiraa(None, LubaId(9), "game", &vec![]).unwrap();
    assert_eq!(m.adad(), 0);
    assert_eq!(m.luba(), LubaId(9));
    assert_eq!(m.talee(), 1);

    let manatiq = vec![
        Mintaqa::jadeeda(MuarrifMintaqa(1), "x", (1, 1)),
        Mintaqa::jadeeda(MuarrifMintaqa(2), "y", (0, 0)),
    ];
    let makhzun: Majmua = MajmuatManatiq::min_makhzun(LubaId(9), "game", manatiq, 3, 400);
    let m = MajmuatManatiq::min_qiraa(Some(makhzun), LubaId(9), "game", &vec![true, false]).unwrap();
    assert_eq!(m.adad(), 1);
    assert_eq!(m.manatiq()[0].ism, "x");

    let akhar: Majmua = MajmuatManatiq::min_makhzun(LubaId(8), "other", vec![], 1, 400);
    assert!(MajmuatManatiq::min_qiraa(Some(akhar), LubaId(9), "game", &vec![])
        .err()
        .unwrap()
        .starts_with("it holds regions for game 8"));
}

#[test]
fn fahs_malaf_al_manatiq() {
    assert!(Majmua::fahs_malaf(br#"{"v": 1}"#, "v").is_ok());
    assert_eq!(
        Majmua::fahs_malaf(br#"{}"#, "v").unwrap_err(),
        "it carries no `v` field, so there is no way to tell which shape it is in"
    );
    assert!(Majmua::fahs_malaf(br#"{"v": 0}"#, "v").unwrap_err().starts_with(
        "it declares schema version 0, and this build reads and writes version 1. Nothing is guessed at here"
    ));
}
