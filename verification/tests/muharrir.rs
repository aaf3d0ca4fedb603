use taarib_tabaqa::luba::LubaId;
use taarib_tabaqa::manatiq::{IsabatMuharrir, MajmuatManatiq, Miqbad, MuarrifMintaqa, QaidatTarjama};
use taarib_tabaqa::muharrir::{
    MuharrirManatiq, NatijatTahrir, WadaMuharrir, SABAB_BILA_MISAHA, SABAB_SAGHIR, SABAB_TAY,
    UNWAN_BILA_MISAHA,
};

type Nuqta = (i32, i32);
type Mustatil = (i32, i32, i32, i32);

const KAAMIL: Mustatil = (0, 0, 100, 100);

fn majmua() -> MajmuatManatiq<Mustatil> {
    let mut m = MajmuatManatiq::jadeeda(LubaId(3), "game");
    assert!(m.adif("dialogue", (10, 10, 20, 20), true, QaidatTarjama::IndaTaghyeer).najahat());
    m
}

#[test]
fn nuqra_bila_sahb_la_tunshi_shayan() {
    let mut h: MuharrirManatiq<Nuqta, Mustatil> = MuharrirManatiq::jadeed();
    assert!(!h.fi_sahb());
    let w = h.bada_ala((5, 5), None, &majmua(), KAAMIL);
    assert_eq!(w, WadaMuharrir::Rasm { bidaya: (5, 5), hali: (5, 5) });
    let r = h.anhi_sahb((5, 5, 0, 0), false, true);
    assert_eq!(r, NatijatTahrir::Mulgha { sabab: SABAB_BILA_MISAHA, unwan: UNWAN_BILA_MISAHA });
    assert!(!h.fi_sahb());
    assert_eq!(r.mustatil(), None);
}

#[test]
fn rasm_saghir_wa_rasm_salih() {
    let mut h: MuharrirManatiq<Nuqta, Mustatil> = MuharrirManatiq::jadeed();
    h.bada_sahb((1, 1));
    h.harrik((2, 2));
    assert_eq!(h.wada(), WadaMuharrir::Rasm { bidaya: (1, 1), hali: (2, 2) });
    match h.anhi_sahb((1, 1, 1, 1), true, true) {
        NatijatTahrir::Mulgha { sabab, .. } => assert_eq!(sabab, SABAB_SAGHIR),
        akhar => panic!("unexpected {akhar:?}"),
    }
    h.bada_sahb((1, 1));
    h.harrik((40, 30));
    assert_eq!(h.anhi_sahb((1, 1, 39, 29), true, false), NatijatTahrir::Jadeeda((1, 1, 39, 29)));
}

#[test]
fn naql_wa_tahjim() {
    let m = majmua();
    let mut h: MuharrirManatiq<Nuqta, Mustatil> = MuharrirManatiq::jadeed();
    let isaba = IsabatMuharrir { hadaf: MuarrifMintaqa(1), miqbad: None };
    let w = h.bada_ala((15, 15), Some(isaba), &m, KAAMIL);
    assert_eq!(
        w,
        WadaMuharrir::Naql { hadaf: MuarrifMintaqa(1), imsak: (15, 15), asli: (10, 10, 20, 20), hali: (15, 15) }
    );
    assert_eq!(w.hadaf(), Some(MuarrifMintaqa(1)));
    h.harrik((25, 25));
    assert_eq!(
        h.anhi_sahb((20, 20, 20, 20), true, false),
        NatijatTahrir::Munaqqala { hadaf: MuarrifMintaqa(1), mustatil: (20, 20, 20, 20) }
    );

    let isaba = IsabatMuharrir { hadaf: MuarrifMintaqa(1), miqbad: Some(Miqbad::AsfalYameen) };
    h.bada_ala((30, 30), Some(isaba), &m, KAAMIL);
    match h.anhi_sahb((10, 10, 0, 0), false, true) {
        NatijatTahrir::Mulgha { sabab, .. } => assert_eq!(sabab, SABAB_TAY),
        akhar => panic!("unexpected {akhar:?}"),
    }
    h.bada_ala((30, 30), Some(isaba), &m, KAAMIL);
    assert_eq!(
        h.anhi_sahb((10, 10, 25, 25), true, false),
        NatijatTahrir::Muhajjama { hadaf: MuarrifMintaqa(1), mustatil: (10, 10, 25, 25) }
    );

    // A region that is no longer in the set starts from the whole surface.
    let ghaib = IsabatMuharrir { hadaf: MuarrifMintaqa(9), miqbad: None };
    match h.bada_ala((1, 1), Some(ghaib), &m, KAAMIL) {
        WadaMuharrir::Naql { asli, .. } => assert_eq!(asli, KAAMIL),
        akhar => panic!("unexpected {akhar:?}"),
    }
}

#[test]
fn al_ilgha_yuhmil_kulla_shay() {
    let mut h: MuharrirManatiq<Nuqta, Mustatil> = MuharrirManatiq::jadeed();
    assert!(!h.alghi());
    h.harrik((3, 3));
    assert_eq!(h.wada(), WadaMuharrir::Khamil);
    h.bada_sahb((1, 1));
    assert!(h.alghi());
    assert!(!h.fi_sahb());
    assert_eq!(h.anhi_sahb((0, 0, 0, 0), true, false), NatijatTahrir::LaShay);
}
