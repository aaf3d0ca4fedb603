use taarib_tabaqa::khata::KhataTabaqa;
use taarib_tabaqa::sidq::{mahfuz_salih, BasmatIfsah, Iqrar};

#[test]
fn al_iqrar_yahtaj_basmat_hadhihi_al_bina() {
    let sahiha = BasmatIfsah::hadhihi_al_bina();
    assert!(mahfuz_salih(sahiha));
    let i = Iqrar::baad_ard(sahiha, 1234, "Some Game").ok().unwrap();
    assert_eq!(i.lahza(), 1234);
    assert_eq!(i.luba(), "Some Game");
    let khati = BasmatIfsah::min_raqm(sahiha.raqm() ^ 1);
    assert!(!mahfuz_salih(khati));
    assert_eq!(Iqrar::baad_ard(khati, 1, "x").err(), Some(KhataTabaqa::IfsahMafqud));
    assert_eq!(BasmatIfsah::min_raqm(255).nass(), "00000000000000ff");
}
