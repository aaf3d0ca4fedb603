use taarib_tabaqa::qudra::{HukmQudra, MilShasha, QudratTarkeeb, SababQudra};
use taarib_tabaqa::wajiha::WajihatRusum;

#[test]
fn al_hukm_huwa_al_aswa() {
    let q = QudratTarkeeb::jadeeda(WajihatRusum::Direct3d11, MilShasha::KhilalAlJihaz);
    assert_eq!(q.hukm(), HukmQudra::Kamila);
    let q = q.maa(SababQudra::naqisa("ناقص", "partial"));
    assert_eq!(q.hukm(), HukmQudra::Naqisa);
    let q = q.maa(SababQudra::kamila("كامل", "full"));
    assert_eq!(q.hukm(), HukmQudra::Naqisa);
    let q = q.maa(SababQudra::mustaheela("مستحيل", "impossible"));
    assert_eq!(q.hukm(), HukmQudra::Mustaheela);
    assert!(!q.qabila());
}

#[test]
fn al_ahkam_murattaba_min_al_afdal() {
    assert!(HukmQudra::Kamila < HukmQudra::Naqisa);
    assert!(HukmQudra::Naqisa < HukmQudra::Majhula);
    assert!(HukmQudra::Majhula < HukmQudra::Mustaheela);
    assert_eq!(
        [HukmQudra::Naqisa, HukmQudra::Mustaheela, HukmQudra::Kamila].into_iter().max(),
        Some(HukmQudra::Mustaheela)
    );
}
