use taarib_tabaqa::lawhat_tahakkum::{Amr, Ikhtisarat, Muaddil, RamzMiftah, Watar};

#[test]
fn al_watar_al_mukarrar_yabqa_li_alladhi_yatarattab_awwalan() {
    let w = Watar::jadeed(Muaddil(2), RamzMiftah(0x20));
    let t = Ikhtisarat::min_sufuf(&vec![(Amr::Iqaf, w), (Amr::ZidAtaama, w)]);
    assert_eq!(t.watar(Amr::ZidAtaama), w);
    assert_eq!(t.watar(Amr::Iqaf), Watar::farigh());
    assert_eq!(t.amr_li(w), Some(Amr::ZidAtaama));
}

#[test]
fn al_watar_al_mukarrar_bayna_al_awamir_al_ula() {
    let w = Watar::jadeed(Muaddil(4), RamzMiftah(0x21));
    let t = Ikhtisarat::min_sufuf(&vec![(Amr::ArdIfsah, w), (Amr::Tabdeel, w)]);
    assert_eq!(t.watar(Amr::Tabdeel), w);
    assert_eq!(t.watar(Amr::ArdIfsah), Watar::farigh());
}

use taarib_tabaqa::mutarjim_mahalli::{fahs_mukhattat, QeemaJson};

#[test]
fn fahs_malaf_al_ikhtisarat() {
    assert!(matches!(
        Ikhtisarat::fahs_malaf(br#"{"v": 1, "rubut": {}}"#, "v"),
        Ok(QeemaJson::Kain(_))
    ));
    assert!(Ikhtisarat::fahs_malaf(b"{oops", "v").unwrap_err().starts_with("it is not JSON: "));
    assert_eq!(
        Ikhtisarat::fahs_malaf(b"[1, 2]", "v").unwrap_err(),
        "its top level is not a JSON object"
    );
    assert_eq!(Ikhtisarat::fahs_malaf(br#"{"w": 1}"#, "v").unwrap_err(), "it carries no `v` field");
    assert_eq!(Ikhtisarat::fahs_malaf(br#"{"v": "1"}"#, "v").unwrap_err(), "it carries no `v` field");
    assert_eq!(Ikhtisarat::fahs_malaf(br#"{"v": 1.0}"#, "v").unwrap_err(), "it carries no `v` field");
    assert_eq!(
        Ikhtisarat::fahs_malaf(br#"{"v": 2}"#, "v").unwrap_err(),
        ("it declares schema version 2, and this build reads and writes version 1. It was written \
             by a build that knew commands this one does not, and saving over it would unbind them."
            .to_owned())
    );
}

#[test]
fn fahs_mukhattat_bi_isdar_akhar() {
    assert!(fahs_mukhattat(br#"{"s": 7}"#, "s", 7, "", "").is_ok());
    assert_eq!(
        fahs_mukhattat(br#"{"s": 18446744073709551615}"#, "s", 7, "", "x").unwrap_err(),
        ("it declares schema version 18446744073709551615, and this build reads and writes version 7. x"
            .to_owned())
    );
}

#[test]
fn ikhtisarat_min_qiraa() {
    let t = Ikhtisarat::min_qiraa(None);
    for amr in Amr::jamee() {
        assert_eq!(t.watar(amr), Ikhtisarat::iftiradiya().watar(amr));
    }
    let w = Watar::jadeed(Muaddil(2), RamzMiftah(0x20));
    let t = Ikhtisarat::min_qiraa(Some(&vec![(Amr::Iqaf, w)]));
    assert_eq!(t.watar(Amr::Iqaf), w);
    assert_eq!(t.watar(Amr::Tabdeel), Ikhtisarat::iftiradiya().watar(Amr::Tabdeel));
}
