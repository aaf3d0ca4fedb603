use taarib_tabaqa::mutarjim_mahalli::{fukk_tajzia, jasad_min_radd};

#[test]
fn jasad_al_radd_bi_tajzia_yufakk() {
    let khaam = b"HTTP/1.1 200 OK\r\nTransfer-Encoding: chunked\r\n\r\n5\r\nhello\r\n1\r\n \
                  \r\n5\r\nworld\r\n0\r\n\r\n";
    assert_eq!(jasad_min_radd(khaam).as_deref(), Ok("hello world"));
}

#[test]
fn jasad_al_radd_bi_tul_yuqass() {
    let khaam = b"HTTP/1.1 200 OK\r\nContent-Length: 4\r\n\r\nabcdef";
    assert_eq!(jasad_min_radd(khaam).as_deref(), Ok("abcd"));
    let khata = b"HTTP/1.1 500 Boom\r\nContent-Length: 3\r\n\r\nbad";
    assert!(jasad_min_radd(khata).is_err());
}

#[test]
fn radd_bila_ruus_yurfad() {
    assert_eq!(
        jasad_min_radd(b"HTTP/1.1 200 OK\r\n"),
        Err("the reply carried no header block".to_owned())
    );
}

#[test]
fn satr_hala_ghayr_http_yurfad() {
    assert_eq!(
        jasad_min_radd(b"garbage\r\n\r\nbody"),
        Err("the status line \"garbage\" is not HTTP".to_owned())
    );
}

#[test]
fn khata_al_khadim_yusamma_bi_ramzihi() {
    assert_eq!(
        jasad_min_radd(b"HTTP/1.1 500 Boom\r\nContent-Length: 3\r\n\r\nbad"),
        Err("the server answered HTTP 500: bad".to_owned())
    );
}

#[test]
fn tajzia_bila_nihaya_satr() {
    assert_eq!(
        fukk_tajzia(b"5"),
        Err("a chunk size line was not terminated".to_owned())
    );
}

#[test]
fn tajzia_hajm_ghayr_raqmi() {
    assert_eq!(
        fukk_tajzia(b"zz\r\nhello\r\n"),
        Err("\"zz\" is not a chunk size".to_owned())
    );
}

#[test]
fn tajzia_qita_qasira() {
    assert_eq!(
        fukk_tajzia(b"a\r\nhello\r\n"),
        Err("a chunk was shorter than its declared size".to_owned())
    );
}

#[test]
fn tajzia_bi_imtidad() {
    assert_eq!(fukk_tajzia(b"3;ext=1\r\nabc\r\n0\r\n\r\n"), Ok(b"abc".to_vec()));
}

#[test]
fn tul_akbar_min_al_jasad_la_yadurr() {
    let khaam = b"HTTP/1.1 204 No Content\r\nContent-Length: 99\r\n\r\nxy";
    assert_eq!(jasad_min_radd(khaam).as_deref(), Ok("xy"));
}

use taarib_tabaqa::khata::KhataTabaqa;
use taarib_tabaqa::mutarjim_mahalli::{
    HalatMutarjim, HalatMuzawwidin, MutarjimMahalli, TarifMuzawwid, Unwan,
};

#[test]
fn unwan_yuqra_bi_manfadh_wa_masar() {
    let unwan = Unwan::min_asas("http://127.0.0.1:11434/").unwrap_or_else(|(s, _)| Unwan {
        mudeef: s,
        manfadh: 0,
        masar: String::new(),
    });
    assert_eq!(unwan.mudeef, "127.0.0.1");
    assert_eq!(unwan.manfadh, 11434);
    assert_eq!(unwan.masar, "");

    let unwan = Unwan::min_asas("http://box.local/gateway/v1/").unwrap_or_else(|(s, _)| Unwan {
        mudeef: s,
        manfadh: 0,
        masar: String::new(),
    });
    assert_eq!(unwan.mudeef, "box.local");
    assert_eq!(unwan.manfadh, 80);
    assert_eq!(unwan.masar, "/gateway/v1");
}

#[test]
fn https_yurfad_bi_sabab_yusammi_al_badeel() {
    let radd = Unwan::min_asas("https://api.openai.com");
    assert!(matches!(radd, Err((ref s, _)) if s.contains("TLS")));
}

#[test]
fn unwan_bi_qaws_wa_manfadh() {
    let u = Unwan::min_asas(" http://[::1]:8080/x ").ok().unwrap();
    assert_eq!(u.mudeef, "::1");
    assert_eq!(u.manfadh, 8080);
    assert_eq!(u.masar, "/x");
}

#[test]
fn unwan_manfadh_ghayr_raqmi() {
    let radd = Unwan::min_asas("http://host:abc");
    assert!(matches!(radd, Err((ref s, _)) if s.contains("\"abc\" is not a number")));
    assert!(Unwan::min_asas("http://").is_err());
}

fn tarif(mutawafiq: bool, lahu_miftah: bool, asas: Option<&str>, namudhaj: &str) -> TarifMuzawwid {
    TarifMuzawwid {
        muarrif: "local".to_owned(),
        mutawafiq,
        lahu_miftah,
        asas: asas.map(str::to_owned),
        namudhaj: namudhaj.to_owned(),
    }
}

fn hala() -> HalatMuzawwidin {
    HalatMuzawwidin { injilizi: "none".to_owned(), arabi: "لا شيء".to_owned() }
}

#[test]
fn min_idadat_kull_al_ahwal() {
    let (m, h) = MutarjimMahalli::min_idadat(None, hala());
    assert!(m.is_none());
    assert_eq!(h, HalatMutarjim::Ghaib(hala()));

    let (m, h) = MutarjimMahalli::min_idadat(Some(&tarif(false, false, None, "m")), hala());
    assert!(m.is_none());
    assert!(matches!(h, HalatMutarjim::GhayrQabil { ref sabab, .. } if sabab.contains("dialect")));

    let (m, h) = MutarjimMahalli::min_idadat(Some(&tarif(true, true, None, "m")), hala());
    assert!(m.is_none());
    assert!(matches!(h, HalatMutarjim::GhayrQabil { ref sabab, .. } if sabab.contains("credential")));

    let (m, h) = MutarjimMahalli::min_idadat(Some(&tarif(true, false, None, "  ")), hala());
    assert!(m.is_none());
    assert!(matches!(h, HalatMutarjim::GhayrQabil { ref sabab, .. } if sabab == "no model name is configured for it."));

    let (m, h) = MutarjimMahalli::min_idadat(Some(&tarif(true, false, None, "llama3")), hala());
    let m = m.unwrap();
    assert_eq!(m.asas(), "http://127.0.0.1:11434");
    assert_eq!(m.unwan.manfadh, 11434);
    assert!(h.mutah());
}

#[test]
fn jadeed_yarfud_https() {
    let r = MutarjimMahalli::jadeed("x", "https://example.com", "m");
    assert!(matches!(
        r,
        Err(KhataTabaqa::MawridFashil { mawrid: "local translator endpoint", .. })
    ));
    let r = MutarjimMahalli::jadeed("x", " http://localhost:1234 ", "m").ok().unwrap();
    assert_eq!(r.asas(), "http://localhost:1234");
}

use taarib_tabaqa::mutarjim_mahalli::{naqqih_muhtawa, tarjama_min_radd};

#[test]
fn tarjama_tuqra_min_kain_wa_min_siyaj() {
    let radd = "{\"choices\":[{\"message\":{\"content\":\"{\\\"tarjama\\\": \\\"متابعة\\\"}\"}}]}";
    assert_eq!(tarjama_min_radd(radd).as_deref(), Ok("متابعة"));

    let musayyaj = "{\"choices\":[{\"message\":{\"content\":\"```json\\n{\\\"tarjama\\\": \\\"لعبة جديدة\\\"}\\n```\"}}]}";
    assert_eq!(tarjama_min_radd(musayyaj).as_deref(), Ok("لعبة جديدة"));

    let nathr = "{\"choices\":[{\"message\":{\"content\":\"Sure! Here it is: متابعة\"}}]}";
    assert!(tarjama_min_radd(nathr).is_err());
}

#[test]
fn radd_al_khata_yusamma() {
    assert_eq!(
        tarjama_min_radd("{\"error\":{\"message\":\"model not found\"}}"),
        Err("the server reported an error: model not found".to_owned())
    );
    assert_eq!(
        tarjama_min_radd("{\"error\":\"boom\"}"),
        Err("the server reported an error: boom".to_owned())
    );
    assert_eq!(
        tarjama_min_radd("{\"error\":42}"),
        Err("the server reported an error: unnamed".to_owned())
    );
    assert_eq!(
        tarjama_min_radd("{\"choices\":[]}"),
        Err("the reply carries no assistant content".to_owned())
    );
    assert!(tarjama_min_radd("not json").unwrap_err().starts_with("the reply is not JSON: "));
    assert_eq!(
        tarjama_min_radd("{\"choices\":[{\"message\":{\"content\":\"{\\\"other\\\": 1}\"}}]}"),
        Err("the object carries no \"tarjama\" string".to_owned())
    );
    assert_eq!(
        tarjama_min_radd("{\"choices\":[{\"message\":{\"content\":\"{\\\"tarjama\\\": \\\"سطر\\\\nثان\\\"}\"}}]}"),
        Ok("سطر ثان".to_owned())
    );
}

#[test]
fn tanqiyat_al_siyaj() {
    assert_eq!(naqqih_muhtawa("  ```json\n{}\n``````  "), "{}");
    assert_eq!(naqqih_muhtawa("```{\"a\":1}```"), "{\"a\":1}");
    assert_eq!(naqqih_muhtawa(" plain "), "plain");
}

use taarib_tabaqa::luba::LubaId;
use taarib_tabaqa::mutarjim::TalabSatr;
use taarib_tabaqa::mutarjim_mahalli::{risala, tawjih};
use taarib_tabaqa::wajiha::MustatilBiksel;

fn talab(jiwar: &[&str], ism_luba: Option<&str>) -> TalabSatr {
    TalabSatr {
        asl: "Continue".to_owned(),
        jiwar: jiwar.iter().map(|s| (*s).to_owned()).collect(),
        luba: LubaId(3),
        ism_luba: ism_luba.map(str::to_owned),
        mawdi: MustatilBiksel { yasar: 0, aala: 0, ard: 240, irtifa: 20 },
        thiqa: 90,
    }
}

#[test]
fn al_risala_wa_al_tawjih() {
    assert_eq!(risala(&talab(&[], None)), "النص المطلوب ترجمته:\n«Continue»");
    assert_eq!(
        risala(&talab(&["One", "Two"], None)),
        "السطور التي سبقت هذا السطر على الشاشة، للسياق فقط ولا تُترجم:\n- One\n- Two\n\nالنص المطلوب ترجمته:\n«Continue»"
    );
    let t = tawjih(&talab(&[], Some("Lantern")));
    assert!(t.contains("\nاللعبة: Lantern."));
    assert!(t.contains("عرضها 240 بكسل"));
    assert!(t.ends_with("الحقل «tarjama» يحمل الترجمة العربية وحدها."));
    assert!(!tawjih(&talab(&[], None)).contains("اللعبة:"));
}

#[test]
fn jasad_al_talab_kama_yaktubuhu_serde() {
    let m = MutarjimMahalli::jadeed("local", "http://127.0.0.1:11434", "llama3").ok().unwrap();
    let t = talab(&["Hi \"there\""], Some("G"));
    let jasad = m.jasad(&t);
    let mut kain = serde_json::Map::new();
    kain.insert("model".into(), serde_json::Value::String("llama3".into()));
    let mut nizam = serde_json::Map::new();
    nizam.insert("role".into(), serde_json::Value::String("system".into()));
    nizam.insert("content".into(), serde_json::Value::String(tawjih(&t)));
    let mut mustakhdim = serde_json::Map::new();
    mustakhdim.insert("role".into(), serde_json::Value::String("user".into()));
    mustakhdim.insert("content".into(), serde_json::Value::String(risala(&t)));
    kain.insert(
        "messages".into(),
        serde_json::Value::Array(vec![serde_json::Value::Object(nizam), serde_json::Value::Object(mustakhdim)]),
    );
    kain.insert("temperature".into(), serde_json::Value::from(0.2_f32));
    kain.insert("max_tokens".into(), serde_json::Value::from(512_u32));
    kain.insert("stream".into(), serde_json::Value::Bool(false));
    let mut sigha = serde_json::Map::new();
    sigha.insert("type".into(), serde_json::Value::String("json_object".into()));
    kain.insert("response_format".into(), serde_json::Value::Object(sigha));
    assert_eq!(jasad, serde_json::Value::Object(kain).to_string());
}

use taarib_tabaqa::mutarjim_mahalli::{HalatWusul, MUDAT_SUKUN_MIKRO};

#[test]
fn al_wusul_yanam_baad_thalath() {
    let mut w = HalatWusul::jadeeda();
    w.sajjil_wusul(false, 100);
    w.sajjil_wusul(false, 200);
    assert!(w.mutah(300));
    w.sajjil_wusul(false, 300);
    assert_eq!(w.sakin_hatta_mikro, Some(300 + MUDAT_SUKUN_MIKRO));
    assert!(!w.mutah(301));
    assert!(w.mutah(300 + MUDAT_SUKUN_MIKRO));
    w.sajjil_wusul(true, 400);
    assert_eq!(w, HalatWusul::jadeeda());
}

#[test]
fn talab_http_wa_natijatuhu() {
    let m = MutarjimMahalli::jadeed("local", "http://box:8080/gw", "llama3").ok().unwrap();
    assert_eq!(
        m.talab_http("{\"a\":\"ب\"}"),
        "POST /gw/v1/chat/completions HTTP/1.1\r\nHost: box:8080\r\nContent-Type: application/json\r\nAccept: application/json\r\nConnection: close\r\nContent-Length: 10\r\n\r\n{\"a\":\"ب\"}"
    );
    let mut w = HalatWusul::jadeeda();
    let radd = "{\"choices\":[{\"message\":{\"content\":\"{\\\"tarjama\\\": \\\"متابعة\\\"}\"}}]}";
    let r = m.tarjim_min_radd(&mut w, Ok(radd.to_owned()), 5).ok().unwrap();
    assert_eq!(r.arabi, "متابعة");
    let r = m.tarjim_min_radd(&mut w, Ok("[]".to_owned()), 6);
    assert!(matches!(r, Err(KhataTabaqa::MawridFashil { mawrid: "local translator reply", .. })));
    let khata = KhataTabaqa::MawridFashil { mawrid: "local translator connection", sabab: "refused".to_owned() };
    assert_eq!(m.tarjim_min_radd(&mut w, Err(khata.clone()), 7).err(), Some(khata));
    assert_eq!(w.fashal_mutatali, 1);
}

use taarib_tabaqa::mutarjim_mahalli::{muhtawa_munaqqah, ruus_radd, tarjama_min_jawab, QeemaJson};

#[test]
fn ruus_al_radd_tuqra_satran_satran() {
    assert_eq!(
        ruus_radd("HTTP/1.1 200 OK\r\nContent-Type: text/plain\r\ncontent-length:  12 \r\n"),
        Ok((200, false, Some(12)))
    );
    assert_eq!(
        ruus_radd("HTTP/1.1 404 Not Found\nTRANSFER-ENCODING: gzip, Chunked"),
        Ok((404, true, None))
    );
    assert_eq!(
        ruus_radd("HTTP/1.1 200 OK\r\nContent-Length: 5\r\nContent-Length: many\r\n"),
        Ok((200, false, None))
    );
    assert_eq!(ruus_radd("HTTP/1.1"), Err("the status line \"HTTP/1.1\" is not HTTP".to_owned()));
    assert_eq!(ruus_radd(""), Err("the status line \"\" is not HTTP".to_owned()));
}

fn kain(azwaj: Vec<(&str, QeemaJson)>) -> QeemaJson {
    QeemaJson::Kain(azwaj.into_iter().map(|(k, v)| (k.to_owned(), v)).collect())
}

#[test]
fn muhtawa_munaqqah_min_qeema_mahlula() {
    let radd = kain(vec![(
        "choices",
        QeemaJson::Qaima(vec![kain(vec![(
            "message",
            kain(vec![("content", QeemaJson::Nass("```json\n{\"tarjama\": \"نعم\"}\n```".to_owned()))]),
        )])]),
    )]);
    assert_eq!(muhtawa_munaqqah(Ok(radd)).as_deref(), Ok("{\"tarjama\": \"نعم\"}"));
    assert_eq!(
        muhtawa_munaqqah(Err("EOF while parsing".to_owned())),
        Err("the reply is not JSON: EOF while parsing".to_owned())
    );
    let khata = kain(vec![("error", kain(vec![("message", QeemaJson::Nass("busy".to_owned()))]))]);
    assert_eq!(muhtawa_munaqqah(Ok(khata)), Err("the server reported an error: busy".to_owned()));
    assert_eq!(
        muhtawa_munaqqah(Ok(kain(vec![("choices", QeemaJson::Qaima(vec![]))]))),
        Err("the reply carries no assistant content".to_owned())
    );
}

#[test]
fn tarjama_min_jawab_mahlul() {
    let k = kain(vec![("tarjama", QeemaJson::Nass("  سطر أول\nسطر ثان  ".to_owned()))]);
    assert_eq!(tarjama_min_jawab("x", Ok(k)).as_deref(), Ok("سطر أول سطر ثان"));
    let faragh = kain(vec![("tarjama", QeemaJson::Nass("   ".to_owned()))]);
    assert_eq!(
        tarjama_min_jawab("x", Ok(faragh)),
        Err("the object carries no \"tarjama\" string".to_owned())
    );
    let raqm = kain(vec![("tarjama", QeemaJson::Raqm("7".to_owned()))]);
    assert!(tarjama_min_jawab("x", Ok(raqm)).is_err());
    let tawil = "a".repeat(70);
    assert_eq!(
        tarjama_min_jawab(&tawil, Err("expected value".to_owned())),
        Err(format!("the model did not answer with a JSON object: {}", "a".repeat(64)))
    );
}
