use taarib_tabaqa::rasm_tabaqa::ikhtim;
use taarib_tabaqa::wajiha::{MustatilBiksel, WasfSath};

fn m(yasar: u32, aala: u32, ard: u32, irtifa: u32) -> MustatilBiksel {
    MustatilBiksel { yasar, aala, ard, irtifa }
}

#[test]
fn ikhtim_yusqit_ma_kharaj_kulluh() {
    let sath = WasfSath { ard: 100, irtifa: 50 };
    let qitaat = vec![
        (m(0, 0, 10, 10), 'a'),
        (m(100, 0, 10, 10), 'b'),
        (m(95, 45, 10, 10), 'c'),
        (m(10, 50, 10, 10), 'd'),
        (m(20, 20, 0, 10), 'e'),
        (m(20, 20, 10, 0), 'f'),
        (m(99, 49, 1, 1), 'g'),
    ];
    let r: Vec<char> = ikhtim(qitaat, sath).into_iter().map(|(_, q)| q).collect();
    assert_eq!(r, vec!['a', 'c', 'g']);
}
