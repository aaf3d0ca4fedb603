//! The in-game control panel's logic: the commands, the keyboard table that
//! reaches them, the panel's own state and the focus rule that decides who a
//! keystroke belongs to.
//!
//! Laying the panel out in normalized coordinates, and the colours it is
//! drawn in, are arithmetic on `f32` and live beside the renderer; everything
//! here is the part that decides.

use vstd::prelude::*;

use crate::manatiq::{satr_mintaqa, MajmuatManatiq, Mintaqa, MuarrifMintaqa, QaidatTarjama};
use crate::mutarjim_mahalli::{
    fahs_mukhattat, fahs_mukhattat_s, huruf, natija_json, qassim_sutur, sutur, QeemaJson,
};
use crate::nass::{
    adhif_harf, aktub_ashri, aktub_sittat_ashar, ashri, bi_hashw, farigh, ilhaq, min_nass,
    shadhdhib, sittat_ashar,
};
use crate::qissa::HalatKhayt;
use crate::sidq::{basmat_al_bina, mahfuz_salih, BasmatIfsah, NASS_IFSAH_ARABI};
use crate::sijill_qira::{MadkhalQira, MuarrifMadkhal, TaqreerSijill};
use crate::wajiha::{ism_wajiha, HalatTabaqa, MeezaniyatItar, WajihatRusum};

verus! {

/// The one schema version of the bindings file this build reads and writes.
pub const ISDAR_IKHTISARAT: u64 = 1;

/// The name the bindings file's shape goes by.
pub const ISM_MUKHATTAT_IKHTISARAT: &'static str = "ikhtisarat_tabaqa";

/// What a refusal of the bindings file for its version adds.
pub open spec fn dhayl_isdar_ikhtisarat() -> Seq<char> {
    "It was written by a build that knew commands this one does not, and saving over it would unbind them."@
}

/// Everything the panel can be asked to do.
#[derive(Debug, Clone, Copy, PartialEq, Eq, Structural, PartialOrd, Ord, Hash)]
pub enum Amr {
    /// Turn the overlay's drawing on or off.
    Tabdeel,
    /// Capture, read and translate every region right now.
    TarjimAlan,
    /// Open the region editor.
    TahrirManatiq,
    /// Open the reading history.
    ArdSijill,
    /// Make the panel more opaque.
    ZidAtaama,
    /// Make the panel more transparent.
    AnqisAtaama,
    /// Make the panel's text larger.
    ZidHajmKhat,
    /// Make the panel's text smaller.
    AnqisHajmKhat,
    /// Stand the overlay down without unhooking it.
    Iqaf,
    /// Show the tier-3 disclosure again.
    ArdIfsah,
    /// Close the panel, leaving the overlay as it was.
    Ighlaq,
}

/// Every command, in the order the main page lists them.
pub open spec fn jamee_awamir() -> Seq<Amr> {
    seq![
        Amr::Tabdeel,
        Amr::TarjimAlan,
        Amr::TahrirManatiq,
        Amr::ArdSijill,
        Amr::Iqaf,
        Amr::ZidAtaama,
        Amr::AnqisAtaama,
        Amr::ZidHajmKhat,
        Amr::AnqisHajmKhat,
        Amr::ArdIfsah,
        Amr::Ighlaq,
    ]
}

/// Where a command sits in [`jamee_awamir`].
pub open spec fn fahras_amr(amr: Amr) -> int {
    match amr {
        Amr::Tabdeel => 0,
        Amr::TarjimAlan => 1,
        Amr::TahrirManatiq => 2,
        Amr::ArdSijill => 3,
        Amr::Iqaf => 4,
        Amr::ZidAtaama => 5,
        Amr::AnqisAtaama => 6,
        Amr::ZidHajmKhat => 7,
        Amr::AnqisHajmKhat => 8,
        Amr::ArdIfsah => 9,
        Amr::Ighlaq => 10,
    }
}

/// The position and the list agree, both ways.
pub proof fn lemma_fahras_amr()
    ensures
        forall|amr: Amr| #[trigger] jamee_awamir()[fahras_amr(amr)] == amr,
        forall|amr: Amr| 0 <= #[trigger] fahras_amr(amr) < 11,
        forall|i: int| 0 <= i < 11 ==> fahras_amr(#[trigger] jamee_awamir()[i]) == i,
        jamee_awamir().len() == 11,
{
}

pub open spec fn ism_amr(amr: Amr) -> Seq<char> {
    match amr {
        Amr::Tabdeel => "toggle"@,
        Amr::TarjimAlan => "translate now"@,
        Amr::TahrirManatiq => "edit regions"@,
        Amr::ArdSijill => "show history"@,
        Amr::ZidAtaama => "opacity up"@,
        Amr::AnqisAtaama => "opacity down"@,
        Amr::ZidHajmKhat => "font size up"@,
        Amr::AnqisHajmKhat => "font size down"@,
        Amr::Iqaf => "pause"@,
        Amr::ArdIfsah => "show disclosure"@,
        Amr::Ighlaq => "close"@,
    }
}

pub open spec fn unwan_amr(amr: Amr) -> Seq<char> {
    match amr {
        Amr::Tabdeel => "تشغيل/إيقاف الطبقة"@,
        Amr::TarjimAlan => "ترجم الآن"@,
        Amr::TahrirManatiq => "تحرير المناطق"@,
        Amr::ArdSijill => "سجلّ القراءة"@,
        Amr::ZidAtaama => "زيادة العتامة"@,
        Amr::AnqisAtaama => "إنقاص العتامة"@,
        Amr::ZidHajmKhat => "تكبير الخط"@,
        Amr::AnqisHajmKhat => "تصغير الخط"@,
        Amr::Iqaf => "إيقاف مؤقّت"@,
        Amr::ArdIfsah => "عرض شرح الطبقة"@,
        Amr::Ighlaq => "إغلاق اللوحة"@,
    }
}

/// The chord a command ships bound to.
pub open spec fn iftiradi_amr(amr: Amr) -> Watar {
    let ts = Muaddil(3);
    match amr {
        Amr::Tabdeel => Watar { muaddilat: ts, miftah: RamzMiftah(0x17) },
        Amr::TarjimAlan => Watar { muaddilat: ts, miftah: RamzMiftah(0x28) },
        Amr::TahrirManatiq => Watar { muaddilat: ts, miftah: RamzMiftah(0x15) },
        Amr::ArdSijill => Watar { muaddilat: ts, miftah: RamzMiftah(0x0B) },
        Amr::ZidAtaama => Watar { muaddilat: ts, miftah: RamzMiftah(0x52) },
        Amr::AnqisAtaama => Watar { muaddilat: ts, miftah: RamzMiftah(0x51) },
        Amr::ZidHajmKhat => Watar { muaddilat: ts, miftah: RamzMiftah(0x4F) },
        Amr::AnqisHajmKhat => Watar { muaddilat: ts, miftah: RamzMiftah(0x50) },
        Amr::Iqaf => Watar { muaddilat: ts, miftah: RamzMiftah(0x13) },
        Amr::ArdIfsah => Watar { muaddilat: ts, miftah: RamzMiftah(0x0C) },
        Amr::Ighlaq => Watar { muaddilat: Muaddil(0), miftah: RamzMiftah(0x29) },
    }
}

impl Amr {
    /// Every command, in the order the main page lists them.
    pub fn jamee() -> (r: [Amr; 11])
        ensures
            r@ == jamee_awamir(),
    {
        let r = [
            Amr::Tabdeel,
            Amr::TarjimAlan,
            Amr::TahrirManatiq,
            Amr::ArdSijill,
            Amr::Iqaf,
            Amr::ZidAtaama,
            Amr::AnqisAtaama,
            Amr::ZidHajmKhat,
            Amr::AnqisHajmKhat,
            Amr::ArdIfsah,
            Amr::Ighlaq,
        ];
        assert(r@ =~= jamee_awamir());
        r
    }

    /// Where this command sits in [`Amr::jamee`].
    pub fn fahras(self) -> (r: usize)
        ensures
            r == fahras_amr(self),
    {
        match self {
            Amr::Tabdeel => 0,
            Amr::TarjimAlan => 1,
            Amr::TahrirManatiq => 2,
            Amr::ArdSijill => 3,
            Amr::Iqaf => 4,
            Amr::ZidAtaama => 5,
            Amr::AnqisAtaama => 6,
            Amr::ZidHajmKhat => 7,
            Amr::AnqisHajmKhat => 8,
            Amr::ArdIfsah => 9,
            Amr::Ighlaq => 10,
        }
    }

    /// The name used in the bindings file, in log lines and in a bug report.
    pub fn ism(self) -> (r: &'static str)
        ensures
            r@ == ism_amr(self),
    {
        match self {
            Amr::Tabdeel => "toggle",
            Amr::TarjimAlan => "translate now",
            Amr::TahrirManatiq => "edit regions",
            Amr::ArdSijill => "show history",
            Amr::ZidAtaama => "opacity up",
            Amr::AnqisAtaama => "opacity down",
            Amr::ZidHajmKhat => "font size up",
            Amr::AnqisHajmKhat => "font size down",
            Amr::Iqaf => "pause",
            Amr::ArdIfsah => "show disclosure",
            Amr::Ighlaq => "close",
        }
    }

    /// The label the panel shows, in Arabic.
    pub fn unwan(self) -> (r: &'static str)
        ensures
            r@ == unwan_amr(self),
    {
        match self {
            Amr::Tabdeel => "تشغيل/إيقاف الطبقة",
            Amr::TarjimAlan => "ترجم الآن",
            Amr::TahrirManatiq => "تحرير المناطق",
            Amr::ArdSijill => "سجلّ القراءة",
            Amr::ZidAtaama => "زيادة العتامة",
            Amr::AnqisAtaama => "إنقاص العتامة",
            Amr::ZidHajmKhat => "تكبير الخط",
            Amr::AnqisHajmKhat => "تصغير الخط",
            Amr::Iqaf => "إيقاف مؤقّت",
            Amr::ArdIfsah => "عرض شرح الطبقة",
            Amr::Ighlaq => "إغلاق اللوحة",
        }
    }

    /// What this command does, and what it costs when the answer is not
    /// obvious.
    pub fn wasf(self) -> (r: &'static str)
        ensures
            r@ == wasf_amr(self),
    {
        match self {
            Amr::Tabdeel => {
                "Stops the overlay drawing and stops it capturing. The hooks stay installed, \
                 so turning it back on is immediate."
            },
            Amr::TarjimAlan => {
                "Captures, reads and translates every enabled region on this frame, whatever \
                 their rules say. This is the one action that ignores the rate limit, so it \
                 costs one full pass over every region at once."
            },
            Amr::TahrirManatiq => {
                "Opens the region editor: draw a new region, drag one to move it, drag a \
                 corner to resize it. The game keeps running underneath."
            },
            Amr::ArdSijill => {
                "Shows every line that was read and translated this session, so a line that \
                 left the screen before you finished reading it can be read again."
            },
            Amr::ZidAtaama => "Makes the panel more opaque, in steps of five percent.",
            Amr::AnqisAtaama => {
                "Makes the panel more transparent, in steps of five percent, down to a floor \
                 that keeps it visible — a panel faded to nothing still swallows the keys \
                 you type at it."
            },
            Amr::ZidHajmKhat => "Enlarges the panel's own text. Does not affect the overlay.",
            Amr::AnqisHajmKhat => "Shrinks the panel's own text. Does not affect the overlay.",
            Amr::Iqaf => {
                "Stands the overlay down without unhooking it, for a cutscene or a fight \
                 where the frame cost matters more than the text."
            },
            Amr::ArdIfsah => {
                "Shows the tier-3 disclosure again, in full and unchanged, whenever you want \
                 to read what this method actually costs."
            },
            Amr::Ighlaq => {
                "Closes the panel and gives every key back to the game. The overlay keeps \
                 doing whatever it was doing."
            },
        }
    }

    /// Whether this command changes the overlay rather than the panel.
    pub fn yamiss_tabaqa(self) -> (r: bool)
        ensures
            r == (self == Amr::Tabdeel || self == Amr::TarjimAlan || self == Amr::Iqaf),
    {
        match self {
            Amr::Tabdeel | Amr::TarjimAlan | Amr::Iqaf => true,
            _ => false,
        }
    }

    /// The chord this command ships bound to: `Ctrl+Shift+…` for everything
    /// but closing the panel, which is bare Escape.
    pub fn iftiradi(self) -> (r: Watar)
        ensures
            r == iftiradi_amr(self),
    {
        let ts = Muaddil::tahakkum().ma(Muaddil::sift());
        let b = ts.0;
        assert(b == 3) by (bit_vector)
            requires
                b == (2u8 | 1u8),
        ;
        match self {
            Amr::Tabdeel => Watar::jadeed(ts, RamzMiftah(0x17)),
            Amr::TarjimAlan => Watar::jadeed(ts, RamzMiftah(0x28)),
            Amr::TahrirManatiq => Watar::jadeed(ts, RamzMiftah(0x15)),
            Amr::ArdSijill => Watar::jadeed(ts, RamzMiftah(0x0B)),
            Amr::ZidAtaama => Watar::jadeed(ts, RamzMiftah(0x52)),
            Amr::AnqisAtaama => Watar::jadeed(ts, RamzMiftah(0x51)),
            Amr::ZidHajmKhat => Watar::jadeed(ts, RamzMiftah(0x4F)),
            Amr::AnqisHajmKhat => Watar::jadeed(ts, RamzMiftah(0x50)),
            Amr::Iqaf => Watar::jadeed(ts, RamzMiftah(0x13)),
            Amr::ArdIfsah => Watar::jadeed(ts, RamzMiftah(0x0C)),
            Amr::Ighlaq => Watar::jadeed(Muaddil::la(), RamzMiftah(0x29)),
        }
    }
}

pub open spec fn wasf_amr(amr: Amr) -> Seq<char> {
    match amr {
        Amr::Tabdeel => "Stops the overlay drawing and stops it capturing. The hooks stay installed, \
             so turning it back on is immediate."@,
        Amr::TarjimAlan => "Captures, reads and translates every enabled region on this frame, whatever \
             their rules say. This is the one action that ignores the rate limit, so it \
             costs one full pass over every region at once."@,
        Amr::TahrirManatiq => "Opens the region editor: draw a new region, drag one to move it, drag a \
             corner to resize it. The game keeps running underneath."@,
        Amr::ArdSijill => "Shows every line that was read and translated this session, so a line that \
             left the screen before you finished reading it can be read again."@,
        Amr::ZidAtaama => "Makes the panel more opaque, in steps of five percent."@,
        Amr::AnqisAtaama => "Makes the panel more transparent, in steps of five percent, down to a floor \
             that keeps it visible — a panel faded to nothing still swallows the keys \
             you type at it."@,
        Amr::ZidHajmKhat => "Enlarges the panel's own text. Does not affect the overlay."@,
        Amr::AnqisHajmKhat => "Shrinks the panel's own text. Does not affect the overlay."@,
        Amr::Iqaf => "Stands the overlay down without unhooking it, for a cutscene or a fight \
             where the frame cost matters more than the text."@,
        Amr::ArdIfsah => "Shows the tier-3 disclosure again, in full and unchanged, whenever you want \
             to read what this method actually costs."@,
        Amr::Ighlaq => "Closes the panel and gives every key back to the game. The overlay keeps \
             doing whatever it was doing."@,
    }
}

/// The modifier keys held with a chord, as bits: shift 1, control 2, alt 4,
/// the windows or command key 8.
#[derive(Debug, Clone, Copy, PartialEq, Eq, Structural, PartialOrd, Ord, Hash, Default)]
pub struct Muaddil(pub u8);

/// The modifiers written the way a shortcut is written, `Ctrl+Shift+`.
pub open spec fn ism_muaddil(b: u8) -> Seq<char> {
    (if b & 2 == 2 { "Ctrl+"@ } else { Seq::<char>::empty() }) + (if b & 4 == 4 {
        "Alt+"@
    } else {
        Seq::<char>::empty()
    }) + (if b & 1 == 1 { "Shift+"@ } else { Seq::<char>::empty() }) + (if b & 8 == 8 {
        "Meta+"@
    } else {
        Seq::<char>::empty()
    })
}

impl Muaddil {
    /// No modifiers.
    pub fn la() -> (r: Self)
        ensures
            r.0 == 0,
    {
        Muaddil(0)
    }

    /// Either shift key.
    pub fn sift() -> (r: Self)
        ensures
            r.0 == 1,
    {
        Muaddil(1)
    }

    /// Either control key.
    pub fn tahakkum() -> (r: Self)
        ensures
            r.0 == 2,
    {
        Muaddil(2)
    }

    /// Either alt key, which is option on macOS.
    pub fn badeel() -> (r: Self)
        ensures
            r.0 == 4,
    {
        Muaddil(4)
    }

    /// Either windows or command key.
    pub fn nafidha() -> (r: Self)
        ensures
            r.0 == 8,
    {
        Muaddil(8)
    }

    /// This set with another added.
    pub fn ma(self, akhar: Self) -> (r: Self)
        ensures
            r.0 == self.0 | akhar.0,
    {
        Muaddil(self.0 | akhar.0)
    }

    /// This set with another removed.
    pub fn duna(self, akhar: Self) -> (r: Self)
        ensures
            r.0 == self.0 & !akhar.0,
    {
        Muaddil(self.0 & !akhar.0)
    }

    /// Whether every bit of `akhar` is present.
    pub fn yahwi(self, akhar: Self) -> (r: bool)
        ensures
            r == (self.0 & akhar.0 == akhar.0),
    {
        self.0 & akhar.0 == akhar.0
    }

    /// Whether nothing is held.
    pub fn khali(self) -> (r: bool)
        ensures
            r == (self.0 == 0),
    {
        self.0 == 0
    }

    /// The raw bits.
    pub fn bitat(self) -> (r: u8)
        ensures
            r == self.0,
    {
        self.0
    }

    /// Bits from a stored value, with anything this build does not know
    /// masked off.
    pub fn min_bitat(bitat: u8) -> (r: Self)
        ensures
            r.0 == bitat & 0x0F,
    {
        Muaddil(bitat & 0x0F)
    }

    /// The modifiers written the way a shortcut is written, `Ctrl+Shift+`:
    /// empty for none, and ending with `+` otherwise.
    pub fn ism(self) -> (r: String)
        ensures
            r@ == ism_muaddil(self.0),
    {
        let mut ism = String::new();
        if self.yahwi(Muaddil::tahakkum()) {
            ilhaq(&mut ism, "Ctrl+");
        }
        if self.yahwi(Muaddil::badeel()) {
            ilhaq(&mut ism, "Alt+");
        }
        if self.yahwi(Muaddil::sift()) {
            ilhaq(&mut ism, "Shift+");
        }
        if self.yahwi(Muaddil::nafidha()) {
            ilhaq(&mut ism, "Meta+");
        }
        assert(ism@ =~= ism_muaddil(self.0));
        ism
    }
}

/// A key, as a USB HID keyboard usage identifier.
#[derive(Debug, Clone, Copy, PartialEq, Eq, Structural, PartialOrd, Ord, Hash, Default)]
pub struct RamzMiftah(pub u16);

/// The name a shortcut is written with.
pub open spec fn ism_ramz(u: u16) -> Seq<char> {
    if u == 0 {
        "—"@
    } else if 0x04 <= u <= 0x1D {
        seq![((u - 0x04 + 65) as u32) as char]
    } else if 0x1E <= u <= 0x26 {
        ashri((u - 0x1D) as nat)
    } else if u == 0x27 {
        "0"@
    } else if u == 0x28 {
        "Enter"@
    } else if u == 0x29 {
        "Esc"@
    } else if u == 0x2A {
        "Backspace"@
    } else if u == 0x2B {
        "Tab"@
    } else if u == 0x2C {
        "Space"@
    } else if u == 0x2D {
        "-"@
    } else if u == 0x2E {
        "="@
    } else if u == 0x2F {
        "["@
    } else if u == 0x30 {
        "]"@
    } else if u == 0x31 {
        "\\"@
    } else if u == 0x33 {
        ";"@
    } else if u == 0x34 {
        "'"@
    } else if u == 0x35 {
        "`"@
    } else if u == 0x36 {
        ","@
    } else if u == 0x37 {
        "."@
    } else if u == 0x38 {
        "/"@
    } else if 0x3A <= u <= 0x45 {
        "F"@ + ashri((u - 0x39) as nat)
    } else if u == 0x46 {
        "PrintScreen"@
    } else if u == 0x47 {
        "ScrollLock"@
    } else if u == 0x48 {
        "Pause"@
    } else if u == 0x49 {
        "Insert"@
    } else if u == 0x4A {
        "Home"@
    } else if u == 0x4B {
        "PageUp"@
    } else if u == 0x4C {
        "Delete"@
    } else if u == 0x4D {
        "End"@
    } else if u == 0x4E {
        "PageDown"@
    } else if u == 0x4F {
        "Right"@
    } else if u == 0x50 {
        "Left"@
    } else if u == 0x51 {
        "Down"@
    } else if u == 0x52 {
        "Up"@
    } else {
        "HID 0x"@ + bi_hashw(sittat_ashar(u as nat), 2)
    }
}

/// The largest usage this build accepts.
pub const AQSA_RAMZ: u16 = 0x00FF;

impl RamzMiftah {
    /// No key at all, which is not a bindable chord.
    pub fn la_shay() -> (r: Self)
        ensures
            r.0 == 0,
    {
        RamzMiftah(0)
    }

    /// A key from a HID usage identifier, or no key when it is outside the
    /// keyboard page this build handles.
    pub fn min_hid(usage: u16) -> (r: Self)
        ensures
            r.0 == if usage > AQSA_RAMZ { 0 } else { usage },
    {
        if usage > AQSA_RAMZ {
            RamzMiftah(0)
        } else {
            RamzMiftah(usage)
        }
    }

    /// The raw usage identifier.
    pub fn hid(self) -> (r: u16)
        ensures
            r == self.0,
    {
        self.0
    }

    /// Whether this is a real key.
    pub fn salih(self) -> (r: bool)
        ensures
            r == (self.0 != 0),
    {
        self.0 != 0
    }

    /// The name a shortcut is written with; a key this table does not name is
    /// written as its raw usage, `HID 0x64`.
    pub fn ism(self) -> (r: String)
        ensures
            r@ == ism_ramz(self.0),
    {
        let u = self.0;
        if u == 0 {
            return min_nass("—");
        }
        if 0x04 <= u && u <= 0x1D {
            let mut r = String::new();
            adhif_harf(&mut r, ((u - 0x04) as u8 + 65u8) as char);
            assert(r@ =~= ism_ramz(u));
            return r;
        }
        if 0x1E <= u && u <= 0x26 {
            let mut r = String::new();
            aktub_ashri(&mut r, (u - 0x1D) as u64);
            assert(r@ =~= ism_ramz(u));
            return r;
        }
        if 0x3A <= u && u <= 0x45 {
            let mut r = min_nass("F");
            aktub_ashri(&mut r, (u - 0x39) as u64);
            return r;
        }
        let thabit: Option<&'static str> = if u == 0x27 {
            Some("0")
        } else if u == 0x28 {
            Some("Enter")
        } else if u == 0x29 {
            Some("Esc")
        } else if u == 0x2A {
            Some("Backspace")
        } else if u == 0x2B {
            Some("Tab")
        } else if u == 0x2C {
            Some("Space")
        } else if u == 0x2D {
            Some("-")
        } else if u == 0x2E {
            Some("=")
        } else if u == 0x2F {
            Some("[")
        } else if u == 0x30 {
            Some("]")
        } else if u == 0x31 {
            Some("\\")
        } else if u == 0x33 {
            Some(";")
        } else if u == 0x34 {
            Some("'")
        } else if u == 0x35 {
            Some("`")
        } else if u == 0x36 {
            Some(",")
        } else if u == 0x37 {
            Some(".")
        } else if u == 0x38 {
            Some("/")
        } else if u == 0x46 {
            Some("PrintScreen")
        } else if u == 0x47 {
            Some("ScrollLock")
        } else if u == 0x48 {
            Some("Pause")
        } else if u == 0x49 {
            Some("Insert")
        } else if u == 0x4A {
            Some("Home")
        } else if u == 0x4B {
            Some("PageUp")
        } else if u == 0x4C {
            Some("Delete")
        } else if u == 0x4D {
            Some("End")
        } else if u == 0x4E {
            Some("PageDown")
        } else if u == 0x4F {
            Some("Right")
        } else if u == 0x50 {
            Some("Left")
        } else if u == 0x51 {
            Some("Down")
        } else if u == 0x52 {
            Some("Up")
        } else {
            None
        };
        match thabit {
            Some(t) => min_nass(t),
            None => {
                let mut r = min_nass("HID 0x");
                aktub_sittat_ashar(&mut r, u as u64, 2);
                r
            },
        }
    }
}

/// A key with its modifiers: one shortcut.
#[derive(Debug, Clone, Copy, PartialEq, Eq, Structural, PartialOrd, Ord, Hash, Default)]
pub struct Watar {
    /// Which modifiers are held.
    pub muaddilat: Muaddil,
    /// Which key is pressed.
    pub miftah: RamzMiftah,
}

/// Whether a chord can be bound to anything: it has a key.
pub open spec fn watar_salih(w: Watar) -> bool {
    w.miftah.0 != 0
}

/// A chord as the hook saw it, unknown modifier bits and out-of-range keys
/// discarded.
pub open spec fn watar_min_khaam(bitat: u8, usage: u16) -> Watar {
    Watar {
        muaddilat: Muaddil(bitat & 0x0F),
        miftah: RamzMiftah(if usage > AQSA_RAMZ { 0 } else { usage }),
    }
}

/// The empty chord: no modifiers, no key.
pub open spec fn watar_farigh() -> Watar {
    Watar { muaddilat: Muaddil(0), miftah: RamzMiftah(0) }
}

impl Watar {
    /// A chord from its parts.
    pub fn jadeed(muaddilat: Muaddil, miftah: RamzMiftah) -> (r: Self)
        ensures
            r == (Watar { muaddilat, miftah }),
    {
        Watar { muaddilat, miftah }
    }

    /// The empty chord, which is what an unbound command holds.
    pub fn farigh() -> (r: Self)
        ensures
            r == watar_farigh(),
    {
        Watar { muaddilat: Muaddil(0), miftah: RamzMiftah(0) }
    }

    /// A chord as the hook saw it, with unknown modifier bits and out-of-range
    /// keys discarded.
    pub fn min_khaam(bitat: u8, usage: u16) -> (r: Self)
        ensures
            r == watar_min_khaam(bitat, usage),
    {
        Watar { muaddilat: Muaddil::min_bitat(bitat), miftah: RamzMiftah::min_hid(usage) }
    }

    /// Whether this chord can be bound to anything.
    pub fn salih(self) -> (r: bool)
        ensures
            r == watar_salih(self),
    {
        self.miftah.salih()
    }

    /// The shortcut as it is written in the panel: `Ctrl+Shift+T`.
    pub fn ism(self) -> (r: String)
        ensures
            r@ == ism_muaddil(self.muaddilat.0) + ism_ramz(self.miftah.0),
    {
        let mut r = self.muaddilat.ism();
        let k = self.miftah.ism();
        ilhaq(&mut r, k.as_str());
        r
    }
}


/// The answer to a request to rebind a chord.
#[derive(Debug, Clone, Copy, PartialEq, Eq, Structural)]
pub enum NatijatRabt {
    /// The chord is now bound to the requested command.
    Rubita,
    /// The chord has no key, only modifiers, and cannot be bound.
    WatarKhali,
    /// Another command already holds it.
    Tanazu {
        /// Which command.
        sahib: Amr,
        /// The chord that is taken.
        watar: Watar,
    },
}

impl NatijatRabt {
    /// Whether the binding was made.
    pub fn najahat(self) -> (r: bool)
        ensures
            r == (self is Rubita),
    {
        match self {
            NatijatRabt::Rubita => true,
            _ => false,
        }
    }

    /// The sentence the rebinding row shows, in Arabic.
    pub fn unwan(self) -> (r: String)
        ensures
            r@ == match self {
                NatijatRabt::Rubita => "تمّ الربط."@,
                NatijatRabt::WatarKhali => "لا يمكن ربط مفاتيح التعديل وحدها؛ اختر مفتاحًا معها."@,
                NatijatRabt::Tanazu { sahib, watar } => "الاختصار ("@ + ism_muaddil(
                    watar.muaddilat.0,
                ) + ism_ramz(watar.miftah.0) + ") مرتبط بالفعل بـ("@ + unwan_amr(sahib) + ")."@,
            },
    {
        match self {
            NatijatRabt::Rubita => min_nass("تمّ الربط."),
            NatijatRabt::WatarKhali => min_nass("لا يمكن ربط مفاتيح التعديل وحدها؛ اختر مفتاحًا معها."),
            NatijatRabt::Tanazu { sahib, watar } => {
                let mut r = min_nass("الاختصار (");
                let w = watar.ism();
                ilhaq(&mut r, w.as_str());
                ilhaq(&mut r, ") مرتبط بالفعل بـ(");
                ilhaq(&mut r, sahib.unwan());
                ilhaq(&mut r, ").");
                assert(r@ =~= "الاختصار ("@ + ism_muaddil(watar.muaddilat.0) + ism_ramz(
                    watar.miftah.0,
                ) + ") مرتبط بالفعل بـ("@ + unwan_amr(sahib) + ")."@);
                r
            },
        }
    }

    /// The same sentence in English, for a log line.
    pub fn wasf(self) -> (r: String)
        ensures
            r@ == match self {
                NatijatRabt::Rubita => "bound"@,
                NatijatRabt::WatarKhali => "a chord needs a key, not modifiers alone"@,
                NatijatRabt::Tanazu { sahib, watar } => ism_muaddil(watar.muaddilat.0) + ism_ramz(
                    watar.miftah.0,
                ) + " is already bound to "@ + ism_amr(sahib),
            },
    {
        match self {
            NatijatRabt::Rubita => min_nass("bound"),
            NatijatRabt::WatarKhali => min_nass("a chord needs a key, not modifiers alone"),
            NatijatRabt::Tanazu { sahib, watar } => {
                let mut r = watar.ism();
                ilhaq(&mut r, " is already bound to ");
                ilhaq(&mut r, sahib.ism());
                r
            },
        }
    }
}

/// No two commands hold the same bindable chord.
pub open spec fn bila_tanazu(r: Seq<Watar>) -> bool {
    forall|i: int, j: int|
        0 <= i < r.len() && 0 <= j < r.len() && i != j && watar_salih(#[trigger] r[i]) ==> r[i]
            != #[trigger] r[j]
}

/// The table this build ships: every command on its default chord.
pub open spec fn jadwal_iftiradi() -> Seq<Watar> {
    Seq::new(11, |i: int| iftiradi_amr(jamee_awamir()[i]))
}

/// Which chord a row of a stored table becomes when it is read back: masked,
/// clamped, and emptied when it is not bindable or an earlier row already
/// holds it.
pub open spec fn saf_musahhah(sabiq: Seq<Watar>, w: Watar) -> Watar {
    let m = watar_min_khaam(w.muaddilat.0, w.miftah.0);
    if !watar_salih(m) || sabiq.contains(m) {
        watar_farigh()
    } else {
        m
    }
}

/// A stored table, read back in command order.
pub open spec fn jadwal_musahhah(r: Seq<Watar>) -> Seq<Watar>
    decreases r.len(),
{
    if r.len() == 0 {
        Seq::empty()
    } else {
        let p = jadwal_musahhah(r.drop_last());
        p.push(saf_musahhah(p, r.last()))
    }
}

/// Where the command at place `k` of the order `Amr` sorts in, its
/// declaration order, sits in [`jamee_awamir`].
pub open spec fn min_martaba(k: int) -> int {
    if k < 4 {
        k
    } else if k < 8 {
        k + 1
    } else if k == 8 {
        4
    } else {
        k
    }
}

/// Where the command at place `i` of [`jamee_awamir`] sorts among all
/// commands.
pub open spec fn ila_martaba(i: int) -> int {
    if i < 4 {
        i
    } else if i == 4 {
        8
    } else if i < 9 {
        i - 1
    } else {
        i
    }
}

/// Where a command sorts among all commands: its declaration order.
pub open spec fn martaba_amr(amr: Amr) -> int {
    match amr {
        Amr::Tabdeel => 0,
        Amr::TarjimAlan => 1,
        Amr::TahrirManatiq => 2,
        Amr::ArdSijill => 3,
        Amr::ZidAtaama => 4,
        Amr::AnqisAtaama => 5,
        Amr::ZidHajmKhat => 6,
        Amr::AnqisHajmKhat => 7,
        Amr::Iqaf => 8,
        Amr::ArdIfsah => 9,
        Amr::Ighlaq => 10,
    }
}

/// A stored table, one row per command in [`jamee_awamir`] order, read back
/// in the order the commands sort in, so that of two commands holding the
/// same chord the one that sorts first keeps it.
pub open spec fn jadwal_musahhah_murattab(r: Seq<Watar>) -> Seq<Watar> {
    let m = jadwal_musahhah(Seq::new(11, |k: int| r[min_martaba(k)]));
    Seq::new(11, |i: int| m[ila_martaba(i)])
}

/// A cleaned row that is bindable is held by it or by a row before it.
proof fn lemma_musahhah_mawjud(r: Seq<Watar>, k: int)
    requires
        0 <= k < r.len(),
        watar_salih(watar_min_khaam(r[k].muaddilat.0, r[k].miftah.0)),
    ensures
        jadwal_musahhah(r).len() == r.len(),
        exists|j: int|
            0 <= j <= k && jadwal_musahhah(r)[j] == watar_min_khaam(r[k].muaddilat.0, r[k].miftah.0),
    decreases r.len(),
{
    lemma_musahhah_tul(r);
    let d = r.drop_last();
    lemma_musahhah_tul(d);
    let p = jadwal_musahhah(d);
    let m = watar_min_khaam(r[k].muaddilat.0, r[k].miftah.0);
    if k < r.len() - 1 {
        assert(d[k] == r[k]);
        lemma_musahhah_mawjud(d, k);
        let j = choose|j: int| 0 <= j <= k && p[j] == m;
        assert(jadwal_musahhah(r)[j] == p[j]);
    } else {
        assert(r.last() == r[k]);
        if p.contains(m) {
            let j = choose|j: int| 0 <= j < p.len() && p[j] == m;
            assert(jadwal_musahhah(r)[j] == p[j]);
        } else {
            assert(jadwal_musahhah(r)[k] == m);
        }
    }
}

proof fn lemma_musahhah_tul(r: Seq<Watar>)
    ensures
        jadwal_musahhah(r).len() == r.len(),
    decreases r.len(),
{
    if r.len() > 0 {
        lemma_musahhah_tul(r.drop_last());
    }
}

/// A cleaned row whose chord a row before it already holds is emptied.
proof fn lemma_musahhah_tali(r: Seq<Watar>, j: int, k: int)
    requires
        0 <= j < k < r.len(),
        jadwal_musahhah(r.take(k))[j] == watar_min_khaam(r[k].muaddilat.0, r[k].miftah.0),
    ensures
        jadwal_musahhah(r)[k] == watar_farigh(),
    decreases r.len(),
{
    lemma_musahhah_tul(r);
    if k < r.len() - 1 {
        let d = r.drop_last();
        assert(d.take(k) =~= r.take(k));
        assert(d[k] == r[k]);
        lemma_musahhah_tali(d, j, k);
        lemma_musahhah_tul(d);
    } else {
        assert(r.take(k) =~= r.drop_last());
        lemma_musahhah_tul(r.drop_last());
        assert(jadwal_musahhah(r.drop_last()).contains(watar_min_khaam(r[k].muaddilat.0, r[k].miftah.0)));
    }
}

/// Of two commands whose stored rows name the same bindable chord, the one
/// that sorts later ends up unbound when the table is read back: the chord
/// stays with the command that sorts first, or with one sorting before it.
pub proof fn qanun_al_awwal_fi_al_tartib_yahfaz(r: Seq<Watar>, a: Amr, b: Amr)
    requires
        r.len() == 11,
        martaba_amr(a) < martaba_amr(b),
        watar_min_khaam(r[fahras_amr(a)].muaddilat.0, r[fahras_amr(a)].miftah.0) == watar_min_khaam(
            r[fahras_amr(b)].muaddilat.0,
            r[fahras_amr(b)].miftah.0,
        ),
        watar_salih(watar_min_khaam(r[fahras_amr(a)].muaddilat.0, r[fahras_amr(a)].miftah.0)),
    ensures
        jadwal_musahhah_murattab(r)[fahras_amr(b)] == watar_farigh(),
{
    let s = Seq::new(11, |k: int| r[min_martaba(k)]);
    let ka = martaba_amr(a);
    let kb = martaba_amr(b);
    assert(s[ka] == r[fahras_amr(a)]);
    assert(s[kb] == r[fahras_amr(b)]);
    let t = s.take(kb);
    assert(t[ka] == s[ka]);
    lemma_musahhah_mawjud(t, ka);
    let j = choose|j: int|
        0 <= j <= ka && jadwal_musahhah(t)[j] == watar_min_khaam(t[ka].muaddilat.0, t[ka].miftah.0);
    lemma_musahhah_tali(s, j, kb);
    assert(ila_martaba(fahras_amr(b)) == kb);
}

/// The chord the last stored row for a command names, or the command's
/// default when no row names it.
pub open spec fn watar_min_sufuf(sufuf: Seq<(Amr, Watar)>, amr: Amr) -> Watar
    decreases sufuf.len(),
{
    if sufuf.len() == 0 {
        iftiradi_amr(amr)
    } else if sufuf.last().0 == amr {
        sufuf.last().1
    } else {
        watar_min_sufuf(sufuf.drop_last(), amr)
    }
}

/// The keyboard table: one chord per command, rebindable, conflict-checked.
#[derive(Debug, Clone)]
pub struct Ikhtisarat {
    rubut: Vec<Watar>,
}

impl View for Ikhtisarat {
    type V = Seq<Watar>;

    /// The chord of each command, in [`Amr::jamee`] order.
    closed spec fn view(&self) -> Seq<Watar> {
        self.rubut@
    }
}

impl Ikhtisarat {
    /// Every command has a row and no bindable chord is held twice.
    pub open spec fn salim(&self) -> bool {
        self@.len() == 11 && bila_tanazu(self@)
    }

    /// The chord held by a command.
    pub open spec fn watar_s(&self, amr: Amr) -> Watar {
        self@[fahras_amr(amr)]
    }

    /// The table this build ships with.
    pub fn iftiradiya() -> (r: Self)
        ensures
            r.salim(),
            r@ == jadwal_iftiradi(),
    {
        let jamee = Amr::jamee();
        let mut rubut: Vec<Watar> = Vec::new();
        let mut i: usize = 0;
        while i < 11
            invariant
                i <= 11,
                jamee@ == jamee_awamir(),
                rubut@ == jadwal_iftiradi().take(i as int),
            decreases 11 - i,
        {
            rubut.push(jamee[i].iftiradi());
            i = i + 1;
            assert(rubut@ =~= jadwal_iftiradi().take(i as int));
        }
        assert(rubut@ =~= jadwal_iftiradi());
        let r = Ikhtisarat { rubut };
        proof {
            lemma_jadwal_iftiradi_salim();
        }
        r
    }

    /// Checks the bindings file's bytes before they are read as a table: JSON,
    /// an object, and stamped in the field `haql` with the one schema version
    /// this build reads and writes. A file from another version is refused,
    /// never migrated: it was written by a build that knew other commands.
    pub fn fahs_malaf(bayt: &[u8], haql: &str) -> (r: Result<QeemaJson, String>)
        ensures
            natija_json(r) == fahs_mukhattat_s(
                bayt@,
                haql@,
                ISDAR_IKHTISARAT as nat,
                Seq::empty(),
                dhayl_isdar_ikhtisarat(),
            ),
    {
        let r = fahs_mukhattat(
            bayt,
            haql,
            ISDAR_IKHTISARAT,
            "",
            "It was written by a build that knew commands this one does not, and saving over it would unbind them.",
        );
        proof {
            reveal_strlit("");
        }
        r
    }

    /// The table a read ends with: the shipped defaults when there was no
    /// file yet, else the rows the file held, cleaned as
    /// [`Ikhtisarat::min_sufuf`] cleans them.
    pub fn min_qiraa(sufuf: Option<&Vec<(Amr, Watar)>>) -> (r: Self)
        ensures
            r.salim(),
            sufuf is None ==> r@ == jadwal_iftiradi(),
            sufuf matches Some(s) ==> r@ == jadwal_musahhah_murattab(
                Seq::new(11, |i: int| watar_min_sufuf(s@, jamee_awamir()[i])),
            ),
    {
        match sufuf {
            None => Ikhtisarat::iftiradiya(),
            Some(s) => Ikhtisarat::min_sufuf(s),
        }
    }

    /// A table read back from what was stored: each command takes the last
    /// row that names it, or its default when none does, and the result is
    /// then cleaned as [`jadwal_musahhah_murattab`] says, a chord two commands
    /// name staying with the one that sorts first.
    pub fn min_sufuf(sufuf: &Vec<(Amr, Watar)>) -> (r: Self)
        ensures
            r.salim(),
            r@ == jadwal_musahhah_murattab(
                Seq::new(11, |i: int| watar_min_sufuf(sufuf@, jamee_awamir()[i])),
            ),
    {
        let mut khaam = Ikhtisarat::iftiradiya().rubut;
        let mut k: usize = 0;
        proof {
            lemma_fahras_amr();
            assert(sufuf@.take(0) =~= Seq::<(Amr, Watar)>::empty());
        }
        while k < sufuf.len()
            invariant
                k <= sufuf@.len(),
                khaam@.len() == 11,
                forall|i: int|
                    0 <= i < 11 ==> #[trigger] khaam@[i] == watar_min_sufuf(
                        sufuf@.take(k as int),
                        jamee_awamir()[i],
                    ),
            decreases sufuf@.len() - k,
        {
            let (amr, watar) = sufuf[k];
            let f = amr.fahras();
            khaam.set(f, watar);
            proof {
                lemma_fahras_amr();
                assert forall|i: int| 0 <= i < 11 implies #[trigger] khaam@[i] == watar_min_sufuf(
                    sufuf@.take(k + 1),
                    jamee_awamir()[i],
                ) by {
                    assert(sufuf@.take(k + 1).drop_last() =~= sufuf@.take(k as int));
                    assert(sufuf@.take(k + 1).last() == sufuf@[k as int]);
                }
            }
            k = k + 1;
        }
        proof {
            assert(sufuf@.take(sufuf@.len() as int) =~= sufuf@);
        }
        let ghost asl = khaam@;
        assert(asl =~= Seq::new(11, |i: int| watar_min_sufuf(sufuf@, jamee_awamir()[i])));
        let rubut = sahhih_murattab(&khaam);
        Ikhtisarat { rubut }
    }

    /// The chord bound to a command.
    pub fn watar(&self, amr: Amr) -> (r: Watar)
        requires
            self.salim(),
        ensures
            r == self.watar_s(amr),
    {
        proof {
            lemma_fahras_amr();
        }
        self.rubut[amr.fahras()]
    }

    /// Every binding, in command order.
    pub fn rubut(&self) -> (r: Vec<(Amr, Watar)>)
        requires
            self.salim(),
        ensures
            r@.len() == 11,
            forall|i: int| 0 <= i < 11 ==> #[trigger] r@[i] == (jamee_awamir()[i], self@[i]),
    {
        let jamee = Amr::jamee();
        let mut r: Vec<(Amr, Watar)> = Vec::new();
        let mut i: usize = 0;
        while i < 11
            invariant
                i <= 11,
                jamee@ == jamee_awamir(),
                self.salim(),
                r@.len() == i,
                forall|j: int| 0 <= j < i ==> #[trigger] r@[j] == (jamee_awamir()[j], self@[j]),
            decreases 11 - i,
        {
            r.push((jamee[i], self.rubut[i]));
            i = i + 1;
        }
        r
    }

    /// Which command a chord fires, if any: the one that holds it, when it
    /// is bindable.
    pub fn amr_li(&self, watar: Watar) -> (r: Option<Amr>)
        requires
            self.salim(),
        ensures
            r matches Some(amr) ==> watar_salih(watar) && self.watar_s(amr) == watar,
            r is None ==> !watar_salih(watar) || forall|amr: Amr| self.watar_s(amr) != watar,
    {
        if !watar.salih() {
            return None;
        }
        let jamee = Amr::jamee();
        let mut i: usize = 0;
        proof {
            lemma_fahras_amr();
        }
        while i < 11
            invariant
                i <= 11,
                jamee@ == jamee_awamir(),
                self.salim(),
                watar_salih(watar),
                forall|j: int| 0 <= j < i ==> self@[j] != watar,
            decreases 11 - i,
        {
            if self.rubut[i] == watar {
                proof {
                    lemma_fahras_amr();
                    assert(fahras_amr(jamee_awamir()[i as int]) == i as int);
                }
                return Some(jamee[i]);
            }
            i = i + 1;
        }
        None
    }

    /// Which command other than `nafsuhu` holds a chord, if any.
    pub fn tanazu(&self, watar: Watar, nafsuhu: Amr) -> (r: Option<Amr>)
        requires
            self.salim(),
        ensures
            r matches Some(amr) ==> watar_salih(watar) && amr != nafsuhu && self.watar_s(amr)
                == watar,
            r is None ==> !watar_salih(watar) || forall|amr: Amr|
                amr != nafsuhu ==> self.watar_s(amr) != watar,
    {
        if !watar.salih() {
            return None;
        }
        let jamee = Amr::jamee();
        let mut i: usize = 0;
        proof {
            lemma_fahras_amr();
        }
        while i < 11
            invariant
                i <= 11,
                jamee@ == jamee_awamir(),
                self.salim(),
                watar_salih(watar),
                forall|j: int| 0 <= j < i && j != fahras_amr(nafsuhu) ==> self@[j] != watar,
            decreases 11 - i,
        {
            if jamee[i] != nafsuhu && self.rubut[i] == watar {
                proof {
                    lemma_fahras_amr();
                    assert(fahras_amr(jamee_awamir()[i as int]) == i as int);
                }
                return Some(jamee[i]);
            }
            proof {
                lemma_fahras_amr();
            }
            i = i + 1;
        }
        None
    }

    /// Binds a chord to a command, refusing one that has no key and one that
    /// another command already holds.
    pub fn arbut(&mut self, amr: Amr, watar: Watar) -> (r: NatijatRabt)
        requires
            old(self).salim(),
        ensures
            final(self).salim(),
            r == NatijatRabt::WatarKhali <==> !watar_salih(watar),
            r == NatijatRabt::Rubita <==> watar_salih(watar) && forall|a: Amr|
                a != amr ==> old(self).watar_s(a) != watar,
            r matches NatijatRabt::Tanazu { sahib, watar: w } ==> w == watar && sahib != amr
                && old(self).watar_s(sahib) == watar,
            r == NatijatRabt::Rubita ==> final(self)@ == old(self)@.update(fahras_amr(amr), watar),
            r != NatijatRabt::Rubita ==> final(self)@ == old(self)@,
    {
        if !watar.salih() {
            return NatijatRabt::WatarKhali;
        }
        if let Some(sahib) = self.tanazu(watar, amr) {
            return NatijatRabt::Tanazu { sahib, watar };
        }
        proof {
            lemma_fahras_amr();
        }
        let f = amr.fahras();
        self.rubut.set(f, watar);
        proof {
            assert forall|i: int, j: int|
                0 <= i < 11 && 0 <= j < 11 && i != j && watar_salih(#[trigger] self@[i]) implies self@[i]
                != #[trigger] self@[j] by {
                if i == f as int {
                    assert(old(self).watar_s(jamee_awamir()[j]) != watar);
                } else if j == f as int {
                    assert(old(self).watar_s(jamee_awamir()[i]) != watar);
                }
            }
        }
        NatijatRabt::Rubita
    }

    /// Removes a command's chord, leaving it reachable only from the panel.
    pub fn ifsil(&mut self, amr: Amr)
        requires
            old(self).salim(),
        ensures
            final(self).salim(),
            final(self)@ == old(self)@.update(fahras_amr(amr), watar_farigh()),
    {
        proof {
            lemma_fahras_amr();
        }
        self.rubut.set(amr.fahras(), Watar::farigh());
    }

    /// Puts one command back to its shipped chord, unbinding whichever
    /// command held it.
    pub fn aid_amr(&mut self, amr: Amr)
        requires
            old(self).salim(),
        ensures
            final(self).salim(),
            final(self).watar_s(amr) == iftiradi_amr(amr),
            forall|a: Amr|
                a != amr ==> #[trigger] final(self).watar_s(a) == if old(self).watar_s(a)
                    == iftiradi_amr(amr) {
                    watar_farigh()
                } else {
                    old(self).watar_s(a)
                },
    {
        proof {
            lemma_fahras_amr();
        }
        let iftiradi = amr.iftiradi();
        let sahib_opt = self.tanazu(iftiradi, amr);
        let ghost f = fahras_amr(amr);
        let ghost s: int = match sahib_opt {
            Some(sahib) => fahras_amr(sahib),
            None => -1,
        };
        if let Some(sahib) = sahib_opt {
            self.rubut.set(sahib.fahras(), Watar::farigh());
        }
        self.rubut.set(amr.fahras(), iftiradi);
        proof {
            assert(watar_salih(iftiradi_amr(amr)));
            assert forall|k: int| 0 <= k < 11 && k != f && k != s implies old(self)@[k]
                != iftiradi_amr(amr) by {
                let ak = jamee_awamir()[k];
                assert(fahras_amr(ak) == k);
                match sahib_opt {
                    Some(sahib) => {
                        assert(old(self)@[s] == iftiradi_amr(amr));
                    },
                    None => {
                        assert(old(self).watar_s(ak) != iftiradi_amr(amr));
                    },
                }
            }
            assert forall|i: int, j: int|
                0 <= i < 11 && 0 <= j < 11 && i != j && watar_salih(#[trigger] self@[i]) implies self@[i]
                != #[trigger] self@[j] by {
                if i == f {
                } else if j == f {
                } else if i == s {
                } else if j == s {
                } else {
                    assert(self@[i] == old(self)@[i]);
                    assert(self@[j] == old(self)@[j]);
                }
            }
            assert forall|a: Amr| a != amr implies #[trigger] self.watar_s(a) == if old(
                self,
            ).watar_s(a) == iftiradi_amr(amr) {
                watar_farigh()
            } else {
                old(self).watar_s(a)
            } by {}
        }
    }

    /// Puts the whole table back to what this build ships.
    pub fn aid_taayeen(&mut self)
        ensures
            final(self).salim(),
            final(self)@ == jadwal_iftiradi(),
    {
        *self = Ikhtisarat::iftiradiya();
    }
}

/// The shipped table holds no chord twice.
pub proof fn lemma_jadwal_iftiradi_salim()
    ensures
        jadwal_iftiradi().len() == 11,
        bila_tanazu(jadwal_iftiradi()),
{
    let r = jadwal_iftiradi();
    assert forall|i: int, j: int|
        0 <= i < r.len() && 0 <= j < r.len() && i != j && watar_salih(#[trigger] r[i]) implies r[i]
        != #[trigger] r[j] by {}
}

/// Cleans a stored table: see [`jadwal_musahhah`].
fn sahhih(khaam: &Vec<Watar>) -> (r: Vec<Watar>)
    ensures
        r@ == jadwal_musahhah(khaam@),
        r@.len() == khaam@.len(),
        bila_tanazu(r@),
{
    let mut r: Vec<Watar> = Vec::new();
    let mut i: usize = 0;
    proof {
        assert(khaam@.take(0) =~= Seq::<Watar>::empty());
    }
    while i < khaam.len()
        invariant
            i <= khaam@.len(),
            r@ == jadwal_musahhah(khaam@.take(i as int)),
            r@.len() == i,
            bila_tanazu(r@),
        decreases khaam@.len() - i,
    {
        let w = khaam[i];
        let m = Watar::min_khaam(w.muaddilat.bitat(), w.miftah.hid());
        let mut mawjud = false;
        let mut j: usize = 0;
        while j < r.len()
            invariant
                j <= r@.len(),
                mawjud == exists|k: int| 0 <= k < j && r@[k] == m,
            decreases r@.len() - j,
        {
            if r[j] == m {
                mawjud = true;
            }
            j = j + 1;
        }
        assert(mawjud == r@.contains(m));
        let nihai = if !m.salih() || mawjud {
            Watar::farigh()
        } else {
            m
        };
        let ghost sabiq = r@;
        r.push(nihai);
        proof {
            assert(khaam@.take(i + 1).drop_last() =~= khaam@.take(i as int));
            assert(khaam@.take(i + 1).last() == khaam@[i as int]);
            assert forall|a: int, b: int|
                0 <= a < r@.len() && 0 <= b < r@.len() && a != b && watar_salih(#[trigger] r@[a])
                implies r@[a] != #[trigger] r@[b] by {
                if a == i as int {
                    assert(sabiq[b] == r@[b]);
                } else if b == i as int {
                    if watar_salih(nihai) {
                        assert(!sabiq.contains(m));
                        assert(sabiq[a] == r@[a]);
                    }
                }
            }
        }
        i = i + 1;
    }
    proof {
        assert(khaam@.take(khaam@.len() as int) =~= khaam@);
    }
    r
}

fn min_martaba_x(k: usize) -> (r: usize)
    requires
        k < 11,
    ensures
        r == min_martaba(k as int),
        r < 11,
{
    if k < 4 {
        k
    } else if k < 8 {
        k + 1
    } else if k == 8 {
        4
    } else {
        k
    }
}

fn ila_martaba_x(i: usize) -> (r: usize)
    requires
        i < 11,
    ensures
        r == ila_martaba(i as int),
        r < 11,
{
    if i < 4 {
        i
    } else if i == 4 {
        8
    } else if i < 9 {
        i - 1
    } else {
        i
    }
}

/// Cleans a stored table in the order the commands sort in: see
/// [`jadwal_musahhah_murattab`].
fn sahhih_murattab(khaam: &Vec<Watar>) -> (r: Vec<Watar>)
    requires
        khaam@.len() == 11,
    ensures
        r@ == jadwal_musahhah_murattab(khaam@),
        r@.len() == 11,
        bila_tanazu(r@),
{
    let mut murattab: Vec<Watar> = Vec::new();
    let mut k: usize = 0;
    while k < 11
        invariant
            k <= 11,
            khaam@.len() == 11,
            murattab@ =~= Seq::new(k as nat, |j: int| khaam@[min_martaba(j)]),
        decreases 11 - k,
    {
        murattab.push(khaam[min_martaba_x(k)]);
        k = k + 1;
    }
    let m = sahhih(&murattab);
    let mut r: Vec<Watar> = Vec::new();
    let mut i: usize = 0;
    while i < 11
        invariant
            i <= 11,
            m@.len() == 11,
            r@ =~= Seq::new(i as nat, |j: int| m@[ila_martaba(j)]),
        decreases 11 - i,
    {
        r.push(m[ila_martaba_x(i)]);
        i = i + 1;
    }
    proof {
        assert(r@ =~= jadwal_musahhah_murattab(khaam@));
        assert forall|a: int, b: int|
            0 <= a < r@.len() && 0 <= b < r@.len() && a != b && watar_salih(#[trigger] r@[a]) implies r@[a]
            != #[trigger] r@[b] by {
            assert(r@[a] == m@[ila_martaba(a)]);
            assert(r@[b] == m@[ila_martaba(b)]);
            assert(ila_martaba(a) != ila_martaba(b));
        }
    }
    r
}

/// In a well-formed table a bindable chord belongs to one command at most, so
/// the command [`Ikhtisarat::amr_li`] finds for a chord is the only one that
/// holds it.
pub proof fn qanun_watar_li_amr_wahid(t: Ikhtisarat, w: Watar, a: Amr, b: Amr)
    requires
        t.salim(),
        watar_salih(w),
        t.watar_s(a) == w,
        t.watar_s(b) == w,
    ensures
        a == b,
{
    lemma_fahras_amr();
    if a != b {
        assert(fahras_amr(a) != fahras_amr(b)) by {
            assert(jamee_awamir()[fahras_amr(a)] == a);
            assert(jamee_awamir()[fahras_amr(b)] == b);
        }
        assert(t@[fahras_amr(a)] != t@[fahras_amr(b)]);
    }
}

/// Which page of the panel is showing.
#[derive(Debug, Clone, Copy, PartialEq, Eq, Structural, PartialOrd, Ord, Hash)]
pub enum SafhatLawha {
    /// State, the main actions, and where everything else is.
    Raisiya,
    /// The region list and the editor's own instructions.
    Manatiq,
    /// The reading history.
    Sijill,
    /// The tier-3 disclosure, verbatim.
    Ifsah,
    /// The frame cost, verbatim.
    Meezaniya,
}

impl SafhatLawha {
    /// Every page, in tab order.
    pub fn jamee() -> (r: [SafhatLawha; 5])
        ensures
            r@ == seq![
                SafhatLawha::Raisiya,
                SafhatLawha::Manatiq,
                SafhatLawha::Sijill,
                SafhatLawha::Meezaniya,
                SafhatLawha::Ifsah,
            ],
    {
        let r = [
            SafhatLawha::Raisiya,
            SafhatLawha::Manatiq,
            SafhatLawha::Sijill,
            SafhatLawha::Meezaniya,
            SafhatLawha::Ifsah,
        ];
        assert(r@ =~= seq![
            SafhatLawha::Raisiya,
            SafhatLawha::Manatiq,
            SafhatLawha::Sijill,
            SafhatLawha::Meezaniya,
            SafhatLawha::Ifsah,
        ]);
        r
    }

    /// The name used in a log line.
    pub fn ism(self) -> (r: &'static str)
        ensures
            r@ == match self {
                SafhatLawha::Raisiya => "main"@,
                SafhatLawha::Manatiq => "regions"@,
                SafhatLawha::Sijill => "history"@,
                SafhatLawha::Ifsah => "disclosure"@,
                SafhatLawha::Meezaniya => "budget"@,
            },
    {
        match self {
            SafhatLawha::Raisiya => "main",
            SafhatLawha::Manatiq => "regions",
            SafhatLawha::Sijill => "history",
            SafhatLawha::Ifsah => "disclosure",
            SafhatLawha::Meezaniya => "budget",
        }
    }

    /// The tab label the panel shows, in Arabic.
    pub fn unwan(self) -> (r: &'static str)
        ensures
            r@ == match self {
                SafhatLawha::Raisiya => "الرئيسية"@,
                SafhatLawha::Manatiq => "المناطق"@,
                SafhatLawha::Sijill => "السجلّ"@,
                SafhatLawha::Ifsah => "الشرح"@,
                SafhatLawha::Meezaniya => "التكلفة"@,
            },
    {
        match self {
            SafhatLawha::Raisiya => "الرئيسية",
            SafhatLawha::Manatiq => "المناطق",
            SafhatLawha::Sijill => "السجلّ",
            SafhatLawha::Ifsah => "الشرح",
            SafhatLawha::Meezaniya => "التكلفة",
        }
    }

    /// Whether this page scrolls.
    pub fn tumarrar(self) -> (r: bool)
        ensures
            r == tumarrar_s(self),
    {
        match self {
            SafhatLawha::Manatiq | SafhatLawha::Sijill | SafhatLawha::Ifsah => true,
            _ => false,
        }
    }
}

/// The pages that scroll: the region list, the history and the disclosure.
pub open spec fn tumarrar_s(safha: SafhatLawha) -> bool {
    safha == SafhatLawha::Manatiq || safha == SafhatLawha::Sijill || safha == SafhatLawha::Ifsah
}

/// What the caller has to do outside the panel after a command ran.
#[derive(Debug, Clone, Copy, PartialEq, Eq, Structural)]
pub enum AtharAmr {
    /// Nothing outside the panel needs to happen.
    LaShay,
    /// Turn the overlay's drawing on or off.
    BaddilTabaqa,
    /// Run one immediate pass over every enabled region.
    TarjimAlan,
    /// Stand the overlay down without unhooking.
    IqafMuaqqat,
    /// The panel closed and gave input back to the game.
    Ughliqat,
    /// The panel moved to another page.
    Intaqalat(SafhatLawha),
    /// The panel's opacity changed, as a percentage.
    TaghayyarAtaama(u8),
    /// The panel's font scale changed, as a percentage.
    TaghayyarKhat(u16),
}

/// The opacity the panel opens at, as a percentage.
pub const ATAAMA_IFTIRADIYA: u8 = 88;
/// The most transparent the panel may become.
pub const ADNA_ATAAMA: u8 = 20;
/// Fully opaque.
pub const AQSA_ATAAMA: u8 = 100;
/// How much one opacity step moves.
pub const KHUTWAT_ATAAMA: u8 = 5;
/// The font scale the panel opens at, as a percentage of the base size.
pub const MIQYAS_IFTIRADI: u16 = 100;
/// The smallest font scale.
pub const ADNA_MIQYAS: u16 = 60;
/// The largest font scale.
pub const AQSA_MIQYAS: u16 = 250;
/// How much one font-size step moves.
pub const KHUTWAT_MIQYAS: u16 = 10;

/// A value clamped into a range.
pub open spec fn mahsur(x: int, adna: int, aqsa: int) -> int {
    if x < adna {
        adna
    } else if x > aqsa {
        aqsa
    } else {
        x
    }
}

/// The panel's own state: page, opacity, font scale, focus, scroll.
#[derive(Debug, Clone, Copy, PartialEq, Eq, Structural)]
pub struct HalatLawha {
    safha: SafhatLawha,
    ataama: u8,
    miqyas_khat: u16,
    murakkaza: bool,
    zahira: bool,
    tamreer: usize,
}

impl HalatLawha {
    pub closed spec fn safha_s(self) -> SafhatLawha {
        self.safha
    }

    pub closed spec fn ataama_s(self) -> u8 {
        self.ataama
    }

    pub closed spec fn miqyas_khat_s(self) -> u16 {
        self.miqyas_khat
    }

    pub closed spec fn murakkaza_s(self) -> bool {
        self.murakkaza
    }

    pub closed spec fn zahira_s(self) -> bool {
        self.zahira
    }

    pub closed spec fn tamreer_s(self) -> usize {
        self.tamreer
    }

    /// What every state the panel can reach satisfies: opacity between the
    /// floor and opaque, font scale between its limits, and focus only on a
    /// visible panel.
    pub open spec fn salima(self) -> bool {
        &&& ADNA_ATAAMA <= self.ataama_s() <= AQSA_ATAAMA
        &&& ADNA_MIQYAS <= self.miqyas_khat_s() <= AQSA_MIQYAS
        &&& self.murakkaza_s() ==> self.zahira_s()
    }

    /// A closed panel at the defaults.
    pub fn jadeeda() -> (r: Self)
        ensures
            r.safha_s() == SafhatLawha::Raisiya,
            r.ataama_s() == ATAAMA_IFTIRADIYA,
            r.miqyas_khat_s() == MIQYAS_IFTIRADI,
            !r.murakkaza_s(),
            !r.zahira_s(),
            r.tamreer_s() == 0,
            r.salima(),
    {
        HalatLawha {
            safha: SafhatLawha::Raisiya,
            ataama: ATAAMA_IFTIRADIYA,
            miqyas_khat: MIQYAS_IFTIRADI,
            murakkaza: false,
            zahira: false,
            tamreer: 0,
        }
    }

    /// Which page is showing.
    #[verifier::when_used_as_spec(safha_s)]
    pub fn safha(self) -> (r: SafhatLawha)
        ensures
            r == self.safha_s(),
    {
        self.safha
    }

    /// The opacity, zero to a hundred.
    #[verifier::when_used_as_spec(ataama_s)]
    pub fn ataama(self) -> (r: u8)
        ensures
            r == self.ataama_s(),
    {
        self.ataama
    }

    /// The font scale as a percentage.
    #[verifier::when_used_as_spec(miqyas_khat_s)]
    pub fn miqyas_khat(self) -> (r: u16)
        ensures
            r == self.miqyas_khat_s(),
    {
        self.miqyas_khat
    }

    /// Whether the panel is drawn at all.
    #[verifier::when_used_as_spec(zahira_s)]
    pub fn zahira(self) -> (r: bool)
        ensures
            r == self.zahira_s(),
    {
        self.zahira
    }

    /// Whether the panel currently owns the keyboard.
    #[verifier::when_used_as_spec(murakkaza_s)]
    pub fn murakkaza(self) -> (r: bool)
        ensures
            r == self.murakkaza_s(),
    {
        self.murakkaza
    }

    /// How far the current page is scrolled, in rows.
    #[verifier::when_used_as_spec(tamreer_s)]
    pub fn tamreer(self) -> (r: usize)
        ensures
            r == self.tamreer_s(),
    {
        self.tamreer
    }

    /// Whether the hook must keep this input away from the game: only while
    /// the panel is visible and focused.
    pub fn yabtali_dakhl(self) -> (r: bool)
        ensures
            r == (self.zahira_s() && self.murakkaza_s()),
    {
        self.zahira && self.murakkaza
    }

    /// Shows the panel and gives it focus.
    pub fn irfa(&mut self)
        ensures
            final(self).zahira_s(),
            final(self).murakkaza_s(),
            final(self).safha_s() == old(self).safha_s(),
            final(self).ataama_s() == old(self).ataama_s(),
            final(self).miqyas_khat_s() == old(self).miqyas_khat_s(),
            final(self).tamreer_s() == old(self).tamreer_s(),
            old(self).salima() ==> final(self).salima(),
    {
        self.zahira = true;
        self.murakkaza = true;
    }

    /// Hides the panel and gives input back to the game; focus goes with
    /// visibility, never separately.
    pub fn akhfi(&mut self)
        ensures
            !final(self).zahira_s(),
            !final(self).murakkaza_s(),
            final(self).safha_s() == old(self).safha_s(),
            final(self).ataama_s() == old(self).ataama_s(),
            final(self).miqyas_khat_s() == old(self).miqyas_khat_s(),
            final(self).tamreer_s() == old(self).tamreer_s(),
            old(self).salima() ==> final(self).salima(),
    {
        self.zahira = false;
        self.murakkaza = false;
    }

    /// Toggles visibility, focus following it.
    pub fn baddil_zuhur(&mut self)
        ensures
            final(self).zahira_s() == !old(self).zahira_s(),
            final(self).murakkaza_s() == !old(self).zahira_s(),
            final(self).safha_s() == old(self).safha_s(),
            final(self).ataama_s() == old(self).ataama_s(),
            final(self).miqyas_khat_s() == old(self).miqyas_khat_s(),
            final(self).tamreer_s() == old(self).tamreer_s(),
            old(self).salima() ==> final(self).salima(),
    {
        if self.zahira {
            self.akhfi();
        } else {
            self.irfa();
        }
    }

    /// Takes or releases the keyboard without hiding the panel; a hidden
    /// panel never takes it.
    pub fn rakkiz(&mut self, murakkaza: bool)
        ensures
            final(self).murakkaza_s() == (murakkaza && old(self).zahira_s()),
            final(self).zahira_s() == old(self).zahira_s(),
            final(self).safha_s() == old(self).safha_s(),
            final(self).ataama_s() == old(self).ataama_s(),
            final(self).miqyas_khat_s() == old(self).miqyas_khat_s(),
            final(self).tamreer_s() == old(self).tamreer_s(),
            old(self).salima() ==> final(self).salima(),
    {
        self.murakkaza = murakkaza && self.zahira;
    }

    /// Moves to a page, resetting the scroll.
    pub fn ruh_ila(&mut self, safha: SafhatLawha)
        ensures
            final(self).safha_s() == safha,
            final(self).tamreer_s() == 0,
            final(self).zahira_s() == old(self).zahira_s(),
            final(self).murakkaza_s() == old(self).murakkaza_s(),
            final(self).ataama_s() == old(self).ataama_s(),
            final(self).miqyas_khat_s() == old(self).miqyas_khat_s(),
            old(self).salima() ==> final(self).salima(),
    {
        self.safha = safha;
        self.tamreer = 0;
    }

    /// Scrolls the current page by `khutwa` rows, clamped to the first row
    /// and to the last of `adad_sutur`; a page that does not scroll stays at
    /// the top.
    pub fn marrir(&mut self, khutwa: i32, adad_sutur: usize)
        ensures
            final(self).tamreer_s() == if !tumarrar_s(old(self).safha_s()) {
                0
            } else {
                tamreer_jadeed(old(self).tamreer_s() as int, khutwa as int, adad_sutur as int)
            },
            final(self).safha_s() == old(self).safha_s(),
            final(self).zahira_s() == old(self).zahira_s(),
            final(self).murakkaza_s() == old(self).murakkaza_s(),
            final(self).ataama_s() == old(self).ataama_s(),
            final(self).miqyas_khat_s() == old(self).miqyas_khat_s(),
            old(self).salima() ==> final(self).salima(),
    {
        if !self.safha.tumarrar() {
            self.tamreer = 0;
            return;
        }
        let hali: i64 = if (self.tamreer as u64) > 0x7FFF_FFFF_FFFF_FFFFu64 {
            0x7FFF_FFFF_FFFF_FFFFi64
        } else {
            self.tamreer as i64
        };
        let majmu: i64 = if khutwa > 0 && hali > 0x7FFF_FFFF_FFFF_FFFFi64 - (khutwa as i64) {
            0x7FFF_FFFF_FFFF_FFFFi64
        } else {
            hali + (khutwa as i64)
        };
        let jadeed: i64 = if majmu < 0 {
            0
        } else {
            majmu
        };
        let saqf_u: usize = if adad_sutur == 0 {
            0
        } else {
            adad_sutur - 1
        };
        let saqf: i64 = if (saqf_u as u64) > 0x7FFF_FFFF_FFFF_FFFFu64 {
            0x7FFF_FFFF_FFFF_FFFFi64
        } else {
            saqf_u as i64
        };
        let natija: i64 = if jadeed < saqf {
            jadeed
        } else {
            saqf
        };
        self.tamreer = natija as usize;
    }

    /// Raises the opacity by one step, never past opaque, and returns it.
    pub fn zid_ataama(&mut self) -> (r: u8)
        ensures
            r == final(self).ataama_s(),
            r as int == mahsur(old(self).ataama_s() + KHUTWAT_ATAAMA, 0, AQSA_ATAAMA as int),
            final(self).safha_s() == old(self).safha_s(),
            final(self).zahira_s() == old(self).zahira_s(),
            final(self).murakkaza_s() == old(self).murakkaza_s(),
            final(self).miqyas_khat_s() == old(self).miqyas_khat_s(),
            final(self).tamreer_s() == old(self).tamreer_s(),
            old(self).salima() ==> final(self).salima(),
    {
        let khaam = self.ataama.saturating_add(KHUTWAT_ATAAMA);
        self.ataama = if khaam > AQSA_ATAAMA {
            AQSA_ATAAMA
        } else {
            khaam
        };
        self.ataama
    }

    /// Lowers the opacity by one step, never past the floor, and returns it.
    pub fn anqis_ataama(&mut self) -> (r: u8)
        ensures
            r == final(self).ataama_s(),
            r as int == mahsur(
                if old(self).ataama_s() >= KHUTWAT_ATAAMA {
                    old(self).ataama_s() - KHUTWAT_ATAAMA
                } else {
                    0
                },
                ADNA_ATAAMA as int,
                255,
            ),
            final(self).safha_s() == old(self).safha_s(),
            final(self).zahira_s() == old(self).zahira_s(),
            final(self).murakkaza_s() == old(self).murakkaza_s(),
            final(self).miqyas_khat_s() == old(self).miqyas_khat_s(),
            final(self).tamreer_s() == old(self).tamreer_s(),
            old(self).salima() ==> final(self).salima(),
    {
        let khaam = self.ataama.saturating_sub(KHUTWAT_ATAAMA);
        self.ataama = if khaam < ADNA_ATAAMA {
            ADNA_ATAAMA
        } else {
            khaam
        };
        self.ataama
    }

    /// Sets the opacity directly, clamped.
    pub fn ihdud_ataama(&mut self, ataama: u8)
        ensures
            final(self).ataama_s() as int == mahsur(
                ataama as int,
                ADNA_ATAAMA as int,
                AQSA_ATAAMA as int,
            ),
            final(self).safha_s() == old(self).safha_s(),
            final(self).zahira_s() == old(self).zahira_s(),
            final(self).murakkaza_s() == old(self).murakkaza_s(),
            final(self).miqyas_khat_s() == old(self).miqyas_khat_s(),
            final(self).tamreer_s() == old(self).tamreer_s(),
            old(self).salima() ==> final(self).salima(),
    {
        self.ataama = if ataama < ADNA_ATAAMA {
            ADNA_ATAAMA
        } else if ataama > AQSA_ATAAMA {
            AQSA_ATAAMA
        } else {
            ataama
        };
    }

    /// Enlarges the panel's text by one step, never past the ceiling, and
    /// returns the scale.
    pub fn zid_khat(&mut self) -> (r: u16)
        ensures
            r == final(self).miqyas_khat_s(),
            r as int == mahsur(old(self).miqyas_khat_s() + KHUTWAT_MIQYAS, 0, AQSA_MIQYAS as int),
            final(self).safha_s() == old(self).safha_s(),
            final(self).zahira_s() == old(self).zahira_s(),
            final(self).murakkaza_s() == old(self).murakkaza_s(),
            final(self).ataama_s() == old(self).ataama_s(),
            final(self).tamreer_s() == old(self).tamreer_s(),
            old(self).salima() ==> final(self).salima(),
    {
        let khaam = self.miqyas_khat.saturating_add(KHUTWAT_MIQYAS);
        self.miqyas_khat = if khaam > AQSA_MIQYAS {
            AQSA_MIQYAS
        } else {
            khaam
        };
        self.miqyas_khat
    }

    /// Shrinks the panel's text by one step, never past the floor, and
    /// returns the scale.
    pub fn anqis_khat(&mut self) -> (r: u16)
        ensures
            r == final(self).miqyas_khat_s(),
            r as int == mahsur(
                if old(self).miqyas_khat_s() >= KHUTWAT_MIQYAS {
                    old(self).miqyas_khat_s() - KHUTWAT_MIQYAS
                } else {
                    0
                },
                ADNA_MIQYAS as int,
                0xFFFF,
            ),
            final(self).safha_s() == old(self).safha_s(),
            final(self).zahira_s() == old(self).zahira_s(),
            final(self).murakkaza_s() == old(self).murakkaza_s(),
            final(self).ataama_s() == old(self).ataama_s(),
            final(self).tamreer_s() == old(self).tamreer_s(),
            old(self).salima() ==> final(self).salima(),
    {
        let khaam = self.miqyas_khat.saturating_sub(KHUTWAT_MIQYAS);
        self.miqyas_khat = if khaam < ADNA_MIQYAS {
            ADNA_MIQYAS
        } else {
            khaam
        };
        self.miqyas_khat
    }

    /// Sets the font scale directly, clamped.
    pub fn ihdud_khat(&mut self, miqyas: u16)
        ensures
            final(self).miqyas_khat_s() as int == mahsur(
                miqyas as int,
                ADNA_MIQYAS as int,
                AQSA_MIQYAS as int,
            ),
            final(self).safha_s() == old(self).safha_s(),
            final(self).zahira_s() == old(self).zahira_s(),
            final(self).murakkaza_s() == old(self).murakkaza_s(),
            final(self).ataama_s() == old(self).ataama_s(),
            final(self).tamreer_s() == old(self).tamreer_s(),
            old(self).salima() ==> final(self).salima(),
    {
        self.miqyas_khat = if miqyas < ADNA_MIQYAS {
            ADNA_MIQYAS
        } else if miqyas > AQSA_MIQYAS {
            AQSA_MIQYAS
        } else {
            miqyas
        };
    }

    /// Applies a command to the panel, and reports what the caller must do.
    pub fn naffidh(&mut self, amr: Amr) -> (r: AtharAmr)
        ensures
            old(self).salima() ==> final(self).salima(),
            naffidh_s(*old(self), amr, *final(self), r),
    {
        match amr {
            Amr::Tabdeel => AtharAmr::BaddilTabaqa,
            Amr::TarjimAlan => AtharAmr::TarjimAlan,
            Amr::Iqaf => AtharAmr::IqafMuaqqat,
            Amr::TahrirManatiq => {
                self.irfa();
                self.ruh_ila(SafhatLawha::Manatiq);
                AtharAmr::Intaqalat(SafhatLawha::Manatiq)
            },
            Amr::ArdSijill => {
                self.irfa();
                self.ruh_ila(SafhatLawha::Sijill);
                AtharAmr::Intaqalat(SafhatLawha::Sijill)
            },
            Amr::ArdIfsah => {
                self.irfa();
                self.ruh_ila(SafhatLawha::Ifsah);
                AtharAmr::Intaqalat(SafhatLawha::Ifsah)
            },
            Amr::ZidAtaama => AtharAmr::TaghayyarAtaama(self.zid_ataama()),
            Amr::AnqisAtaama => AtharAmr::TaghayyarAtaama(self.anqis_ataama()),
            Amr::ZidHajmKhat => AtharAmr::TaghayyarKhat(self.zid_khat()),
            Amr::AnqisHajmKhat => AtharAmr::TaghayyarKhat(self.anqis_khat()),
            Amr::Ighlaq => {
                self.akhfi();
                AtharAmr::Ughliqat
            },
        }
    }
}

/// The scroll offset after a scroll of `khutwa` rows on a page of `adad`
/// rows, from `hali`: never before the first row, never past the last.
pub open spec fn tamreer_jadeed(hali: int, khutwa: int, adad: int) -> int {
    let h = if hali > i64::MAX { i64::MAX as int } else { hali };
    let m = if h + khutwa > i64::MAX { i64::MAX as int } else { h + khutwa };
    let j = if m < 0 { 0 } else { m };
    let saqf0 = if adad == 0 { 0 } else { adad - 1 };
    let saqf = if saqf0 > i64::MAX { i64::MAX as int } else { saqf0 };
    if j < saqf { j } else { saqf }
}

/// What one command does to the panel, and what it leaves for the caller.
pub open spec fn naffidh_s(qabl: HalatLawha, amr: Amr, baad: HalatLawha, r: AtharAmr) -> bool {
    let ghayr_mutaghayyir = baad == qabl;
    match amr {
        Amr::Tabdeel => r == AtharAmr::BaddilTabaqa && ghayr_mutaghayyir,
        Amr::TarjimAlan => r == AtharAmr::TarjimAlan && ghayr_mutaghayyir,
        Amr::Iqaf => r == AtharAmr::IqafMuaqqat && ghayr_mutaghayyir,
        Amr::TahrirManatiq | Amr::ArdSijill | Amr::ArdIfsah => {
            let safha = match amr {
                Amr::TahrirManatiq => SafhatLawha::Manatiq,
                Amr::ArdSijill => SafhatLawha::Sijill,
                _ => SafhatLawha::Ifsah,
            };
            &&& r == AtharAmr::Intaqalat(safha)
            &&& baad.zahira_s() && baad.murakkaza_s()
            &&& baad.safha_s() == safha && baad.tamreer_s() == 0
            &&& baad.ataama_s() == qabl.ataama_s() && baad.miqyas_khat_s() == qabl.miqyas_khat_s()
        },
        Amr::ZidAtaama | Amr::AnqisAtaama => {
            &&& r == AtharAmr::TaghayyarAtaama(baad.ataama_s())
            &&& baad.ataama_s() as int == if amr == Amr::ZidAtaama {
                mahsur(qabl.ataama_s() + KHUTWAT_ATAAMA, 0, AQSA_ATAAMA as int)
            } else {
                mahsur(
                    if qabl.ataama_s() >= KHUTWAT_ATAAMA {
                        qabl.ataama_s() - KHUTWAT_ATAAMA
                    } else {
                        0
                    },
                    ADNA_ATAAMA as int,
                    255,
                )
            }
            &&& baad.safha_s() == qabl.safha_s() && baad.tamreer_s() == qabl.tamreer_s()
            &&& baad.zahira_s() == qabl.zahira_s() && baad.murakkaza_s() == qabl.murakkaza_s()
            &&& baad.miqyas_khat_s() == qabl.miqyas_khat_s()
        },
        Amr::ZidHajmKhat | Amr::AnqisHajmKhat => {
            &&& r == AtharAmr::TaghayyarKhat(baad.miqyas_khat_s())
            &&& baad.miqyas_khat_s() as int == if amr == Amr::ZidHajmKhat {
                mahsur(qabl.miqyas_khat_s() + KHUTWAT_MIQYAS, 0, AQSA_MIQYAS as int)
            } else {
                mahsur(
                    if qabl.miqyas_khat_s() >= KHUTWAT_MIQYAS {
                        qabl.miqyas_khat_s() - KHUTWAT_MIQYAS
                    } else {
                        0
                    },
                    ADNA_MIQYAS as int,
                    0xFFFF,
                )
            }
            &&& baad.safha_s() == qabl.safha_s() && baad.tamreer_s() == qabl.tamreer_s()
            &&& baad.zahira_s() == qabl.zahira_s() && baad.murakkaza_s() == qabl.murakkaza_s()
            &&& baad.ataama_s() == qabl.ataama_s()
        },
        Amr::Ighlaq => {
            &&& r == AtharAmr::Ughliqat
            &&& !baad.zahira_s() && !baad.murakkaza_s()
            &&& baad.safha_s() == qabl.safha_s() && baad.tamreer_s() == qabl.tamreer_s()
            &&& baad.ataama_s() == qabl.ataama_s() && baad.miqyas_khat_s() == qabl.miqyas_khat_s()
        },
    }
}

/// However many opacity steps are taken, the panel never becomes more
/// transparent than the floor: a panel that still owns the keyboard always
/// stays visible enough to be seen.
pub proof fn qanun_ataama_la_tanzil_tahta_al_hadd(h: HalatLawha)
    requires
        h.salima(),
    ensures
        h.ataama_s() >= ADNA_ATAAMA,
        h.murakkaza_s() ==> h.zahira_s(),
{
}

/// What a panel element is for, and therefore what colour it is.
#[derive(Debug, Clone, Copy, PartialEq, Eq, Structural, PartialOrd, Ord, Hash)]
pub enum DawrAnsur {
    /// The plate everything else sits on.
    Khalfiya,
    /// The title bar.
    Tarwisa,
    /// A field name.
    Wasm,
    /// A field's value, or a line of quoted text.
    Qeema,
    /// Something that can be pressed.
    Zir,
    /// A horizontal rule between groups.
    Fasil,
    /// The selected tab, the current row, the thing being pointed at.
    Ibraz,
}

impl DawrAnsur {
    /// The name used in a log line and a layout dump.
    pub fn ism(self) -> (r: &'static str)
        ensures
            r@ == match self {
                DawrAnsur::Khalfiya => "panel"@,
                DawrAnsur::Tarwisa => "header"@,
                DawrAnsur::Wasm => "label"@,
                DawrAnsur::Qeema => "value"@,
                DawrAnsur::Zir => "button"@,
                DawrAnsur::Fasil => "separator"@,
                DawrAnsur::Ibraz => "highlight"@,
            },
    {
        match self {
            DawrAnsur::Khalfiya => "panel",
            DawrAnsur::Tarwisa => "header",
            DawrAnsur::Wasm => "label",
            DawrAnsur::Qeema => "value",
            DawrAnsur::Zir => "button",
            DawrAnsur::Fasil => "separator",
            DawrAnsur::Ibraz => "highlight",
        }
    }

    /// Whether this role's element normally carries a string.
    pub fn yahmil_nassan(self) -> (r: bool)
        ensures
            r == !(self == DawrAnsur::Khalfiya || self == DawrAnsur::Fasil),
    {
        match self {
            DawrAnsur::Tarwisa | DawrAnsur::Wasm | DawrAnsur::Qeema | DawrAnsur::Zir
            | DawrAnsur::Ibraz => true,
            _ => false,
        }
    }
}
/// What pressing a panel element does.
#[derive(Debug, Clone, Copy, PartialEq, Eq, Structural)]
pub enum HadafAnsur {
    /// Decoration; pressing it does nothing.
    LaShay,
    /// Runs a command.
    Amr(Amr),
    /// Moves to a page.
    Safha(SafhatLawha),
    /// Selects a region on the regions page.
    Mintaqa(MuarrifMintaqa),
    /// Selects a line on the history page.
    Madkhal(MuarrifMadkhal),
}

impl HadafAnsur {
    /// Whether this element responds to a press.
    pub fn qabil_lil_naqr(self) -> (r: bool)
        ensures
            r == !(self is LaShay),
    {
        match self {
            HadafAnsur::LaShay => false,
            _ => true,
        }
    }
}

/// One row of the regions page: a copy of a region's identity, name, rule
/// and switch at the moment of the refresh.
#[derive(Debug, Clone, PartialEq, Eq)]
pub struct SatrMintaqa {
    /// Which region.
    pub muarrif: MuarrifMintaqa,
    /// Its name at the moment of the refresh.
    pub ism: String,
    /// When it is read.
    pub qaida: QaidatTarjama,
    /// Whether it is on.
    pub mumakkana: bool,
}

impl SatrMintaqa {
    /// The row's text.
    pub fn nass(&self) -> (r: String)
        ensures
            r@ == satr_mintaqa(self.ism@, self.qaida, self.mumakkana),
    {
        let mut r = min_nass(self.ism.as_str());
        ilhaq(&mut r, " — ");
        ilhaq(&mut r, self.qaida.unwan());
        ilhaq(&mut r, " — ");
        if self.mumakkana {
            ilhaq(&mut r, "مفعّلة");
        } else {
            ilhaq(&mut r, "موقوفة");
        }
        r
    }
}

/// The overlay's state, in Arabic, for the panel.
pub open spec fn unwan_hala_s(h: HalatTabaqa) -> Seq<char> {
    match h {
        HalatTabaqa::Amila => "تعمل"@,
        HalatTabaqa::Mutawaqqifa => "موقوفة مؤقّتًا"@,
        HalatTabaqa::Muattala => "مُعطَّلة بعد خلل"@,
    }
}

/// The overlay's state, in Arabic, for the panel.
pub fn unwan_hala(h: HalatTabaqa) -> (r: &'static str)
    ensures
        r@ == unwan_hala_s(h),
{
    match h {
        HalatTabaqa::Amila => "تعمل",
        HalatTabaqa::Mutawaqqifa => "موقوفة مؤقّتًا",
        HalatTabaqa::Muattala => "مُعطَّلة بعد خلل",
    }
}

/// How many rows a page has: none for the pages that do not scroll, one per
/// region, one per history line, one per line of the disclosure.
pub open spec fn sutur_safha_s(safha: SafhatLawha, manatiq: nat, sijill: nat) -> nat {
    match safha {
        SafhatLawha::Raisiya | SafhatLawha::Meezaniya => 0,
        SafhatLawha::Manatiq => manatiq,
        SafhatLawha::Sijill => sijill,
        SafhatLawha::Ifsah => sutur(NASS_IFSAH_ARABI@).len(),
    }
}

/// The title bar's text: the product and the game, or the product and
/// "control panel" when the game has no name.
pub open spec fn unwan_tarwisa_s(l: LawhatTahakkum) -> Seq<char> {
    if farigh(l.ism_luba_s()) {
        "تعريب — لوحة التحكّم"@
    } else {
        "تعريب — "@ + l.ism_luba_s()
    }
}

/// The state line under the title.
pub open spec fn satr_hala_s(l: LawhatTahakkum) -> Seq<char> {
    "الطبقة: "@ + unwan_hala_s(l.hala_tabaqa_s()) + " · الواجهة: "@ + (match l.wajiha_s() {
        Some(w) => ism_wajiha(w),
        None => "—"@,
    }) + (if l.khayt_s() matches Some(k) && k is Mutawaqqifa {
        " · القراءة متوقّفة"@
    } else {
        Seq::empty()
    })
}

/// The short word for the recognition worker's state.
pub open spec fn unwan_khayt_s(l: LawhatTahakkum) -> Seq<char> {
    match l.khayt_s() {
        None => "—"@,
        Some(HalatKhayt::Salima) => "سليمة"@,
        Some(HalatKhayt::Aabira { .. }) => "رفض عابر"@,
        Some(HalatKhayt::Mutawaqqifa { .. }) => "متوقّفة"@,
    }
}

/// The footer's text: the close command and its chord.
pub open spec fn satr_dhayl_s(l: LawhatTahakkum) -> Seq<char> {
    unwan_amr(Amr::Ighlaq) + " — "@ + ism_muaddil(l.ikhtisarat_s().watar_s(Amr::Ighlaq).muaddilat.0)
        + ism_ramz(l.ikhtisarat_s().watar_s(Amr::Ighlaq).miftah.0)
}

/// The in-game control panel: its own state and copies of everything it
/// shows, so that laying it out never holds anything another thread wants.
#[derive(Debug, Clone)]
pub struct LawhatTahakkum {
    hala: HalatLawha,
    ikhtisarat: Ikhtisarat,
    meezaniya: MeezaniyatItar,
    hala_tabaqa: HalatTabaqa,
    wajiha: Option<WajihatRusum>,
    ism_luba: String,
    manatiq: Vec<SatrMintaqa>,
    sijill: Vec<MadkhalQira>,
    taqreer: Option<TaqreerSijill>,
    khayt: Option<HalatKhayt>,
}

impl LawhatTahakkum {
    pub closed spec fn hala_s(self) -> HalatLawha {
        self.hala
    }

    pub closed spec fn ikhtisarat_s(self) -> Ikhtisarat {
        self.ikhtisarat
    }

    pub closed spec fn meezaniya_s(self) -> MeezaniyatItar {
        self.meezaniya
    }

    pub closed spec fn hala_tabaqa_s(self) -> HalatTabaqa {
        self.hala_tabaqa
    }

    pub closed spec fn wajiha_s(self) -> Option<WajihatRusum> {
        self.wajiha
    }

    pub closed spec fn ism_luba_s(self) -> Seq<char> {
        self.ism_luba@
    }

    pub closed spec fn manatiq_s(self) -> Seq<SatrMintaqa> {
        self.manatiq@
    }

    pub closed spec fn sijill_s(self) -> Seq<MadkhalQira> {
        self.sijill@
    }

    pub closed spec fn taqreer_s(self) -> Option<TaqreerSijill> {
        self.taqreer
    }

    pub closed spec fn khayt_s(self) -> Option<HalatKhayt> {
        self.khayt
    }

    /// The panel's state and its keyboard table are sound.
    pub open spec fn salima(self) -> bool {
        self.hala_s().salima() && self.ikhtisarat_s().salim()
    }

    /// Everything but the panel's own state is as it was.
    pub open spec fn nafs_al_nusakh(self, akhar: Self) -> bool {
        &&& self.ikhtisarat_s() == akhar.ikhtisarat_s()
        &&& self.meezaniya_s() == akhar.meezaniya_s()
        &&& self.hala_tabaqa_s() == akhar.hala_tabaqa_s()
        &&& self.wajiha_s() == akhar.wajiha_s()
        &&& self.ism_luba_s() == akhar.ism_luba_s()
        &&& self.manatiq_s() == akhar.manatiq_s()
        &&& self.sijill_s() == akhar.sijill_s()
        &&& self.taqreer_s() == akhar.taqreer_s()
        &&& self.khayt_s() == akhar.khayt_s()
    }

    /// A closed panel for a game, with the shipped keyboard table and
    /// nothing to show yet.
    pub fn jadeeda(ism_luba: &str) -> (r: Self)
        ensures
            r.salima(),
            r.hala_s().safha_s() == SafhatLawha::Raisiya,
            !r.hala_s().zahira_s(),
            !r.hala_s().murakkaza_s(),
            r.hala_s().ataama_s() == ATAAMA_IFTIRADIYA,
            r.hala_s().miqyas_khat_s() == MIQYAS_IFTIRADI,
            r.hala_s().tamreer_s() == 0,
            r.ikhtisarat_s()@ == jadwal_iftiradi(),
            r.meezaniya_s() == (MeezaniyatItar { akhir_mikro: 0, saqf_mikro: 0 }),
            r.hala_tabaqa_s() == HalatTabaqa::Mutawaqqifa,
            r.wajiha_s() is None,
            r.ism_luba_s() == ism_luba@,
            r.manatiq_s().len() == 0,
            r.sijill_s().len() == 0,
            r.taqreer_s() is None,
            (r.khayt_s() is None),
    {
        LawhatTahakkum {
            hala: HalatLawha::jadeeda(),
            ikhtisarat: Ikhtisarat::iftiradiya(),
            meezaniya: MeezaniyatItar::jadeeda(),
            hala_tabaqa: HalatTabaqa::Mutawaqqifa,
            wajiha: None,
            ism_luba: min_nass(ism_luba),
            manatiq: Vec::new(),
            sijill: Vec::new(),
            taqreer: None,
            khayt: None,
        }
    }

    /// The panel's own state.
    pub fn hala(&self) -> (r: &HalatLawha)
        ensures
            *r == self.hala_s(),
    {
        &self.hala
    }

    /// The panel's own state, to change it.
    pub fn hala_mut(&mut self) -> (r: &mut HalatLawha)
        ensures
            *r == old(self).hala_s(),
            final(self).hala_s() == *final(r),
            final(self).nafs_al_nusakh(*old(self)),
    {
        &mut self.hala
    }

    /// The keyboard table.
    pub fn ikhtisarat(&self) -> (r: &Ikhtisarat)
        ensures
            *r == self.ikhtisarat_s(),
    {
        &self.ikhtisarat
    }

    /// The keyboard table, to rebind it.
    pub fn ikhtisarat_mut(&mut self) -> (r: &mut Ikhtisarat)
        ensures
            *r == old(self).ikhtisarat_s(),
            final(self).ikhtisarat_s() == *final(r),
            final(self).hala_s() == old(self).hala_s(),
            final(self).meezaniya_s() == old(self).meezaniya_s(),
            final(self).hala_tabaqa_s() == old(self).hala_tabaqa_s(),
            final(self).wajiha_s() == old(self).wajiha_s(),
            final(self).ism_luba_s() == old(self).ism_luba_s(),
            final(self).manatiq_s() == old(self).manatiq_s(),
            final(self).sijill_s() == old(self).sijill_s(),
            final(self).taqreer_s() == old(self).taqreer_s(),
            final(self).khayt_s() == old(self).khayt_s(),
    {
        &mut self.ikhtisarat
    }

    /// Replaces the keyboard table, after it was read from disk.
    pub fn ihmil_ikhtisarat(&mut self, ikhtisarat: Ikhtisarat)
        ensures
            final(self).ikhtisarat_s() == ikhtisarat,
            final(self).hala_s() == old(self).hala_s(),
            final(self).meezaniya_s() == old(self).meezaniya_s(),
            final(self).hala_tabaqa_s() == old(self).hala_tabaqa_s(),
            final(self).wajiha_s() == old(self).wajiha_s(),
            final(self).ism_luba_s() == old(self).ism_luba_s(),
            final(self).manatiq_s() == old(self).manatiq_s(),
            final(self).sijill_s() == old(self).sijill_s(),
            final(self).taqreer_s() == old(self).taqreer_s(),
            final(self).khayt_s() == old(self).khayt_s(),
    {
        self.ikhtisarat = ikhtisarat;
    }

    /// Refreshes the frame cost the budget page quotes.
    pub fn hadith_meezaniya(&mut self, meezaniya: MeezaniyatItar)
        ensures
            final(self).meezaniya_s() == meezaniya,
            final(self).hala_s() == old(self).hala_s(),
            final(self).ikhtisarat_s() == old(self).ikhtisarat_s(),
            final(self).hala_tabaqa_s() == old(self).hala_tabaqa_s(),
            final(self).wajiha_s() == old(self).wajiha_s(),
            final(self).ism_luba_s() == old(self).ism_luba_s(),
            final(self).manatiq_s() == old(self).manatiq_s(),
            final(self).sijill_s() == old(self).sijill_s(),
            final(self).taqreer_s() == old(self).taqreer_s(),
            final(self).khayt_s() == old(self).khayt_s(),
    {
        self.meezaniya = meezaniya;
    }

    /// Refreshes the overlay's state and which graphics interface is under
    /// it.
    pub fn hadith_tabaqa(&mut self, hala: HalatTabaqa, wajiha: Option<WajihatRusum>)
        ensures
            final(self).hala_tabaqa_s() == hala,
            final(self).wajiha_s() == wajiha,
            final(self).hala_s() == old(self).hala_s(),
            final(self).ikhtisarat_s() == old(self).ikhtisarat_s(),
            final(self).meezaniya_s() == old(self).meezaniya_s(),
            final(self).ism_luba_s() == old(self).ism_luba_s(),
            final(self).manatiq_s() == old(self).manatiq_s(),
            final(self).sijill_s() == old(self).sijill_s(),
            final(self).taqreer_s() == old(self).taqreer_s(),
            final(self).khayt_s() == old(self).khayt_s(),
    {
        self.hala_tabaqa = hala;
        self.wajiha = wajiha;
    }

    /// Refreshes what the recognition worker last said about itself.
    pub fn hadith_khayt(&mut self, hala: HalatKhayt)
        ensures
            final(self).khayt_s() == Some(hala),
            final(self).hala_s() == old(self).hala_s(),
            final(self).ikhtisarat_s() == old(self).ikhtisarat_s(),
            final(self).meezaniya_s() == old(self).meezaniya_s(),
            final(self).hala_tabaqa_s() == old(self).hala_tabaqa_s(),
            final(self).wajiha_s() == old(self).wajiha_s(),
            final(self).ism_luba_s() == old(self).ism_luba_s(),
            final(self).manatiq_s() == old(self).manatiq_s(),
            final(self).sijill_s() == old(self).sijill_s(),
            final(self).taqreer_s() == old(self).taqreer_s(),
    {
        self.khayt = Some(hala);
    }

    /// What the recognition worker last said, if it has been asked.
    pub fn khayt(&self) -> (r: Option<&HalatKhayt>)
        ensures
            self.khayt_s() matches Some(h) ==> r == Some(&h),
            self.khayt_s() is None ==> r is None,
    {
        match &self.khayt {
            Some(h) => Some(h),
            None => None,
        }
    }

    /// Refreshes the region rows and the game's name from the live set.
    pub fn hadith_manatiq<R>(&mut self, majmua: &MajmuatManatiq<R>)
        ensures
            final(self).manatiq_s().len() == majmua.manatiq_s().len(),
            forall|i: int|
                0 <= i < majmua.manatiq_s().len() ==> {
                    let (s, m) = (#[trigger] final(self).manatiq_s()[i], majmua.manatiq_s()[i]);
                    &&& s.muarrif == m.muarrif
                    &&& s.ism@ == m.ism@
                    &&& s.qaida == m.qaida
                    &&& s.mumakkana == m.mumakkana
                },
            final(self).ism_luba_s() == majmua.ism_luba_s(),
            final(self).hala_s() == old(self).hala_s(),
            final(self).ikhtisarat_s() == old(self).ikhtisarat_s(),
            final(self).meezaniya_s() == old(self).meezaniya_s(),
            final(self).hala_tabaqa_s() == old(self).hala_tabaqa_s(),
            final(self).wajiha_s() == old(self).wajiha_s(),
            final(self).sijill_s() == old(self).sijill_s(),
            final(self).taqreer_s() == old(self).taqreer_s(),
            final(self).khayt_s() == old(self).khayt_s(),
    {
        let manatiq: &Vec<Mintaqa<R>> = majmua.manatiq();
        let mut sufuf: Vec<SatrMintaqa> = Vec::new();
        let mut i: usize = 0;
        while i < manatiq.len()
            invariant
                i <= manatiq@.len(),
                sufuf@.len() == i,
                forall|k: int|
                    0 <= k < i ==> {
                        let (s, m) = (#[trigger] sufuf@[k], manatiq@[k]);
                        &&& s.muarrif == m.muarrif
                        &&& s.ism@ == m.ism@
                        &&& s.qaida == m.qaida
                        &&& s.mumakkana == m.mumakkana
                    },
            decreases manatiq@.len() - i,
        {
            let m = &manatiq[i];
            sufuf.push(
                SatrMintaqa {
                    muarrif: m.muarrif,
                    ism: min_nass(m.ism.as_str()),
                    qaida: m.qaida,
                    mumakkana: m.mumakkana,
                },
            );
            i = i + 1;
        }
        self.manatiq = sufuf;
        self.ism_luba = min_nass(majmua.ism_luba());
    }

    /// Refreshes the history rows and the history summary.
    pub fn hadith_sijill(&mut self, madakhil: Vec<MadkhalQira>, taqreer: TaqreerSijill)
        ensures
            final(self).sijill_s() == madakhil@,
            final(self).taqreer_s() == Some(taqreer),
            final(self).hala_s() == old(self).hala_s(),
            final(self).ikhtisarat_s() == old(self).ikhtisarat_s(),
            final(self).meezaniya_s() == old(self).meezaniya_s(),
            final(self).hala_tabaqa_s() == old(self).hala_tabaqa_s(),
            final(self).wajiha_s() == old(self).wajiha_s(),
            final(self).ism_luba_s() == old(self).ism_luba_s(),
            final(self).manatiq_s() == old(self).manatiq_s(),
            final(self).khayt_s() == old(self).khayt_s(),
    {
        self.sijill = madakhil;
        self.taqreer = Some(taqreer);
    }

    /// Which command a chord fires.
    pub fn amr_li(&self, watar: Watar) -> (r: Option<Amr>)
        requires
            self.salima(),
        ensures
            r matches Some(amr) ==> watar_salih(watar) && self.ikhtisarat_s().watar_s(amr) == watar,
            r is None ==> !watar_salih(watar) || forall|amr: Amr|
                self.ikhtisarat_s().watar_s(amr) != watar,
    {
        self.ikhtisarat.amr_li(watar)
    }

    /// Runs a command against the panel and reports what is left for the
    /// caller.
    pub fn naffidh(&mut self, amr: Amr) -> (r: AtharAmr)
        ensures
            naffidh_s(old(self).hala_s(), amr, final(self).hala_s(), r),
            final(self).nafs_al_nusakh(*old(self)),
            old(self).salima() ==> final(self).salima(),
    {
        self.hala.naffidh(amr)
    }

    /// How many rows the current page has, for clamping the scroll.
    pub fn sutur_safha(&self) -> (r: usize)
        ensures
            r == sutur_safha_s(self.hala_s().safha_s(), self.manatiq_s().len(), self.sijill_s().len()),
    {
        match self.hala.safha() {
            SafhatLawha::Raisiya | SafhatLawha::Meezaniya => 0,
            SafhatLawha::Manatiq => self.manatiq.len(),
            SafhatLawha::Sijill => self.sijill.len(),
            SafhatLawha::Ifsah => {
                let h = huruf(NASS_IFSAH_ARABI);
                qassim_sutur(&h).len()
            },
        }
    }

    /// Scrolls the current page by a number of rows, within its rows.
    pub fn marrir(&mut self, khutwa: i32)
        ensures
            final(self).hala_s().tamreer_s() == if !tumarrar_s(old(self).hala_s().safha_s()) {
                0
            } else {
                tamreer_jadeed(
                    old(self).hala_s().tamreer_s() as int,
                    khutwa as int,
                    sutur_safha_s(
                        old(self).hala_s().safha_s(),
                        old(self).manatiq_s().len(),
                        old(self).sijill_s().len(),
                    ) as int,
                )
            },
            final(self).hala_s().safha_s() == old(self).hala_s().safha_s(),
            final(self).hala_s().zahira_s() == old(self).hala_s().zahira_s(),
            final(self).hala_s().murakkaza_s() == old(self).hala_s().murakkaza_s(),
            final(self).hala_s().ataama_s() == old(self).hala_s().ataama_s(),
            final(self).hala_s().miqyas_khat_s() == old(self).hala_s().miqyas_khat_s(),
            final(self).nafs_al_nusakh(*old(self)),
            old(self).salima() ==> final(self).salima(),
    {
        let adad = self.sutur_safha();
        self.hala.marrir(khutwa, adad);
    }

    /// Whether the disclosure has to be shown before the overlay is turned
    /// on: when nothing was acknowledged, or what was is not this build's
    /// text.
    pub fn yajib_ard_ifsah(mahfuz: Option<BasmatIfsah>) -> (r: bool)
        ensures
            r == !(mahfuz matches Some(m) && m.0 == basmat_al_bina()),
    {
        match mahfuz {
            Some(m) => !mahfuz_salih(m),
            None => true,
        }
    }

    /// The frame cost shown on the budget page.
    pub fn meezaniya(&self) -> (r: MeezaniyatItar)
        ensures
            r == self.meezaniya_s(),
    {
        self.meezaniya
    }

    /// The region rows.
    pub fn manatiq(&self) -> (r: &Vec<SatrMintaqa>)
        ensures
            r@ == self.manatiq_s(),
    {
        &self.manatiq
    }

    /// The history rows.
    pub fn sijill(&self) -> (r: &Vec<MadkhalQira>)
        ensures
            r@ == self.sijill_s(),
    {
        &self.sijill
    }

    /// The history summary, once one was given.
    pub fn taqreer(&self) -> (r: Option<TaqreerSijill>)
        ensures
            r == self.taqreer_s(),
    {
        self.taqreer
    }

    /// The title bar's text: the product and the game, or the product and
    /// "control panel" when the game has no name.
    pub fn unwan_tarwisa(&self) -> (r: String)
        ensures
            r@ == unwan_tarwisa_s(*self),
    {
        let h = huruf(self.ism_luba.as_str());
        let m = shadhdhib(&h);
        proof {
            crate::nass::lemma_farigh_mushdhab(self.ism_luba@);
        }
        if m.len() == 0 {
            min_nass("تعريب — لوحة التحكّم")
        } else {
            let mut r = min_nass("تعريب — ");
            ilhaq(&mut r, self.ism_luba.as_str());
            r
        }
    }

    /// The state line under the title: the overlay's state, the graphics
    /// interface, and a note when recognition has stopped.
    pub fn satr_hala(&self) -> (r: String)
        ensures
            r@ == satr_hala_s(*self),
    {
        let mut r = min_nass("الطبقة: ");
        ilhaq(&mut r, unwan_hala(self.hala_tabaqa));
        ilhaq(&mut r, " · الواجهة: ");
        match self.wajiha {
            Some(w) => ilhaq(&mut r, w.ism()),
            None => ilhaq(&mut r, "—"),
        }
        let ghost r1 = r@;
        let mutawaqqifa = match &self.khayt {
            Some(k) => k.mutawaqqifa(),
            None => false,
        };
        if mutawaqqifa {
            ilhaq(&mut r, " · القراءة متوقّفة");
        }
        proof {
            if !mutawaqqifa {
                assert(r@ =~= r1 + Seq::<char>::empty());
            }
        }
        r
    }

    /// The short word for the worker's state, for the main page's row.
    pub fn unwan_khayt(&self) -> (r: &'static str)
        ensures
            r@ == unwan_khayt_s(*self),
    {
        match &self.khayt {
            None => "—",
            Some(HalatKhayt::Salima) => "سليمة",
            Some(HalatKhayt::Aabira { .. }) => "رفض عابر",
            Some(HalatKhayt::Mutawaqqifa { .. }) => "متوقّفة",
        }
    }

    /// The footer's text: how to close the panel.
    pub fn satr_dhayl(&self) -> (r: String)
        requires
            self.salima(),
        ensures
            r@ == satr_dhayl_s(*self),
    {
        let mut r = min_nass(Amr::Ighlaq.unwan());
        ilhaq(&mut r, " — ");
        ilhaq(&mut r, self.ikhtisarat.watar(Amr::Ighlaq).ism().as_str());
        r
    }
}

} // verus!
