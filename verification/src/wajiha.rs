//! The few facts about the drawing side that the rest of the library reads:
//! which graphics interface the overlay is drawing through, what state the
//! overlay is in, and what a frame costs it.

use crate::nass::{aktub_ashri, ashri, ilhaq, min_nass};
use vstd::prelude::*;

verus! {

/// The graphics interface a game presents through, and so the one the
/// overlay draws through.
#[derive(Debug, Clone, Copy, PartialEq, Eq, Hash, Structural)]
pub enum WajihatRusum {
    /// OpenGL with shaders.
    OpenGl,
    /// Fixed-function OpenGL.
    OpenGlThabit,
    /// Vulkan.
    Vulkan,
    /// Direct3D 8.
    Direct3d8,
    /// Direct3D 9.
    Direct3d9,
    /// Direct3D 10.
    Direct3d10,
    /// Direct3D 11.
    Direct3d11,
    /// Direct3D 12.
    Direct3d12,
}

pub open spec fn ism_wajiha(w: WajihatRusum) -> Seq<char> {
    match w {
        WajihatRusum::OpenGl => "OpenGL"@,
        WajihatRusum::OpenGlThabit => "OpenGL (fixed-function)"@,
        WajihatRusum::Vulkan => "Vulkan"@,
        WajihatRusum::Direct3d8 => "Direct3D 8"@,
        WajihatRusum::Direct3d9 => "Direct3D 9"@,
        WajihatRusum::Direct3d10 => "Direct3D 10"@,
        WajihatRusum::Direct3d11 => "Direct3D 11"@,
        WajihatRusum::Direct3d12 => "Direct3D 12"@,
    }
}

impl WajihatRusum {
    /// The interface's name, as logs and the panel write it.
    pub fn ism(self) -> (r: &'static str)
        ensures
            r@ == ism_wajiha(self),
    {
        match self {
            WajihatRusum::OpenGl => "OpenGL",
            WajihatRusum::OpenGlThabit => "OpenGL (fixed-function)",
            WajihatRusum::Vulkan => "Vulkan",
            WajihatRusum::Direct3d8 => "Direct3D 8",
            WajihatRusum::Direct3d9 => "Direct3D 9",
            WajihatRusum::Direct3d10 => "Direct3D 10",
            WajihatRusum::Direct3d11 => "Direct3D 11",
            WajihatRusum::Direct3d12 => "Direct3D 12",
        }
    }
}

/// What state the overlay is in.
#[derive(Debug, Clone, Copy, PartialEq, Eq, Hash, Structural)]
pub enum HalatTabaqa {
    /// Drawing.
    Amila,
    /// Paused by the player.
    Mutawaqqifa,
    /// Switched off after a fault.
    Muattala,
}

/// What one frame cost the overlay and what it may cost, in microseconds.
#[derive(Debug, Clone, Copy, PartialEq, Eq, Structural)]
pub struct MeezaniyatItar {
    /// The last frame's cost.
    pub akhir_mikro: u64,
    /// The ceiling the overlay holds itself to.
    pub saqf_mikro: u64,
}

/// The budget's own sentence: the last frame's cost and the ceiling, in
/// microseconds, as measured.
pub open spec fn wasf_meezaniya_s(m: MeezaniyatItar) -> Seq<char> {
    "آخر إطار كلّف الطبقة "@ + ashri(m.akhir_mikro as nat) + " ميكروثانية، والسقف الذي تلتزم به "@
        + ashri(m.saqf_mikro as nat) + " ميكروثانية."@
}

impl MeezaniyatItar {
    /// The sentence that states the frame cost, quoted verbatim by the
    /// panel's budget page.
    pub fn wasf(&self) -> (r: String)
        ensures
            r@ == wasf_meezaniya_s(*self),
    {
        let mut r = min_nass("آخر إطار كلّف الطبقة ");
        aktub_ashri(&mut r, self.akhir_mikro);
        ilhaq(&mut r, " ميكروثانية، والسقف الذي تلتزم به ");
        aktub_ashri(&mut r, self.saqf_mikro);
        ilhaq(&mut r, " ميكروثانية.");
        r
    }

    /// A budget before any frame was measured.
    pub fn jadeeda() -> (r: Self)
        ensures
            r.akhir_mikro == 0,
            r.saqf_mikro == 0,
    {
        MeezaniyatItar { akhir_mikro: 0, saqf_mikro: 0 }
    }
}

/// A rectangle in whole pixels, origin top-left.
#[derive(Debug, Clone, Copy, PartialEq, Eq, Hash, Structural)]
pub struct MustatilBiksel {
    /// The left edge.
    pub yasar: u32,
    /// The top edge.
    pub aala: u32,
    /// The width.
    pub ard: u32,
    /// The height.
    pub irtifa: u32,
}

/// A surface's size in pixels.
#[derive(Debug, Clone, Copy, PartialEq, Eq, Hash, Structural)]
pub struct WasfSath {
    /// The width.
    pub ard: u32,
    /// The height.
    pub irtifa: u32,
}

} // verus!
