//! The universal overlay: regions read off a game's screen, the text read from
//! them, the lines tracked across frames, the reading history, the control
//! panel, and the honest account of what all of it costs.

use vstd::prelude::*;

pub mod khata;
pub mod iktishaf;
pub mod khazina;
pub mod khittat_lawha;
pub mod lawhat_tahakkum;
pub mod luba;
pub mod manatiq;
pub mod muharrir;
pub mod mutarjim;
pub mod mutarjim_mahalli;
pub mod nass;
pub mod qira;
pub mod qissa;
pub mod qudra;
pub mod rasm_tabaqa;
pub mod sidq;
pub mod sijill_qira;
pub mod talqeem;
pub mod tartib;
pub mod tatabbu;
pub mod wajiha;

verus! {

} // verus!
