//! Why the library refuses: the faults that carry a permanent code into a
//! bug report, as opposed to the answers an editor shows beside a control.

use vstd::prelude::*;

verus! {

/// A refusal worth reporting.
#[derive(Debug, Clone, PartialEq, Eq)]
pub enum KhataTabaqa {
    /// The disclosure this build shows was not acknowledged.
    IfsahMafqud,
    /// A size is beyond what this build accepts.
    HajmMufrit {
        /// What was measured.
        haql: &'static str,
        /// Its value.
        qeema: u64,
        /// The ceiling it passed.
        saqf: u64,
    },
    /// A region held nothing readable.
    LaNassMaqru {
        /// The region, as [`crate::qira::wasf_mintaqa`] names it.
        mintaqa: String,
        /// The confidence behind that answer, where there is one.
        thiqa: Option<u8>,
    },
    /// A resource is not in the shape it declares.
    MawridFashil {
        /// Which resource.
        mawrid: &'static str,
        /// What is wrong with it.
        sabab: String,
    },
}

} // verus!
