use vstd::prelude::*;

pub mod bookkeeping;
pub mod buffer;
pub mod error;
pub mod field;
pub mod laws;
pub mod virgo;

use crate::virgo::Virgo;

verus! {

/// A curve usable by a SNARK prover: its scalar field has a binding of the
/// bookkeeping-table reductions.
pub trait SNARKCurve {
    type ScalarField: Virgo;
}

} // verus!
