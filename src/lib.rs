//! Symbol hashing and wave-parameter derivation for a wave-based activation engine.
//!
//! Everything here is integer logic: the rolling hash of a symbol, the
//! wave parameters it determines (held in hundredths), and the keyed field
//! that collects one activation per distinct symbol.
use vstd::prelude::*;

pub mod engine;
pub mod field;
pub mod hash;
pub mod wave;

pub use engine::WaveEngine;
pub use field::ActivationField;
pub use wave::WaveParameters;

verus! {

} // verus!
