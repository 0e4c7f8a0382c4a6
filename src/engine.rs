//! The engine: the entry points that callers hold on to.
use vstd::prelude::*;
use crate::hash::{hash_code, hash_str};
use crate::wave::{derive_parameters, in_range, parameters_of, WaveParameters};

verus! {

/// The wave engine. It keeps no state: every result is a function of the
/// symbol it is asked about.
#[derive(Clone, Copy, Debug, PartialEq, Eq, Structural)]
pub struct WaveEngine {}

impl WaveEngine {
    /// A new engine.
    pub fn new() -> (r: Self)
        ensures
            r == (WaveEngine {}),
    {
        WaveEngine {}
    }

    /// The 32-bit rolling hash of `s`'s bytes.
    pub fn hash_code(&self, s: &str) -> (r: u32)
        ensures
            r == hash_str(s),
    {
        hash_code(s)
    }

    /// The wave parameters of `symbol`.
    pub fn derive_parameters(&self, symbol: &str) -> (r: WaveParameters)
        ensures
            r == parameters_of(symbol),
            in_range(r),
    {
        derive_parameters(symbol)
    }
}

} // verus!
