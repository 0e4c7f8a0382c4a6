//! Wave parameters derived from a symbol, in fixed point (hundredths).
use vstd::prelude::*;
use vstd::string::StringSliceAdditionalSpecFns;
use crate::hash::{hash_code, hash_str};

verus! {

/// The parameters of a symbol's wave, each in hundredths of a unit:
/// a frequency of 1.37 is held as 137.
#[derive(Clone, Copy, Debug, PartialEq, Eq, Structural)]
pub struct WaveParameters {
    /// Frequency, in [100, 199].
    pub frequency_hundredths: u32,
    /// Amplitude, in [50, 95].
    pub amplitude_hundredths: u32,
    /// Phase, in [0, 627]: hundredths of a radian, short of 2π.
    pub phase_hundredths: u32,
}

/// Frequency from a hash: `1 + (h mod 100) / 100`.
pub open spec fn frequency_of(h: u32) -> nat {
    100 + (h % 100) as nat
}

/// Amplitude from a byte length: `0.5 + (len mod 10) / 20`.
pub open spec fn amplitude_of(len: nat) -> nat {
    50 + 5 * (len % 10)
}

/// Phase from a hash: `(h mod 628) / 100`.
pub open spec fn phase_of(h: u32) -> nat {
    (h % 628) as nat
}

/// The parameters that a symbol determines.
pub open spec fn parameters_of(s: &str) -> WaveParameters {
    WaveParameters {
        frequency_hundredths: frequency_of(hash_str(s)) as u32,
        amplitude_hundredths: amplitude_of(s.spec_bytes().len()) as u32,
        phase_hundredths: phase_of(hash_str(s)) as u32,
    }
}

/// Each parameter lies in its documented range.
pub open spec fn in_range(p: WaveParameters) -> bool {
    &&& 100 <= p.frequency_hundredths <= 199
    &&& 50 <= p.amplitude_hundredths <= 95
    &&& p.phase_hundredths <= 627
}

/// Derives the frequency, amplitude and phase of `symbol`'s wave from its
/// hash and its length in bytes.
pub fn derive_parameters(symbol: &str) -> (r: WaveParameters)
    ensures
        r == parameters_of(symbol),
        in_range(r),
{
    let h: u32 = hash_code(symbol);
    let len: usize = symbol.as_bytes().len();
    WaveParameters {
        frequency_hundredths: 100 + h % 100,
        amplitude_hundredths: 50 + 5 * ((len % 10) as u32),
        phase_hundredths: h % 628,
    }
}

/// Every symbol's parameters lie in their documented ranges: frequency in
/// [1.00, 1.99], amplitude in [0.50, 0.95] and phase in [0.00, 6.27].
pub proof fn lemma_parameters_in_range(s: &str)
    ensures
        in_range(parameters_of(s)),
{
}

/// The parameters are a function of the symbol's contents.
pub proof fn lemma_parameters_depend_on_content(s: &str, t: &str)
    requires
        s@ == t@,
    ensures
        parameters_of(s) == parameters_of(t),
{
}

/// The empty symbol has frequency 1.00, amplitude 0.50 and phase 0.00.
pub proof fn lemma_empty_symbol_parameters(s: &str)
    requires
        s@.len() == 0,
    ensures
        parameters_of(s) == (WaveParameters {
            frequency_hundredths: 100,
            amplitude_hundredths: 50,
            phase_hundredths: 0,
        }),
{
    assert(s.spec_bytes() =~= Seq::<u8>::empty());
}

} // verus!
