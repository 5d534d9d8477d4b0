//! Analysis configuration: spectral resolution, analyzed duration and
//! the choice of analysis algorithm.
//!
//! The resolution is held in centihertz (hundredths of a hertz) so
//! that the analysis window size is derived by exact integer
//! arithmetic: `window_size` is `sample_rate / resolution` rounded to
//! the nearest integer, computed as `(100 * sample_rate + r / 2) / r`
//! over the resolution `r` in centihertz.

use vstd::prelude::*;
use vstd::arithmetic::div_mod::lemma_div_nonincreasing;

verus! {

/// The per-block magnitude algorithm: one Fourier transform per
/// analysis window, or a bank of recursive single-frequency filters
/// (one per piano key).
#[derive(Clone, Copy, Debug, PartialEq, Eq, Structural)]
pub enum Algorithm {
    /// A forward real-to-complex Fourier transform of each window;
    /// columns are frequency bins.
    Fourier,
    /// A bank of 88 recursive single-frequency filters; columns are
    /// per-piano-key blocks.
    GoertzelBank,
}

/// Configuration of one analysis run. Immutable once analysis starts;
/// a changed configuration discards and rebuilds all analysis state.
#[derive(Clone, Copy, Debug, PartialEq, Eq, Structural)]
pub struct SpectrogramConfig {
    /// Spectral resolution in centihertz (hundredths of a hertz).
    /// The settings surface offers 1 Hz to 50 Hz, so 100 to 5000 here.
    pub resolution_centi_hz: u32,
    /// How many seconds of audio to analyze, 1 to 120.
    pub duration_sec: u32,
    /// Which per-block magnitude algorithm to run.
    pub algorithm: Algorithm,
    /// Dynamic range of the Fourier quantizer, in decades: a
    /// magnitude is compressed as `log10(m) / dynamic_range_decades`
    /// before being scaled to a byte. A display tunable with no
    /// single canonical value; 3 shows a 60 dB range.
    pub dynamic_range_decades: u32,
}

/// `a / b` rounded to the nearest integer, halves rounding up.
pub open spec fn rounded_div(a: int, b: int) -> int
    recommends
        a >= 0,
        b >= 1,
{
    (a + b / 2) / b
}

impl SpectrogramConfig {
    /// The fields are inside the ranges the settings surface offers.
    pub open spec fn valid(self) -> bool {
        &&& 100 <= self.resolution_centi_hz <= 5000
        &&& 1 <= self.duration_sec <= 120
        &&& self.dynamic_range_decades >= 1
    }

    /// The size of one analysis window for the given sample rate:
    /// `sample_rate / resolution_hz` rounded to the nearest integer.
    pub open spec fn window_size_spec(self, sample_rate: u32) -> int {
        rounded_div(100 * sample_rate, self.resolution_centi_hz as int)
    }

    /// Derive the analysis window size from the sample rate. A result
    /// of zero means the requested resolution is finer than the
    /// sample rate allows and the analysis must be rejected.
    pub fn window_size(&self, sample_rate: u32) -> (ws: u64)
        requires
            self.resolution_centi_hz >= 1,
        ensures
            ws == self.window_size_spec(sample_rate),
            ws <= 100 * (sample_rate as int) + (self.resolution_centi_hz as int) / 2,
    {
        let resolution = self.resolution_centi_hz as u64;
        let num: u64 = 100u64 * (sample_rate as u64) + resolution / 2;
        proof {
            lemma_div_nonincreasing(num as int, resolution as int);
        }
        num / resolution
    }
}

impl Default for SpectrogramConfig {
    /// The configuration an analysis starts from: 50 Hz resolution,
    /// 90 s of audio, the Fourier path, a 3-decade dynamic range.
    fn default() -> (c: Self)
        ensures
            c == (SpectrogramConfig {
                resolution_centi_hz: 5000,
                duration_sec: 90,
                algorithm: Algorithm::Fourier,
                dynamic_range_decades: 3,
            }),
            c.valid(),
    {
        SpectrogramConfig {
            resolution_centi_hz: 5000,
            duration_sec: 90,
            algorithm: Algorithm::Fourier,
            dynamic_range_decades: 3,
        }
    }
}

} // verus!
