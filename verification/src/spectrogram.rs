//! Geometry and assembly of the spectrogram matrix.
//!
//! A spectrogram is a row-major byte matrix: one row per analysis
//! window in chronological order (row 0 earliest), one quantized
//! magnitude byte per cell. The Fourier path's columns are frequency
//! bins up to the highest audible piano frequency; the Goertzel
//! path's columns are a fixed-width block per piano key plus padding.
//! This module plans the matrix geometry, lays out note rows and
//! assembles quantized rows into the final buffer; the per-row
//! floating-point magnitude work is supplied by the caller.

use vstd::prelude::*;
use vstd::arithmetic::div_mod::lemma_div_by_multiple;
use vstd::arithmetic::div_mod::lemma_div_is_ordered;
use vstd::arithmetic::div_mod::lemma_div_nonincreasing;
use vstd::arithmetic::div_mod::lemma_fundamental_div_mod;
use vstd::arithmetic::div_mod::lemma_fundamental_div_mod_converse;
use vstd::arithmetic::div_mod::lemma_mod_division_less_than_divisor;
use vstd::math::min;

use crate::config::Algorithm;
use crate::config::SpectrogramConfig;
use crate::errors::AudioError;

verus! {

/// The frequency of the highest piano key (C8) in centihertz: the
/// Fourier path keeps no bin above it.
pub const MAX_AUDIBLE_FREQ_CENTI_HZ: u64 = 418601;

/// Keys of a full piano keyboard.
pub const PIANO_KEY_COUNT: usize = 88;

/// Width in pixels of one key's block in a Goertzel-path row.
pub const PIXELS_PER_KEY: usize = 3;

/// Width of one Goertzel-path row: a three-pixel block per key plus
/// five fixed padding pixels (two leading, three trailing).
pub const NOTE_ROW_WIDTH: usize = 88 * 3 + 5;

/// Fourier bins kept per row: one more than the highest bin index
/// that still lies at or under the highest audible piano frequency,
/// `1 + floor(max_freq * window_size / sample_rate)` computed exactly
/// over centihertz.
pub open spec fn bins_to_take_spec(sample_rate: u32, window_size: int) -> int
    recommends
        sample_rate >= 1,
{
    1 + (MAX_AUDIBLE_FREQ_CENTI_HZ * window_size) / (100 * sample_rate)
}

/// How many Fourier bins of one transformed window are kept.
pub fn bins_to_take(sample_rate: u32, window_size: u64) -> (bins: u64)
    requires
        sample_rate >= 1,
        MAX_AUDIBLE_FREQ_CENTI_HZ * window_size < u64::MAX,
    ensures
        bins == bins_to_take_spec(sample_rate, window_size as int),
{
    let num = MAX_AUDIBLE_FREQ_CENTI_HZ * window_size;
    let den = 100u64 * (sample_rate as u64);
    proof {
        lemma_div_nonincreasing(num as int, den as int);
    }
    1 + num / den
}

/// The geometry of one analysis run, fixed before any magnitude is
/// computed.
#[derive(Clone, Copy, Debug, PartialEq, Eq, Structural)]
pub struct SpectrogramPlan {
    /// Samples per analysis window (and per output row).
    pub window_size: u64,
    /// Columns of the matrix.
    pub width: u64,
    /// Rows of the matrix: how many windows the configured duration
    /// asks for.
    pub height: u64,
    /// How many of those rows the source can actually fill; the rest
    /// are zero.
    pub filled_rows: u64,
}

/// Rows the configured duration asks for: how many whole analysis
/// windows fit in `duration_sec` seconds of audio.
pub open spec fn height_spec(config: SpectrogramConfig, sample_rate: u32, window_size: int) -> int
    recommends
        window_size >= 1,
{
    (sample_rate * config.duration_sec) / window_size
}

/// Columns of the matrix: frequency bins on the Fourier path, the
/// fixed note-row width on the Goertzel path.
pub open spec fn width_spec(config: SpectrogramConfig, sample_rate: u32, window_size: int) -> int
    recommends
        sample_rate >= 1,
{
    match config.algorithm {
        Algorithm::Fourier => bins_to_take_spec(sample_rate, window_size),
        Algorithm::GoertzelBank => NOTE_ROW_WIDTH as int,
    }
}

/// Rows the source can fill: the requested rows, capped by the whole
/// windows available in the source.
pub open spec fn filled_rows_spec(height: int, n_samples: int, window_size: int) -> int
    recommends
        window_size >= 1,
{
    min(height, n_samples / window_size)
}

/// Plan the matrix for one analysis run: derive the window size from
/// the configuration and the sample rate, reject a degenerate window
/// or an empty source, and fix the matrix geometry.
pub fn plan_spectrogram(config: &SpectrogramConfig, sample_rate: u32, n_samples: u64) -> (r:
    Result<SpectrogramPlan, AudioError>)
    requires
        config.resolution_centi_hz >= 1,
    ensures
        ({
            let ws = config.window_size_spec(sample_rate);
            match r {
                Err(e) => e == AudioError::InvalidWindowSize && (ws == 0 || n_samples == 0),
                Ok(p) => {
                    &&& ws >= 1
                    &&& n_samples > 0
                    &&& p.window_size == ws
                    &&& p.width == width_spec(*config, sample_rate, ws)
                    &&& p.height == height_spec(*config, sample_rate, ws)
                    &&& p.filled_rows == filled_rows_spec(
                        height_spec(*config, sample_rate, ws),
                        n_samples as int,
                        ws,
                    )
                },
            }
        }),
{
    let ws = config.window_size(sample_rate);
    if ws == 0 || n_samples == 0 {
        return Err(AudioError::InvalidWindowSize);
    }
    proof {
        // A window exists, so the sample rate cannot be zero: the
        // dividend `100 * sample_rate + resolution / 2` reached the
        // divisor.
        let res = config.resolution_centi_hz as int;
        let num = 100 * (sample_rate as int) + res / 2;
        lemma_fundamental_div_mod(num, res);
        lemma_mod_division_less_than_divisor(num, res);
        assert(res * (num / res) >= res) by (nonlinear_arith)
            requires
                num / res >= 1,
                res >= 1,
        ;
        assert(100 * (sample_rate as int) >= res - res / 2);
        assert(sample_rate >= 1);
    }
    let width = match config.algorithm {
        Algorithm::Fourier => {
            proof {
                assert(MAX_AUDIBLE_FREQ_CENTI_HZ * (ws as int) <= MAX_AUDIBLE_FREQ_CENTI_HZ * (
                100 * 0xFFFF_FFFFu64 + 0xFFFF_FFFFu64 / 2));
            }
            bins_to_take(sample_rate, ws)
        },
        Algorithm::GoertzelBank => NOTE_ROW_WIDTH as u64,
    };
    proof {
        assert((sample_rate as int) * (config.duration_sec as int) <= 0xFFFF_FFFF * 0xFFFF_FFFF)
            by (nonlinear_arith)
            requires
                sample_rate <= 0xFFFF_FFFFu32,
                config.duration_sec <= 0xFFFF_FFFFu32,
        ;
    }
    let height = (sample_rate as u64) * (config.duration_sec as u64) / ws;
    let available = n_samples / ws;
    let filled_rows = if height <= available {
        height
    } else {
        available
    };
    Ok(SpectrogramPlan { window_size: ws, width, height, filled_rows })
}

/// Narrow the planned geometry to the matrix's field widths: the
/// dimensions as `u32` when they, and the byte buffer they call for,
/// fit the machine's limits.
pub fn plan_dims(plan: &SpectrogramPlan) -> (r: Option<(u32, u32)>)
    ensures
        match r {
            Some(d) => {
                &&& d.0 == plan.width
                &&& d.1 == plan.height
                &&& plan.width * plan.height <= usize::MAX
            },
            None => plan.width > u32::MAX || plan.height > u32::MAX || plan.width * plan.height
                > usize::MAX,
        },
{
    if plan.width <= u32::MAX as u64 && plan.height <= u32::MAX as u64 {
        proof {
            assert((plan.width as int) * (plan.height as int) <= 0xFFFF_FFFF * 0xFFFF_FFFF)
                by (nonlinear_arith)
                requires
                    plan.width <= 0xFFFF_FFFFu64,
                    plan.height <= 0xFFFF_FFFFu64,
            ;
        }
        let product = plan.width * plan.height;
        if product <= usize::MAX as u64 {
            Some((plan.width as u32, plan.height as u32))
        } else {
            None
        }
    } else {
        None
    }
}

/// One Goertzel-path row laid out from the 88 per-key quantized
/// levels: two leading padding pixels, a three-pixel block per key,
/// three trailing padding pixels.
pub open spec fn note_row_spec(levels: Seq<u8>) -> Seq<u8>
    recommends
        levels.len() == PIANO_KEY_COUNT,
{
    Seq::new(
        NOTE_ROW_WIDTH as nat,
        |i: int|
            if i < 2 {
                0u8
            } else if i < 2 + 88 * 3 {
                levels[(i - 2) / 3]
            } else {
                0u8
            },
    )
}

/// Lay one Goertzel-path row out of the per-key levels.
pub fn layout_note_row(levels: &Vec<u8>) -> (row: Vec<u8>)
    requires
        levels@.len() == PIANO_KEY_COUNT,
    ensures
        row@ == note_row_spec(levels@),
        row@.len() == NOTE_ROW_WIDTH,
{
    let mut row: Vec<u8> = Vec::new();
    row.push(0);
    row.push(0);
    let mut k: usize = 0;
    while k < PIANO_KEY_COUNT
        invariant
            k <= PIANO_KEY_COUNT,
            levels@.len() == PIANO_KEY_COUNT,
            row@.len() == 2 + 3 * k,
            forall|j: int| 0 <= j < row@.len() ==> row@[j] == note_row_spec(levels@)[j],
        decreases PIANO_KEY_COUNT - k,
    {
        let level = levels[k];
        row.push(level);
        row.push(level);
        row.push(level);
        proof {
            lemma_fundamental_div_mod_converse(3 * (k as int), 3, k as int, 0);
            lemma_fundamental_div_mod_converse(3 * (k as int) + 1, 3, k as int, 1);
            lemma_fundamental_div_mod_converse(3 * (k as int) + 2, 3, k as int, 2);
        }
        k = k + 1;
    }
    row.push(0);
    row.push(0);
    row.push(0);
    proof {
        assert(row@ =~= note_row_spec(levels@));
    }
    row
}

/// A row-major byte matrix handed to the rendering layer as an
/// opaque single-channel pixel buffer: `data` holds exactly
/// `width * height` quantized magnitude bytes, row 0 first.
#[derive(Clone, Debug)]
pub struct Spectrogram {
    /// Columns of the matrix.
    pub width: u32,
    /// Rows of the matrix.
    pub height: u32,
    /// The cells, row by row: `data[r * width + c]` is column `c` of
    /// row `r`.
    pub data: Vec<u8>,
}

impl Spectrogram {
    /// The buffer holds exactly one byte per cell.
    pub open spec fn wf(self) -> bool {
        self.data@.len() == self.width * self.height
    }
}

/// The contents of an assembled spectrogram: cell `(r, c)` holds byte
/// `c` of row `r` while rows last, and zero in every row beyond the
/// last filled one.
pub open spec fn built_data(width: nat, height: nat, rows: Seq<Seq<u8>>) -> Seq<u8>
    recommends
        rows.len() <= height,
        forall|r: int| 0 <= r < rows.len() ==> rows[r].len() == width,
{
    Seq::new(
        width * height,
        |k: int|
            if k / (width as int) < rows.len() {
                rows[k / (width as int)][k % (width as int)]
            } else {
                0u8
            },
    )
}

/// Assemble the matrix from the quantized rows the analysis
/// produced, zero-filling every remaining row: the buffer is always
/// exactly `width * height` bytes.
pub fn assemble_spectrogram(width: u32, height: u32, rows: &Vec<Vec<u8>>) -> (s: Spectrogram)
    requires
        rows@.len() <= height,
        forall|r: int| 0 <= r < rows@.len() ==> rows@[r]@.len() == width,
        width * height <= usize::MAX,
    ensures
        s.width == width,
        s.height == height,
        s.wf(),
        s.data@ == built_data(width as nat, height as nat, rows@.map_values(|row: Vec<u8>| row@)),
{
    let ghost model = built_data(
        width as nat,
        height as nat,
        rows@.map_values(|row: Vec<u8>| row@),
    );
    let total: usize = (width as usize) * (height as usize);
    let mut data: Vec<u8> = Vec::new();
    let mut r: usize = 0;
    while r < rows.len()
        invariant
            r <= rows@.len(),
            rows@.len() <= height,
            forall|q: int| 0 <= q < rows@.len() ==> rows@[q]@.len() == width,
            model == built_data(
                width as nat,
                height as nat,
                rows@.map_values(|row: Vec<u8>| row@),
            ),
            model.len() == width * height,
            data@.len() == r * width,
            forall|j: int| 0 <= j < data@.len() ==> data@[j] == model[j],
        decreases rows@.len() - r,
    {
        let mut c: usize = 0;
        proof {
            assert((r as int) * width + width == ((r + 1) as int) * width) by (nonlinear_arith);
            assert(((r + 1) as int) * width <= (width as int) * (height as int))
                by (nonlinear_arith)
                requires
                    r + 1 <= rows@.len() <= height as int,
                    width >= 0,
            ;
        }
        while c < width as usize
            invariant
                c <= width,
                r < rows@.len(),
                rows@.len() <= height,
                forall|q: int| 0 <= q < rows@.len() ==> rows@[q]@.len() == width,
                model == built_data(
                    width as nat,
                    height as nat,
                    rows@.map_values(|row: Vec<u8>| row@),
                ),
                model.len() == width * height,
                (r as int) * width + width <= model.len(),
                data@.len() == r * width + c,
                forall|j: int| 0 <= j < data@.len() ==> data@[j] == model[j],
            decreases width - c,
        {
            data.push(rows[r][c]);
            proof {
                let j = (r as int) * width + c;
                lemma_fundamental_div_mod_converse(j, width as int, r as int, c as int);
                assert(model[j] == rows@[r as int]@[c as int]);
            }
            c = c + 1;
        }
        r = r + 1;
    }
    proof {
        assert((rows@.len() as int) * width <= (width as int) * (height as int))
            by (nonlinear_arith)
            requires
                rows@.len() <= height as int,
                width >= 0,
        ;
    }
    while data.len() < total
        invariant
            total == width * height,
            model.len() == total,
            rows@.len() * width <= data@.len() <= total,
            model == built_data(
                width as nat,
                height as nat,
                rows@.map_values(|row: Vec<u8>| row@),
            ),
            forall|j: int| 0 <= j < data@.len() ==> data@[j] == model[j],
        decreases total - data@.len(),
    {
        proof {
            let j = data@.len() as int;
            // The cell lies in a row beyond the last filled one, so
            // the model holds zero there.
            assert(width >= 1);
            lemma_div_is_ordered(rows@.len() * width, j, width as int);
            lemma_div_by_multiple(rows@.len() as int, width as int);
            assert(j / (width as int) >= rows@.len());
        }
        data.push(0u8);
    }
    proof {
        assert(data@ =~= model);
    }
    Spectrogram { width, height, data }
}

/// Shape invariant of an assembled spectrogram: the buffer holds
/// exactly `width * height` bytes, and every cell of a row beyond the
/// last filled row is zero.
pub proof fn lemma_spectrogram_shape(width: nat, height: nat, rows: Seq<Seq<u8>>)
    requires
        rows.len() <= height,
    ensures
        built_data(width, height, rows).len() == width * height,
        forall|k: int|
            rows.len() * width <= k < width * height ==> built_data(width, height, rows)[k]
                == 0,
{
    assert forall|k: int|
        rows.len() * width <= k < width * height implies built_data(width, height, rows)[k]
        == 0 by {
        if width > 0 {
            lemma_div_is_ordered((rows.len() * width) as int, k, width as int);
            lemma_div_by_multiple(rows.len() as int, width as int);
        } else {
            assert(width * height == 0) by (nonlinear_arith)
                requires
                    width == 0,
            ;
        }
    }
}

/// Idempotence of the builder: the planned geometry and the
/// assembled contents are functions of the source and the
/// configuration alone, so two runs over the same inputs produce
/// byte-identical matrices.
pub proof fn lemma_spectrogram_idempotent(
    s1: Spectrogram,
    s2: Spectrogram,
    width: nat,
    height: nat,
    rows: Seq<Seq<u8>>,
)
    requires
        s1.width == width,
        s1.height == height,
        s1.data@ == built_data(width, height, rows),
        s2.width == width,
        s2.height == height,
        s2.data@ == built_data(width, height, rows),
    ensures
        s1.width == s2.width,
        s1.height == s2.height,
        s1.data@ == s2.data@,
{
}

} // verus!
