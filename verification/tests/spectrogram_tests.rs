use harmony_hacker::config::Algorithm;
use harmony_hacker::config::SpectrogramConfig;
use harmony_hacker::errors::AudioError;
use harmony_hacker::spectrogram::assemble_spectrogram;
use harmony_hacker::spectrogram::bins_to_take;
use harmony_hacker::spectrogram::layout_note_row;
use harmony_hacker::spectrogram::plan_dims;
use harmony_hacker::spectrogram::plan_spectrogram;
use harmony_hacker::spectrogram::SpectrogramPlan;
use harmony_hacker::spectrogram::NOTE_ROW_WIDTH;

fn config(resolution_centi_hz: u32, duration_sec: u32, algorithm: Algorithm) -> SpectrogramConfig {
    SpectrogramConfig { resolution_centi_hz, duration_sec, algorithm, dynamic_range_decades: 3 }
}

#[test]
fn default_config_test() {
    let c = SpectrogramConfig::default();
    assert_eq!(c.resolution_centi_hz, 5000);
    assert_eq!(c.duration_sec, 90);
    assert_eq!(c.algorithm, Algorithm::Fourier);
    assert_eq!(c.dynamic_range_decades, 3);
}

#[test]
fn window_size_test() {
    // 48000 samples per second at 50 Hz resolution: 960 samples per
    // window. Rounding is to the nearest integer.
    let c = config(5000, 90, Algorithm::Fourier);
    assert_eq!(c.window_size(48000), 960);
    // 44100 / 33.33 Hz = 1323.13..., rounds down.
    let c = config(3333, 90, Algorithm::Fourier);
    assert_eq!(c.window_size(44100), 1323);
    // 44100 / 49.00 Hz = 900.0 exactly.
    let c = config(4900, 90, Algorithm::Fourier);
    assert_eq!(c.window_size(44100), 900);
    // Degenerate: a 50 Hz resolution asks for more than one second of
    // samples per window cycle than a 1-per-second rate can give.
    let c = config(5000, 90, Algorithm::Fourier);
    assert_eq!(c.window_size(1), 0);
}

#[test]
fn bins_to_take_test() {
    // A one-second window at 44100 samples per second has 1 Hz bins:
    // bins 0 through 4186 lie at or under the top piano key's
    // 4186.01 Hz, so 4187 bins are kept.
    assert_eq!(bins_to_take(44100, 44100), 4187);
    // The planned case: 48000 samples per second, 960-sample windows.
    assert_eq!(bins_to_take(48000, 960), 84);
}

#[test]
fn plan_fourier_test() {
    let c = config(5000, 90, Algorithm::Fourier);
    let plan = plan_spectrogram(&c, 48000, 480000).unwrap();
    assert_eq!(plan.window_size, 960);
    assert_eq!(plan.width, 84);
    assert_eq!(plan.height, 4500);
    // Only 500 whole windows fit in the 480000-sample source.
    assert_eq!(plan.filled_rows, 500);
}

#[test]
fn plan_goertzel_test() {
    let c = config(5000, 90, Algorithm::GoertzelBank);
    let plan = plan_spectrogram(&c, 48000, 48000 * 120).unwrap();
    assert_eq!(plan.window_size, 960);
    assert_eq!(plan.width, NOTE_ROW_WIDTH as u64);
    assert_eq!(plan.width, 269);
    assert_eq!(plan.height, 4500);
    // Two minutes of audio fill every requested row.
    assert_eq!(plan.filled_rows, 4500);
}

#[test]
fn plan_invalid_window_test() {
    // A window of zero samples: resolution finer than the sample rate
    // allows.
    let c = config(5000, 90, Algorithm::Fourier);
    assert_eq!(plan_spectrogram(&c, 1, 48000), Err(AudioError::InvalidWindowSize));
    // An empty source.
    assert_eq!(plan_spectrogram(&c, 48000, 0), Err(AudioError::InvalidWindowSize));
}

#[test]
fn plan_dims_test() {
    let c = config(5000, 90, Algorithm::Fourier);
    let plan = plan_spectrogram(&c, 48000, 480000).unwrap();
    assert_eq!(plan_dims(&plan), Some((84, 4500)));
    let oversized = SpectrogramPlan {
        window_size: 1,
        width: u64::MAX,
        height: 1,
        filled_rows: 1,
    };
    assert_eq!(plan_dims(&oversized), None);
}

#[test]
fn layout_note_row_test() {
    let levels: Vec<u8> = (0..88).map(|k| (k * 2) as u8).collect();
    let row = layout_note_row(&levels);
    assert_eq!(row.len(), NOTE_ROW_WIDTH);
    assert_eq!(row.len(), 88 * 3 + 5);
    // Two leading padding pixels.
    assert_eq!(&row[0..2], &[0, 0]);
    // Three pixels per key.
    for k in 0..88usize {
        let level = (k * 2) as u8;
        assert_eq!(&row[2 + 3 * k..2 + 3 * k + 3], &[level, level, level]);
    }
    // Three trailing padding pixels.
    assert_eq!(&row[266..269], &[0, 0, 0]);
}

#[test]
fn assemble_shape_test() {
    // The buffer is exactly width * height bytes; rows beyond the
    // last filled one are zero.
    let rows = vec![vec![1u8, 2, 3, 4], vec![5u8, 6, 7, 8]];
    let s = assemble_spectrogram(4, 3, &rows);
    assert_eq!(s.width, 4);
    assert_eq!(s.height, 3);
    assert_eq!(s.data.len(), 12);
    assert_eq!(s.data, vec![1, 2, 3, 4, 5, 6, 7, 8, 0, 0, 0, 0]);
}

#[test]
fn assemble_empty_test() {
    let rows: Vec<Vec<u8>> = Vec::new();
    let s = assemble_spectrogram(5, 2, &rows);
    assert_eq!(s.data, vec![0; 10]);
    let s = assemble_spectrogram(0, 0, &rows);
    assert_eq!(s.data.len(), 0);
}

#[test]
fn spectrogram_idempotence_test() {
    // Re-running the builder on the same source and configuration
    // produces byte-identical matrices.
    let c = config(2500, 2, Algorithm::Fourier);
    let sample_rate = 8000;
    let samples: Vec<u8> = (0..4096u32).map(|i| (i % 251) as u8).collect();
    let build = || {
        let plan = plan_spectrogram(&c, sample_rate, samples.len() as u64).unwrap();
        let (width, height) = plan_dims(&plan).unwrap();
        let mut rows: Vec<Vec<u8>> = Vec::new();
        for r in 0..plan.filled_rows as usize {
            let start = r * plan.window_size as usize;
            let window = &samples[start..start + plan.window_size as usize];
            let mut row: Vec<u8> = Vec::new();
            for col in 0..width as usize {
                row.push(window[col % window.len()]);
            }
            rows.push(row);
        }
        assemble_spectrogram(width, height, &rows)
    };
    let a = build();
    let b = build();
    assert_eq!(a.width, b.width);
    assert_eq!(a.height, b.height);
    assert_eq!(a.data, b.data);
    assert_eq!(a.data.len(), (a.width * a.height) as usize);
}
