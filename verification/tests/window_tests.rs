use harmony_hacker::window_fn::mirror_second_half;

/// The Hann window: only the first half is computed, the second half
/// is its mirror image.
fn hann(sample_count: usize) -> Vec<f32> {
    match sample_count {
        0 => return vec![],
        1 => return vec![0.0],
        _ => (),
    }
    let scale = 2.0 * std::f32::consts::PI / (sample_count - 1) as f32;
    let halfsize = (sample_count + 1) / 2;
    let mut half = Vec::with_capacity(halfsize);
    for i in 0..halfsize {
        half.push(0.5 - 0.5 * (scale * i as f32).cos());
    }
    mirror_second_half(&half, sample_count)
}

#[test]
fn hann_test() {
    assert_eq!(hann(0), vec![]);
    assert_eq!(hann(1), vec![0.0]);
    assert_eq!(hann(2), vec![0.0, 0.0]);
    assert_eq!(hann(3), vec![0.0, 1.0, 0.0]);
    assert_eq!(hann(4), vec![0.0, 0.75, 0.75, 0.0]);
    assert_eq!(hann(5), vec![0.0, 0.5, 1.0, 0.5, 0.0]);
    assert_eq!(hann(7), vec![0.0, 0.25, 0.75, 1.0, 0.75, 0.25, 0.0]);

    // check how overlapping works
    let window_size = 1023;
    let window = hann(window_size);
    for i in 0..window_size / 2 {
        let value = window[i] + window[i + window_size / 2];
        assert!((value - 1.0).abs() < 1e-6);
    }

    let window_size = 1024;
    let window = hann(window_size);
    for i in 0..window_size / 2 {
        let value = window[i] + window[i + window_size / 2];
        assert!((value - 1.0).abs() < 1e-2);
    }
}

#[test]
fn mirror_second_half_test() {
    // An odd length shares its middle element.
    assert_eq!(mirror_second_half(&vec![1, 2, 3], 5), vec![1, 2, 3, 2, 1]);
    // An even length mirrors the whole half.
    assert_eq!(mirror_second_half(&vec![1, 2, 3], 6), vec![1, 2, 3, 3, 2, 1]);
    // A single element is its own mirror.
    assert_eq!(mirror_second_half(&vec![9], 1), vec![9]);
}

#[test]
fn mirror_symmetry_test() {
    for n in 1..40usize {
        let halfsize = (n + 1) / 2;
        let half: Vec<u32> = (0..halfsize as u32).collect();
        let w = mirror_second_half(&half, n);
        assert_eq!(w.len(), n);
        assert_eq!(&w[..halfsize], &half[..]);
        for i in 0..n {
            assert_eq!(w[i], w[n - 1 - i]);
        }
    }
}
