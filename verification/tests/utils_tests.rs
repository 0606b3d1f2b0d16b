use dtmf_mute::utils::{fft_freq, join_wave, split_wave};

#[test]
fn split_two_channels() {
    let channels = split_wave(vec![1i16, 2, 3, 4, 5, 6], 2);
    assert_eq!(channels, vec![vec![1i16, 3, 5], vec![2i16, 4, 6]]);
}

#[test]
fn split_single_channel_is_identity() {
    let channels = split_wave(vec![7i16, -8, 9], 1);
    assert_eq!(channels, vec![vec![7i16, -8, 9]]);
}

#[test]
fn split_drops_trailing_incomplete_frame() {
    let channels = split_wave(vec![1i16, 2, 3, 4, 5], 2);
    assert_eq!(channels, vec![vec![1i16, 3], vec![2i16, 4]]);
}

#[test]
fn split_more_channels_than_samples() {
    let channels = split_wave(vec![1i16, 2], 3);
    assert_eq!(channels, vec![Vec::<i16>::new(), Vec::new(), Vec::new()]);
}

#[test]
fn split_empty_input() {
    let channels = split_wave(Vec::<i16>::new(), 2);
    assert_eq!(channels, vec![Vec::<i16>::new(), Vec::new()]);
}

#[test]
fn split_works_on_other_sample_types() {
    let channels = split_wave(vec![10u8, 20, 30, 40, 50, 60], 3);
    assert_eq!(channels, vec![vec![10u8, 40], vec![20u8, 50], vec![30u8, 60]]);
}

#[test]
fn join_two_channels() {
    let joined = join_wave(vec![vec![1i16, 3, 5], vec![2i16, 4, 6]]);
    assert_eq!(joined, vec![1i16, 2, 3, 4, 5, 6]);
}

#[test]
fn join_takes_frame_count_from_first_channel() {
    let joined = join_wave(vec![vec![1i16, 2], vec![3i16, 4, 5]]);
    assert_eq!(joined, vec![1i16, 3, 2, 4]);
}

#[test]
fn join_empty_channels() {
    let joined = join_wave(vec![Vec::<i16>::new(), Vec::new()]);
    assert_eq!(joined, Vec::<i16>::new());
}

#[test]
fn join_after_split_gives_input_back() {
    for channels in 1usize..=6 {
        let frames = 7usize;
        let samples: Vec<i16> = (0..(frames * channels) as i16).map(|v| v * 3 - 11).collect();
        let joined = join_wave(split_wave(samples.clone(), channels));
        assert_eq!(joined, samples);
    }
}

#[test]
fn join_after_split_drops_only_the_incomplete_frame() {
    let samples = vec![5i16, 6, 7, 8, 9, 10, 11];
    let joined = join_wave(split_wave(samples.clone(), 3));
    assert_eq!(joined, samples[..6].to_vec());
}

#[test]
fn split_after_join_gives_channels_back() {
    let channels = vec![vec![1i16, 2, 3], vec![4i16, 5, 6], vec![7i16, 8, 9]];
    assert_eq!(split_wave(join_wave(channels.clone()), 3), channels);
}

#[test]
fn frequency_axis_of_eight_bins() {
    let axis = fft_freq(8, 1);
    assert_eq!(axis, vec![0i128, 2, 4, 6, -8, -6, -4, -2]);
    let hertz: Vec<f64> = axis.iter().map(|&v| v as f64 / 16.0).collect();
    assert_eq!(hertz, vec![0.0, 0.125, 0.25, 0.375, -0.5, -0.375, -0.25, -0.125]);
}

#[test]
fn frequency_axis_of_odd_length() {
    let axis = fft_freq(5, 1);
    assert_eq!(axis, vec![0i128, 2, 4, -5, -3]);
    let hertz: Vec<f64> = axis.iter().map(|&v| v as f64 / 10.0).collect();
    assert_eq!(hertz, vec![0.0, 0.2, 0.4, -0.5, -0.3]);
}

#[test]
fn frequency_axis_of_one_and_two_bins() {
    assert_eq!(fft_freq(1, 44100), vec![0i128]);
    assert_eq!(fft_freq(2, 8000), vec![0i128, -16000]);
}

#[test]
fn frequency_axis_scales_with_sample_rate() {
    let axis = fft_freq(400, 8000);
    assert_eq!(axis.len(), 400);
    // bin 35 is 700 Hz: 700 * 2 * 400
    assert_eq!(axis[35], 560_000);
    // the last non-negative bin is 199, at 3980 Hz
    assert_eq!(axis[199], 3980 * 800);
    // bin 200 is the most negative frequency, -4000 Hz
    assert_eq!(axis[200], -4000 * 800);
    assert_eq!(axis[399], -20 * 800);
}

#[test]
fn frequency_axis_with_zero_rate_is_all_zero() {
    assert_eq!(fft_freq(4, 0), vec![0i128, 0, 0, 0]);
}
