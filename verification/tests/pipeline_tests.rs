use dtmf_mute::pipeline::{
    clean_channels, clean_wave, plan_windows, process_dtmf, window_start_ms, CleanError,
    WaveFormat,
};
use dtmf_mute::symbols::SymbolTable;

fn format_of(channels: u16, sample_rate: u32) -> WaveFormat {
    WaveFormat::new(channels, sample_rate, 16).expect("supported format")
}

/// A window of `bins` bins with the given magnitudes and zero elsewhere.
fn spectrum_window(bins: usize, peaks: &[(usize, u64)]) -> Vec<u64> {
    let mut magnitudes = vec![0u64; bins];
    for &(bin, magnitude) in peaks {
        magnitudes[bin] = magnitude;
    }
    magnitudes
}

#[test]
fn format_of_sixteen_bits_is_accepted() {
    let format = WaveFormat::new(2, 44100, 16).expect("supported format");
    assert_eq!(format.channels(), 2);
    assert_eq!(format.sample_rate(), 44100);
    assert_eq!(format.bits_per_sample(), 16);
}

#[test]
fn other_bit_depths_are_refused() {
    for bits in [0u16, 8, 15, 17, 24, 32] {
        assert_eq!(WaveFormat::new(1, 8000, bits).err(), Some(CleanError::UnsupportedFormat));
    }
}

#[test]
fn format_without_channels_or_rate_is_refused() {
    assert_eq!(WaveFormat::new(0, 8000, 16).err(), Some(CleanError::UnsupportedFormat));
    assert_eq!(WaveFormat::new(1, 0, 16).err(), Some(CleanError::UnsupportedFormat));
}

#[test]
fn error_labels() {
    assert_eq!(CleanError::UnsupportedFormat.label(), "unsupported format");
    assert_eq!(CleanError::DegenerateWindow.label(), "degenerate window");
}

#[test]
fn window_size_of_one_second_mono() {
    let plan = plan_windows(&format_of(1, 8000), 8000, 50).expect("valid window");
    assert_eq!(plan.duration_ms, 1000);
    assert_eq!(plan.window_count, 20);
    assert_eq!(plan.chunk_size, 400);
}

#[test]
fn window_size_counts_the_samples_of_all_channels() {
    let plan = plan_windows(&format_of(2, 8000), 16000, 50).expect("valid window");
    assert_eq!(plan.duration_ms, 2000);
    assert_eq!(plan.window_count, 40);
    assert_eq!(plan.chunk_size, 200);
}

#[test]
fn window_size_rounds_down_at_each_step() {
    let plan = plan_windows(&format_of(1, 44100), 100_000, 50).expect("valid window");
    // 100000 * 1000 / 44100 = 2267, 2267 / 50 = 45, 100000 / 45 = 2222
    assert_eq!(plan.duration_ms, 2267);
    assert_eq!(plan.window_count, 45);
    assert_eq!(plan.chunk_size, 2222);
    let plan = plan_windows(&format_of(2, 44100), 100_001, 30).expect("valid window");
    // 100001 * 1000 / 44100 = 2267, 2267 / 30 = 75, 50000 / 75 = 666
    assert_eq!(plan.duration_ms, 2267);
    assert_eq!(plan.window_count, 75);
    assert_eq!(plan.chunk_size, 666);
}

#[test]
fn window_just_shorter_than_the_waveform_is_one_window() {
    let plan = plan_windows(&format_of(1, 8000), 8000, 999).expect("valid window");
    assert_eq!(plan.duration_ms, 1000);
    assert_eq!(plan.window_count, 1);
    assert_eq!(plan.chunk_size, 8000);
    // 8001 samples last a little longer than 1000 ms
    let plan = plan_windows(&format_of(1, 8000), 8001, 1000).expect("valid window");
    assert_eq!(plan.duration_ms, 1000);
    assert_eq!(plan.window_count, 1);
    assert_eq!(plan.chunk_size, 8001);
}

#[test]
fn window_as_long_as_the_waveform_is_degenerate() {
    assert_eq!(
        plan_windows(&format_of(1, 8000), 8000, 1000).err(),
        Some(CleanError::DegenerateWindow)
    );
    assert_eq!(
        plan_windows(&format_of(1, 44100), 44100, 1000).err(),
        Some(CleanError::DegenerateWindow)
    );
}

#[test]
fn window_size_of_a_long_waveform_does_not_overflow() {
    let plan = plan_windows(&format_of(1, 1), usize::MAX, 1000).expect("valid window");
    assert_eq!(plan.duration_ms, usize::MAX as u128 * 1000);
    assert_eq!(plan.window_count, usize::MAX as u128);
    assert_eq!(plan.chunk_size, 1);
}

#[test]
fn zero_window_is_degenerate() {
    assert_eq!(
        plan_windows(&format_of(1, 8000), 8000, 0).err(),
        Some(CleanError::DegenerateWindow)
    );
}

#[test]
fn window_longer_than_the_waveform_is_degenerate() {
    assert_eq!(
        plan_windows(&format_of(1, 8000), 8000, 1001).err(),
        Some(CleanError::DegenerateWindow)
    );
    assert_eq!(
        plan_windows(&format_of(1, 8000), 0, 50).err(),
        Some(CleanError::DegenerateWindow)
    );
}

#[test]
fn window_without_samples_is_degenerate() {
    // 10 samples at 1 Hz last 10000 ms: 10000 windows of 1 ms, none holds a sample
    assert_eq!(plan_windows(&format_of(1, 1), 10, 1).err(), Some(CleanError::DegenerateWindow));
    // 3 samples on 4 channels: no complete frame
    assert_eq!(plan_windows(&format_of(4, 1), 3, 1000).err(), Some(CleanError::DegenerateWindow));
}

#[test]
fn channel_with_a_tone_in_one_window() {
    let table = SymbolTable::standard();
    let samples: Vec<i16> = (1..=1000).collect();
    let mut spectrum = spectrum_window(400, &[(22, 50)]);
    spectrum.extend(spectrum_window(400, &[(38, 50), (74, 60)]));
    let cleaned = process_dtmf(&samples, &spectrum, 400, 8000, &table);
    assert_eq!(cleaned.len(), 1000);
    assert_eq!(cleaned[..400], samples[..400]);
    assert!(cleaned[400..800].iter().all(|&s| s == 0));
    assert_eq!(cleaned[800..], samples[800..]);
}

#[test]
fn channel_without_a_spectrum_is_copied() {
    let table = SymbolTable::standard();
    let samples: Vec<i16> = (1..=1000).collect();
    assert_eq!(process_dtmf(&samples, &[], 400, 8000, &table), samples);
}

#[test]
fn channel_windows_past_the_spectrum_are_copied() {
    let table = SymbolTable::standard();
    let samples: Vec<i16> = (1..=1200).collect();
    let spectrum = spectrum_window(400, &[(35, 50), (60, 60)]);
    let cleaned = process_dtmf(&samples, &spectrum, 400, 8000, &table);
    assert!(cleaned[..400].iter().all(|&s| s == 0));
    assert_eq!(cleaned[400..], samples[400..]);
}

#[test]
fn channel_trailing_partial_window_is_copied() {
    let table = SymbolTable::standard();
    let samples: Vec<i16> = (1..=700).collect();
    // a spectrum of two windows, though the channel holds one full window only
    let mut spectrum = spectrum_window(400, &[(35, 50), (60, 60)]);
    spectrum.extend(spectrum_window(400, &[(35, 50), (60, 60)]));
    let cleaned = process_dtmf(&samples, &spectrum, 400, 8000, &table);
    assert!(cleaned[..400].iter().all(|&s| s == 0));
    assert_eq!(cleaned[400..], samples[400..]);
}

#[test]
fn channels_are_cleaned_independently() {
    let table = SymbolTable::standard();
    let left: Vec<i16> = (1..=800).collect();
    let right: Vec<i16> = (1..=800).map(|v: i16| -v).collect();
    let mut left_spectrum = spectrum_window(400, &[(35, 50), (60, 60)]);
    left_spectrum.extend(spectrum_window(400, &[]));
    let mut right_spectrum = spectrum_window(400, &[]);
    right_spectrum.extend(spectrum_window(400, &[(47, 50), (82, 60)]));
    let cleaned = clean_channels(
        &[left.clone(), right.clone()],
        &[left_spectrum, right_spectrum],
        400,
        8000,
        &table,
    );
    assert_eq!(cleaned.len(), 2);
    assert!(cleaned[0][..400].iter().all(|&s| s == 0));
    assert_eq!(cleaned[0][400..], left[400..]);
    assert_eq!(cleaned[1][..400], right[..400]);
    assert!(cleaned[1][400..].iter().all(|&s| s == 0));
}

#[test]
fn channels_without_spectra_are_copied() {
    let table = SymbolTable::standard();
    let channels = vec![vec![1i16, 2, 3], vec![4i16, 5, 6]];
    assert_eq!(clean_channels(&channels, &[], 2, 8000, &table), channels);
    assert_eq!(clean_channels(&[], &[], 2, 8000, &table), Vec::<Vec<i16>>::new());
}

#[test]
fn wave_is_cleaned_channel_by_channel() {
    let table = SymbolTable::standard();
    let format = format_of(2, 8000);
    // one second of stereo: 16000 samples, 40 windows of 200 samples per channel
    let samples: Vec<i16> = (0..16000).map(|v: i32| (v % 1000 + 1) as i16).collect();
    let plan = plan_windows(&format, samples.len(), 50).expect("valid window");
    assert_eq!(plan.chunk_size, 200);
    // 200 bins at 8000 Hz are 40 Hz apart: 680 Hz is bin 17, 1200 Hz is bin 30
    let tone = spectrum_window(200, &[(17, 50), (30, 60)]);
    let quiet = spectrum_window(200, &[]);
    let mut left = Vec::new();
    let mut right = Vec::new();
    for w in 0..40 {
        left.extend(if w == 3 { tone.clone() } else { quiet.clone() });
        right.extend(if w == 39 { tone.clone() } else { quiet.clone() });
    }
    let cleaned = clean_wave(samples.clone(), &format, 50, &[left, right], &table)
        .expect("valid window");
    assert_eq!(cleaned.len(), samples.len());
    for (p, (&got, &was)) in cleaned.iter().zip(samples.iter()).enumerate() {
        let frame = p / 2;
        let silenced = if p % 2 == 0 { frame / 200 == 3 } else { frame / 200 == 39 };
        assert_eq!(got, if silenced { 0 } else { was });
    }
}

#[test]
fn wave_without_tones_is_unchanged() {
    let table = SymbolTable::standard();
    let format = format_of(3, 8000);
    let samples: Vec<i16> = (0..24000).map(|v: i32| (v % 777 - 300) as i16).collect();
    let spectra = vec![vec![0u64; 8000]; 3];
    let cleaned = clean_wave(samples.clone(), &format, 50, &spectra, &table).expect("valid window");
    assert_eq!(cleaned, samples);
}

#[test]
fn wave_with_an_incomplete_last_frame_loses_that_frame_only() {
    let table = SymbolTable::standard();
    let format = format_of(2, 8000);
    let samples: Vec<i16> = (0..16001).map(|v: i32| (v % 1000 + 1) as i16).collect();
    let cleaned = clean_wave(samples.clone(), &format, 50, &[], &table).expect("valid window");
    assert_eq!(cleaned, samples[..16000].to_vec());
}

#[test]
fn wave_with_a_degenerate_window_is_refused() {
    let table = SymbolTable::standard();
    let format = format_of(1, 8000);
    let samples = vec![1i16; 8000];
    assert_eq!(
        clean_wave(samples.clone(), &format, 0, &[], &table).err(),
        Some(CleanError::DegenerateWindow)
    );
    assert_eq!(
        clean_wave(samples, &format, 5000, &[], &table).err(),
        Some(CleanError::DegenerateWindow)
    );
}

#[test]
fn window_start_divides_the_duration_evenly() {
    assert_eq!(window_start_ms(1000, 20, 0), 0);
    assert_eq!(window_start_ms(1000, 20, 3), 150);
    assert_eq!(window_start_ms(1000, 20, 19), 950);
    // the step rounds down: 1000 / 3 = 333
    assert_eq!(window_start_ms(1000, 3, 2), 666);
    assert_eq!(window_start_ms(2, 3, 2), 0);
    assert_eq!(window_start_ms(u128::MAX, 1, 0), 0);
}
