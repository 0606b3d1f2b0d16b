//! The pipeline: the window size of a run, the cleaning of one channel, and
//! the cleaning of an interleaved waveform.

use crate::detect::{detect_tones, detection};
use crate::mute::{mute, muted};
use crate::symbols::{SymbolTable, ToneKey};
use crate::utils::{channels_view, join_spec, join_wave, split_spec, split_wave};
use vstd::prelude::*;

verus! {

/// Why a waveform cannot be cleaned.
#[derive(Clone, Copy, Debug, PartialEq, Eq, Structural)]
pub enum CleanError {
    /// The samples are not 16-bit, or the format has no channel or no
    /// sample rate.
    UnsupportedFormat,
    /// The window duration is zero, is not shorter than the waveform, or
    /// yields a window without samples.
    DegenerateWindow,
}

impl CleanError {
    /// A short name of the error for diagnostics.
    pub fn label(&self) -> (name: &'static str)
        ensures
            *self is UnsupportedFormat ==> name@ == "unsupported format"@,
            *self is DegenerateWindow ==> name@ == "degenerate window"@,
    {
        match self {
            CleanError::UnsupportedFormat => "unsupported format",
            CleanError::DegenerateWindow => "degenerate window",
        }
    }
}

/// The bit depth the pipeline works on.
pub const BITS_PER_SAMPLE: u16 = 16;

/// Whether a format can be processed: 16-bit samples, at least one channel,
/// a sample rate above zero.
pub open spec fn supported(channels: int, sample_rate: int, bits_per_sample: int) -> bool {
    bits_per_sample == BITS_PER_SAMPLE && channels >= 1 && sample_rate >= 1
}

/// The layout of a waveform: channel count, sample rate and bit depth.
#[derive(Clone, Copy, Debug)]
pub struct WaveFormat {
    channels: u16,
    sample_rate: u32,
    bits_per_sample: u16,
}

impl WaveFormat {
    #[verifier::type_invariant]
    spec fn well_formed(self) -> bool {
        supported(self.channels as int, self.sample_rate as int, self.bits_per_sample as int)
    }

    /// The number of channels.
    pub closed spec fn channel_count(self) -> int {
        self.channels as int
    }

    /// The number of samples per second and channel.
    pub closed spec fn rate(self) -> int {
        self.sample_rate as int
    }

    /// The number of bits per sample.
    pub closed spec fn depth(self) -> int {
        self.bits_per_sample as int
    }

    /// Accepts a format that can be processed and refuses every other.
    pub fn new(channels: u16, sample_rate: u32, bits_per_sample: u16) -> (format: Result<
        WaveFormat,
        CleanError,
    >)
        ensures
            format is Ok <==> supported(
                channels as int,
                sample_rate as int,
                bits_per_sample as int,
            ),
            format matches Ok(f) ==> f.channel_count() == channels && f.rate() == sample_rate
                && f.depth() == bits_per_sample,
            format matches Err(e) ==> e is UnsupportedFormat,
    {
        if bits_per_sample == BITS_PER_SAMPLE && channels >= 1 && sample_rate >= 1 {
            Ok(WaveFormat { channels, sample_rate, bits_per_sample })
        } else {
            Err(CleanError::UnsupportedFormat)
        }
    }

    /// The number of channels, at least one.
    pub fn channels(&self) -> (channels: u16)
        ensures
            channels == self.channel_count(),
            channels >= 1,
    {
        proof {
            use_type_invariant(self);
        }
        self.channels
    }

    /// The number of samples per second and channel, above zero.
    pub fn sample_rate(&self) -> (sample_rate: u32)
        ensures
            sample_rate == self.rate(),
            sample_rate >= 1,
    {
        proof {
            use_type_invariant(self);
        }
        self.sample_rate
    }

    /// The number of bits per sample, which is 16.
    pub fn bits_per_sample(&self) -> (bits: u16)
        ensures
            bits == self.depth(),
            bits == BITS_PER_SAMPLE,
    {
        proof {
            use_type_invariant(self);
        }
        self.bits_per_sample
    }
}

/// The duration of `total_samples` samples at `sample_rate` samples per
/// second, in whole milliseconds.
pub open spec fn duration_ms(total_samples: int, sample_rate: int) -> int {
    total_samples * 1000 / sample_rate
}

/// The number of whole windows of `window_ms` milliseconds in the duration.
pub open spec fn window_count(total_samples: int, sample_rate: int, window_ms: int) -> int {
    duration_ms(total_samples, sample_rate) / window_ms
}

/// The window size in samples: the samples of one channel divided among the
/// windows, each division rounding down.
pub open spec fn chunk_size_of(
    total_samples: int,
    channels: int,
    sample_rate: int,
    window_ms: int,
) -> int {
    (total_samples / channels) / window_count(total_samples, sample_rate, window_ms)
}

/// Whether the window duration fits the waveform: it is above zero and
/// shorter than the waveform, and a window holds at least one sample.
pub open spec fn window_fits(
    total_samples: int,
    channels: int,
    sample_rate: int,
    window_ms: int,
) -> bool {
    &&& window_ms >= 1
    &&& window_ms * sample_rate < total_samples * 1000
    &&& chunk_size_of(total_samples, channels, sample_rate, window_ms) >= 1
}

/// A window shorter than the waveform fits into it at least once.
pub proof fn lemma_shorter_window_fits_once(total_samples: int, sample_rate: int, window_ms: int)
    by (nonlinear_arith)
    requires
        sample_rate >= 1,
        window_ms >= 1,
        window_ms * sample_rate < total_samples * 1000,
    ensures
        duration_ms(total_samples, sample_rate) >= window_ms,
        window_count(total_samples, sample_rate, window_ms) >= 1,
{
    let scaled = total_samples * 1000;
    let duration = scaled / sample_rate;
    assert(duration * sample_rate + scaled % sample_rate == scaled);
    assert(0 <= scaled % sample_rate < sample_rate);
    assert(duration >= window_ms) by {
        if duration < window_ms {
            assert(duration + 1 <= window_ms);
            assert((duration + 1) * sample_rate <= window_ms * sample_rate);
        }
    }
    assert(duration / window_ms >= 1);
}

/// What a run derives from the window duration.
#[derive(Clone, Copy, Debug)]
pub struct Windowing {
    /// Duration of the samples in milliseconds.
    pub duration_ms: u128,
    /// Number of windows of the requested duration.
    pub window_count: u128,
    /// Samples per window.
    pub chunk_size: usize,
}

/// Derives the window size of a run from the number of samples of all
/// channels together and the window duration in milliseconds. A window of
/// zero milliseconds, a window that is not shorter than the waveform, and a
/// window that would hold no sample are refused.
pub fn plan_windows(format: &WaveFormat, total_samples: usize, window_ms: u32) -> (plan: Result<
    Windowing,
    CleanError,
>)
    ensures
        plan is Ok <==> window_fits(
            total_samples as int,
            format.channel_count(),
            format.rate(),
            window_ms as int,
        ),
        plan matches Ok(w) ==> {
            &&& w.duration_ms == duration_ms(total_samples as int, format.rate())
            &&& w.window_count == window_count(
                total_samples as int,
                format.rate(),
                window_ms as int,
            )
            &&& w.chunk_size == chunk_size_of(
                total_samples as int,
                format.channel_count(),
                format.rate(),
                window_ms as int,
            )
            &&& 1 <= w.chunk_size <= total_samples
        },
        plan matches Err(e) ==> e is DegenerateWindow,
{
    let channels: u16 = format.channels();
    let sample_rate: u32 = format.sample_rate();
    if window_ms == 0 {
        return Err(CleanError::DegenerateWindow);
    }
    let scaled: u128 = (total_samples as u128) * 1000;
    proof {
        assert((window_ms as int) * (sample_rate as int) <= 0xffff_ffff * 0xffff_ffff)
            by (nonlinear_arith)
            requires
                0 <= window_ms <= 0xffff_ffff,
                0 <= sample_rate <= 0xffff_ffff,
        ;
    }
    if (window_ms as u128) * (sample_rate as u128) >= scaled {
        return Err(CleanError::DegenerateWindow);
    }
    proof {
        lemma_shorter_window_fits_once(total_samples as int, sample_rate as int, window_ms as int);
    }
    let duration: u128 = scaled / (sample_rate as u128);
    let windows: u128 = duration / (window_ms as u128);
    let sample_len: usize = total_samples / (channels as usize);
    let chunk: u128 = (sample_len as u128) / windows;
    if chunk == 0 {
        return Err(CleanError::DegenerateWindow);
    }
    proof {
        assert(chunk <= sample_len) by (nonlinear_arith)
            requires
                chunk == (sample_len as int) / (windows as int),
                windows >= 1,
                sample_len >= 0,
        ;
        assert(sample_len <= total_samples) by (nonlinear_arith)
            requires
                sample_len == (total_samples as int) / (channels as int),
                channels >= 1,
                total_samples >= 0,
        ;
    }
    Ok(Windowing { duration_ms: duration, window_count: windows, chunk_size: chunk as usize })
}

/// The approximate start of window `w` in milliseconds, where the duration
/// is divided evenly among `windows` windows, rounding down.
pub open spec fn window_start(duration_ms: int, windows: int, w: int) -> int {
    (duration_ms / windows) * w
}

/// The approximate start of window `w` of a channel in milliseconds, for
/// reporting where a tone was found.
pub fn window_start_ms(duration_ms: u128, windows: usize, w: usize) -> (start: u128)
    requires
        windows >= 1,
        w < windows,
    ensures
        start == window_start(duration_ms as int, windows as int, w as int),
        start <= duration_ms,
{
    let step: u128 = duration_ms / (windows as u128);
    proof {
        assert(0 <= step * w <= duration_ms) by (nonlinear_arith)
            requires
                step == (duration_ms as int) / (windows as int),
                windows >= 1,
                0 <= w < windows,
                duration_ms >= 0,
        {
            assert(step * windows <= duration_ms);
            assert(step * w <= step * windows);
        }
    }
    step * (w as u128)
}

/// The detection results of a channel, one per window that the spectrum
/// holds in full.
pub open spec fn detections(
    spectrum: Seq<u64>,
    chunk_size: int,
    sample_rate: int,
    symbols: Map<ToneKey, char>,
) -> Seq<Option<char>> {
    Seq::new(
        (spectrum.len() / (chunk_size as nat)) as nat,
        |w: int| detection(spectrum, chunk_size, sample_rate, symbols, w),
    )
}

/// A channel after detection and muting.
pub open spec fn cleaned_channel(
    samples: Seq<i16>,
    spectrum: Seq<u64>,
    chunk_size: int,
    sample_rate: int,
    symbols: Map<ToneKey, char>,
) -> Seq<i16> {
    muted(samples, chunk_size, detections(spectrum, chunk_size, sample_rate, symbols))
}

/// Cleans one channel: detects the tone of each window from the channel's
/// spectrum and silences the windows that hold one. `spectrum` holds, for
/// the full windows of the channel one after the other, the magnitude of
/// each bin of the window's transform as an integer that orders the way the
/// magnitudes do. A window that the spectrum does not cover, and a shorter
/// window at the end, are copied.
pub fn process_dtmf(
    samples: &[i16],
    spectrum: &[u64],
    chunk_size: usize,
    sample_rate: u32,
    table: &SymbolTable,
) -> (cleaned: Vec<i16>)
    requires
        chunk_size >= 1,
    ensures
        cleaned@ == cleaned_channel(
            samples@,
            spectrum@,
            chunk_size as int,
            sample_rate as int,
            table@,
        ),
        cleaned.len() == samples.len(),
        forall|p: int|
            (samples.len() / chunk_size) * chunk_size <= p < samples.len() ==> #[trigger] cleaned[p]
                == samples[p],
{
    let detected = detect_tones(spectrum, chunk_size, sample_rate, table);
    assert(detected@ =~= detections(spectrum@, chunk_size as int, sample_rate as int, table@));
    mute(samples, chunk_size, detected.as_slice())
}

/// The spectrum of channel `j`, which is empty where none was supplied.
pub open spec fn spectrum_at(spectra: Seq<Seq<u64>>, j: int) -> Seq<u64> {
    if 0 <= j < spectra.len() {
        spectra[j]
    } else {
        Seq::empty()
    }
}

/// The channels after detection and muting, each with its own spectrum.
pub open spec fn cleaned_channels(
    channels: Seq<Seq<i16>>,
    spectra: Seq<Seq<u64>>,
    chunk_size: int,
    sample_rate: int,
    symbols: Map<ToneKey, char>,
) -> Seq<Seq<i16>> {
    Seq::new(
        channels.len(),
        |j: int|
            cleaned_channel(channels[j], spectrum_at(spectra, j), chunk_size, sample_rate, symbols),
    )
}

/// Cleans every channel with its own spectrum. The channels do not depend
/// on each other; a channel without a spectrum is copied.
pub fn clean_channels(
    channels: &[Vec<i16>],
    spectra: &[Vec<u64>],
    chunk_size: usize,
    sample_rate: u32,
    table: &SymbolTable,
) -> (cleaned: Vec<Vec<i16>>)
    requires
        chunk_size >= 1,
    ensures
        cleaned.len() == channels.len(),
        forall|j: int| 0 <= j < channels.len() ==> (#[trigger] cleaned[j]).len() == channels[j].len(),
        channels_view(cleaned@) == cleaned_channels(
            channels_view(channels@),
            channels_view(spectra@),
            chunk_size as int,
            sample_rate as int,
            table@,
        ),
{
    let none: Vec<u64> = Vec::new();
    let mut cleaned: Vec<Vec<i16>> = Vec::with_capacity(channels.len());
    let mut j: usize = 0;
    while j < channels.len()
        invariant
            chunk_size >= 1,
            none@ == Seq::<u64>::empty(),
            j <= channels.len(),
            cleaned.len() == j,
            forall|k: int| 0 <= k < j ==> (#[trigger] cleaned[k]).len() == channels[k].len(),
            forall|k: int|
                0 <= k < j ==> (#[trigger] cleaned[k])@ == cleaned_channel(
                    channels[k]@,
                    spectrum_at(channels_view(spectra@), k),
                    chunk_size as int,
                    sample_rate as int,
                    table@,
                ),
        decreases channels.len() - j,
    {
        let spectrum: &Vec<u64> = if j < spectra.len() {
            &spectra[j]
        } else {
            &none
        };
        assert(spectrum@ == spectrum_at(channels_view(spectra@), j as int));
        let channel = process_dtmf(
            channels[j].as_slice(),
            spectrum.as_slice(),
            chunk_size,
            sample_rate,
            table,
        );
        cleaned.push(channel);
        j += 1;
    }
    proof {
        let got = channels_view(cleaned@);
        let want = cleaned_channels(
            channels_view(channels@),
            channels_view(spectra@),
            chunk_size as int,
            sample_rate as int,
            table@,
        );
        assert forall|k: int| 0 <= k < got.len() implies got[k] == want[k] by {
            assert(got[k] == cleaned[k]@);
            assert(channels_view(channels@)[k] == channels[k]@);
        }
        assert(got =~= want);
    }
    cleaned
}

/// The interleaved waveform after cleaning: split into channels, each
/// channel cleaned with its own spectrum, and joined again.
pub open spec fn cleaned_wave(
    samples: Seq<i16>,
    channels: int,
    spectra: Seq<Seq<u64>>,
    chunk_size: int,
    sample_rate: int,
    symbols: Map<ToneKey, char>,
) -> Seq<i16> {
    join_spec(
        cleaned_channels(
            split_spec(samples, channels as nat),
            spectra,
            chunk_size,
            sample_rate,
            symbols,
        ),
    )
}

/// Cleaning keeps the shape of a waveform: the number of channels, the
/// length of every channel, and, where the samples are a whole number of
/// frames, the number of samples.
pub proof fn lemma_cleaning_keeps_shape(
    samples: Seq<i16>,
    channels: int,
    spectra: Seq<Seq<u64>>,
    chunk_size: int,
    sample_rate: int,
    symbols: Map<ToneKey, char>,
)
    requires
        channels >= 1,
    ensures
        cleaned_channels(
            split_spec(samples, channels as nat),
            spectra,
            chunk_size,
            sample_rate,
            symbols,
        ).len() == channels,
        forall|j: int|
            0 <= j < channels ==> (#[trigger] cleaned_channels(
                split_spec(samples, channels as nat),
                spectra,
                chunk_size,
                sample_rate,
                symbols,
            )[j]).len() == samples.len() / (channels as nat),
        cleaned_wave(samples, channels, spectra, chunk_size, sample_rate, symbols).len() == (
        samples.len() / (channels as nat)) * channels,
        samples.len() % (channels as nat) == 0 ==> cleaned_wave(
            samples,
            channels,
            spectra,
            chunk_size,
            sample_rate,
            symbols,
        ).len() == samples.len(),
{
    let frames = (samples.len() as int) / channels;
    assert(samples.len() % (channels as nat) == 0 ==> frames * channels == samples.len())
        by (nonlinear_arith)
        requires
            frames == (samples.len() as int) / channels,
            channels >= 1,
    ;
}

/// Cleans an interleaved waveform: derives the window size, splits the
/// samples into channels, silences in each channel the windows that hold a
/// tone, and interleaves the channels again. `spectra` holds one spectrum per
/// channel, laid out as [`process_dtmf`] takes it. The cleaned waveform has
/// the samples and channels of the input, and every sample of it is either
/// the input's or zero.
pub fn clean_wave(
    samples: Vec<i16>,
    format: &WaveFormat,
    window_ms: u32,
    spectra: &[Vec<u64>],
    table: &SymbolTable,
) -> (cleaned: Result<Vec<i16>, CleanError>)
    ensures
        cleaned is Ok <==> window_fits(
            samples.len() as int,
            format.channel_count(),
            format.rate(),
            window_ms as int,
        ),
        cleaned matches Err(e) ==> e is DegenerateWindow,
        cleaned matches Ok(wave) ==> {
            &&& wave@ == cleaned_wave(
                samples@,
                format.channel_count(),
                channels_view(spectra@),
                chunk_size_of(
                    samples.len() as int,
                    format.channel_count(),
                    format.rate(),
                    window_ms as int,
                ),
                format.rate(),
                table@,
            )
            &&& wave.len() == ((samples.len() as int) / format.channel_count())
                * format.channel_count()
            &&& (samples.len() as int) % format.channel_count() == 0 ==> wave.len()
                == samples.len()
            &&& forall|p: int|
                0 <= p < wave.len() ==> #[trigger] wave[p] == samples[p] || wave[p] == 0
        },
{
    let plan = match plan_windows(format, samples.len(), window_ms) {
        Ok(plan) => plan,
        Err(e) => {
            return Err(e);
        },
    };
    let count: usize = format.channels() as usize;
    let sample_rate: u32 = format.sample_rate();
    let ghost input = samples@;
    let ghost frames = (samples.len() / count) as int;
    let splitted = split_wave(samples, count);
    let channels = clean_channels(
        splitted.as_slice(),
        spectra,
        plan.chunk_size,
        sample_rate,
        table,
    );
    let ghost cleaned = channels_view(channels@);
    proof {
        assert(channels_view(splitted@) == split_spec(input, count as nat));
        assert(channels[0].len() == splitted[0].len());
        assert forall|j: int| 0 <= j < channels.len() implies (#[trigger] channels[j]).len()
            >= channels[0].len() by {
            assert(channels[j].len() == splitted[j].len());
        }
    }
    let wave = join_wave(channels);
    proof {
        assert(wave.len() == frames * count);
        assert(frames * count <= input.len() && (input.len() % (count as nat) == 0
            ==> frames * count == input.len())) by (nonlinear_arith)
            requires
                frames == (input.len() as int) / (count as int),
                count >= 1,
        ;
        assert forall|p: int| 0 <= p < wave.len() implies #[trigger] wave[p] == input[p]
            || wave[p] == 0 by {
            lemma_sample_kept_or_zero(input, count as int, cleaned, p);
        }
    }
    Ok(wave)
}

/// Joining channels that hold, sample for sample, the split input or zero
/// gives a waveform that holds the input or zero.
proof fn lemma_sample_kept_or_zero(
    samples: Seq<i16>,
    count: int,
    cleaned: Seq<Seq<i16>>,
    p: int,
)
    requires
        count >= 1,
        cleaned.len() == count,
        forall|j: int|
            0 <= j < count ==> (#[trigger] cleaned[j]).len() == samples.len() / (count as nat),
        forall|j: int, i: int|
            0 <= j < count && 0 <= i < samples.len() / (count as nat) ==> (#[trigger] cleaned[j][i])
                == samples[i * count + j] || cleaned[j][i] == 0,
        0 <= p < (samples.len() / (count as nat)) * count,
    ensures
        join_spec(cleaned)[p] == samples[p] || join_spec(cleaned)[p] == 0,
{
    let frames = (samples.len() / (count as nat)) as int;
    assert(0 <= p / count < frames && 0 <= p % count < count && (p / count) * count + p % count
        == p) by (nonlinear_arith)
        requires
            0 <= p < frames * count,
            count >= 1,
    ;
    let j = p % count;
    let i = p / count;
    assert(cleaned[j][i] == samples[i * count + j] || cleaned[j][i] == 0);
}

} // verus!
