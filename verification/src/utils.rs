//! Channel splitting and joining, and the frequency axis of a transform.

use vstd::prelude::*;

verus! {

/// The contents of a list of channel buffers, channel by channel.
pub open spec fn channels_view<S>(channels: Seq<Vec<S>>) -> Seq<Seq<S>> {
    Seq::new(channels.len(), |j: int| channels[j]@)
}

/// De-interleaving: sample `i` of channel `j` is sample `i * c + j` of the
/// interleaved sequence. A trailing frame with fewer than `c` samples is
/// dropped.
pub open spec fn split_spec<S>(samples: Seq<S>, c: nat) -> Seq<Seq<S>> {
    Seq::new(c, |j: int| Seq::new((samples.len() / c) as nat, |i: int| samples[i * c + j]))
}

/// Interleaving: position `i * c + j` holds sample `i` of channel `j`. The
/// number of frames is the length of the first channel.
pub open spec fn join_spec<S>(channels: Seq<Seq<S>>) -> Seq<S> {
    Seq::new(
        channels[0].len() * channels.len(),
        |p: int| channels[p % (channels.len() as int)][p / (channels.len() as int)],
    )
}

proof fn lemma_frame_position(i: int, j: int, c: int, frames: int, len: int)
    by (nonlinear_arith)
    requires
        0 <= i < frames,
        0 <= j < c,
        frames * c <= len,
    ensures
        0 <= i * c + j < len,
        i * c + j < frames * c,
        (i * c + j) / c == i,
        (i * c + j) % c == j,
{
}

proof fn lemma_position_frame(p: int, c: int, frames: int)
    by (nonlinear_arith)
    requires
        0 <= p < frames * c,
        0 < c,
    ensures
        0 <= p / c < frames,
        0 <= p % c < c,
        (p / c) * c + p % c == p,
{
}

/// Splits an interleaved buffer into one buffer per channel.
pub fn split_wave<S: Sized + Copy>(samples: Vec<S>, channels: usize) -> (splitted: Vec<Vec<S>>)
    requires
        channels >= 1,
    ensures
        splitted.len() == channels,
        forall|j: int| 0 <= j < channels ==> (#[trigger] splitted[j]).len() == samples.len() / channels,
        forall|j: int, i: int|
            0 <= j < channels && 0 <= i < samples.len() / channels ==> #[trigger] splitted[j][i]
                == samples[i * channels + j],
        channels_view(splitted@) == split_spec(samples@, channels as nat),
{
    let size: usize = samples.len() / channels;
    let mut splitted: Vec<Vec<S>> = Vec::with_capacity(channels);
    let mut j: usize = 0;
    while j < channels
        invariant
            channels >= 1,
            size == samples.len() / channels,
            j <= channels,
            splitted.len() == j,
            forall|k: int| 0 <= k < j ==> (#[trigger] splitted[k]).len() == size,
            forall|k: int, i: int|
                0 <= k < j && 0 <= i < size ==> #[trigger] splitted[k][i] == samples[i * channels
                    + k],
        decreases channels - j,
    {
        let mut channel: Vec<S> = Vec::with_capacity(size);
        let mut i: usize = 0;
        while i < size
            invariant
                channels >= 1,
                size == samples.len() / channels,
                j < channels,
                i <= size,
                channel.len() == i,
                forall|k: int| 0 <= k < i ==> #[trigger] channel[k] == samples[k * channels + j],
            decreases size - i,
        {
            proof {
                assert(size * channels <= samples.len()) by (nonlinear_arith)
                    requires
                        size == samples.len() / channels,
                        channels >= 1,
                ;
                lemma_frame_position(
                    i as int,
                    j as int,
                    channels as int,
                    size as int,
                    samples.len() as int,
                );
            }
            channel.push(samples[i * channels + j]);
            i += 1;
        }
        splitted.push(channel);
        j += 1;
    }
    proof {
        let got = channels_view(splitted@);
        let want = split_spec(samples@, channels as nat);
        assert(got.len() == want.len());
        assert forall|k: int| 0 <= k < got.len() implies got[k] =~= want[k] by {
            assert(got[k] == splitted[k]@);
            assert forall|i: int| 0 <= i < size implies splitted[k]@[i] == want[k][i] by {
                assert(splitted[k][i] == samples[i * channels + k]);
            }
        }
        assert(got =~= want);
    }
    splitted
}

/// Interleaves per-channel buffers into one buffer, frame by frame. The
/// number of frames is the length of the first channel.
pub fn join_wave<S: Sized + Copy>(splitted: Vec<Vec<S>>) -> (result: Vec<S>)
    requires
        splitted.len() >= 1,
        forall|j: int| 0 <= j < splitted.len() ==> (#[trigger] splitted[j]).len() >= splitted[0].len(),
    ensures
        result.len() == splitted[0].len() * splitted.len(),
        forall|i: int, j: int|
            0 <= i < splitted[0].len() && 0 <= j < splitted.len() ==> result[i * splitted.len()
                + j] == #[trigger] splitted[j][i],
        result@ == join_spec(channels_view(splitted@)),
{
    let channels: usize = splitted.len();
    let size: usize = splitted[0].len();
    let mut result: Vec<S> = Vec::new();
    let mut i: usize = 0;
    while i < size
        invariant
            channels == splitted.len(),
            channels >= 1,
            size == splitted[0].len(),
            forall|j: int| 0 <= j < splitted.len() ==> (#[trigger] splitted[j]).len() >= size,
            i <= size,
            result.len() == i * channels,
            forall|p: int|
                0 <= p < i * channels ==> #[trigger] result[p] == splitted[p % (channels as int)][p
                    / (channels as int)],
        decreases size - i,
    {
        let mut j: usize = 0;
        while j < channels
            invariant
                channels == splitted.len(),
                channels >= 1,
                size == splitted[0].len(),
                forall|k: int| 0 <= k < splitted.len() ==> (#[trigger] splitted[k]).len() >= size,
                i < size,
                j <= channels,
                result.len() == i * channels + j,
                forall|p: int|
                    0 <= p < i * channels + j ==> #[trigger] result[p] == splitted[p % (
                    channels as int)][p / (channels as int)],
            decreases channels - j,
        {
            proof {
                lemma_frame_position(
                    i as int,
                    j as int,
                    channels as int,
                    size as int,
                    size * channels,
                );
            }
            result.push(splitted[j][i]);
            j += 1;
        }
        proof {
            assert(i * channels + channels == (i + 1) * channels) by (nonlinear_arith);
        }
        i += 1;
    }
    proof {
        let want = join_spec(channels_view(splitted@));
        assert(channels_view(splitted@)[0] == splitted[0]@);
        assert(result.len() == want.len());
        assert forall|p: int| 0 <= p < result.len() implies result@[p] == want[p] by {
            lemma_position_frame(p, channels as int, size as int);
            assert(channels_view(splitted@)[p % (channels as int)] == splitted[p % (
            channels as int)]@);
        }
        assert(result@ =~= want);
        assert forall|a: int, b: int|
            0 <= a < splitted[0].len() && 0 <= b < splitted.len() implies result[a
                * splitted.len() + b] == #[trigger] splitted[b][a] by {
            lemma_frame_position(a, b, channels as int, size as int, size * channels);
        }
    }
    result
}

/// Joining what the splitter produced gives the interleaved sequence back,
/// whenever its length is a whole number of frames.
pub proof fn lemma_join_split_round_trip<S>(samples: Seq<S>, c: nat)
    requires
        c > 0,
        samples.len() % c == 0,
    ensures
        join_spec(split_spec(samples, c)) == samples,
{
    let frames = samples.len() / c;
    let channels = split_spec(samples, c);
    let joined = join_spec(channels);
    assert(channels[0].len() == frames);
    assert(frames * c == samples.len()) by (nonlinear_arith)
        requires
            frames == samples.len() / c,
            samples.len() % c == 0,
            c > 0,
    ;
    assert(joined.len() == samples.len());
    assert forall|p: int| 0 <= p < joined.len() implies joined[p] == samples[p] by {
        lemma_position_frame(p, c as int, frames as int);
        let j = p % (c as int);
        let i = p / (c as int);
        assert(channels[j][i] == samples[i * c + j]);
    }
    assert(joined =~= samples);
}

/// Splitting what the joiner produced gives the channels back, whenever
/// they are equally long.
pub proof fn lemma_split_join_round_trip<S>(channels: Seq<Seq<S>>)
    requires
        channels.len() >= 1,
        forall|j: int| 0 <= j < channels.len() ==> (#[trigger] channels[j]).len() == channels[0].len(),
    ensures
        split_spec(join_spec(channels), channels.len()) == channels,
{
    let c = channels.len();
    let frames = channels[0].len();
    let joined = join_spec(channels);
    let splitted = split_spec(joined, c);
    assert(joined.len() / c == frames) by (nonlinear_arith)
        requires
            joined.len() == frames * c,
            c >= 1,
    ;
    assert forall|j: int| 0 <= j < c implies splitted[j] =~= channels[j] by {
        assert forall|i: int| 0 <= i < frames implies splitted[j][i] == channels[j][i] by {
            lemma_frame_position(i, j, c as int, frames as int, (frames * c) as int);
        }
    }
    assert(splitted =~= channels);
}

/// Index of the first bin that holds a negative frequency.
pub open spec fn axis_middle(n: int) -> int {
    (n - 1) / 2 + 1
}

/// Frequency of bin `i` of a transform of length `n`, as a multiple of
/// `1 / (2 * n * d)` where `d` is the sample interval: bins below the middle
/// hold `i / (n * d)`, the others `(i - middle - n / 2) / (n * d)` with an
/// exact `n / 2`.
pub open spec fn bin_numerator(n: int, i: int) -> int {
    if i < axis_middle(n) {
        2 * i
    } else {
        2 * (i - axis_middle(n)) - n
    }
}

/// Frequency of bin `i` in units of `1 / (2 * n)` Hz, at `sample_rate`
/// samples per second: the frequency in Hz is this number over `2 * n`.
pub open spec fn scaled_frequency(n: int, sample_rate: int, i: int) -> int {
    bin_numerator(n, i) * sample_rate
}

proof fn lemma_scaled_frequency_bound(n: int, sample_rate: int, i: int)
    by (nonlinear_arith)
    requires
        1 <= n <= 0xffff_ffff_ffff_ffff,
        0 <= sample_rate <= 0xffff_ffff,
        0 <= i < n,
    ensures
        -n <= bin_numerator(n, i) < 2 * n,
        -0x1_0000_0000_0000_0000_0000_0000 < scaled_frequency(n, sample_rate, i)
            < 0x2_0000_0000_0000_0000_0000_0000,
{
    let k = bin_numerator(n, i);
    assert(-n <= k < 2 * n);
    assert(k * sample_rate < 2 * n * 0x1_0000_0000);
    assert(k * sample_rate >= -n * 0x1_0000_0000);
}

/// The frequency axis of a transform of `n` samples taken at `sample_rate`
/// samples per second: one scaled frequency per bin.
pub open spec fn frequency_axis(n: nat, sample_rate: int) -> Seq<i128> {
    Seq::new(n, |i: int| scaled_frequency(n as int, sample_rate, i) as i128)
}

/// The frequency axis of a transform of `n` samples taken at `sample_rate`
/// samples per second, in the standard layout: the non-negative frequencies
/// ascending, then the negative ones ascending towards zero. Entry `i` is the
/// frequency of bin `i` in units of `1 / (2 * n)` Hz, which is exact for even
/// and odd `n` alike.
pub fn fft_freq(n: usize, sample_rate: u32) -> (axis: Vec<i128>)
    requires
        n >= 1,
    ensures
        axis.len() == n,
        forall|i: int| 0 <= i < n ==> #[trigger] axis[i] == scaled_frequency(n as int, sample_rate as int, i),
        axis@ == frequency_axis(n as nat, sample_rate as int),
{
    let middle: usize = (n - 1) / 2 + 1;
    let mut axis: Vec<i128> = Vec::with_capacity(n);
    let mut i: usize = 0;
    while i < n
        invariant
            n >= 1,
            middle == axis_middle(n as int),
            i <= n,
            axis.len() == i,
            forall|k: int| 0 <= k < i ==> #[trigger] axis[k] == scaled_frequency(n as int, sample_rate as int, k),
        decreases n - i,
    {
        proof {
            lemma_scaled_frequency_bound(n as int, sample_rate as int, i as int);
        }
        let numerator: i128 = if i < middle {
            2 * (i as i128)
        } else {
            2 * ((i - middle) as i128) - (n as i128)
        };
        axis.push(numerator * (sample_rate as i128));
        i += 1;
    }
    assert(axis@ =~= frequency_axis(n as nat, sample_rate as int));
    axis
}

} // verus!
