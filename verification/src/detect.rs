//! Tone detection: the dominant bin of each band, its match on the grid,
//! and the symbol of each window of a channel.

use crate::symbols::{symbol_of, tone_key, SymbolTable, ToneKey};
use crate::tones::{
    best_match, high_band_grid, high_grid, low_band_grid, low_grid, Frequency, HIGH_BAND_MAX_HZ,
    HIGH_BAND_MIN_HZ, LOW_BAND_MAX_HZ, LOW_BAND_MIN_HZ, TOLERANCE_HZ,
};
use crate::utils::{fft_freq, frequency_axis};
use vstd::prelude::*;
use vstd::slice::slice_subrange;

verus! {

/// Whether a bin whose scaled frequency is `value`, on an axis of `n` bins,
/// lies strictly between `min_hz` and `max_hz`.
pub open spec fn in_band(value: int, n: int, min_hz: int, max_hz: int) -> bool {
    min_hz * (2 * n) < value < max_hz * (2 * n)
}

/// Whether bin `p` is the dominant bin of the band: it lies in the band, no
/// bin of the band has a greater magnitude, and every earlier bin of the
/// band has a smaller one.
pub open spec fn is_peak(
    axis: Seq<i128>,
    magnitudes: Seq<u64>,
    min_hz: int,
    max_hz: int,
    p: int,
) -> bool {
    &&& 0 <= p < axis.len()
    &&& in_band(axis[p] as int, axis.len() as int, min_hz, max_hz)
    &&& forall|j: int|
        0 <= j < axis.len() && in_band(#[trigger] axis[j] as int, axis.len() as int, min_hz, max_hz)
            ==> magnitudes[j] <= magnitudes[p]
    &&& forall|j: int|
        0 <= j < p && in_band(#[trigger] axis[j] as int, axis.len() as int, min_hz, max_hz)
            ==> magnitudes[j] < magnitudes[p]
}

/// The dominant bin of the band, or none where no bin lies in the band.
pub open spec fn peak_bin(axis: Seq<i128>, magnitudes: Seq<u64>, min_hz: int, max_hz: int) -> Option<
    int,
> {
    if exists|p: int| is_peak(axis, magnitudes, min_hz, max_hz, p) {
        Some(choose|p: int| is_peak(axis, magnitudes, min_hz, max_hz, p))
    } else {
        None
    }
}

/// A bin index as a mathematical integer.
pub open spec fn bin_of(peak: Option<usize>) -> Option<int> {
    match peak {
        Some(p) => Some(p as int),
        None => None,
    }
}

/// At most one bin is the dominant bin of a band.
pub proof fn lemma_peak_unique(
    axis: Seq<i128>,
    magnitudes: Seq<u64>,
    min_hz: int,
    max_hz: int,
    a: int,
    b: int,
)
    requires
        is_peak(axis, magnitudes, min_hz, max_hz, a),
        is_peak(axis, magnitudes, min_hz, max_hz, b),
    ensures
        a == b,
{
    if a < b {
        assert(in_band(axis[a] as int, axis.len() as int, min_hz, max_hz));
        assert(magnitudes[a] < magnitudes[b]);
        assert(magnitudes[b] <= magnitudes[a]);
    } else if b < a {
        assert(in_band(axis[b] as int, axis.len() as int, min_hz, max_hz));
        assert(magnitudes[b] < magnitudes[a]);
        assert(magnitudes[a] <= magnitudes[b]);
    }
}

/// Finds the dominant bin of a band: among the bins whose frequency lies
/// strictly inside the band, the first one of greatest magnitude.
pub fn band_peak(axis: &[i128], magnitudes: &[u64], min_hz: u16, max_hz: u16) -> (peak: Option<
    usize,
>)
    requires
        magnitudes.len() == axis.len(),
    ensures
        bin_of(peak) == peak_bin(axis@, magnitudes@, min_hz as int, max_hz as int),
        peak is None <==> forall|j: int|
            0 <= j < axis.len() ==> !in_band(
                #[trigger] axis[j] as int,
                axis.len() as int,
                min_hz as int,
                max_hz as int,
            ),
        peak matches Some(p) ==> is_peak(axis@, magnitudes@, min_hz as int, max_hz as int, p as int),
{
    let n: usize = axis.len();
    proof {
        assert(0 <= (min_hz as int) * (2 * (n as int)) <= 0x1_0000 * 2 * 0x1_0000_0000_0000_0000)
            by (nonlinear_arith)
            requires
                0 <= min_hz < 0x1_0000,
                0 <= n < 0x1_0000_0000_0000_0000,
        ;
        assert(0 <= (max_hz as int) * (2 * (n as int)) <= 0x1_0000 * 2 * 0x1_0000_0000_0000_0000)
            by (nonlinear_arith)
            requires
                0 <= max_hz < 0x1_0000,
                0 <= n < 0x1_0000_0000_0000_0000,
        ;
    }
    let lower: i128 = (min_hz as i128) * (2 * (n as i128));
    let upper: i128 = (max_hz as i128) * (2 * (n as i128));
    let mut peak: Option<usize> = None;
    let mut greatest: u64 = 0;
    let mut i: usize = 0;
    while i < n
        invariant
            n == axis.len(),
            magnitudes.len() == axis.len(),
            lower == min_hz * (2 * n),
            upper == max_hz * (2 * n),
            i <= n,
            peak is None ==> forall|j: int|
                0 <= j < i ==> !in_band(
                    #[trigger] axis[j] as int,
                    n as int,
                    min_hz as int,
                    max_hz as int,
                ),
            peak matches Some(p) ==> {
                &&& p < i
                &&& greatest == magnitudes[p as int]
                &&& in_band(axis[p as int] as int, n as int, min_hz as int, max_hz as int)
                &&& forall|j: int|
                    0 <= j < i && in_band(
                        #[trigger] axis[j] as int,
                        n as int,
                        min_hz as int,
                        max_hz as int,
                    ) ==> magnitudes[j] <= greatest
                &&& forall|j: int|
                    0 <= j < p && in_band(
                        #[trigger] axis[j] as int,
                        n as int,
                        min_hz as int,
                        max_hz as int,
                    ) ==> magnitudes[j] < greatest
            },
        decreases n - i,
    {
        let value: i128 = axis[i];
        if lower < value && value < upper {
            let magnitude: u64 = magnitudes[i];
            let better: bool = match peak {
                None => true,
                Some(_) => magnitude > greatest,
            };
            if better {
                peak = Some(i);
                greatest = magnitude;
            }
        }
        i += 1;
    }
    proof {
        match peak {
            Some(p) => {
                assert(is_peak(axis@, magnitudes@, min_hz as int, max_hz as int, p as int));
                let c = choose|c: int| is_peak(axis@, magnitudes@, min_hz as int, max_hz as int, c);
                lemma_peak_unique(axis@, magnitudes@, min_hz as int, max_hz as int, c, p as int);
            },
            None => {
                assert forall|c: int| !is_peak(
                    axis@,
                    magnitudes@,
                    min_hz as int,
                    max_hz as int,
                    c,
                ) by {
                    if 0 <= c < axis.len() {
                        assert(!in_band(axis[c] as int, n as int, min_hz as int, max_hz as int));
                    }
                }
            },
        }
    }
    peak
}

/// The grid candidate matched by the dominant bin of a band: the bin's
/// frequency is its axis entry over twice the number of bins. None where the
/// band holds no bin or no candidate is within the tolerance.
pub open spec fn band_match(
    axis: Seq<i128>,
    magnitudes: Seq<u64>,
    min_hz: int,
    max_hz: int,
    grid: Seq<u16>,
    tolerance: int,
) -> Option<u16> {
    match peak_bin(axis, magnitudes, min_hz, max_hz) {
        Some(p) => best_match(axis[p] as int, 2 * (axis.len() as int), grid, tolerance),
        None => None,
    }
}

/// Finds the dominant bin of a band and matches its frequency against the
/// band's grid.
pub fn band_frequency(
    axis: &[i128],
    magnitudes: &[u64],
    min_hz: u16,
    max_hz: u16,
    grid: &[u16],
    tolerance: u16,
) -> (matched: Option<u16>)
    requires
        magnitudes.len() == axis.len(),
    ensures
        matched == band_match(
            axis@,
            magnitudes@,
            min_hz as int,
            max_hz as int,
            grid@,
            tolerance as int,
        ),
{
    match band_peak(axis, magnitudes, min_hz, max_hz) {
        None => None,
        Some(p) => {
            let n: usize = axis.len();
            proof {
                assert(in_band(axis[p as int] as int, n as int, min_hz as int, max_hz as int));
                assert(0 <= (min_hz as int) * (2 * (n as int))) by (nonlinear_arith)
                    requires
                        0 <= min_hz,
                        0 <= n,
                ;
                assert((max_hz as int) * (2 * (n as int)) <= 0x1_0000 * 2
                    * 0x1_0000_0000_0000_0000) by (nonlinear_arith)
                    requires
                        0 <= max_hz < 0x1_0000,
                        0 <= n < 0x1_0000_0000_0000_0000,
                ;
            }
            match Frequency::new(axis[p], 2 * (n as i128)) {
                Some(found) => found.find_best(grid, tolerance),
                None => None,
            }
        },
    }
}

/// The frequency a band contributes to a tone key: the matched candidate,
/// or 0 where the band has no match.
pub open spec fn key_part(matched: Option<u16>) -> u16 {
    match matched {
        Some(hz) => hz,
        None => 0,
    }
}

/// The tone key of a window: the match of the low band and the match of the
/// high band.
pub open spec fn window_key(axis: Seq<i128>, magnitudes: Seq<u64>) -> ToneKey {
    tone_key(
        key_part(
            band_match(
                axis,
                magnitudes,
                LOW_BAND_MIN_HZ as int,
                LOW_BAND_MAX_HZ as int,
                low_grid(),
                TOLERANCE_HZ as int,
            ),
        ),
        key_part(
            band_match(
                axis,
                magnitudes,
                HIGH_BAND_MIN_HZ as int,
                HIGH_BAND_MAX_HZ as int,
                high_grid(),
                TOLERANCE_HZ as int,
            ),
        ),
    )
}

/// The symbol of a window: what the table files under the window's tone
/// key.
pub open spec fn window_symbol(
    axis: Seq<i128>,
    magnitudes: Seq<u64>,
    symbols: Map<ToneKey, char>,
) -> Option<char> {
    symbol_of(symbols, window_key(axis, magnitudes))
}

/// Detects the tone of one window from the magnitude of each of its bins.
pub fn detect_window(axis: &[i128], magnitudes: &[u64], table: &SymbolTable) -> (symbol: Option<
    char,
>)
    requires
        magnitudes.len() == axis.len(),
    ensures
        symbol == window_symbol(axis@, magnitudes@, table@),
{
    let low_candidates = low_band_grid();
    let high_candidates = high_band_grid();
    let low = band_frequency(
        axis,
        magnitudes,
        LOW_BAND_MIN_HZ,
        LOW_BAND_MAX_HZ,
        low_candidates.as_slice(),
        TOLERANCE_HZ,
    );
    let high = band_frequency(
        axis,
        magnitudes,
        HIGH_BAND_MIN_HZ,
        HIGH_BAND_MAX_HZ,
        high_candidates.as_slice(),
        TOLERANCE_HZ,
    );
    let key = ToneKey {
        low: match low {
            Some(hz) => hz,
            None => 0,
        },
        high: match high {
            Some(hz) => hz,
            None => 0,
        },
    };
    table.lookup(key)
}

/// The magnitudes of window `w` of a spectrum cut into windows of
/// `chunk_size` bins.
pub open spec fn window_of(spectrum: Seq<u64>, chunk_size: int, w: int) -> Seq<u64> {
    spectrum.subrange(w * chunk_size, (w + 1) * chunk_size)
}

/// The detection result of window `w` of a channel: the symbol of the window
/// where the spectrum holds all its bins, none otherwise.
pub open spec fn detection(
    spectrum: Seq<u64>,
    chunk_size: int,
    sample_rate: int,
    symbols: Map<ToneKey, char>,
    w: int,
) -> Option<char> {
    if 0 <= w && (w + 1) * chunk_size <= spectrum.len() {
        window_symbol(
            frequency_axis(chunk_size as nat, sample_rate),
            window_of(spectrum, chunk_size, w),
            symbols,
        )
    } else {
        None
    }
}

proof fn lemma_window_bounds(w: int, count: int, chunk_size: int, len: int)
    by (nonlinear_arith)
    requires
        0 <= w < count,
        chunk_size >= 1,
        count == len / chunk_size,
        0 <= len,
    ensures
        0 <= w * chunk_size,
        w * chunk_size + chunk_size == (w + 1) * chunk_size,
        (w + 1) * chunk_size <= len,
{
}

/// Detects the tone of every full window of a channel. `spectrum` holds the
/// magnitudes of the windows one after the other, `chunk_size` bins each, as
/// integers that order the way the magnitudes do; bins left over at the end
/// belong to no window.
pub fn detect_tones(
    spectrum: &[u64],
    chunk_size: usize,
    sample_rate: u32,
    table: &SymbolTable,
) -> (detected: Vec<Option<char>>)
    requires
        chunk_size >= 1,
    ensures
        detected.len() == spectrum.len() / chunk_size,
        forall|w: int|
            0 <= w < detected.len() ==> #[trigger] detected[w] == detection(
                spectrum@,
                chunk_size as int,
                sample_rate as int,
                table@,
                w,
            ),
{
    let axis = fft_freq(chunk_size, sample_rate);
    let count: usize = spectrum.len() / chunk_size;
    let mut detected: Vec<Option<char>> = Vec::with_capacity(count);
    let mut w: usize = 0;
    while w < count
        invariant
            chunk_size >= 1,
            count == spectrum.len() / chunk_size,
            axis@ == frequency_axis(chunk_size as nat, sample_rate as int),
            axis.len() == chunk_size,
            w <= count,
            detected.len() == w,
            forall|v: int|
                0 <= v < w ==> #[trigger] detected[v] == detection(
                    spectrum@,
                    chunk_size as int,
                    sample_rate as int,
                    table@,
                    v,
                ),
        decreases count - w,
    {
        proof {
            lemma_window_bounds(w as int, count as int, chunk_size as int, spectrum.len() as int);
        }
        let start: usize = w * chunk_size;
        let window = slice_subrange(spectrum, start, start + chunk_size);
        let symbol = detect_window(axis.as_slice(), window, table);
        detected.push(symbol);
        w += 1;
    }
    detected
}

} // verus!
