//! Muting: zeroing the samples of the windows in which a tone was detected.

use vstd::prelude::*;

verus! {

/// Whether window `w` of a stream of `len` samples is silenced: it is a
/// full window and its detection result holds a symbol.
pub open spec fn window_muted(
    detected: Seq<Option<char>>,
    len: int,
    chunk_size: int,
    w: int,
) -> bool {
    &&& 0 <= w < detected.len()
    &&& (w + 1) * chunk_size <= len
    &&& detected[w] is Some
}

/// The stream after muting: zero in the silenced windows, the given
/// sample everywhere else.
pub open spec fn muted(samples: Seq<i16>, chunk_size: int, detected: Seq<Option<char>>) -> Seq<
    i16,
> {
    Seq::new(
        samples.len(),
        |p: int|
            if window_muted(detected, samples.len() as int, chunk_size, p / chunk_size) {
                0i16
            } else {
                samples[p]
            },
    )
}

proof fn lemma_window_of_sample(p: int, chunk_size: int, len: int)
    by (nonlinear_arith)
    requires
        0 <= p < len,
        chunk_size >= 1,
    ensures
        0 <= (p / chunk_size) * chunk_size <= p,
        p < (p / chunk_size + 1) * chunk_size,
        (p / chunk_size + 1) * chunk_size == (p / chunk_size) * chunk_size + chunk_size,
        p >= (len / chunk_size) * chunk_size ==> (p / chunk_size + 1) * chunk_size > len,
{
    let w = p / chunk_size;
    let full = len / chunk_size;
    assert(w * chunk_size <= p < w * chunk_size + chunk_size);
    assert(full * chunk_size <= len < full * chunk_size + chunk_size);
    if p >= full * chunk_size {
        assert(w >= full);
        assert((w + 1) * chunk_size >= (full + 1) * chunk_size);
    }
}

/// A window shorter than `chunk_size` at the end of a stream is never
/// silenced, whatever the detection results say.
pub proof fn lemma_trailing_window_kept(
    samples: Seq<i16>,
    chunk_size: int,
    detected: Seq<Option<char>>,
    p: int,
)
    requires
        chunk_size >= 1,
        (samples.len() / (chunk_size as nat)) * chunk_size <= p < samples.len(),
    ensures
        muted(samples, chunk_size, detected)[p] == samples[p],
{
    lemma_window_of_sample(p, chunk_size, samples.len() as int);
}

/// Silences the windows in which a tone was detected. The stream is cut
/// into windows of `chunk_size` samples; window `w` is zeroed where it is a
/// full window and `detected[w]` holds a symbol. Every other sample is
/// copied, among them those of a shorter window at the end.
pub fn mute(samples: &[i16], chunk_size: usize, detected: &[Option<char>]) -> (cleaned: Vec<i16>)
    requires
        chunk_size >= 1,
    ensures
        cleaned@ == muted(samples@, chunk_size as int, detected@),
        cleaned.len() == samples.len(),
        forall|p: int|
            (samples.len() / chunk_size) * chunk_size <= p < samples.len() ==> #[trigger] cleaned[p]
                == samples[p],
{
    let len: usize = samples.len();
    let mut cleaned: Vec<i16> = Vec::with_capacity(len);
    let mut p: usize = 0;
    while p < len
        invariant
            chunk_size >= 1,
            len == samples.len(),
            p <= len,
            cleaned.len() == p,
            forall|q: int|
                0 <= q < p ==> #[trigger] cleaned[q] == muted(
                    samples@,
                    chunk_size as int,
                    detected@,
                )[q],
        decreases len - p,
    {
        let w: usize = p / chunk_size;
        proof {
            lemma_window_of_sample(p as int, chunk_size as int, len as int);
        }
        let silenced: bool = w < detected.len() && len - w * chunk_size >= chunk_size
            && detected[w].is_some();
        if silenced {
            cleaned.push(0);
        } else {
            cleaned.push(samples[p]);
        }
        p += 1;
    }
    proof {
        assert(cleaned@ =~= muted(samples@, chunk_size as int, detected@));
        assert forall|q: int|
            (samples.len() / chunk_size) * chunk_size <= q < samples.len() implies #[trigger] cleaned[q]
            == samples[q] by {
            lemma_trailing_window_kept(samples@, chunk_size as int, detected@, q);
        }
    }
    cleaned
}

} // verus!
