//! The DTMF frequency grid, exact frequencies, and the nearest-candidate
//! match within a tolerance.

use vstd::prelude::*;

verus! {

/// Matching tolerance in Hz. A candidate counts only if it is strictly
/// closer than this.
pub const TOLERANCE_HZ: u16 = 20;

/// Lower edge of the low band in Hz (exclusive).
pub const LOW_BAND_MIN_HZ: u16 = 0;

/// Upper edge of the low band in Hz (exclusive).
pub const LOW_BAND_MAX_HZ: u16 = 1050;

/// Lower edge of the high band in Hz (exclusive).
pub const HIGH_BAND_MIN_HZ: u16 = 1100;

/// Upper edge of the high band in Hz (exclusive).
pub const HIGH_BAND_MAX_HZ: u16 = 2000;

/// Largest denominator a [`Frequency`] can have.
pub const MAX_DENOMINATOR: i128 = 0x4_0000_0000_0000_0000;

/// Largest absolute numerator a [`Frequency`] can have.
pub const MAX_NUMERATOR: i128 = 0x10_0000_0000_0000_0000_0000_0000;

/// The candidate frequencies of the low band, in Hz.
pub open spec fn low_grid() -> Seq<u16> {
    seq![697u16, 770u16, 852u16, 941u16]
}

/// The candidate frequencies of the high band, in Hz.
pub open spec fn high_grid() -> Seq<u16> {
    seq![1209u16, 1336u16, 1477u16, 1633u16]
}

/// The candidate frequencies of the low band, in Hz.
pub fn low_band_grid() -> (grid: Vec<u16>)
    ensures
        grid@ == low_grid(),
{
    let mut grid: Vec<u16> = Vec::with_capacity(4);
    grid.push(697);
    grid.push(770);
    grid.push(852);
    grid.push(941);
    assert(grid@ =~= low_grid());
    grid
}

/// The candidate frequencies of the high band, in Hz.
pub fn high_band_grid() -> (grid: Vec<u16>)
    ensures
        grid@ == high_grid(),
{
    let mut grid: Vec<u16> = Vec::with_capacity(4);
    grid.push(1209);
    grid.push(1336);
    grid.push(1477);
    grid.push(1633);
    assert(grid@ =~= high_grid());
    grid
}

/// Distance between the frequency `num / den` and `candidate` Hz, times
/// `den`.
pub open spec fn deviation(num: int, den: int, candidate: int) -> int {
    if num >= candidate * den {
        num - candidate * den
    } else {
        candidate * den - num
    }
}

/// Whether `candidate` Hz lies strictly closer than `tolerance` Hz to the
/// frequency `num / den`.
pub open spec fn within_tolerance(num: int, den: int, candidate: int, tolerance: int) -> bool {
    deviation(num, den, candidate) < tolerance * den
}

/// Whether `grid[k]` is the match for the frequency `num / den`: it lies
/// within the tolerance, no candidate is nearer, and every earlier candidate
/// is farther.
pub open spec fn is_best(num: int, den: int, grid: Seq<u16>, tolerance: int, k: int) -> bool {
    &&& 0 <= k < grid.len()
    &&& within_tolerance(num, den, grid[k] as int, tolerance)
    &&& forall|j: int|
        0 <= j < grid.len() ==> deviation(num, den, #[trigger] grid[j] as int) >= deviation(
            num,
            den,
            grid[k] as int,
        )
    &&& forall|j: int|
        0 <= j < k ==> deviation(num, den, #[trigger] grid[j] as int) > deviation(
            num,
            den,
            grid[k] as int,
        )
}

/// The candidate of `grid` matched by the frequency `num / den`: the nearest
/// one among those strictly within `tolerance` Hz, the first of them where
/// several are equally near; none where no candidate is within the tolerance.
pub open spec fn best_match(num: int, den: int, grid: Seq<u16>, tolerance: int) -> Option<u16> {
    if exists|k: int| is_best(num, den, grid, tolerance, k) {
        Some(grid[choose|k: int| is_best(num, den, grid, tolerance, k)])
    } else {
        None
    }
}

/// At most one position of a grid is the match.
pub proof fn lemma_best_unique(num: int, den: int, grid: Seq<u16>, tolerance: int, a: int, b: int)
    requires
        is_best(num, den, grid, tolerance, a),
        is_best(num, den, grid, tolerance, b),
    ensures
        a == b,
{
    if a < b {
        assert(deviation(num, den, grid[a] as int) > deviation(num, den, grid[b] as int));
        assert(deviation(num, den, grid[b] as int) >= deviation(num, den, grid[a] as int));
    } else if b < a {
        assert(deviation(num, den, grid[b] as int) > deviation(num, den, grid[a] as int));
        assert(deviation(num, den, grid[a] as int) >= deviation(num, den, grid[b] as int));
    }
}

/// The match is the candidate at position `k` once `k` is known to be the
/// matching position.
pub proof fn lemma_best_match_at(num: int, den: int, grid: Seq<u16>, tolerance: int, k: int)
    requires
        is_best(num, den, grid, tolerance, k),
    ensures
        best_match(num, den, grid, tolerance) == Some(grid[k]),
{
    let c = choose|c: int| is_best(num, den, grid, tolerance, c);
    lemma_best_unique(num, den, grid, tolerance, c, k);
}

/// A frequency has a match exactly when some candidate lies strictly
/// within the tolerance.
pub proof fn lemma_best_match_none(num: int, den: int, grid: Seq<u16>, tolerance: int)
    ensures
        best_match(num, den, grid, tolerance) is None <==> forall|k: int|
            0 <= k < grid.len() ==> !within_tolerance(num, den, #[trigger] grid[k] as int, tolerance),
{
    if exists|k: int| is_best(num, den, grid, tolerance, k) {
        let k = choose|k: int| is_best(num, den, grid, tolerance, k);
        assert(within_tolerance(num, den, grid[k] as int, tolerance));
    } else if exists|k: int|
        0 <= k < grid.len() && within_tolerance(num, den, #[trigger] grid[k] as int, tolerance) {
        let w = choose|k: int|
            0 <= k < grid.len() && within_tolerance(num, den, #[trigger] grid[k] as int, tolerance);
        let k = lemma_nearest_exists(num, den, grid, grid.len() as int);
        assert(deviation(num, den, grid[k] as int) <= deviation(num, den, grid[w] as int));
        assert(is_best(num, den, grid, tolerance, k));
    }
}

/// The tolerance is strict: a frequency whose nearest candidate is exactly
/// `tolerance` Hz away has no match, and one whose nearest candidate is
/// closer than that matches it.
pub proof fn lemma_tolerance_boundary(
    num: int,
    den: int,
    grid: Seq<u16>,
    tolerance: int,
    nearest: int,
)
    requires
        den >= 1,
        0 <= nearest < grid.len(),
        forall|k: int|
            0 <= k < grid.len() ==> deviation(num, den, #[trigger] grid[k] as int) >= deviation(
                num,
                den,
                grid[nearest] as int,
            ),
    ensures
        deviation(num, den, grid[nearest] as int) == tolerance * den ==> best_match(
            num,
            den,
            grid,
            tolerance,
        ) is None,
        deviation(num, den, grid[nearest] as int) < tolerance * den ==> (best_match(
            num,
            den,
            grid,
            tolerance,
        ) matches Some(c) && deviation(num, den, c as int) == deviation(
            num,
            den,
            grid[nearest] as int,
        )),
{
    lemma_best_match_none(num, den, grid, tolerance);
    if deviation(num, den, grid[nearest] as int) < tolerance * den {
        assert(within_tolerance(num, den, grid[nearest] as int, tolerance));
        let k = choose|k: int| is_best(num, den, grid, tolerance, k);
        assert(deviation(num, den, grid[nearest] as int) >= deviation(num, den, grid[k] as int));
    }
}

/// Among the first `upto` candidates there is a first nearest one.
proof fn lemma_nearest_exists(num: int, den: int, grid: Seq<u16>, upto: int) -> (k: int)
    requires
        0 < upto <= grid.len(),
    ensures
        0 <= k < upto,
        forall|j: int|
            0 <= j < upto ==> deviation(num, den, #[trigger] grid[j] as int) >= deviation(
                num,
                den,
                grid[k] as int,
            ),
        forall|j: int|
            0 <= j < k ==> deviation(num, den, #[trigger] grid[j] as int) > deviation(
                num,
                den,
                grid[k] as int,
            ),
    decreases upto,
{
    if upto == 1 {
        0
    } else {
        let prev = lemma_nearest_exists(num, den, grid, upto - 1);
        if deviation(num, den, grid[upto - 1] as int) < deviation(num, den, grid[prev] as int) {
            upto - 1
        } else {
            prev
        }
    }
}

/// A frequency in Hz, held as the exact fraction `num / den`.
#[derive(Clone, Copy, Debug)]
pub struct Frequency {
    num: i128,
    den: i128,
}

impl Frequency {
    #[verifier::type_invariant]
    spec fn well_formed(self) -> bool {
        &&& 1 <= self.den <= MAX_DENOMINATOR
        &&& -MAX_NUMERATOR <= self.num <= MAX_NUMERATOR
    }

    /// The numerator of the fraction.
    pub closed spec fn num(self) -> int {
        self.num as int
    }

    /// The denominator of the fraction.
    pub closed spec fn den(self) -> int {
        self.den as int
    }

    /// The frequency `num / den` Hz, where the denominator is positive and
    /// both numbers are within the limits of the type.
    pub fn new(num: i128, den: i128) -> (frequency: Option<Frequency>)
        ensures
            frequency is Some <==> 1 <= den <= MAX_DENOMINATOR && -MAX_NUMERATOR <= num
                <= MAX_NUMERATOR,
            frequency matches Some(f) ==> f.num() == num && f.den() == den,
    {
        if 1 <= den && den <= MAX_DENOMINATOR && -MAX_NUMERATOR <= num && num <= MAX_NUMERATOR {
            Some(Frequency { num, den })
        } else {
            None
        }
    }

    /// Distance to `candidate` Hz, times the denominator.
    fn deviation_from(&self, candidate: u16) -> (d: i128)
        ensures
            d == deviation(self.num(), self.den(), candidate as int),
            0 <= d <= MAX_NUMERATOR + 0x1_0000 * MAX_DENOMINATOR,
            1 <= self.den() <= MAX_DENOMINATOR,
    {
        proof {
            use_type_invariant(self);
            assert(0 <= (candidate as int) * (self.den as int) <= 0x1_0000 * MAX_DENOMINATOR)
                by (nonlinear_arith)
                requires
                    0 <= candidate < 0x1_0000,
                    1 <= self.den <= MAX_DENOMINATOR,
            ;
        }
        let scaled: i128 = (candidate as i128) * self.den;
        if self.num >= scaled {
            self.num - scaled
        } else {
            scaled - self.num
        }
    }

    /// The candidate of `grid` that this frequency matches, if any: the
    /// nearest one among those strictly closer than `tolerance` Hz, and the
    /// first of them where several are equally near.
    pub fn find_best(&self, grid: &[u16], tolerance: u16) -> (best: Option<u16>)
        ensures
            best == best_match(self.num(), self.den(), grid@, tolerance as int),
            best is None <==> forall|k: int|
                0 <= k < grid.len() ==> !within_tolerance(
                    self.num(),
                    self.den(),
                    #[trigger] grid[k] as int,
                    tolerance as int,
                ),
            best matches Some(c) ==> exists|k: int|
                is_best(self.num(), self.den(), grid@, tolerance as int, k) && grid[k] == c,
    {
        proof {
            use_type_invariant(self);
            assert(0 <= (tolerance as int) * (self.den as int) <= 0x1_0000 * MAX_DENOMINATOR)
                by (nonlinear_arith)
                requires
                    0 <= tolerance < 0x1_0000,
                    1 <= self.den <= MAX_DENOMINATOR,
            ;
        }
        let ghost num = self.num();
        let ghost den = self.den();
        let mut allowed: i128 = (tolerance as i128) * self.den;
        let mut best: Option<u16> = None;
        let ghost mut at: int = -1;
        let mut k: usize = 0;
        while k < grid.len()
            invariant
                k <= grid.len(),
                num == self.num(),
                den == self.den(),
                0 <= allowed <= tolerance * den,
                -1 <= at < k,
                best is None <==> at == -1,
                at == -1 ==> allowed == tolerance * den,
                at >= 0 ==> best == Some(grid[at]) && allowed == deviation(num, den, grid[at] as int)
                    && allowed < tolerance * den,
                forall|j: int|
                    0 <= j < k ==> deviation(num, den, #[trigger] grid[j] as int) >= allowed,
                forall|j: int|
                    0 <= j < at ==> deviation(num, den, #[trigger] grid[j] as int) > allowed,
            decreases grid.len() - k,
        {
            let delta: i128 = self.deviation_from(grid[k]);
            if delta < allowed {
                allowed = delta;
                best = Some(grid[k]);
                proof {
                    at = k as int;
                }
            }
            k += 1;
        }
        proof {
            lemma_best_match_none(num, den, grid@, tolerance as int);
            if at >= 0 {
                assert(is_best(num, den, grid@, tolerance as int, at));
                lemma_best_match_at(num, den, grid@, tolerance as int, at);
            } else {
                assert forall|j: int| 0 <= j < grid.len() implies !within_tolerance(
                    num,
                    den,
                    #[trigger] grid[j] as int,
                    tolerance as int,
                ) by {
                    assert(deviation(num, den, grid[j] as int) >= allowed);
                }
            }
        }
        best
    }
}

} // verus!
