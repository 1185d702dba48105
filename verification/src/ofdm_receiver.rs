//! The bookkeeping of the OFDM receiver: which bins measure the noise, which pilots
//! bound a bin's estimate, which neighbouring symbols smooth a pilot, and which bins
//! carry data.
use crate::constellations::Constellation;
use vstd::prelude::*;

verus! {

/// Bins kept clear around the signal, its mirror, DC and Nyquist.
pub const NOISE_GUARD_BINS: usize = 8;

/// Symbols to either side of one whose pilots smooth its own.
pub const SMOOTHING_REACH: usize = 4;

/// The bin lies within the guard of the bins from `lo` to `hi`.
pub open spec fn near(k: int, lo: int, hi: int) -> bool {
    lo - NOISE_GUARD_BINS <= k <= hi + NOISE_GUARD_BINS
}

/// The bin carries only noise, where bins `lo` to `hi` of `n` are occupied.
pub open spec fn is_quiet(n: int, lo: int, hi: int, k: int) -> bool {
    &&& !near(k, lo, hi)
    &&& !near(k, n - hi, n - lo)
    &&& !near(k, 0, 0)
    &&& !near(k, n / 2, n / 2)
}

/// The quiet bins below `m`, in order.
pub open spec fn quiet(n: int, lo: int, hi: int, m: nat) -> Seq<usize>
    decreases m,
{
    if m == 0 {
        Seq::empty()
    } else {
        let rest = quiet(n, lo, hi, (m - 1) as nat);
        if is_quiet(n, lo, hi, m - 1) {
            rest.push((m - 1) as usize)
        } else {
            rest
        }
    }
}

/// The bins of an `n`-bin symbol that carry only noise, given the occupied bins in
/// order; none where nothing is occupied.
pub fn noise_bins(n: usize, occupied: &[usize]) -> (bins: Vec<usize>)
    requires
        n + NOISE_GUARD_BINS <= usize::MAX,
        occupied@.len() > 0 ==> occupied@[0] <= n && occupied@.last() <= n,
    ensures
        bins@ == if occupied@.len() == 0 {
            Seq::empty()
        } else {
            quiet(n as int, occupied@[0] as int, occupied@.last() as int, n as nat)
        },
{
    let mut bins: Vec<usize> = Vec::new();
    if occupied.len() == 0 {
        return bins;
    }
    let lo: usize = occupied[0];
    let hi: usize = occupied[occupied.len() - 1];
    let mut k: usize = 0;
    while k < n
        invariant
            n + NOISE_GUARD_BINS <= usize::MAX,
            lo <= n,
            hi <= n,
            k <= n,
            bins@ == quiet(n as int, lo as int, hi as int, k as nat),
        decreases n - k,
    {
        let signal: bool = k + NOISE_GUARD_BINS >= lo && k <= hi + NOISE_GUARD_BINS;
        let mirror: bool = k + NOISE_GUARD_BINS >= n - hi && k <= n - lo + NOISE_GUARD_BINS;
        let dc: bool = k <= NOISE_GUARD_BINS;
        let nyquist: bool = k + NOISE_GUARD_BINS >= n / 2 && k <= n / 2 + NOISE_GUARD_BINS;
        if !signal && !mirror && !dc && !nyquist {
            bins.push(k);
        }
        k = k + 1;
    }
    bins
}

/// Quiet bins are bins of the symbol, in order and each once.
pub proof fn lemma_quiet_bins(n: int, lo: int, hi: int, m: nat, i: int)
    requires
        0 <= i < quiet(n, lo, hi, m).len(),
        m <= usize::MAX,
    ensures
        quiet(n, lo, hi, m)[i] < m,
        is_quiet(n, lo, hi, quiet(n, lo, hi, m)[i] as int),
    decreases m,
{
    if i < quiet(n, lo, hi, (m - 1) as nat).len() {
        lemma_quiet_bins(n, lo, hi, (m - 1) as nat, i);
    }
}

/// The noise is measured where no signal is: a quiet bin is neither an occupied bin nor
/// the mirror of one.
pub proof fn quiet_bins_avoid_the_signal(n: usize, lo: int, hi: int, i: int, occupied: int)
    requires
        0 <= i < quiet(n as int, lo, hi, n as nat).len(),
        lo <= occupied <= hi,
    ensures
        quiet(n as int, lo, hi, n as nat)[i] != occupied,
        quiet(n as int, lo, hi, n as nat)[i] != n - occupied,
{
    lemma_quiet_bins(n as int, lo, hi, n as nat, i);
}

/// What bounds the error of a bin's channel estimate.
#[derive(Debug, Clone, Copy, PartialEq, Eq, Structural)]
pub enum NoiseTap {
    /// Fewer than two pilots: the thermal noise alone.
    Flat,
    /// Outside the pilots: one noisy observation.
    Edge,
    /// Between the pilots numbered `pilot` and `pilot + 1`, both ends counted.
    Between {
        /// Number of the pilot before the bin.
        pilot: usize,
        /// Bins from it.
        along: usize,
        /// Bins between the two.
        span: usize,
    },
}

/// Pilots in strict order of their bins, all of them bins.
pub open spec fn pilots_ascend(pilots: Seq<usize>, n_bins: int) -> bool {
    &&& forall|i: int, j: int| 0 <= i < j < pilots.len() ==> pilots[i] < pilots[j]
    &&& forall|i: int| 0 <= i < pilots.len() ==> #[trigger] pilots[i] < n_bins
}

/// What bounds the error of the channel estimate of bin `k`.
pub open spec fn noise_tap(pilots: Seq<usize>, k: int) -> NoiseTap {
    let i = crate::equalizer::last_at_most(pilots, k);
    if pilots.len() < 2 {
        NoiseTap::Flat
    } else if k < pilots[0] || k > pilots.last() {
        NoiseTap::Edge
    } else if i + 1 < pilots.len() {
        NoiseTap::Between {
            pilot: i as usize,
            along: (k - pilots[i]) as usize,
            span: (pilots[i + 1] - pilots[i]) as usize,
        }
    } else {
        NoiseTap::Between {
            pilot: (i - 1) as usize,
            along: (pilots[i] - pilots[i - 1]) as usize,
            span: (pilots[i] - pilots[i - 1]) as usize,
        }
    }
}

/// What bounds the error of the channel estimate of every bin.
pub fn noise_taps(pilots: &Vec<usize>, n_bins: usize) -> (taps: Vec<NoiseTap>)
    requires
        pilots_ascend(pilots@, n_bins as int),
    ensures
        taps@ == Seq::new(n_bins as nat, |k: int| noise_tap(pilots@, k)),
{
    let mut taps: Vec<NoiseTap> = Vec::new();
    let ghost want = Seq::new(n_bins as nat, |k: int| noise_tap(pilots@, k));
    let n: usize = pilots.len();
    let mut k: usize = 0;
    let mut i: usize = 0;
    assert forall|a: int, b: int| 0 <= a <= b < pilots@.len() implies pilots@[a] <= pilots@[b] by {
        if a < b {
            assert(pilots@[a] < pilots@[b]);
        }
    }
    while k < n_bins
        invariant
            pilots_ascend(pilots@, n_bins as int),
            forall|a: int, b: int| 0 <= a <= b < pilots@.len() ==> pilots@[a] <= pilots@[b],
            want == Seq::new(n_bins as nat, |k: int| noise_tap(pilots@, k)),
            n == pilots@.len(),
            k <= n_bins,
            taps@ == want.take(k as int),
            n > 0 ==> i < n,
            n > 0 ==> i == 0 || pilots@[i as int] <= k,
        decreases n_bins - k,
    {
        if n < 2 {
            taps.push(NoiseTap::Flat);
        } else if k < pilots[0] || k > pilots[n - 1] {
            taps.push(NoiseTap::Edge);
        } else {
            i = crate::equalizer::advance(pilots, i, k);
            if i + 1 < n {
                taps.push(
                    NoiseTap::Between {
                        pilot: i,
                        along: k - pilots[i],
                        span: pilots[i + 1] - pilots[i],
                    },
                );
            } else {
                let span: usize = pilots[i] - pilots[i - 1];
                taps.push(NoiseTap::Between { pilot: i - 1, along: span, span });
            }
        }
        assert(taps@ =~= want.take(k + 1));
        k = k + 1;
    }
    assert(taps@ =~= want);
    taps
}

/// A bin between pilots is bounded by its two neighbours: it lies on their interval, and
/// the interval is not empty.
pub proof fn noise_follows_the_neighbouring_pilots(pilots: Seq<usize>, n_bins: int, k: int)
    requires
        pilots_ascend(pilots, n_bins),
        pilots.len() <= usize::MAX,
        0 <= k < n_bins,
    ensures
        match noise_tap(pilots, k) {
            NoiseTap::Flat => pilots.len() < 2,
            NoiseTap::Edge => k < pilots[0] || k > pilots.last(),
            NoiseTap::Between { pilot, along, span } => {
                &&& pilot + 1 < pilots.len()
                &&& 0 <= along <= span
                &&& span > 0
                &&& pilots[pilot as int] + along == k
                &&& pilots[pilot as int] + span == pilots[pilot + 1]
            },
        },
{
    assert forall|a: int, b: int| 0 <= a <= b < pilots.len() implies pilots[a] <= pilots[b] by {
        if a < b {
            assert(pilots[a] < pilots[b]);
        }
    }
    crate::equalizer::lemma_bracket(pilots, n_bins, k);
    let i = crate::equalizer::last_at_most(pilots, k);
    if pilots.len() >= 2 && pilots[0] <= k <= pilots.last() {
        assert(i >= 0) by {
            if i < 0 {
                assert(pilots[0] > k);
            }
        }
        if i + 1 < pilots.len() {
            assert(pilots[i] < pilots[i + 1]);
        } else {
            assert(pilots[i - 1] < pilots[i]);
            assert(k == pilots[i]);
        }
    }
}

/// The interior pilot that gives the curvature at pilot `i` of `count`.
pub open spec fn interior_pilot(i: int, count: int) -> Option<int> {
    if count < 3 {
        None
    } else if i == 0 {
        Some(1int)
    } else if i == count - 1 {
        Some(count - 2)
    } else {
        Some(i)
    }
}

/// The interior pilot whose deviation from its neighbours' mean gives the curvature at
/// pilot `i` of `count`; none where no pilot has two neighbours.
pub fn curvature_pilot(i: usize, count: usize) -> (p: Option<usize>)
    requires
        i < count,
    ensures
        p == if count < 3 {
            None::<usize>
        } else if i == 0 {
            Some(1usize)
        } else if i == count - 1 {
            Some((count - 2) as usize)
        } else {
            Some(i)
        },
        (match p {
            Some(n) => Some(n as int),
            None => None,
        }) == interior_pilot(i as int, count as int),
{
    if count < 3 {
        None
    } else if i == 0 {
        Some(1)
    } else if i == count - 1 {
        Some(count - 2)
    } else {
        Some(i)
    }
}

/// First symbol that smooths symbol `t`.
pub open spec fn smoothing_start(t: int) -> int {
    if t < SMOOTHING_REACH {
        0
    } else {
        t - SMOOTHING_REACH
    }
}

/// End of the symbols that smooth symbol `t` of `count`.
pub open spec fn smoothing_end(t: int, count: int) -> int {
    if t + SMOOTHING_REACH + 1 < count {
        t + SMOOTHING_REACH + 1
    } else {
        count
    }
}

/// Weight of symbol `s` in smoothing symbol `t`: largest at `t`, falling by one with
/// every symbol of distance.
pub open spec fn smoothing_weight(t: int, s: int) -> int {
    if s < t {
        SMOOTHING_REACH + 1 - (t - s)
    } else {
        SMOOTHING_REACH + 1 - (s - t)
    }
}

/// The symbols whose pilots smooth those of symbol `t` of `count`, with their weights.
pub fn smoothing_taps(t: usize, count: usize) -> (taps: Vec<(usize, u8)>)
    requires
        t < count,
    ensures
        taps@ == Seq::new(
            (smoothing_end(t as int, count as int) - smoothing_start(t as int)) as nat,
            |i: int|
                (
                    (smoothing_start(t as int) + i) as usize,
                    smoothing_weight(t as int, smoothing_start(t as int) + i) as u8,
                ),
        ),
{
    let start: usize = if t < SMOOTHING_REACH {
        0
    } else {
        t - SMOOTHING_REACH
    };
    let end: usize = if count - t > SMOOTHING_REACH + 1 {
        t + SMOOTHING_REACH + 1
    } else {
        count
    };
    let ghost want = Seq::new(
        (end - start) as nat,
        |i: int| ((start + i) as usize, smoothing_weight(t as int, start + i) as u8),
    );
    let mut taps: Vec<(usize, u8)> = Vec::new();
    let mut s: usize = start;
    while s < end
        invariant
            start == smoothing_start(t as int),
            end == smoothing_end(t as int, count as int),
            t < count,
            start <= s <= end,
            want == Seq::new(
                (end - start) as nat,
                |i: int| ((start + i) as usize, smoothing_weight(t as int, start + i) as u8),
            ),
            taps@ == want.take(s - start),
        decreases end - s,
    {
        let weight: usize = if s < t {
            SMOOTHING_REACH + 1 - (t - s)
        } else {
            SMOOTHING_REACH + 1 - (s - t)
        };
        taps.push((s, weight as u8));
        assert(taps@ =~= want.take(s + 1 - start));
        s = s + 1;
    }
    assert(taps@ =~= want);
    taps
}

/// The symbol itself weighs most, every weight is positive, and symbols equally far on
/// either side weigh the same.
pub proof fn smoothing_is_centred(t: int, count: int, s: int)
    requires
        0 <= t < count,
        smoothing_start(t) <= s < smoothing_end(t, count),
    ensures
        smoothing_start(t) <= t < smoothing_end(t, count),
        0 < smoothing_weight(t, s) <= smoothing_weight(t, t),
        smoothing_weight(t, s) == smoothing_weight(t, 2 * t - s),
        s != t ==> smoothing_weight(t, s) < smoothing_weight(t, t),
{
}

/// A bin that carries data, and how.
#[derive(Debug, Clone, Copy, PartialEq, Eq, Structural)]
pub struct DataCarrier {
    /// The bin.
    pub bin: usize,
    /// The constellation of its symbols.
    pub constellation: Constellation,
}

/// Every loaded sub-carrier that is no pilot has a load that a constellation carries.
pub open spec fn loads_are_known(
    subcarriers: Seq<usize>,
    pilots: Seq<usize>,
    loads: Seq<u8>,
) -> bool {
    forall|i: int| #![trigger subcarriers[i]]
        0 <= i < subcarriers.len() && !pilots.contains(subcarriers[i]) ==> i < loads.len() && (
        loads[i] == 0 || loads[i] == 1 || loads[i] == 2 || loads[i] == 4 || loads[i] == 6)
}

/// Which constellation carries so many bits.
pub open spec fn carrying(load: u8) -> Constellation {
    if load == 1 {
        Constellation::Bpsk
    } else if load == 2 {
        Constellation::Qpsk
    } else if load == 4 {
        Constellation::Qam16
    } else {
        Constellation::Qam64
    }
}

/// The data carriers among the first `n` sub-carriers, in order.
pub open spec fn carriers(
    subcarriers: Seq<usize>,
    pilots: Seq<usize>,
    loads: Seq<u8>,
    n: nat,
) -> Seq<DataCarrier>
    decreases n,
{
    if n == 0 {
        Seq::empty()
    } else {
        let rest = carriers(subcarriers, pilots, loads, (n - 1) as nat);
        let bin = subcarriers[n - 1];
        if pilots.contains(bin) || loads[n - 1] == 0 {
            rest
        } else {
            rest.push(DataCarrier { bin, constellation: carrying(loads[n - 1]) })
        }
    }
}

/// Whether a list holds a bin.
fn holds(bins: &[usize], bin: usize) -> (b: bool)
    ensures
        b == bins@.contains(bin),
{
    let mut i: usize = 0;
    while i < bins.len()
        invariant
            i <= bins@.len(),
            forall|j: int| 0 <= j < i ==> bins@[j] != bin,
        decreases bins@.len() - i,
    {
        if bins[i] == bin {
            return true;
        }
        i = i + 1;
    }
    false
}

/// The sub-carriers that carry data, in the order in which their bits are sent.
pub fn data_carriers(subcarriers: &[usize], pilots: &[usize], loads: &[u8]) -> (c: Vec<
    DataCarrier,
>)
    requires
        loads_are_known(subcarriers@, pilots@, loads@),
    ensures
        c@ == carriers(subcarriers@, pilots@, loads@, subcarriers@.len()),
{
    let mut c: Vec<DataCarrier> = Vec::new();
    let mut i: usize = 0;
    while i < subcarriers.len()
        invariant
            i <= subcarriers@.len(),
            loads_are_known(subcarriers@, pilots@, loads@),
            c@ == carriers(subcarriers@, pilots@, loads@, i as nat),
        decreases subcarriers@.len() - i,
    {
        let bin: usize = subcarriers[i];
        if !holds(pilots, bin) {
            match Constellation::with_load(loads[i]) {
                Some(constellation) => {
                    c.push(DataCarrier { bin, constellation });
                },
                None => {},
            }
        }
        i = i + 1;
    }
    c
}

/// Which bins are quiet: exactly those more than eight bins away from the signal, from its
/// mirror, from the first bin and from the middle one. They stand in order.
pub proof fn quiet_bins_keep_eight_bins_away(n: usize, lo: int, hi: int, k: int)
    ensures
        ({
            let q = quiet(n as int, lo, hi, n as nat);
            let clear = (k < lo - 8 || k > hi + 8) && (k < n - hi - 8 || k > n - lo + 8) && k > 8 && (
            k < n / 2 - 8 || k > n / 2 + 8);
            &&& 0 <= k < n ==> (q.contains(k as usize) <==> clear)
            &&& forall|i: int, j: int| 0 <= i < j < q.len() ==> q[i] < q[j]
            &&& forall|i: int| 0 <= i < q.len() ==> #[trigger] q[i] < n
        }),
{
    lemma_quiet_is_all(n as int, lo, hi, n as nat, k);
}

proof fn lemma_quiet_is_all(n: int, lo: int, hi: int, m: nat, k: int)
    requires
        m <= usize::MAX,
    ensures
        ({
            let q = quiet(n, lo, hi, m);
            &&& 0 <= k < m ==> (q.contains(k as usize) <==> is_quiet(n, lo, hi, k))
            &&& forall|i: int, j: int| 0 <= i < j < q.len() ==> q[i] < q[j]
            &&& forall|i: int| 0 <= i < q.len() ==> #[trigger] q[i] < m
        }),
    decreases m,
{
    if m > 0 {
        lemma_quiet_is_all(n, lo, hi, (m - 1) as nat, k);
        let rest = quiet(n, lo, hi, (m - 1) as nat);
        let q = quiet(n, lo, hi, m);
        if q.len() > rest.len() {
            assert(q[rest.len() as int] == m - 1);
            if 0 <= k < m - 1 {
                if rest.contains(k as usize) {
                    let i = choose|i: int| 0 <= i < rest.len() && rest[i] == k as usize;
                    assert(q[i] == k as usize);
                }
                if q.contains(k as usize) {
                    let i = choose|i: int| 0 <= i < q.len() && q[i] == k as usize;
                    assert(rest[i] == k as usize);
                }
            }
        } else if k == m - 1 && q.contains(k as usize) {
            let i = choose|i: int| 0 <= i < q.len() && q[i] == k as usize;
            assert(q[i] < m - 1);
        }
    }
}

/// Which bound a bin has: thermal noise alone with fewer than two pilots, one observation
/// outside them, and its two neighbours wherever it lies between pilots or on one.
pub proof fn bound_follows_from_the_place(pilots: Seq<usize>, k: int)
    ensures
        noise_tap(pilots, k) is Flat <==> pilots.len() < 2,
        noise_tap(pilots, k) is Edge <==> pilots.len() >= 2 && (k < pilots[0] || k
            > pilots.last()),
        noise_tap(pilots, k) is Between <==> pilots.len() >= 2 && pilots[0] <= k
            <= pilots.last(),
{
}

/// A symbol is smoothed over up to four symbols on either side, as far as there are any, and
/// weighs five itself; each further symbol weighs one less.
pub proof fn smoothing_reaches_four_symbols(t: int, count: int, s: int)
    requires
        0 <= t < count,
    ensures
        0 <= s < count ==> (smoothing_start(t) <= s < smoothing_end(t, count) <==> -4 <= s - t
            <= 4),
        0 <= smoothing_start(t) <= t < smoothing_end(t, count) <= count,
        smoothing_weight(t, t) == 5,
        s > t ==> smoothing_weight(t, s) == smoothing_weight(t, s - 1) - 1,
        s < t ==> smoothing_weight(t, s) == smoothing_weight(t, s + 1) - 1,
{
}

/// A sub-carrier carries data exactly where it is no pilot and has a load, in a constellation
/// of as many bits as the load says; and the carriers stand in the order of the sub-carriers.
pub proof fn loaded_subcarriers_carry_data(
    subcarriers: Seq<usize>,
    pilots: Seq<usize>,
    loads: Seq<u8>,
    n: nat,
)
    requires
        loads_are_known(subcarriers, pilots, loads),
        n < subcarriers.len(),
    ensures
        ({
            let before = carriers(subcarriers, pilots, loads, n);
            let after = carriers(subcarriers, pilots, loads, n + 1);
            let bin = subcarriers[n as int];
            let carries = (forall|j: int| 0 <= j < pilots.len() ==> pilots[j] != bin)
                && loads[n as int] > 0;
            &&& !carries ==> after == before
            &&& carries ==> {
                &&& after.len() == before.len() + 1
                &&& after.drop_last() == before
                &&& after.last().bin == bin
                &&& after.last().constellation.width() == loads[n as int]
            }
        }),
        carriers(subcarriers, pilots, loads, 0).len() == 0,
{
    let before = carriers(subcarriers, pilots, loads, n);
    let after = carriers(subcarriers, pilots, loads, n + 1);
    let bin = subcarriers[n as int];
    if pilots.contains(bin) {
        let j = choose|j: int| 0 <= j < pilots.len() && pilots[j] == bin;
        assert(pilots[j] == bin);
    }
    if after.len() > before.len() {
        assert(after.drop_last() =~= before);
    }
}

/// The curvature at a pilot is that of the nearest pilot with a neighbour on either side, and
/// there is one exactly where there are three pilots.
pub proof fn curvature_is_that_of_the_nearest_interior_pilot(i: int, count: int, other: int)
    requires
        0 <= i < count,
    ensures
        interior_pilot(i, count) is Some <==> count >= 3,
        interior_pilot(i, count) matches Some(p) ==> {
            &&& 1 <= p <= count - 2
            &&& 1 <= other <= count - 2 ==> (p - i) * (p - i) <= (other - i) * (other - i)
        },
{
    if count >= 3 && 1 <= other <= count - 2 {
        let p = interior_pilot(i, count)->0;
        let d = other - i;
        if d == 0 {
            assert(p == i);
        }
        assert((p - i) * (p - i) <= d * d) by (nonlinear_arith)
            requires
                -1 <= p - i <= 1,
                d == 0 ==> p == i,
        ;
    }
}

} // verus!
