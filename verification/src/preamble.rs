//! The preamble: two identical halves of a Zadoff–Chu sequence, and where a search for
//! it looks.
//!
//! Correlations are compared as keys: integers that order as the correlations do.
use vstd::prelude::*;

verus! {

/// Samples of one half.
pub const PREAMBLE_HALF_LEN: usize = 160;

/// Samples of the preamble.
pub const PREAMBLE_LEN: usize = 320;

/// Root of the sequence, coprime with the length of a half.
pub const PREAMBLE_ROOT: usize = 29;

/// The phase of sample `i`, in half turns of `-1 / PREAMBLE_HALF_LEN`.
pub open spec fn phase(i: int) -> int {
    let k = i % (PREAMBLE_HALF_LEN as int);
    PREAMBLE_ROOT * (k * (k + 1))
}

/// Generates the preamble.
#[derive(Debug, Clone, Copy, PartialEq, Eq, Structural)]
pub struct PreambleGenerator;

impl PreambleGenerator {
    /// A generator.
    pub fn new() -> (g: Self)
        ensures
            g == PreambleGenerator,
    {
        PreambleGenerator
    }

    /// The phase of every sample.
    pub fn generate(&self) -> (phases: Vec<u32>)
        ensures
            phases@ == Seq::new(PREAMBLE_LEN as nat, |i: int| phase(i) as u32),
    {
        let mut phases: Vec<u32> = Vec::new();
        let ghost want = Seq::new(PREAMBLE_LEN as nat, |i: int| phase(i) as u32);
        let mut i: usize = 0;
        while i < PREAMBLE_LEN
            invariant
                want == Seq::new(PREAMBLE_LEN as nat, |i: int| phase(i) as u32),
                i <= PREAMBLE_LEN,
                phases@ == want.take(i as int),
            decreases PREAMBLE_LEN - i,
        {
            let k: u32 = (i % PREAMBLE_HALF_LEN) as u32;
            assert(0 <= k * (k + 1) <= 159 * 160) by (nonlinear_arith)
                requires
                    k <= 159,
            ;
            phases.push(PREAMBLE_ROOT as u32 * (k * (k + 1)));
            assert(phases@ =~= want.take(i + 1));
            i = i + 1;
        }
        assert(phases@ =~= want);
        phases
    }
}

impl Default for PreambleGenerator {
    fn default() -> (g: Self)
        ensures
            g == PreambleGenerator,
    {
        PreambleGenerator::new()
    }
}

/// The two halves are the same: the second repeats the first.
pub proof fn halves_are_identical(i: int)
    requires
        0 <= i < PREAMBLE_HALF_LEN,
    ensures
        phase(i + PREAMBLE_HALF_LEN) == phase(i),
{
}

/// The root shares no factor with the length of a half, which gives the sequence its
/// sharp correlation.
pub proof fn root_is_coprime(d: int, a: int, b: int)
    requires
        d >= 1,
        d * a == PREAMBLE_HALF_LEN,
        d * b == PREAMBLE_ROOT,
    ensures
        d == 1,
{
    assert(d * (2 * a - 11 * b) == 1) by (nonlinear_arith)
        requires
            d * a == 160,
            d * b == 29,
    ;
    let c = 2 * a - 11 * b;
    assert(d == 1) by (nonlinear_arith)
        requires
            d * c == 1,
            d >= 1,
    ;
}

/// The bin's weight in the analytic signal of an `n`-sample signal: positive
/// frequencies are doubled, negative ones dropped, DC and Nyquist kept.
pub open spec fn gain(k: int, n: int) -> int {
    if k == 0 || 2 * k == n {
        1
    } else if 2 * k < n {
        2
    } else {
        0
    }
}

/// The bin's weight in the analytic signal.
pub fn analytic_gain(k: usize, n: usize) -> (g: u8)
    requires
        k < n,
    ensures
        g == gain(k as int, n as int),
{
    if k == 0 || k == n - k {
        1
    } else if k < n - k {
        2
    } else {
        0
    }
}

/// A bin and its mirror weigh two together, so that the real part of the analytic signal
/// is the signal.
pub proof fn mirrored_gains_sum_to_two(k: int, n: int)
    requires
        0 <= k < n,
    ensures
        gain(k, n) + gain((n - k) % n, n) == 2,
{
    if k == 0 {
        vstd::arithmetic::div_mod::lemma_mod_self_0(n);
    } else {
        vstd::arithmetic::div_mod::lemma_small_mod((n - k) as nat, n as nat);
    }
}

/// Lag `i` is the first strongest of those that are loud enough.
pub open spec fn is_first_peak(keys: Seq<u32>, loud: Seq<bool>, i: int) -> bool {
    &&& 0 <= i < keys.len()
    &&& loud[i]
    &&& keys[i] > 0
    &&& forall|j: int| 0 <= j < keys.len() && loud[j] ==> #[trigger] keys[j] <= keys[i]
    &&& forall|j: int| 0 <= j < i && loud[j] ==> #[trigger] keys[j] < keys[i]
}

/// What to do about a coarse lag.
#[allow(inconsistent_fields)]
#[derive(Debug, Clone, Copy, PartialEq, Eq, Structural)]
pub enum DetectPlan {
    /// There is no preamble.
    Nothing,
    /// The preamble starts at the coarse lag: there is no room to refine it.
    Coarse {
        /// Where the preamble starts.
        start_sample: usize,
    },
    /// The preamble starts within these samples.
    Refine {
        /// First sample.
        lo: usize,
        /// Sample after the last.
        hi: usize,
    },
}

/// The smaller of two numbers.
pub open spec fn least(a: int, b: int) -> int {
    if a < b {
        a
    } else {
        b
    }
}

/// First sample of the window around a coarse lag.
pub open spec fn window_lo(lag: int) -> int {
    if lag < PREAMBLE_HALF_LEN {
        0
    } else {
        lag - PREAMBLE_HALF_LEN
    }
}

/// End of the window around a coarse lag in a signal of `len` samples.
pub open spec fn window_hi(lag: int, len: int) -> int {
    let a = least(lag + 2 * PREAMBLE_HALF_LEN, len);
    let b = least(window_lo(lag) + PREAMBLE_LEN, len);
    if a < b {
        b
    } else {
        a
    }
}

/// What to do about a coarse lag in a signal of `len` samples.
pub open spec fn plan_for(lag: int, repeats: bool, len: int) -> DetectPlan {
    if !repeats {
        DetectPlan::Nothing
    } else if window_hi(lag, len) - window_lo(lag) < PREAMBLE_LEN {
        DetectPlan::Coarse { start_sample: lag as usize }
    } else {
        DetectPlan::Refine { lo: window_lo(lag) as usize, hi: window_hi(lag, len) as usize }
    }
}

/// The phases of one half of the preamble.
pub open spec fn half_phases() -> Seq<u32> {
    Seq::new(PREAMBLE_HALF_LEN as nat, |i: int| phase(i) as u32)
}

/// Finds the preamble in two stages: a coarse lag where a signal repeats itself, then
/// the strongest match with the sequence near it. It holds the phases of one half, which
/// each half of a signal is matched with.
#[derive(Debug)]
pub struct PreambleDetector {
    half: Vec<u32>,
}

impl View for PreambleDetector {
    type V = Seq<u32>;

    closed spec fn view(&self) -> Seq<u32> {
        self.half@
    }
}

impl Default for PreambleDetector {
    fn default() -> (d: Self)
        ensures
            d@ == half_phases(),
    {
        PreambleDetector::new()
    }
}

impl PreambleDetector {
    /// A detector that holds the phases of one half of the preamble.
    pub fn new() -> (d: Self)
        ensures
            d@ == half_phases(),
    {
        let mut half = PreambleGenerator::new().generate();
        half.truncate(PREAMBLE_HALF_LEN);
        assert(half@ =~= half_phases());
        PreambleDetector { half }
    }

    /// The phases that each half of a signal is matched with.
    pub fn half_template(&self) -> (phases: &[u32])
        ensures
            phases@ == self@,
    {
        self.half.as_slice()
    }

    /// The coarse lag: the first that repeats itself most, among those loud enough; none
    /// where nothing does.
    pub fn schmidl_cox(&self, keys: &[u32], loud: &[bool]) -> (lag: Option<usize>)
        requires
            keys@.len() == loud@.len(),
        ensures
            match lag {
                Some(i) => is_first_peak(keys@, loud@, i as int),
                None => forall|j: int|
                    0 <= j < keys@.len() && loud@[j] ==> #[trigger] keys@[j] == 0,
            },
    {
        let mut best: usize = 0;
        let mut best_key: u32 = 0;
        let mut i: usize = 0;
        while i < keys.len()
            invariant
                i <= keys@.len() == loud@.len(),
                best_key > 0 ==> best < i && loud@[best as int] && keys@[best as int] == best_key,
                forall|j: int| 0 <= j < i && loud@[j] ==> #[trigger] keys@[j] <= best_key,
                best_key > 0 ==> forall|j: int|
                    0 <= j < best && loud@[j] ==> #[trigger] keys@[j] < best_key,
            decreases keys@.len() - i,
        {
            if loud[i] && keys[i] > best_key {
                best = i;
                best_key = keys[i];
            }
            i = i + 1;
        }
        if best_key > 0 {
            Some(best)
        } else {
            None
        }
    }

    /// The lag of the strongest match, the first of equals and the first of all where
    /// nothing matches; none where there is no lag.
    pub fn peak_normalized(&self, keys: &[u32]) -> (lag: Option<usize>)
        ensures
            match lag {
                Some(i) => {
                    &&& i < keys@.len()
                    &&& forall|j: int| 0 <= j < keys@.len() ==> #[trigger] keys@[j] <= keys@[i as int]
                    &&& forall|j: int| 0 <= j < i ==> #[trigger] keys@[j] < keys@[i as int]
                },
                None => keys@.len() == 0,
            },
    {
        if keys.len() == 0 {
            return None;
        }
        let mut best: usize = 0;
        let mut i: usize = 1;
        while i < keys.len()
            invariant
                best < i <= keys@.len(),
                forall|j: int| 0 <= j < i ==> #[trigger] keys@[j] <= keys@[best as int],
                forall|j: int| 0 <= j < best ==> #[trigger] keys@[j] < keys@[best as int],
            decreases keys@.len() - i,
        {
            if keys[i] > keys[best] {
                best = i;
            }
            i = i + 1;
        }
        Some(best)
    }

    /// What to do about a coarse lag in a signal of `len` samples, given whether the
    /// signal repeats itself enough there.
    pub fn detect_analytic(&self, lag: usize, repeats: bool, len: usize) -> (p: DetectPlan)
        requires
            lag <= len,
            len + PREAMBLE_LEN <= usize::MAX,
        ensures
            p == if !repeats {
                DetectPlan::Nothing
            } else if window_hi(lag as int, len as int) - window_lo(lag as int) < PREAMBLE_LEN {
                DetectPlan::Coarse { start_sample: lag }
            } else {
                DetectPlan::Refine {
                    lo: window_lo(lag as int) as usize,
                    hi: window_hi(lag as int, len as int) as usize,
                }
            },
            p == plan_for(lag as int, repeats, len as int),
    {
        if !repeats {
            return DetectPlan::Nothing;
        }
        let lo: usize = if lag < PREAMBLE_HALF_LEN {
            0
        } else {
            lag - PREAMBLE_HALF_LEN
        };
        let a: usize = if lag + 2 * PREAMBLE_HALF_LEN < len {
            lag + 2 * PREAMBLE_HALF_LEN
        } else {
            len
        };
        let b: usize = if lo + PREAMBLE_LEN < len {
            lo + PREAMBLE_LEN
        } else {
            len
        };
        let hi: usize = if a < b {
            b
        } else {
            a
        };
        if hi - lo < PREAMBLE_LEN {
            DetectPlan::Coarse { start_sample: lag }
        } else {
            DetectPlan::Refine { lo, hi }
        }
    }
}

/// A lag at which a whole preamble fits can always be refined: the window holds it whole.
pub proof fn window_holds_the_preamble(lag: int, len: int)
    requires
        0 <= lag,
        lag + PREAMBLE_LEN <= len,
    ensures
        0 <= window_lo(lag) <= lag,
        lag + PREAMBLE_LEN <= window_hi(lag, len) <= len,
{
}

/// The window around a coarse lag begins half a preamble before it and ends a whole one
/// behind it, as far as the signal reaches.
pub proof fn window_lies_around_the_lag(lag: int, len: int)
    requires
        0 <= lag <= len,
    ensures
        lag >= 160 ==> window_lo(lag) == lag - 160,
        lag < 160 ==> window_lo(lag) == 0,
        lag + 320 <= len ==> window_hi(lag, len) == lag + 320,
        lag + 320 > len ==> window_hi(lag, len) == len,
{
}

/// The phases of the sequence: they begin at zero, and each is ahead of the one before it by
/// twice 29 times its place in its half. Two halves of 160 samples make the preamble.
pub proof fn phases_advance_with_their_place(i: int)
    ensures
        PREAMBLE_LEN == 2 * PREAMBLE_HALF_LEN && PREAMBLE_LEN == 320,
        phase(0) == 0,
        0 < i < 160 ==> phase(i) - phase(i - 1) == 58 * i,
        half_phases().len() == 160,
        0 <= i < 160 ==> half_phases()[i] == phase(i),
        phase(i) >= 0,
{
    let k = i % 160;
    assert(0int % 160 == 0 && 0int * 1 == 0);
    assert(0 <= k * (k + 1) <= 159 * 160) by (nonlinear_arith)
        requires
            0 <= k <= 159,
    ;
    if 0 < i < 160 {
        assert(i * (i + 1) - (i - 1) * i == 2 * i) by (nonlinear_arith);
    }
}

/// The coarse lag is the earliest of the strongest loud ones, and there is only one such.
pub proof fn coarse_lag_is_the_earliest_of_the_strongest(
    keys: Seq<u32>,
    loud: Seq<bool>,
    i: int,
    j: int,
)
    requires
        is_first_peak(keys, loud, i),
        0 <= j < keys.len(),
        loud[j],
    ensures
        loud[i],
        keys[j] <= keys[i],
        keys[j] == keys[i] ==> i <= j,
        is_first_peak(keys, loud, j) ==> j == i,
{
}

/// What is done about a coarse lag: nothing where the signal does not repeat itself there; a
/// search of the window around it where that holds a whole preamble; and else the lag itself
/// is taken.
pub proof fn lag_is_refined_where_there_is_room(lag: usize, repeats: bool, len: usize)
    requires
        lag <= len,
    ensures
        match plan_for(lag as int, repeats, len as int) {
            DetectPlan::Nothing => !repeats,
            DetectPlan::Coarse { start_sample } => repeats && start_sample == lag && (lag + 160
                > len || len < 320),
            DetectPlan::Refine { lo, hi } => {
                &&& repeats
                &&& hi - lo >= 320
                &&& lo <= lag && lag - lo <= 160 && (lo == 0 || lag - lo == 160)
                &&& hi <= len && (hi == len || hi == lag + 320)
            },
        },
{
}

/// The analytic signal keeps the positive frequencies, doubled, and drops the negative ones;
/// the first bin and the middle one stay as they are.
pub proof fn positive_frequencies_are_doubled(k: int, n: int)
    requires
        0 <= k < n,
    ensures
        0 < k && k < n - k ==> gain(k, n) == 2,
        k > n - k ==> gain(k, n) == 0,
        k == 0 || k == n - k ==> gain(k, n) == 1,
{
}

} // verus!
