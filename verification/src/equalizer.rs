//! Where the channel estimate of every frequency bin comes from.
//!
//! Pilots are sent as one, so the observed pilot bin is the channel. Bins between
//! pilots are interpolated; bins outside the pilots hold the nearest one.
use vstd::prelude::*;

verus! {

/// Where the channel estimate of one bin comes from.
#[allow(inconsistent_fields)]
#[derive(Debug, Clone, Copy, PartialEq, Eq, Structural)]
pub enum Tap {
    /// A channel of one: there are no pilots.
    Unit,
    /// What was observed at a bin.
    Pilot {
        /// The observed bin.
        bin: usize,
    },
    /// A straight line between two pilots: `from` at zero, `to` at `span`.
    Blend {
        /// Pilot before the bin.
        from: usize,
        /// Pilot after the bin.
        to: usize,
        /// Bins from `from`.
        along: usize,
        /// Bins between the two.
        span: usize,
    },
}

/// Pilots in order of their bins, all of them bins.
pub open spec fn pilots_in_order(pilots: Seq<usize>, n_bins: int) -> bool {
    &&& forall|i: int, j: int| 0 <= i <= j < pilots.len() ==> pilots[i] <= pilots[j]
    &&& forall|i: int| 0 <= i < pilots.len() ==> #[trigger] pilots[i] < n_bins
}

/// The last pilot at or before a bin; minus one where there is none.
pub open spec fn last_at_most(pilots: Seq<usize>, k: int) -> int
    decreases pilots.len(),
{
    if pilots.len() == 0 {
        -1
    } else if pilots.last() <= k {
        pilots.len() - 1
    } else {
        last_at_most(pilots.drop_last(), k)
    }
}

/// Where the channel estimate of bin `k` comes from.
pub open spec fn tap(pilots: Seq<usize>, k: int) -> Tap {
    let i = last_at_most(pilots, k);
    if pilots.len() == 0 {
        Tap::Unit
    } else if i < 0 {
        Tap::Pilot { bin: pilots[0] }
    } else if pilots[i] == k || i + 1 == pilots.len() {
        Tap::Pilot { bin: pilots[i] }
    } else {
        Tap::Blend {
            from: pilots[i],
            to: pilots[i + 1],
            along: (k - pilots[i]) as usize,
            span: (pilots[i + 1] - pilots[i]) as usize,
        }
    }
}

/// A pilot at or before a bin whose successor lies past it is the last one there.
pub proof fn lemma_last_at_most(pilots: Seq<usize>, k: int, i: int)
    requires
        -1 <= i < pilots.len(),
        i >= 0 ==> pilots[i] <= k,
        forall|j: int| i < j < pilots.len() ==> #[trigger] pilots[j] > k,
    ensures
        last_at_most(pilots, k) == i,
    decreases pilots.len(),
{
    if pilots.len() > 0 && pilots.last() > k {
        let p = pilots.drop_last();
        assert forall|j: int| i < j < p.len() implies #[trigger] p[j] > k by {
            assert(p[j] == pilots[j]);
        }
        lemma_last_at_most(p, k, i);
    }
}

/// The last pilot at or before a bin lies at or before it, and those after it do not.
pub proof fn lemma_bracket(pilots: Seq<usize>, n_bins: int, k: int)
    requires
        pilots_in_order(pilots, n_bins),
    ensures
        -1 <= last_at_most(pilots, k) < pilots.len(),
        last_at_most(pilots, k) >= 0 ==> pilots[last_at_most(pilots, k)] <= k,
        forall|j: int| last_at_most(pilots, k) < j < pilots.len() ==> #[trigger] pilots[j] > k,
    decreases pilots.len(),
{
    if pilots.len() > 0 && pilots.last() > k {
        let p = pilots.drop_last();
        assert(pilots_in_order(p, n_bins)) by {
            assert forall|i: int, j: int| 0 <= i <= j < p.len() implies p[i] <= p[j] by {
                assert(pilots[i] <= pilots[j]);
            }
            assert forall|i: int| 0 <= i < p.len() implies #[trigger] p[i] < n_bins by {
                assert(pilots[i] < n_bins);
            }
        }
        lemma_bracket(p, n_bins, k);
        assert forall|j: int| last_at_most(pilots, k) < j < pilots.len() implies #[trigger] pilots[j]
            > k by {
            if j < p.len() {
                assert(p[j] == pilots[j]);
            }
        }
    }
}

/// The last pilot at or before a bin, counting up from an earlier answer.
pub fn advance(pilots: &Vec<usize>, from: usize, k: usize) -> (i: usize)
    requires
        from < pilots@.len(),
        pilots@[from as int] <= k,
        forall|i: int, j: int| 0 <= i <= j < pilots@.len() ==> pilots@[i] <= pilots@[j],
    ensures
        i < pilots@.len(),
        i == last_at_most(pilots@, k as int),
        pilots@[i as int] <= k,
        i + 1 < pilots@.len() ==> pilots@[i + 1] > k,
{
    let mut i: usize = from;
    while i < pilots.len() - 1 && pilots[i + 1] <= k
        invariant
            i < pilots@.len(),
            pilots@[i as int] <= k,
        decreases pilots@.len() - i,
    {
        i = i + 1;
    }
    proof {
        assert forall|j: int| i < j < pilots@.len() implies #[trigger] pilots@[j] > k by {
            assert(pilots@[i + 1] <= pilots@[j]);
        }
        lemma_last_at_most(pilots@, k as int, i as int);
    }
    i
}

/// Pilot-aided equalizer for a fixed set of pilots and number of bins.
pub struct OfdmEqualizer {
    pilot_positions: Vec<usize>,
    n_bins: usize,
}

impl OfdmEqualizer {
    /// Bins of the pilots.
    pub closed spec fn pilots(self) -> Seq<usize> {
        self.pilot_positions@
    }

    /// Number of bins.
    pub closed spec fn bins(self) -> int {
        self.n_bins as int
    }

    /// An equalizer for a set of pilots and a number of bins.
    pub fn new(pilot_positions: Vec<usize>, n_bins: usize) -> (e: Self)
        ensures
            e.pilots() == pilot_positions@,
            e.bins() == n_bins,
    {
        OfdmEqualizer { pilot_positions, n_bins }
    }

    /// Where the channel estimate of every bin comes from.
    pub fn estimate_channel(&self) -> (taps: Vec<Tap>)
        requires
            pilots_in_order(self.pilots(), self.bins()),
        ensures
            taps@ == Seq::new(self.bins() as nat, |k: int| tap(self.pilots(), k)),
    {
        let mut taps: Vec<Tap> = Vec::new();
        let ghost want = Seq::new(self.bins() as nat, |k: int| tap(self.pilots(), k));
        let n: usize = self.pilot_positions.len();
        let mut k: usize = 0;
        let mut i: usize = 0;
        while k < self.n_bins
            invariant
                pilots_in_order(self.pilots(), self.bins()),
                want == Seq::new(self.bins() as nat, |k: int| tap(self.pilots(), k)),
                n == self.pilot_positions@.len(),
                k <= self.n_bins,
                taps@ == want.take(k as int),
                n > 0 ==> i < n,
                n > 0 ==> i == 0 || self.pilot_positions@[i as int] <= k,
            decreases self.n_bins - k,
        {
            if n == 0 {
                taps.push(Tap::Unit);
            } else if k < self.pilot_positions[0] {
                proof {
                    assert forall|j: int| -1 < j < n implies #[trigger] self.pilots()[j] > k by {
                        assert(self.pilots()[0] <= self.pilots()[j]);
                    }
                    lemma_last_at_most(self.pilots(), k as int, -1);
                }
                taps.push(Tap::Pilot { bin: self.pilot_positions[0] });
            } else {
                i = advance(&self.pilot_positions, i, k);
                let from: usize = self.pilot_positions[i];
                if from == k || i + 1 == n {
                    taps.push(Tap::Pilot { bin: from });
                } else {
                    let to: usize = self.pilot_positions[i + 1];
                    taps.push(Tap::Blend { from, to, along: k - from, span: to - from });
                }
            }
            assert(taps@ =~= want.take(k + 1));
            k = k + 1;
        }
        assert(taps@ =~= want);
        taps
    }
}

/// A pilot bin is estimated from what was observed there.
pub proof fn pilot_bins_keep_their_observation(pilots: Seq<usize>, n_bins: int, i: int)
    requires
        pilots_in_order(pilots, n_bins),
        0 <= i < pilots.len(),
    ensures
        tap(pilots, pilots[i] as int) == (Tap::Pilot { bin: pilots[i] }),
{
    let k = pilots[i] as int;
    lemma_bracket(pilots, n_bins, k);
    let l = last_at_most(pilots, k);
    assert(l >= i);
    assert(pilots[i] <= pilots[l]);
}

/// No bin is left with a made-up channel where there is a pilot, and every estimate is
/// taken from pilots: outside them from the nearest, between them from both neighbours
/// in proportion to the distance.
pub proof fn every_bin_is_estimated_from_pilots(pilots: Seq<usize>, n_bins: int, k: int)
    requires
        pilots_in_order(pilots, n_bins),
        pilots.len() > 0,
        0 <= k < n_bins,
    ensures
        match tap(pilots, k) {
            Tap::Unit => false,
            Tap::Pilot { bin } => pilots.contains(bin) && (bin == k || (k < bin && bin
                == pilots[0]) || (k > bin && bin == pilots.last())),
            Tap::Blend { from, to, along, span } => {
                &&& pilots.contains(from)
                &&& pilots.contains(to)
                &&& from < k < to
                &&& along == k - from
                &&& span == to - from
                &&& forall|j: int| 0 <= j < pilots.len() ==> !(from < #[trigger] pilots[j] < to)
            },
        },
{
    lemma_bracket(pilots, n_bins, k);
    let i = last_at_most(pilots, k);
    if i >= 0 {
        assert(pilots.contains(pilots[i]));
        if i + 1 < pilots.len() {
            assert(pilots.contains(pilots[i + 1]));
            assert(pilots[i + 1] > k);
            assert forall|j: int| 0 <= j < pilots.len() implies !(pilots[i] < #[trigger] pilots[j]
                < pilots[i + 1]) by {
                if j <= i {
                    assert(pilots[j] <= pilots[i]);
                } else {
                    assert(pilots[i + 1] <= pilots[j]);
                }
            }
        }
    } else {
        assert(pilots.contains(pilots[0]));
        assert(pilots[0] > k);
    }
}

/// Without pilots every bin has a channel of one, and with pilots none has.
pub proof fn channel_is_one_only_without_pilots(pilots: Seq<usize>, k: int)
    ensures
        tap(pilots, k) is Unit <==> pilots.len() == 0,
{
}

} // verus!
