//! What a receiver knows of its channel: the outcomes of the last few overs.
use crate::transport::{ChannelQualityReport, FrameErrorRate};
use std::collections::VecDeque;
use vstd::prelude::*;

verus! {

/// Number of recent overs that a report is computed over.
pub const FER_WINDOW: usize = 8;

/// Consecutive windows of silence after which the recent overs no longer count.
pub const STALE_AFTER_NOSIGNAL_WINDOWS: u32 = 12;

/// One received over.
#[derive(Debug, Clone, Copy)]
pub struct OverOutcome {
    /// Whether the over was detected but failed to decode.
    pub failed: bool,
    /// SNR measured on it, in thousandths of a decibel.
    pub snr_mdb: Option<i32>,
}

/// The last `n` of a sequence.
pub open spec fn newest(s: Seq<OverOutcome>, n: nat) -> Seq<OverOutcome> {
    if s.len() > n {
        s.skip(s.len() - n)
    } else {
        s
    }
}

/// The SNR of the newest over that carried a measurement.
pub open spec fn latest_snr(s: Seq<OverOutcome>) -> Option<i32>
    decreases s.len(),
{
    if s.len() == 0 {
        None
    } else if s.last().snr_mdb is Some {
        s.last().snr_mdb
    } else {
        latest_snr(s.drop_last())
    }
}

/// How many overs failed.
pub open spec fn failures(s: Seq<OverOutcome>) -> nat
    decreases s.len(),
{
    if s.len() == 0 {
        0
    } else {
        failures(s.drop_last()) + if s.last().failed {
            1nat
        } else {
            0nat
        }
    }
}

/// What a [`QualitySnapshot`] holds.
#[verifier::ext_equal]
pub struct QualityModel {
    /// Recent overs, newest last.
    pub recent: Seq<OverOutcome>,
    /// Windows of silence since the last over.
    pub windows_since_rx: u32,
}

impl QualityModel {
    /// No more overs are held than the report is computed over.
    pub open spec fn wf(self) -> bool {
        self.recent.len() <= FER_WINDOW
    }

    /// After an over.
    pub open spec fn heard(self, o: OverOutcome) -> Self {
        QualityModel {
            recent: newest(self.recent.push(o), FER_WINDOW as nat),
            windows_since_rx: 0,
        }
    }

    /// After a window of silence.
    pub open spec fn silent(self) -> Self {
        let n = if self.windows_since_rx < u32::MAX {
            (self.windows_since_rx + 1) as u32
        } else {
            u32::MAX
        };
        QualityModel {
            recent: if n >= STALE_AFTER_NOSIGNAL_WINDOWS {
                Seq::empty()
            } else {
                self.recent
            },
            windows_since_rx: n,
        }
    }

    /// The report to the link.
    pub open spec fn report(self) -> ChannelQualityReport {
        ChannelQualityReport {
            snr_mdb: latest_snr(self.recent),
            errors: FrameErrorRate {
                failed: failures(self.recent) as u32,
                total: self.recent.len() as u32,
            },
        }
    }
}

/// The recent overs and how long ago the last one was.
#[derive(Debug)]
pub struct QualitySnapshot {
    recent: VecDeque<OverOutcome>,
    windows_since_rx: u32,
}

impl View for QualitySnapshot {
    type V = QualityModel;

    closed spec fn view(&self) -> QualityModel {
        QualityModel { recent: self.recent@, windows_since_rx: self.windows_since_rx }
    }
}

impl Default for QualitySnapshot {
    fn default() -> (q: Self)
        ensures
            q@ == (QualityModel { recent: Seq::empty(), windows_since_rx: 0 }),
            q@.wf(),
    {
        QualitySnapshot { recent: VecDeque::new(), windows_since_rx: 0 }
    }
}

impl QualitySnapshot {
    /// Record a received over, clean or failed.
    pub fn record_over(&mut self, failed: bool, snr_mdb: Option<i32>)
        ensures
            final(self)@ == old(self)@.heard(OverOutcome { failed, snr_mdb }),
            final(self)@.wf(),
    {
        self.windows_since_rx = 0;
        self.recent.push_back(OverOutcome { failed, snr_mdb });
        let ghost all = self.recent@;
        assert(all == old(self)@.recent.push(OverOutcome { failed, snr_mdb }));
        assert(all.skip(0) =~= all);
        while self.recent.len() > FER_WINDOW
            invariant
                self.windows_since_rx == 0,
                self.recent@.len() <= all.len(),
                self.recent@ == all.skip(all.len() - self.recent@.len()),
                all.len() > FER_WINDOW ==> self.recent@.len() >= FER_WINDOW,
                all.len() <= FER_WINDOW ==> self.recent@ == all,
            decreases self.recent@.len(),
        {
            let ghost before = self.recent@;
            self.recent.pop_front();
            assert(self.recent@ =~= all.skip(all.len() - self.recent@.len()));
        }
    }

    /// Record a window that held only noise. After enough of them a reading from before a
    /// fade no longer counts.
    pub fn record_no_signal(&mut self)
        requires
            old(self)@.wf(),
        ensures
            final(self)@ == old(self)@.silent(),
            final(self)@.wf(),
    {
        self.windows_since_rx = self.windows_since_rx.saturating_add(1);
        if self.windows_since_rx >= STALE_AFTER_NOSIGNAL_WINDOWS {
            self.recent.clear();
        }
    }

    /// The report to the link: the SNR of the newest over that has one, and the share of
    /// failures among the recent overs.
    pub fn report(&self) -> (r: ChannelQualityReport)
        requires
            self@.wf(),
        ensures
            r == self@.report(),
    {
        let n: usize = self.recent.len();
        let ghost all = self.recent@;
        let mut snr: Option<i32> = None;
        let mut failed: u32 = 0;
        let mut i: usize = 0;
        assert(all.take(0) =~= Seq::empty());
        while i < n
            invariant
                all == self.recent@,
                i <= n == all.len(),
                n <= FER_WINDOW,
                snr == latest_snr(all.take(i as int)),
                failed == failures(all.take(i as int)),
                failed <= i,
            decreases n - i,
        {
            proof {
                assert(all.take(i + 1).drop_last() =~= all.take(i as int));
            }
            let o: OverOutcome = self.recent[i];
            if o.snr_mdb.is_some() {
                snr = o.snr_mdb;
            }
            if o.failed {
                failed = failed + 1;
            }
            i = i + 1;
        }
        assert(all.take(n as int) =~= all);
        ChannelQualityReport::from_parts(snr, n as u32, failed)
    }
}

/// A snapshot after a run of equal overs.
pub open spec fn heard_n(q: QualityModel, o: OverOutcome, n: nat) -> QualityModel
    decreases n,
{
    if n == 0 {
        q
    } else {
        heard_n(q, o, (n - 1) as nat).heard(o)
    }
}

/// The report is recent, not a lifetime average: after as many overs of one outcome as
/// the window holds, whatever came before no longer counts.
pub proof fn report_is_recent(q: QualityModel, o: OverOutcome)
    requires
        q.wf(),
    ensures
        ({
            let r = heard_n(q, o, FER_WINDOW as nat).report();
            &&& r.errors.total == FER_WINDOW
            &&& r.errors.failed == if o.failed {
                FER_WINDOW
            } else {
                0
            }
            &&& o.snr_mdb is Some ==> r.snr_mdb == o.snr_mdb
        }),
{
    lemma_tail(q, o, FER_WINDOW as nat);
    let s = heard_n(q, o, FER_WINDOW as nat).recent;
    lemma_all_same(s, o);
}

proof fn lemma_tail(q: QualityModel, o: OverOutcome, n: nat)
    requires
        q.wf(),
        n <= FER_WINDOW,
    ensures
        heard_n(q, o, n).wf(),
        heard_n(q, o, n).recent.len() >= n,
        forall|i: int|
            heard_n(q, o, n).recent.len() - n <= i < heard_n(q, o, n).recent.len() ==> (
            #[trigger] heard_n(q, o, n).recent[i]) == o,
    decreases n,
{
    if n > 0 {
        lemma_tail(q, o, (n - 1) as nat);
        let before = heard_n(q, o, (n - 1) as nat).recent;
        let after = heard_n(q, o, n).recent;
        assert forall|i: int| after.len() - n <= i < after.len() implies (
        #[trigger] after[i]) == o by {
            let pushed = before.push(o);
            let shift = pushed.len() - after.len();
            assert(after[i] == pushed[i + shift]);
            if i + shift < before.len() {
                assert(before[i + shift] == o);
            }
        }
    }
}

proof fn lemma_all_same(s: Seq<OverOutcome>, o: OverOutcome)
    requires
        forall|i: int| 0 <= i < s.len() ==> (#[trigger] s[i]) == o,
    ensures
        failures(s) == if o.failed {
            s.len()
        } else {
            0
        },
        s.len() > 0 && o.snr_mdb is Some ==> latest_snr(s) == o.snr_mdb,
    decreases s.len(),
{
    if s.len() > 0 {
        assert forall|i: int| 0 <= i < s.drop_last().len() implies (
        #[trigger] s.drop_last()[i]) == o by {
            assert(s[i] == o);
        }
        lemma_all_same(s.drop_last(), o);
        assert(s.last() == s[s.len() - 1]);
    }
}

/// A snapshot after a run of silent windows.
pub open spec fn silent_n(q: QualityModel, n: nat) -> QualityModel
    decreases n,
{
    if n == 0 {
        q
    } else {
        silent_n(q, (n - 1) as nat).silent()
    }
}

/// A reading does not survive a fade: after enough silence the report has no measurement.
pub proof fn report_goes_stale(q: QualityModel, n: nat)
    requires
        n >= STALE_AFTER_NOSIGNAL_WINDOWS,
    ensures
        silent_n(q, n).report() == (ChannelQualityReport {
            snr_mdb: None,
            errors: FrameErrorRate { failed: 0, total: 0 },
        }),
{
    lemma_silence_counts(q, n);
}

proof fn lemma_silence_counts(q: QualityModel, n: nat)
    ensures
        silent_n(q, n).windows_since_rx >= n || silent_n(q, n).windows_since_rx == u32::MAX,
        n >= 1 && silent_n(q, n).windows_since_rx >= STALE_AFTER_NOSIGNAL_WINDOWS ==> silent_n(
            q,
            n,
        ).recent == Seq::<OverOutcome>::empty(),
    decreases n,
{
    if n > 0 {
        lemma_silence_counts(q, (n - 1) as nat);
    }
}

/// The SNR that is reported was measured on one of the overs, and on none after it: an over
/// without a measurement leaves the last one standing.
pub open spec fn is_last_measured(s: Seq<OverOutcome>, snr_mdb: Option<i32>) -> bool {
    match snr_mdb {
        Some(v) => exists|i: int|
            {
                &&& 0 <= i < s.len()
                &&& (#[trigger] s[i]).snr_mdb == Some(v)
                &&& forall|j: int| i < j < s.len() ==> (#[trigger] s[j]).snr_mdb is None
            },
        None => forall|j: int| 0 <= j < s.len() ==> (#[trigger] s[j]).snr_mdb is None,
    }
}

proof fn lemma_latest(s: Seq<OverOutcome>)
    ensures
        is_last_measured(s, latest_snr(s)),
    decreases s.len(),
{
    if s.len() > 0 && s.last().snr_mdb is None {
        let d = s.drop_last();
        lemma_latest(d);
        match latest_snr(d) {
            Some(v) => {
                let i = choose|i: int|
                    {
                        &&& 0 <= i < d.len()
                        &&& (#[trigger] d[i]).snr_mdb == Some(v)
                        &&& forall|j: int| i < j < d.len() ==> (#[trigger] d[j]).snr_mdb is None
                    };
                assert(s[i].snr_mdb == Some(v));
                assert forall|j: int| i < j < s.len() implies (#[trigger] s[j]).snr_mdb is None by {
                    if j < d.len() {
                        assert(d[j].snr_mdb is None);
                    }
                }
            },
            None => {
                assert forall|j: int| 0 <= j < s.len() implies (#[trigger] s[j]).snr_mdb is None by {
                    if j < d.len() {
                        assert(d[j].snr_mdb is None);
                    }
                }
            },
        }
    } else if s.len() > 0 {
        assert(s[s.len() - 1].snr_mdb == s.last().snr_mdb);
    }
}

/// The report speaks of the last eight overs: its SNR is the last measured among them.
pub proof fn report_gives_the_last_measured_snr(q: QualityModel)
    ensures
        is_last_measured(q.recent, q.report().snr_mdb),
{
    lemma_latest(q.recent);
}

/// What an over does to the report. Its SNR, where it has one, is reported next. Where it
/// has none, the SNR reported is that of the last over before it that had one and is not yet
/// eight overs old.
pub proof fn over_shows_in_the_next_report(q: QualityModel, o: OverOutcome)
    requires
        q.wf(),
    ensures
        ({
            let before = if q.recent.len() < 8 {
                q.recent
            } else {
                q.recent.drop_first()
            };
            let r = q.heard(o).report();
            &&& o.snr_mdb is Some ==> r.snr_mdb == o.snr_mdb
            &&& o.snr_mdb is None ==> is_last_measured(before, r.snr_mdb)
            &&& q.heard(o).windows_since_rx == 0
            &&& q.heard(o).recent == before.push(o)
        }),
{
    let before = if q.recent.len() < 8 {
        q.recent
    } else {
        q.recent.drop_first()
    };
    let after = q.heard(o).recent;
    assert(after =~= before.push(o));
    assert(after.drop_last() =~= before);
    lemma_latest(before);
}

/// What an over does to the errors: it is counted, as failed where it failed, and where
/// eight were counted already the oldest no longer is.
pub proof fn over_counts_among_the_last_eight(q: QualityModel, o: OverOutcome)
    requires
        q.wf(),
    ensures
        ({
            let was = q.report().errors;
            let now = q.heard(o).report().errors;
            let full = q.recent.len() == 8;
            let lost = full && q.recent[0].failed;
            &&& was.total == q.recent.len()
            &&& now.total == (if full {
                8
            } else {
                was.total + 1
            })
            &&& now.failed == was.failed + (if o.failed {
                1int
            } else {
                0
            }) - (if lost {
                1int
            } else {
                0
            })
            &&& was.failed <= was.total <= 8
            &&& q.recent.len() == 0 ==> was.failed == 0
        }),
{
    let all = q.recent;
    let after = q.heard(o).recent;
    lemma_failures_bound(all);
    lemma_failures_bound(after);
    if all.len() == 8 {
        lemma_failures_of_the_rest(all.push(o));
        assert(after =~= all.push(o).drop_first());
        assert(all.push(o)[0] == all[0]);
    }
    assert(all.push(o).drop_last() =~= all);
    if all.len() < 8 {
        assert(after =~= all.push(o));
    }
}

proof fn lemma_failures_bound(s: Seq<OverOutcome>)
    ensures
        failures(s) <= s.len(),
    decreases s.len(),
{
    if s.len() > 0 {
        lemma_failures_bound(s.drop_last());
    }
}

proof fn lemma_failures_of_the_rest(s: Seq<OverOutcome>)
    requires
        s.len() > 0,
    ensures
        failures(s) == failures(s.drop_first()) + (if s[0].failed {
            1nat
        } else {
            0nat
        }),
    decreases s.len(),
{
    if s.len() > 1 {
        lemma_failures_of_the_rest(s.drop_last());
        assert(s.drop_last().drop_first() =~= s.drop_first().drop_last());
        assert(s.drop_last()[0] == s[0]);
    } else {
        assert(s.drop_last() =~= Seq::empty());
        assert(s.drop_first() =~= Seq::empty());
    }
}

/// Up to eleven windows of silence take nothing from the report; the twelfth takes all of
/// it.
pub proof fn silence_takes_nothing_before_its_time(q: QualityModel)
    ensures
        q.windows_since_rx < 11 ==> q.silent().report() == q.report() && q.silent().recent
            == q.recent && q.silent().windows_since_rx == q.windows_since_rx + 1,
        q.windows_since_rx >= 11 ==> q.silent().recent.len() == 0,
{
}

} // verus!
