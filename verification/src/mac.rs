//! Link adaptation: the ladder of modes and the rules that move a link along it.
//!
//! Rung 0 is the fastest and most fragile, and each next one slower and more robust.
//! A frame-error rate never drops the link: it moves it down the ladder. The floor
//! rungs run whole-message ARQ, with a window of one and no selective
//! acknowledgement.
//!
//! A [`Ladder`] says which of its rungs have a waveform behind them; only those are
//! ever chosen.
use crate::arq::DEFAULT_WINDOW;
use crate::modes::ModeHint;
use crate::profile::ModeProfile;
use crate::time::Duration;
use crate::transport::{ChannelQualityReport, FrameErrorRate};
use vstd::prelude::*;

verus! {

/// Number of rungs on the standard ladder.
pub const NUM_RUNGS: u8 = 5;

/// The most robust rung of the standard ladder.
pub const BASE_RUNG: u8 = NUM_RUNGS - 1;

/// The rung taken when no channel measurement exists yet.
pub const DEFAULT_RUNG: u8 = 1;

/// SNR in thousandths of a decibel that a faster rung must be cleared by before the
/// link moves up to it.
pub const ADAPT_UPSHIFT_MARGIN_MDB: i32 = 3_000;

/// Effective-SNR penalty, in thousandths of a decibel, of a channel on which every
/// frame fails.
pub const FER_PENALTY_MDB: i32 = 40_000;

/// Frames that an error rate needs behind it before it counts.
pub const FER_MIN_SAMPLES: u32 = 4;

/// Largest error rate, in thousandths, at which the link may move up.
pub const FER_UPSHIFT_MAX_PER_MILLE: u32 = 50;

/// Smallest error rate, in thousandths, that moves the link down by itself.
pub const FER_DOWNSHIFT_MIN_PER_MILLE: u32 = 200;

/// The ARQ strategy of a route.
#[derive(Debug, Clone, Copy, PartialEq, Eq, Structural)]
pub enum ArqStrategy {
    /// Windowed selective repeat.
    SelectiveRepeat,
    /// Window of one, no selective acknowledgement, resend until acknowledged.
    WholeMessage,
}

/// Window sizing of a route.
#[derive(Debug, Clone, Copy, PartialEq, Eq, Structural)]
pub struct WindowParams {
    /// Frames in flight per over.
    pub window: u32,
}

/// A complete routing decision for the next over.
#[derive(Debug, Clone, Copy, PartialEq)]
pub struct Route {
    /// Mode hint to transmit under.
    pub mode: ModeHint,
    /// ARQ strategy to run.
    pub strategy: ArqStrategy,
    /// Window sizing.
    pub window: WindowParams,
    /// Profile that all link timers of this rung derive from.
    pub profile: ModeProfile,
}

/// One rung of an adaptation ladder.
#[derive(Debug, Clone, Copy, PartialEq)]
pub struct Rung {
    /// What the link runs while it sits on the rung.
    pub route: Route,
    /// Lowest SNR, in thousandths of a decibel, that supports the rung; a rung without
    /// one is supported by any channel.
    pub snr_floor_mdb: Option<i32>,
    /// Waveform family. A measured SNR predicts nothing about another family, so the
    /// link moves up by at most one family at a time.
    pub family: u8,
    /// Whether a waveform is registered for the rung.
    pub available: bool,
}

/// A rung of the standard ladder.
pub open spec fn standard_rung(
    mode: ModeHint,
    strategy: ArqStrategy,
    window: u32,
    snr_floor_mdb: Option<i32>,
    over_airtime_ms: u64,
    per_over_mtu: usize,
    family: u8,
) -> Rung {
    Rung {
        route: Route {
            mode,
            strategy,
            window: WindowParams { window },
            profile: ModeProfile {
                over_airtime: Duration {
                    nanos: (over_airtime_ms * crate::time::NANOS_PER_MILLI) as u128,
                },
                per_over_mtu,
            },
        },
        snr_floor_mdb,
        family,
        available: true,
    }
}

/// The standard ladder.
pub open spec fn standard_ladder() -> Seq<Rung> {
    seq![
        standard_rung(
            ModeHint::MainAuto,
            ArqStrategy::SelectiveRepeat,
            DEFAULT_WINDOW,
            Some(18_000),
            300,
            1024,
            0,
        ),
        standard_rung(
            ModeHint::MainAuto,
            ArqStrategy::SelectiveRepeat,
            6,
            Some(8_000),
            500,
            512,
            0,
        ),
        standard_rung(
            ModeHint::MainAuto,
            ArqStrategy::SelectiveRepeat,
            4,
            Some(0),
            800,
            256,
            0,
        ),
        standard_rung(
            ModeHint::Floor,
            ArqStrategy::WholeMessage,
            1,
            Some(-12_000i32 as i32),
            3_000,
            64,
            1,
        ),
        standard_rung(
            ModeHint::FloorCrowdedBand,
            ArqStrategy::WholeMessage,
            1,
            None,
            30_000,
            16,
            2,
        ),
    ]
}

/// A rung of the standard ladder.
fn make_rung(
    mode: ModeHint,
    strategy: ArqStrategy,
    window: u32,
    snr_floor_mdb: Option<i32>,
    over_airtime_ms: u64,
    per_over_mtu: usize,
    family: u8,
) -> (r: Rung)
    ensures
        r == standard_rung(
            mode,
            strategy,
            window,
            snr_floor_mdb,
            over_airtime_ms,
            per_over_mtu,
            family,
        ),
{
    Rung {
        route: Route {
            mode,
            strategy,
            window: WindowParams { window },
            profile: ModeProfile::new(Duration::from_millis(over_airtime_ms), per_over_mtu),
        },
        snr_floor_mdb,
        family,
        available: true,
    }
}

/// The standard ladder, fastest rung first.
pub fn ladder() -> (rungs: Vec<Rung>)
    ensures
        rungs@ == standard_ladder(),
{
    let mut rungs: Vec<Rung> = Vec::new();
    rungs.push(
        make_rung(
            ModeHint::MainAuto,
            ArqStrategy::SelectiveRepeat,
            DEFAULT_WINDOW,
            Some(18_000),
            300,
            1024,
            0,
        ),
    );
    rungs.push(
        make_rung(
            ModeHint::MainAuto,
            ArqStrategy::SelectiveRepeat,
            6,
            Some(8_000),
            500,
            512,
            0,
        ),
    );
    rungs.push(
        make_rung(ModeHint::MainAuto, ArqStrategy::SelectiveRepeat, 4, Some(0), 800, 256, 0),
    );
    rungs.push(
        make_rung(ModeHint::Floor, ArqStrategy::WholeMessage, 1, Some(-12_000), 3_000, 64, 1),
    );
    rungs.push(
        make_rung(ModeHint::FloorCrowdedBand, ArqStrategy::WholeMessage, 1, None, 30_000, 16, 2),
    );
    assert(rungs@ =~= standard_ladder());
    rungs
}

/// A rung id, held to the ladder.
pub open spec fn held(rungs: Seq<Rung>, id: u8) -> int {
    if id < rungs.len() {
        id as int
    } else {
        rungs.len() - 1
    }
}

/// Whether an SNR clears a rung's floor by a margin.
pub open spec fn clears(r: Rung, snr_mdb: int, margin_mdb: int) -> bool {
    match r.snr_floor_mdb {
        None => true,
        Some(floor) => snr_mdb >= floor + margin_mdb,
    }
}

/// The fastest available rung from `from` on that an SNR clears by a margin, or the
/// length of the ladder.
pub open spec fn fastest_cleared(
    rungs: Seq<Rung>,
    snr_mdb: int,
    margin_mdb: int,
    from: int,
) -> int
    decreases rungs.len() - from,
{
    if from >= rungs.len() {
        rungs.len() as int
    } else if rungs[from].available && clears(rungs[from], snr_mdb, margin_mdb) {
        from
    } else {
        fastest_cleared(rungs, snr_mdb, margin_mdb, from + 1)
    }
}

/// The first available rung from `from` on, or the length of the ladder.
pub open spec fn next_available(rungs: Seq<Rung>, from: int) -> int
    decreases rungs.len() - from,
{
    if from >= rungs.len() {
        rungs.len() as int
    } else if rungs[from].available {
        from
    } else {
        next_available(rungs, from + 1)
    }
}

/// The last available rung before `before`, or -1.
pub open spec fn last_available(rungs: Seq<Rung>, before: int) -> int
    decreases before,
{
    if before <= 0 {
        -1
    } else if rungs[before - 1].available {
        before - 1
    } else {
        last_available(rungs, before - 1)
    }
}

/// The last available rung before `before` of a faster family than `family`, or -1.
pub open spec fn last_faster_family(rungs: Seq<Rung>, family: u8, before: int) -> int
    decreases before,
{
    if before <= 0 {
        -1
    } else if rungs[before - 1].available && rungs[before - 1].family < family {
        before - 1
    } else {
        last_faster_family(rungs, family, before - 1)
    }
}

/// The most robust available rung.
pub open spec fn base_of(rungs: Seq<Rung>) -> int {
    last_available(rungs, rungs.len() as int)
}

/// A ladder that a link can run over: some rung of it is available, every window holds
/// a frame, and families only get more robust downwards.
pub open spec fn ladder_wf(rungs: Seq<Rung>) -> bool {
    &&& 1 <= rungs.len() <= u8::MAX
    &&& exists|i: int| 0 <= i < rungs.len() && (#[trigger] rungs[i]).available
    &&& forall|i: int| 0 <= i < rungs.len() ==> (#[trigger] rungs[i]).route.window.window >= 1
    &&& forall|i: int, j: int|
        0 <= i <= j < rungs.len() ==> (#[trigger] rungs[i]).family <= (#[trigger] rungs[j]).family
}

/// What a rung moves to on a measured SNR alone: the fastest available one that the SNR
/// supports, or the base.
pub open spec fn supported(rungs: Seq<Rung>, snr_mdb: int) -> int {
    let i = fastest_cleared(rungs, snr_mdb, 0, 0);
    if i < rungs.len() {
        i
    } else {
        base_of(rungs)
    }
}

/// Whether an error rate is backed by enough frames and high enough to move down.
pub open spec fn failing(fer: FrameErrorRate, samples: u32) -> bool {
    samples >= FER_MIN_SAMPLES && fer.at_least(FER_DOWNSHIFT_MIN_PER_MILLE)
}

/// Whether an error rate is backed by enough frames and low enough to move up.
pub open spec fn confirmed(fer: FrameErrorRate, samples: u32) -> bool {
    samples >= FER_MIN_SAMPLES && fer.at_most(FER_UPSHIFT_MAX_PER_MILLE)
}

/// Where a link on rung `cur` moves up to when the smoothed SNR allows it.
pub open spec fn upshifted(rungs: Seq<Rung>, cur: int, smoothed_mdb: int) -> int {
    let up = fastest_cleared(rungs, smoothed_mdb, ADAPT_UPSHIFT_MARGIN_MDB as int, 0);
    if up >= cur {
        cur
    } else if rungs[up].family == rungs[cur].family {
        up
    } else {
        last_faster_family(rungs, rungs[cur].family, rungs.len() as int)
    }
}

/// The rung that a measurement moves a link to: down at once to what the raw SNR
/// supports, or one rung down on a failing error rate, or up where the smoothed SNR
/// clears a margin and the error rate confirms it; else no change.
pub open spec fn adapted(
    rungs: Seq<Rung>,
    current: u8,
    snr_raw: Option<i32>,
    snr_smoothed: Option<i32>,
    fer: FrameErrorRate,
    samples: u32,
) -> int {
    let cur = held(rungs, current);
    if snr_raw is Some && supported(rungs, snr_raw->0 as int) > cur {
        supported(rungs, snr_raw->0 as int)
    } else if failing(fer, samples) && cur < base_of(rungs) {
        next_available(rungs, cur + 1)
    } else if snr_smoothed is Some && confirmed(fer, samples) {
        upshifted(rungs, cur, snr_smoothed->0 as int)
    } else {
        cur
    }
}

/// The fastest rung from `from` on that an SNR clears by a margin.
proof fn lemma_fastest(rungs: Seq<Rung>, snr: int, margin: int, from: int)
    requires
        0 <= from <= rungs.len(),
    ensures
        from <= fastest_cleared(rungs, snr, margin, from) <= rungs.len(),
        fastest_cleared(rungs, snr, margin, from) < rungs.len() ==> {
            let i = fastest_cleared(rungs, snr, margin, from);
            rungs[i].available && clears(rungs[i], snr, margin)
        },
        forall|j: int|
            from <= j < fastest_cleared(rungs, snr, margin, from) ==> !((#[trigger] rungs[j]).available
                && clears(rungs[j], snr, margin)),
    decreases rungs.len() - from,
{
    if from < rungs.len() && !(rungs[from].available && clears(rungs[from], snr, margin)) {
        lemma_fastest(rungs, snr, margin, from + 1);
    }
}

/// The first available rung from `from` on.
pub proof fn lemma_next(rungs: Seq<Rung>, from: int)
    requires
        0 <= from <= rungs.len(),
    ensures
        from <= next_available(rungs, from) <= rungs.len(),
        next_available(rungs, from) < rungs.len() ==> rungs[next_available(rungs, from)].available,
        forall|j: int|
            from <= j < next_available(rungs, from) ==> !(#[trigger] rungs[j]).available,
    decreases rungs.len() - from,
{
    if from < rungs.len() && !rungs[from].available {
        lemma_next(rungs, from + 1);
    }
}

/// The last available rung before `before`.
proof fn lemma_last(rungs: Seq<Rung>, before: int)
    requires
        0 <= before <= rungs.len(),
    ensures
        -1 <= last_available(rungs, before) < before || before == 0,
        last_available(rungs, before) >= 0 ==> rungs[last_available(rungs, before)].available,
        forall|j: int|
            last_available(rungs, before) < j < before ==> !(#[trigger] rungs[j]).available,
        last_available(rungs, before) >= -1,
    decreases before,
{
    if before > 0 && !rungs[before - 1].available {
        lemma_last(rungs, before - 1);
    }
}

/// The last available rung of a faster family.
proof fn lemma_last_faster(rungs: Seq<Rung>, family: u8, before: int)
    requires
        0 <= before <= rungs.len(),
    ensures
        -1 <= last_faster_family(rungs, family, before),
        last_faster_family(rungs, family, before) < before || before == 0,
        last_faster_family(rungs, family, before) >= 0 ==> {
            let i = last_faster_family(rungs, family, before);
            rungs[i].available && rungs[i].family < family
        },
        forall|j: int|
            last_faster_family(rungs, family, before) < j < before ==> !((#[trigger] rungs[j]).available
                && rungs[j].family < family),
    decreases before,
{
    if before > 0 && !(rungs[before - 1].available && rungs[before - 1].family < family) {
        lemma_last_faster(rungs, family, before - 1);
    }
}

/// A usable ladder has a base, and it is available.
pub proof fn lemma_base(rungs: Seq<Rung>)
    requires
        ladder_wf(rungs),
    ensures
        0 <= base_of(rungs) < rungs.len(),
        rungs[base_of(rungs)].available,
        forall|j: int| base_of(rungs) < j < rungs.len() ==> !(#[trigger] rungs[j]).available,
{
    lemma_last(rungs, rungs.len() as int);
    let i = choose|i: int| 0 <= i < rungs.len() && (#[trigger] rungs[i]).available;
    assert(rungs[i].available);
}

/// Adaptation stays on the ladder, and leaves a rung only for an available one.
pub proof fn adaptation_chooses_available_rungs(
    rungs: Seq<Rung>,
    current: u8,
    snr_raw: Option<i32>,
    snr_smoothed: Option<i32>,
    fer: FrameErrorRate,
    samples: u32,
)
    requires
        ladder_wf(rungs),
    ensures
        0 <= adapted(rungs, current, snr_raw, snr_smoothed, fer, samples) < rungs.len(),
        adapted(rungs, current, snr_raw, snr_smoothed, fer, samples) != held(rungs, current)
            ==> rungs[adapted(rungs, current, snr_raw, snr_smoothed, fer, samples)].available,
{
    let cur = held(rungs, current);
    lemma_base(rungs);
    if snr_raw is Some {
        lemma_fastest(rungs, snr_raw->0 as int, 0, 0);
    }
    if cur < base_of(rungs) {
        lemma_next(rungs, cur + 1);
        assert(rungs[base_of(rungs)].available);
    }
    if snr_smoothed is Some {
        lemma_fastest(rungs, snr_smoothed->0 as int, ADAPT_UPSHIFT_MARGIN_MDB as int, 0);
        lemma_last_faster(rungs, rungs[cur].family, rungs.len() as int);
    }
}

/// The fastest available rung that an SNR clears by a margin, or the length of the
/// ladder.
fn find_cleared(rungs: &Vec<Rung>, snr_mdb: i32, margin_mdb: i32) -> (i: usize)
    ensures
        i == fastest_cleared(rungs@, snr_mdb as int, margin_mdb as int, 0),
        i <= rungs@.len(),
        i < rungs@.len() ==> rungs@[i as int].available,
{
    proof {
        lemma_fastest(rungs@, snr_mdb as int, margin_mdb as int, 0);
    }
    let mut i: usize = 0;
    while i < rungs.len()
        invariant
            i <= rungs@.len(),
            fastest_cleared(rungs@, snr_mdb as int, margin_mdb as int, 0) == fastest_cleared(
                rungs@,
                snr_mdb as int,
                margin_mdb as int,
                i as int,
            ),
        decreases rungs.len() - i,
    {
        let r = rungs[i];
        let ok = match r.snr_floor_mdb {
            None => true,
            Some(floor) => snr_mdb as i64 >= floor as i64 + margin_mdb as i64,
        };
        if r.available && ok {
            return i;
        }
        i = i + 1;
    }
    i
}

/// The adaptation ladder of a link.
pub struct Ladder {
    /// The rungs, fastest first.
    pub rungs: Vec<Rung>,
}

impl Ladder {
    /// The ladder can be run over.
    pub open spec fn wf(self) -> bool {
        ladder_wf(self.rungs@)
    }

    /// The standard ladder with every rung available.
    pub fn all_available() -> (l: Self)
        ensures
            l.rungs@ == standard_ladder(),
            l.wf(),
    {
        let l = Ladder { rungs: ladder() };
        assert(l.rungs@[0].available);
        l
    }

    /// The standard ladder with one profile on every rung, and only the wide-band floor
    /// available.
    pub fn standard_with_uniform_profile(profile: ModeProfile) -> (l: Self)
        ensures
            l.rungs@ == uniform_ladder(profile),
            l.wf(),
    {
        let mut rungs = ladder();
        let mut i: usize = 0;
        while i < rungs.len()
            invariant
                i <= rungs@.len() == NUM_RUNGS,
                forall|j: int| 0 <= j < i ==> rungs@[j] == uniform_ladder(profile)[j],
                forall|j: int| i <= j < rungs@.len() ==> rungs@[j] == standard_ladder()[j],
            decreases rungs.len() - i,
        {
            let mut r: Rung = rungs[i];
            r.route.profile = profile;
            r.available = i == 3;
            rungs.set(i, r);
            i = i + 1;
        }
        assert(rungs@ =~= uniform_ladder(profile));
        assert(rungs@[3].available);
        Ladder { rungs }
    }

    /// The most robust available rung: where a link falls back to.
    pub fn base_rung(&self) -> (id: u8)
        requires
            self.wf(),
        ensures
            id == base_of(self.rungs@),
            id < self.rungs@.len(),
    {
        proof {
            lemma_base(self.rungs@);
        }
        let mut i: usize = self.rungs.len();
        while i > 0
            invariant
                i <= self.rungs@.len() <= u8::MAX,
                base_of(self.rungs@) == last_available(self.rungs@, i as int),
                base_of(self.rungs@) >= 0,
            decreases i,
        {
            if self.rungs[i - 1].available {
                return (i - 1) as u8;
            }
            i = i - 1;
        }
        0
    }

    /// The rung that a session starts on: the most robust available one.
    pub fn default_rung(&self) -> (id: u8)
        requires
            self.wf(),
        ensures
            id == base_of(self.rungs@),
            id < self.rungs@.len(),
    {
        self.base_rung()
    }

    /// What the link runs on a rung; an id past the ladder means the last rung.
    pub fn rung(&self, id: u8) -> (r: Route)
        requires
            self.wf(),
        ensures
            r == self.rungs@[held(self.rungs@, id)].route,
            r.window.window >= 1,
    {
        let i: usize = self.hold(id);
        self.rungs[i].route
    }

    /// The waveform family of a rung.
    pub fn family_of(&self, id: u8) -> (f: u8)
        requires
            self.wf(),
        ensures
            f == self.rungs@[held(self.rungs@, id)].family,
    {
        let i: usize = self.hold(id);
        self.rungs[i].family
    }

    fn hold(&self, id: u8) -> (i: usize)
        requires
            self.wf(),
        ensures
            i == held(self.rungs@, id),
            i < self.rungs@.len(),
    {
        if (id as usize) < self.rungs.len() {
            id as usize
        } else {
            self.rungs.len() - 1
        }
    }

    /// The nearest available rung that is at least as robust as `id`, or the base where
    /// there is none.
    pub fn clamp_available(&self, id: u8) -> (r: u8)
        requires
            self.wf(),
        ensures
            r == clamped(self.rungs@, id),
            r < self.rungs@.len(),
            self.rungs@[r as int].available,
    {
        proof {
            lemma_base(self.rungs@);
            lemma_clamped(self.rungs@, id);
        }
        let mut i: usize = id as usize;
        while i < self.rungs.len()
            invariant
                id <= i,
                self.rungs@.len() <= u8::MAX,
                next_available(self.rungs@, id as int) == next_available(self.rungs@, i as int),
                clamped(self.rungs@, id) < self.rungs@.len(),
                self.rungs@[clamped(self.rungs@, id)].available,
            decreases self.rungs.len() - i,
        {
            if self.rungs[i].available {
                return i as u8;
            }
            i = i + 1;
        }
        self.base_rung()
    }

    /// The rung that a measurement moves a link to. Falling SNR moves it down at once,
    /// across families where need be; moving up takes a smoothed SNR that clears the
    /// margin and a credibly low error rate, and one family at most.
    pub fn adapt_rung(
        &self,
        current: u8,
        snr_raw: Option<i32>,
        snr_smoothed: Option<i32>,
        fer: FrameErrorRate,
        fer_samples: u32,
    ) -> (id: u8)
        requires
            self.wf(),
        ensures
            id == adapted(self.rungs@, current, snr_raw, snr_smoothed, fer, fer_samples),
            id < self.rungs@.len(),
    {
        proof {
            adaptation_chooses_available_rungs(
                self.rungs@,
                current,
                snr_raw,
                snr_smoothed,
                fer,
                fer_samples,
            );
            lemma_base(self.rungs@);
        }
        let cur: usize = self.hold(current);
        let base: usize = self.base_rung() as usize;
        if let Some(raw) = snr_raw {
            let found: usize = find_cleared(&self.rungs, raw, 0);
            let target: usize = if found < self.rungs.len() {
                found
            } else {
                base
            };
            if target > cur {
                return target as u8;
            }
        }
        if fer_samples >= FER_MIN_SAMPLES && fer.is_at_least(FER_DOWNSHIFT_MIN_PER_MILLE) && cur
            < base {
            proof {
                lemma_clamped(self.rungs@, (cur + 1) as u8);
                lemma_next(self.rungs@, cur + 1);
                assert(self.rungs@[base as int].available);
            }
            return self.clamp_available((cur + 1) as u8);
        }
        if let Some(smoothed) = snr_smoothed {
            if fer_samples >= FER_MIN_SAMPLES && fer.is_at_most(FER_UPSHIFT_MAX_PER_MILLE) {
                let up: usize = find_cleared(&self.rungs, smoothed, ADAPT_UPSHIFT_MARGIN_MDB);
                if up < cur {
                    if self.rungs[up].family == self.rungs[cur].family {
                        return up as u8;
                    }
                    return self.most_robust_faster_family(self.rungs[cur].family, up);
                }
            }
        }
        cur as u8
    }

    /// The most robust available rung of a faster family, where `witness` is one.
    fn most_robust_faster_family(&self, family: u8, witness: usize) -> (id: u8)
        requires
            self.wf(),
            witness < self.rungs@.len(),
            self.rungs@[witness as int].available,
            self.rungs@[witness as int].family < family,
        ensures
            id == last_faster_family(self.rungs@, family, self.rungs@.len() as int),
    {
        let mut i: usize = self.rungs.len();
        while i > 0
            invariant
                witness < i <= self.rungs@.len() <= u8::MAX,
                self.rungs@[witness as int].available,
                self.rungs@[witness as int].family < family,
                last_faster_family(self.rungs@, family, self.rungs@.len() as int)
                    == last_faster_family(self.rungs@, family, i as int),
            decreases i,
        {
            if self.rungs[i - 1].available && self.rungs[i - 1].family < family {
                return (i - 1) as u8;
            }
            i = i - 1;
        }
        0
    }
}

/// The standard ladder with one profile on every rung, and only the wide-band floor
/// available.
pub open spec fn uniform_ladder(profile: ModeProfile) -> Seq<Rung> {
    Seq::new(
        NUM_RUNGS as nat,
        |i: int|
            Rung {
                route: Route { profile, ..standard_ladder()[i].route },
                available: i == 3,
                ..standard_ladder()[i]
            },
    )
}

/// The nearest available rung that is at least as robust as `id`, or the base.
pub open spec fn clamped(rungs: Seq<Rung>, id: u8) -> int {
    let i = next_available(rungs, id as int);
    if i < rungs.len() {
        i
    } else {
        base_of(rungs)
    }
}

/// Clamping gives an available rung, and an available rung is its own.
pub proof fn lemma_clamped(rungs: Seq<Rung>, id: u8)
    requires
        ladder_wf(rungs),
    ensures
        0 <= clamped(rungs, id) < rungs.len(),
        rungs[clamped(rungs, id)].available,
        id < rungs.len() && rungs[id as int].available ==> clamped(rungs, id) == id,
        id <= base_of(rungs) ==> id <= clamped(rungs, id),
        id > base_of(rungs) ==> clamped(rungs, id) == base_of(rungs),
{
    lemma_base(rungs);
    if id <= rungs.len() {
        lemma_next(rungs, id as int);
        let i = next_available(rungs, id as int);
        if i < rungs.len() {
            assert(rungs[i].available);
        }
    }
    if id <= base_of(rungs) {
        assert(rungs[base_of(rungs)].available);
    }
}

/// What the link runs on a rung of the standard ladder; an id past it means the last
/// rung.
pub fn rung(id: u8) -> (r: Route)
    ensures
        r == standard_ladder()[held(standard_ladder(), id)].route,
{
    Ladder::all_available().rung(id)
}

/// The waveform family of a rung of the standard ladder.
pub fn family_of(id: u8) -> (f: u8)
    ensures
        f == standard_ladder()[held(standard_ladder(), id)].family,
{
    Ladder::all_available().family_of(id)
}

/// The rung that a link over the standard ladder of registered modes falls back to.
pub fn base_rung() -> (id: u8)
    ensures
        id == 3,
{
    let l = Ladder::standard_with_uniform_profile(ModeProfile::new(Duration::zero(), 0));
    proof {
        lemma_uniform_base(ModeProfile { over_airtime: Duration { nanos: 0 }, per_over_mtu: 0 });
    }
    l.base_rung()
}

/// The wide-band floor is the only rung that a uniform ladder offers.
pub proof fn lemma_uniform_base(profile: ModeProfile)
    ensures
        base_of(uniform_ladder(profile)) == 3,
        ladder_wf(uniform_ladder(profile)),
{
    let rungs = uniform_ladder(profile);
    assert(rungs[3].available && !rungs[4].available);
    reveal_with_fuel(last_available, 3);
}

/// The rung of the standard ladder that a measurement moves a link to, with every rung
/// available.
pub fn adapt_rung(
    current: u8,
    snr_raw: Option<i32>,
    snr_smoothed: Option<i32>,
    fer: FrameErrorRate,
    fer_samples: u32,
) -> (id: u8)
    ensures
        id == adapted(standard_ladder(), current, snr_raw, snr_smoothed, fer, fer_samples),
        id < NUM_RUNGS,
{
    Ladder::all_available().adapt_rung(current, snr_raw, snr_smoothed, fer, fer_samples)
}

/// Whether a channel supports a rung once its SNR is reduced by the error-rate penalty.
pub open spec fn supports(r: Rung, snr_mdb: int, fer: FrameErrorRate) -> bool {
    match r.snr_floor_mdb {
        None => true,
        Some(floor) => if fer.total == 0 {
            snr_mdb >= floor
        } else {
            (snr_mdb - floor) * fer.total >= FER_PENALTY_MDB * fer.failed
        },
    }
}

/// The fastest rung from `from` on that a channel supports, or the last one.
pub open spec fn first_supported(
    rungs: Seq<Rung>,
    snr_mdb: int,
    fer: FrameErrorRate,
    from: int,
) -> int
    decreases rungs.len() - from,
{
    if from >= rungs.len() - 1 || supports(rungs[from], snr_mdb, fer) {
        from
    } else {
        first_supported(rungs, snr_mdb, fer, from + 1)
    }
}

/// The rung of the standard ladder for a channel of the given quality.
pub open spec fn recommended(q: ChannelQualityReport) -> int {
    match q.snr_mdb {
        None => DEFAULT_RUNG as int,
        Some(snr) => first_supported(standard_ladder(), snr as int, q.errors, 0),
    }
}

/// The rung of the standard ladder for a channel of the given quality: a lower SNR or a
/// higher error rate gives a more robust one.
pub fn recommended_rung(quality: &ChannelQualityReport) -> (id: u8)
    ensures
        id == recommended(*quality),
        id < NUM_RUNGS,
{
    let snr: i32 = match quality.snr_mdb {
        None => return DEFAULT_RUNG,
        Some(s) => s,
    };
    let rungs = ladder();
    let fer = quality.errors;
    let mut i: usize = 0;
    while i < rungs.len() - 1
        invariant
            rungs@ == standard_ladder(),
            rungs@.len() == NUM_RUNGS,
            quality.snr_mdb == Some(snr),
            fer == quality.errors,
            i <= rungs@.len() - 1,
            first_supported(rungs@, snr as int, fer, 0) == first_supported(
                rungs@,
                snr as int,
                fer,
                i as int,
            ),
        decreases rungs.len() - i,
    {
        let ok = match rungs[i].snr_floor_mdb {
            None => true,
            Some(floor) => if fer.total == 0 {
                snr >= floor
            } else {
                let room: i128 = snr as i128 - floor as i128;
                proof {
                    lemma_room(room as int, fer.total as int);
                }
                room * fer.total as i128 >= FER_PENALTY_MDB as i128 * fer.failed as i128
            },
        };
        if ok {
            return i as u8;
        }
        i = i + 1;
    }
    i as u8
}

/// A scaled SNR difference fits 128 bits.
proof fn lemma_room(room: int, total: int)
    requires
        -0x1_0000_0000 <= room <= 0x1_0000_0000,
        0 <= total <= 0xFFFF_FFFF,
    ensures
        -0x1_0000_0000_0000_0000 <= room * total <= 0x1_0000_0000_0000_0000,
{
    assert(-0x1_0000_0000 * 0x1_0000_0000 <= room * total <= 0x1_0000_0000 * 0x1_0000_0000)
        by (nonlinear_arith)
        requires
            -0x1_0000_0000 <= room <= 0x1_0000_0000,
            0 <= total <= 0xFFFF_FFFF,
    ;
}

/// Frames that a payload needs at a given MTU: at least one.
pub open spec fn frames_needed(payload_len: int, mtu: int) -> int {
    let n = (payload_len + mtu - 1) / mtu;
    if n < 1 {
        1
    } else {
        n
    }
}

/// The route for a payload over a channel of the given quality.
pub open spec fn routed(payload_len: int, q: ChannelQualityReport) -> Route {
    let full = standard_ladder()[recommended(q)].route;
    let need = frames_needed(payload_len, full.profile.per_over_mtu as int) as u32;
    Route {
        window: WindowParams {
            window: if full.window.window <= need {
                full.window.window
            } else {
                need
            },
        },
        ..full
    }
}

/// Choose a route for a payload over a channel of the given quality. The window never
/// exceeds the frames that the payload needs.
pub fn route(payload_len: usize, quality: &ChannelQualityReport) -> (r: Route)
    ensures
        ({
            let full = standard_ladder()[recommended(*quality)].route;
            let need = frames_needed(
                payload_len as int,
                full.profile.per_over_mtu as int,
            ) as u32;
            r == (Route {
                window: WindowParams {
                    window: if full.window.window <= need {
                        full.window.window
                    } else {
                        need
                    },
                },
                ..full
            })
        }),
        r == routed(payload_len as int, *quality),
{
    let rungs = ladder();
    let id: usize = recommended_rung(quality) as usize;
    let mut r: Route = rungs[id].route;
    let mtu: usize = r.profile.per_over_mtu;
    assert(1 <= mtu);
    let need: usize = frames_for(payload_len, mtu);
    let cap: u32 = #[verifier::truncate] (need as u32);
    if cap < r.window.window {
        r.window = WindowParams { window: cap };
    }
    r
}

/// How many frames a payload needs at a given MTU.
pub fn frames_for(payload_len: usize, mtu: usize) -> (n: usize)
    requires
        mtu >= 1,
    ensures
        n == frames_needed(payload_len as int, mtu as int),
        n >= 1,
{
    if payload_len == 0 {
        assert((mtu - 1) / (mtu as int) == 0) by {
            vstd::arithmetic::div_mod::lemma_basic_div(mtu - 1, mtu as int);
        }
        return 1;
    }
    proof {
        vstd::arithmetic::div_mod::lemma_div_plus_one(payload_len - 1, mtu as int);
        assert(mtu + (payload_len - 1) == payload_len + mtu - 1);
        vstd::arithmetic::div_mod::lemma_div_is_ordered_by_denominator(
            payload_len - 1,
            1,
            mtu as int,
        );
        vstd::arithmetic::div_mod::lemma_div_pos_is_pos(payload_len - 1, mtu as int);
        assert((payload_len - 1) / 1 == payload_len - 1);
    }
    (payload_len - 1) / mtu + 1
}

/// Rungs only get slower and more robust down the standard ladder: overs last longer,
/// windows are no wider, payloads are smaller, and less SNR is asked for.
pub proof fn standard_ladder_descends(i: int, j: int)
    requires
        0 <= i < j < NUM_RUNGS,
    ensures
        standard_ladder()[i].route.profile.over_airtime.nanos
            < standard_ladder()[j].route.profile.over_airtime.nanos,
        standard_ladder()[i].route.window.window >= standard_ladder()[j].route.window.window,
        standard_ladder()[i].route.profile.per_over_mtu
            > standard_ladder()[j].route.profile.per_over_mtu,
        standard_ladder()[i].family <= standard_ladder()[j].family,
        standard_ladder()[j].snr_floor_mdb matches Some(low) ==> (
        standard_ladder()[i].snr_floor_mdb matches Some(high) && high > low),
{
}

/// A worse channel never gets a faster rung: neither a lower SNR nor a higher error rate,
/// nor both, however many frames are behind each rate.
pub proof fn worse_channels_get_more_robust_rungs(
    better: ChannelQualityReport,
    worse: ChannelQualityReport,
)
    requires
        better.snr_mdb is Some,
        worse.snr_mdb is Some,
        worse.snr_mdb->0 <= better.snr_mdb->0,
        worse.errors.no_lower_than(better.errors),
    ensures
        recommended(worse) >= recommended(better),
{
    lemma_first_supported(
        standard_ladder(),
        better.snr_mdb->0 as int,
        better.errors,
        worse.snr_mdb->0 as int,
        worse.errors,
        0,
    );
}

proof fn lemma_first_supported(
    rungs: Seq<Rung>,
    snr: int,
    fer: FrameErrorRate,
    low: int,
    bad: FrameErrorRate,
    from: int,
)
    requires
        low <= snr,
        bad.no_lower_than(fer),
        from < rungs.len(),
    ensures
        first_supported(rungs, low, bad, from) >= first_supported(rungs, snr, fer, from),
        first_supported(rungs, low, bad, from) >= from,
    decreases rungs.len() - from,
{
    if from < rungs.len() - 1 {
        lemma_first_supported(rungs, snr, fer, low, bad, from + 1);
        if supports(rungs[from], low, bad) && rungs[from].snr_floor_mdb is Some {
            lemma_margin(
                snr - rungs[from].snr_floor_mdb->0,
                fer,
                low - rungs[from].snr_floor_mdb->0,
                bad,
            );
        }
    }
}

/// A margin that outweighs an error rate, and any larger one, outweighs any lower rate.
proof fn lemma_margin(wide: int, fer: FrameErrorRate, narrow: int, bad: FrameErrorRate)
    requires
        narrow <= wide,
        bad.no_lower_than(fer),
        if bad.total == 0 {
            narrow >= 0
        } else {
            narrow * bad.total >= FER_PENALTY_MDB * bad.failed
        },
    ensures
        if fer.total == 0 {
            wide >= 0
        } else {
            wide * fer.total >= FER_PENALTY_MDB * fer.failed
        },
{
    let (f, t) = (fer.failed as int, fer.total as int);
    let (g, u) = (bad.failed as int, bad.total as int);
    if u > 0 {
        assert(narrow >= 0) by (nonlinear_arith)
            requires
                narrow * u >= 40_000 * g,
                g >= 0,
                u > 0,
        ;
        if t > 0 {
            assert(narrow * t >= 40_000 * f) by (nonlinear_arith)
                requires
                    narrow * u >= 40_000 * g,
                    g * t >= f * u,
                    u > 0,
                    t > 0,
            ;
        }
    }
    if t > 0 {
        assert(wide * t >= narrow * t) by (nonlinear_arith)
            requires
                narrow <= wide,
                t > 0,
        ;
        if u == 0 {
            assert(narrow * t >= 0) by (nonlinear_arith)
                requires
                    narrow >= 0,
                    t > 0,
            ;
        }
    }
}

/// Without a measurement adaptation holds the rung.
pub proof fn adaptation_holds_without_a_measurement(
    rungs: Seq<Rung>,
    current: u8,
    fer: FrameErrorRate,
    samples: u32,
)
    requires
        samples < FER_MIN_SAMPLES,
    ensures
        adapted(rungs, current, None, None, fer, samples) == held(rungs, current),
{
}

/// Moving up takes a smoothed SNR that clears the margin on a faster rung, and a credibly
/// low error rate.
pub proof fn upshift_is_gated(
    rungs: Seq<Rung>,
    current: u8,
    snr_raw: Option<i32>,
    snr_smoothed: Option<i32>,
    fer: FrameErrorRate,
    samples: u32,
)
    requires
        ladder_wf(rungs),
        adapted(rungs, current, snr_raw, snr_smoothed, fer, samples) < held(rungs, current),
    ensures
        confirmed(fer, samples),
        snr_smoothed is Some,
        exists|i: int|
            0 <= i < held(rungs, current) && (#[trigger] rungs[i]).available && clears(
                rungs[i],
                snr_smoothed->0 as int,
                ADAPT_UPSHIFT_MARGIN_MDB as int,
            ),
{
    let cur = held(rungs, current);
    lemma_base(rungs);
    if cur < base_of(rungs) {
        lemma_next(rungs, cur + 1);
    }
    let up = fastest_cleared(rungs, snr_smoothed->0 as int, ADAPT_UPSHIFT_MARGIN_MDB as int, 0);
    lemma_fastest(rungs, snr_smoothed->0 as int, ADAPT_UPSHIFT_MARGIN_MDB as int, 0);
    assert(rungs[up].available);
}

/// On the standard ladder one decision moves the link up by at most one family.
pub proof fn upshift_crosses_one_family(
    current: u8,
    snr_raw: Option<i32>,
    snr_smoothed: Option<i32>,
    fer: FrameErrorRate,
    samples: u32,
)
    ensures
        ({
            let rungs = standard_ladder();
            let to = adapted(rungs, current, snr_raw, snr_smoothed, fer, samples);
            rungs[to].family + 1 >= rungs[held(rungs, current)].family
        }),
{
    let rungs = standard_ladder();
    let cur = held(rungs, current);
    assert(rungs[0].available);
    assert(ladder_wf(rungs));
    adaptation_chooses_available_rungs(rungs, current, snr_raw, snr_smoothed, fer, samples);
    lemma_base(rungs);
    let to = adapted(rungs, current, snr_raw, snr_smoothed, fer, samples);
    if cur < base_of(rungs) {
        lemma_next(rungs, cur + 1);
    }
    if to < cur {
        let up = fastest_cleared(rungs, snr_smoothed->0 as int, ADAPT_UPSHIFT_MARGIN_MDB as int, 0);
        lemma_fastest(rungs, snr_smoothed->0 as int, ADAPT_UPSHIFT_MARGIN_MDB as int, 0);
        if rungs[up].family != rungs[cur].family {
            lemma_last_faster(rungs, rungs[cur].family, rungs.len() as int);
            assert(rungs[2].available && rungs[2].family == 0);
            assert(rungs[3].available && rungs[3].family == 1);
        }
    }
}

/// A falling channel moves the link down at once: where the raw SNR supports only a more
/// robust rung than the current one, that rung is chosen, whatever else was measured.
pub proof fn downshift_is_immediate(
    rungs: Seq<Rung>,
    current: u8,
    snr_raw: i32,
    snr_smoothed: Option<i32>,
    fer: FrameErrorRate,
    samples: u32,
)
    requires
        ladder_wf(rungs),
        supported(rungs, snr_raw as int) > held(rungs, current),
    ensures
        adapted(rungs, current, Some(snr_raw), snr_smoothed, fer, samples) == supported(
            rungs,
            snr_raw as int,
        ),
{
}

/// The rung can be run at this SNR, with so much of a margin: it is available, and either
/// asks for no SNR or for no more than this.
pub open spec fn suits(r: Rung, snr_mdb: int, margin_mdb: int) -> bool {
    r.available && (r.snr_floor_mdb is None || snr_mdb - margin_mdb >= r.snr_floor_mdb->0)
}

/// Some available rung is more robust.
pub open spec fn has_lower(rungs: Seq<Rung>, cur: int) -> bool {
    exists|j: int| cur < j < rungs.len() && (#[trigger] rungs[j]).available
}

/// No rung down to `cur` can be run at this SNR, and there is a more robust one.
pub open spec fn must_fall(rungs: Seq<Rung>, cur: int, snr_raw: Option<i32>) -> bool {
    &&& snr_raw is Some
    &&& forall|j: int| 0 <= j <= cur ==> !suits(#[trigger] rungs[j], snr_raw->0 as int, 0)
    &&& has_lower(rungs, cur)
}

/// `to` is the rung that a measurement moves a link to, for every one of its outcomes.
/// - An SNR that suits neither the current rung nor a faster one takes the link down to
///   the first rung that it suits, or to the last available one.
/// - Else, of at least four frames, a fifth or more failed: one available rung down.
/// - Else, of at least four frames, a twentieth or fewer failed, and the smoothed SNR
///   suits a faster rung with 3 dB to spare: up to the fastest such rung, if it is of the
///   same family, and otherwise to the most robust rung of the faster families.
/// - Else the link stays where it is.
pub open spec fn is_moved_to(
    rungs: Seq<Rung>,
    current: u8,
    snr_raw: Option<i32>,
    snr_smoothed: Option<i32>,
    fer: FrameErrorRate,
    samples: u32,
    to: int,
) -> bool {
    let cur = if current < rungs.len() {
        current as int
    } else {
        rungs.len() - 1
    };
    let down = must_fall(rungs, cur, snr_raw);
    let failing = samples >= 4 && fer.total > 0 && 5 * fer.failed >= fer.total;
    let clean = samples >= 4 && (fer.total == 0 || 20 * fer.failed <= fer.total);
    &&& down ==> {
        &&& cur < to < rungs.len()
        &&& rungs[to].available
        &&& suits(rungs[to], snr_raw->0 as int, 0) ==> forall|j: int|
            cur < j < to ==> !suits(#[trigger] rungs[j], snr_raw->0 as int, 0)
        &&& !suits(rungs[to], snr_raw->0 as int, 0) ==> !has_lower(rungs, to) && forall|
            j: int,
        |
            0 <= j < rungs.len() ==> !suits(#[trigger] rungs[j], snr_raw->0 as int, 0)
    }
    &&& !down && failing && has_lower(rungs, cur) ==> {
        &&& cur < to < rungs.len()
        &&& rungs[to].available
        &&& forall|j: int| cur < j < to ==> !(#[trigger] rungs[j]).available
    }
    &&& !down && !(failing && has_lower(rungs, cur)) ==> {
        &&& to <= cur
        &&& !clean || snr_smoothed is None ==> to == cur
        &&& (forall|j: int|
            0 <= j < cur ==> !suits(
                #[trigger] rungs[j],
                snr_smoothed->0 as int,
                3_000,
            )) ==> to == cur
        &&& clean && snr_smoothed is Some ==> forall|up: int|
            0 <= up < cur && suits(#[trigger] rungs[up], snr_smoothed->0 as int, 3_000) && (
            forall|j: int|
                0 <= j < up ==> !suits(
                    #[trigger] rungs[j],
                    snr_smoothed->0 as int,
                    3_000,
                )) ==> {
                &&& rungs[up].family == rungs[cur].family ==> to == up
                &&& rungs[up].family != rungs[cur].family ==> {
                    &&& 0 <= to < cur
                    &&& rungs[to].available
                    &&& rungs[to].family < rungs[cur].family
                    &&& forall|j: int|
                        to < j < rungs.len() && (#[trigger] rungs[j]).available
                            ==> rungs[j].family >= rungs[cur].family
                }
            }
    }
}

/// A measurement moves a link as it should.
pub proof fn adaptation_moves_as_measured(
    rungs: Seq<Rung>,
    current: u8,
    snr_raw: Option<i32>,
    snr_smoothed: Option<i32>,
    fer: FrameErrorRate,
    samples: u32,
)
    requires
        ladder_wf(rungs),
    ensures
        is_moved_to(
            rungs,
            current,
            snr_raw,
            snr_smoothed,
            fer,
            samples,
            adapted(rungs, current, snr_raw, snr_smoothed, fer, samples),
        ),
{
    let cur = held(rungs, current);
    let to = adapted(rungs, current, snr_raw, snr_smoothed, fer, samples);
    lemma_base(rungs);
    let base = base_of(rungs);
    assert(has_lower(rungs, cur) <==> cur < base) by {
        if cur < base {
            assert(rungs[base].available);
        }
    }
    if snr_raw is Some {
        let x = snr_raw->0 as int;
        lemma_fastest(rungs, x, 0, 0);
        let i = fastest_cleared(rungs, x, 0, 0);
        assert forall|j: int| 0 <= j < i implies !suits(#[trigger] rungs[j], x, 0) by {}
        if i < rungs.len() {
            assert(suits(rungs[i], x, 0));
        }
        assert(must_fall(rungs, cur, snr_raw) <==> supported(rungs, x) > cur);
        if supported(rungs, x) > cur && i == rungs.len() {
            assert(!has_lower(rungs, base));
        }
    }
    assert(failing(fer, samples) <==> samples >= 4 && fer.total > 0 && 5 * fer.failed
        >= fer.total);
    assert(confirmed(fer, samples) <==> samples >= 4 && (fer.total == 0 || 20 * fer.failed
        <= fer.total));
    if cur < base {
        lemma_next(rungs, cur + 1);
        assert(rungs[base].available);
    }
    if snr_smoothed is Some {
        let y = snr_smoothed->0 as int;
        lemma_fastest(rungs, y, ADAPT_UPSHIFT_MARGIN_MDB as int, 0);
        lemma_last_faster(rungs, rungs[cur].family, rungs.len() as int);
        let u = fastest_cleared(rungs, y, ADAPT_UPSHIFT_MARGIN_MDB as int, 0);
        assert forall|j: int| 0 <= j < u implies !suits(#[trigger] rungs[j], y, 3_000) by {}
        if u < rungs.len() {
            assert(suits(rungs[u], y, 3_000));
            if u < cur && rungs[u].family != rungs[cur].family {
                assert(rungs[u].available && rungs[u].family < rungs[cur].family);
            }
        }
    }
}

/// The connect-time choice: the fastest rung of the standard ladder whose SNR floor lies
/// below the measured SNR by at least the penalty for failures, which is 40 dB at a rate
/// of one; the last rung where none does; and the second without a measurement.
pub proof fn recommendation_is_the_fastest_supported_rung(q: ChannelQualityReport)
    ensures
        ({
            let to = recommended(q);
            let rungs = standard_ladder();
            let reach = |j: int|
                rungs[j].snr_floor_mdb matches Some(floor) ==> if q.errors.total == 0 {
                    q.snr_mdb->0 >= floor
                } else {
                    q.snr_mdb->0 * q.errors.total >= floor * q.errors.total + 40_000
                        * q.errors.failed
                };
            &&& 0 <= to < 5
            &&& q.snr_mdb is None ==> to == 1
            &&& q.snr_mdb is Some ==> {
                &&& to < 4 ==> reach(to)
                &&& forall|j: int| 0 <= j < to ==> !#[trigger] reach(j)
            }
        }),
{
    if q.snr_mdb is Some {
        lemma_first_is_supported(standard_ladder(), q.snr_mdb->0 as int, q.errors, 0);
        assert forall|floor: int|
            #![trigger (q.snr_mdb->0 - floor) * q.errors.total]
            (q.snr_mdb->0 - floor) * q.errors.total == q.snr_mdb->0 * q.errors.total - floor
                * q.errors.total by {
            let x = q.snr_mdb->0 as int;
            let t = q.errors.total as int;
            assert((x - floor) * t == x * t - floor * t) by (nonlinear_arith);
        }
    }
}

/// The first supported rung is supported, and none before it is.
proof fn lemma_first_is_supported(rungs: Seq<Rung>, snr: int, fer: FrameErrorRate, from: int)
    requires
        0 <= from < rungs.len(),
    ensures
        from <= first_supported(rungs, snr, fer, from) < rungs.len(),
        first_supported(rungs, snr, fer, from) < rungs.len() - 1 ==> supports(
            rungs[first_supported(rungs, snr, fer, from)],
            snr,
            fer,
        ),
        forall|j: int|
            from <= j < first_supported(rungs, snr, fer, from) ==> !supports(
                #[trigger] rungs[j],
                snr,
                fer,
            ),
    decreases rungs.len() - from,
{
    if from < rungs.len() - 1 && !supports(rungs[from], snr, fer) {
        lemma_first_is_supported(rungs, snr, fer, from + 1);
    }
}

/// The standard ladder, rung by rung: SNR floors of 18, 8, 0 and -12 dB and none; overs of
/// 0.3, 0.5, 0.8, 3 and 30 s with 1024, 512, 256, 64 and 16 bytes; windows of 8, 6 and 4 on
/// the three fast rungs, which repeat selectively, and of one on the two floors, which
/// repeat whole messages; and three families.
pub proof fn standard_ladder_is_the_documented_one()
    ensures
        standard_ladder().len() == 5,
        standard_ladder().map_values(|r: Rung| r.snr_floor_mdb) == seq![
            Some(18_000i32),
            Some(8_000i32),
            Some(0i32),
            Some(-12_000i32 as i32),
            None::<i32>,
        ],
        standard_ladder().map_values(|r: Rung| r.route.profile.over_airtime.nanos as int) == seq![
            300_000_000int,
            500_000_000int,
            800_000_000int,
            3_000_000_000int,
            30_000_000_000int,
        ],
        standard_ladder().map_values(|r: Rung| r.route.profile.per_over_mtu as int) == seq![
            1024int,
            512int,
            256int,
            64int,
            16int,
        ],
        standard_ladder().map_values(|r: Rung| r.route.window.window as int) == seq![
            8int,
            6int,
            4int,
            1int,
            1int,
        ],
        standard_ladder().map_values(|r: Rung| r.family as int) == seq![0int, 0int, 0int, 1int, 2int],
        forall|i: int|
            0 <= i < 5 ==> {
                &&& (#[trigger] standard_ladder()[i]).available
                &&& standard_ladder()[i].route.strategy is SelectiveRepeat <==> i < 3
                &&& standard_ladder()[i].route.mode is MainAuto <==> i < 3
                &&& standard_ladder()[i].route.mode is Floor <==> i == 3
                &&& standard_ladder()[i].route.mode is FloorCrowdedBand <==> i == 4
            },
{
}

/// A payload needs the fewest frames that hold it, and at least one.
pub proof fn frames_hold_the_payload(payload_len: int, mtu: int)
    requires
        payload_len >= 0,
        mtu >= 1,
    ensures
        frames_needed(payload_len, mtu) >= 1,
        payload_len <= frames_needed(payload_len, mtu) * mtu,
        payload_len > 0 ==> (frames_needed(payload_len, mtu) - 1) * mtu < payload_len,
        payload_len == 0 ==> frames_needed(payload_len, mtu) == 1,
{
    let t = payload_len + mtu - 1;
    let q = t / mtu;
    vstd::arithmetic::div_mod::lemma_fundamental_div_mod(t, mtu);
    vstd::arithmetic::div_mod::lemma_mod_bound(t, mtu);
    vstd::arithmetic::mul::lemma_mul_is_commutative(q, mtu);
    vstd::arithmetic::mul::lemma_mul_is_distributive_sub_other_way(mtu, q, 1);
    if payload_len == 0 {
        vstd::arithmetic::div_mod::lemma_basic_div(t, mtu);
    } else {
        assert(q >= 1) by (nonlinear_arith)
            requires
                q * mtu > t - mtu,
                t >= mtu,
                mtu >= 1,
        ;
    }
}

/// The standard ladder with one profile: every rung has that profile, and the one before the
/// last is the only available one; all else is as on the standard ladder.
pub proof fn uniform_ladder_offers_the_wide_floor(profile: ModeProfile, i: int)
    requires
        0 <= i < 5,
    ensures
        ({
            let u = uniform_ladder(profile);
            &&& u.len() == 5
            &&& u[i].available <==> i == 3
            &&& u[i].route.profile == profile
            &&& u[i].route.mode == standard_ladder()[i].route.mode
            &&& u[i].route.strategy == standard_ladder()[i].route.strategy
            &&& u[i].route.window == standard_ladder()[i].route.window
            &&& u[i].snr_floor_mdb == standard_ladder()[i].snr_floor_mdb
            &&& u[i].family == standard_ladder()[i].family
        }),
{
}

/// An id past a ladder means its last rung.
pub proof fn ids_past_the_ladder_mean_its_end(rungs: Seq<Rung>, id: u8)
    requires
        rungs.len() > 0,
    ensures
        id < rungs.len() ==> held(rungs, id) == id,
        id >= rungs.len() ==> held(rungs, id) == rungs.len() - 1,
{
}

/// The route for a payload is that of the rung recommended for the channel, with a window that
/// is no wider than the payload needs and no narrower than it could be.
pub proof fn route_is_that_of_the_recommended_rung(payload_len: int, q: ChannelQualityReport)
    requires
        0 <= payload_len <= u32::MAX,
    ensures
        ({
            let r = routed(payload_len, q);
            let full = standard_ladder()[recommended(q)].route;
            let need = frames_needed(payload_len, full.profile.per_over_mtu as int);
            &&& r.mode == full.mode
            &&& r.strategy == full.strategy
            &&& r.profile == full.profile
            &&& r.window.window <= need
            &&& r.window.window <= full.window.window
            &&& r.window.window == need || r.window.window == full.window.window
        }),
{
    let full = standard_ladder()[recommended(q)].route;
    let mtu = full.profile.per_over_mtu as int;
    recommendation_is_the_fastest_supported_rung(q);
    assert(mtu >= 16);
    frames_hold_the_payload(payload_len, mtu);
    let need = frames_needed(payload_len, mtu);
    assert(need <= payload_len || need == 1) by (nonlinear_arith)
        requires
            payload_len == 0 ==> need == 1,
            payload_len > 0 ==> (need - 1) * mtu < payload_len,
            mtu >= 16,
            need >= 1,
            payload_len >= 0,
    ;
}

} // verus!
