//! Sharing one radio among several waveforms: which one transmits an over, and what a
//! received window amounts to.
use crate::modes::{ModeFamily, ModeHint, ModeTable, ResolvedMode};
use crate::quality::{OverOutcome, QualityModel, QualitySnapshot};
use crate::transport::RxFrame;
use crate::wideband_lowdensity::SyncDecodeOutcome;
use vstd::prelude::*;

verus! {

/// One successfully demodulated frame.
#[derive(Debug, Clone, PartialEq)]
pub struct DecodedFrame {
    /// Payload bytes.
    pub payload: Vec<u8>,
    /// Mode family that the frame was demodulated under.
    pub family: ModeFamily,
    /// SNR in a 2500 Hz reference bandwidth, in thousandths of a decibel.
    pub snr_mdb: Option<i32>,
}

/// Outcome of one waveform's scan of a received window. A frame that was detected but did
/// not decode is an error that counts; silence is not.
#[derive(Debug, Clone, PartialEq)]
pub enum DecodeScan {
    /// The window held only noise.
    NoSignal,
    /// A frame was detected but did not decode.
    Detected {
        /// SNR measured on it.
        snr_mdb: Option<i32>,
    },
    /// A frame decoded cleanly.
    Frame(DecodedFrame),
}

/// What a scan by the wide-band floor amounts to.
pub fn floor_scan(outcome: SyncDecodeOutcome) -> (s: DecodeScan)
    ensures
        s == match outcome {
            SyncDecodeOutcome::NoSignal => DecodeScan::NoSignal,
            SyncDecodeOutcome::DetectedDecodeFailed { snr_mdb, .. } => DecodeScan::Detected {
                snr_mdb,
            },
            SyncDecodeOutcome::Frame { payload, snr_mdb, .. } => DecodeScan::Frame(
                DecodedFrame { payload, family: ModeFamily::RobustnessFloor, snr_mdb },
            ),
        },
{
    match outcome {
        SyncDecodeOutcome::NoSignal => DecodeScan::NoSignal,
        SyncDecodeOutcome::DetectedDecodeFailed { snr_mdb, .. } => DecodeScan::Detected {
            snr_mdb,
        },
        SyncDecodeOutcome::Frame { payload, snr_mdb, .. } => DecodeScan::Frame(
            DecodedFrame { payload, family: ModeFamily::RobustnessFloor, snr_mdb },
        ),
    }
}

/// A waveform as the registry knows it.
#[derive(Debug, Clone, Copy)]
pub struct Registered {
    /// The mode that it serves, where it serves one of the catalogue.
    pub mode_name: Option<&'static str>,
    /// The family that it serves.
    pub family: ModeFamily,
}

/// The first waveform from `from` on that serves a mode by name, or the length.
pub open spec fn serving_mode(registry: Seq<Registered>, name: Seq<char>, from: int) -> int
    decreases registry.len() - from,
{
    if from >= registry.len() {
        registry.len() as int
    } else if registry[from].mode_name matches Some(n) && n@ == name {
        from
    } else {
        serving_mode(registry, name, from + 1)
    }
}

/// The first waveform from `from` on that serves a family, or the length.
pub open spec fn serving_family(registry: Seq<Registered>, family: ModeFamily, from: int) -> int
    decreases registry.len() - from,
{
    if from >= registry.len() {
        registry.len() as int
    } else if registry[from].family == family {
        from
    } else {
        serving_family(registry, family, from + 1)
    }
}

/// The waveform that transmits under a mode: the first that serves it by name, else the
/// first of its family. An over that no waveform of the family serves is not
/// transmitted.
pub open spec fn transmitting(registry: Seq<Registered>, mode: ResolvedMode) -> Option<int> {
    let exact = serving_mode(registry, mode.short_name@, 0);
    let kin = serving_family(registry, mode.family, 0);
    if exact < registry.len() {
        Some(exact)
    } else if kin < registry.len() {
        Some(kin)
    } else {
        None
    }
}

/// Choose the waveform that transmits an over. A wrong family is never substituted: the
/// frame would claim one mode while the air carries another.
pub fn route_tx(registry: &Vec<Registered>, mode: ResolvedMode) -> (i: Option<usize>)
    ensures
        match i {
            Some(n) => transmitting(registry@, mode) == Some(n as int) && n < registry@.len(),
            None => transmitting(registry@, mode) is None,
        },
{
    let mut i: usize = 0;
    while i < registry.len()
        invariant
            i <= registry@.len(),
            serving_mode(registry@, mode.short_name@, 0) == serving_mode(
                registry@,
                mode.short_name@,
                i as int,
            ),
        decreases registry.len() - i,
    {
        if let Some(name) = registry[i].mode_name {
            if crate::text::same_text(name, mode.short_name) {
                return Some(i);
            }
        }
        i = i + 1;
    }
    let mut k: usize = 0;
    while k < registry.len()
        invariant
            k <= registry@.len(),
            serving_mode(registry@, mode.short_name@, 0) == registry@.len(),
            serving_family(registry@, mode.family, 0) == serving_family(
                registry@,
                mode.family,
                k as int,
            ),
        decreases registry.len() - k,
    {
        if registry[k].family == mode.family {
            return Some(k);
        }
        k = k + 1;
    }
    None
}

/// No over goes out under another family than the one asked for, unless a waveform claims
/// the very mode by name.
pub proof fn transmission_keeps_the_family(registry: Seq<Registered>, mode: ResolvedMode)
    requires
        forall|i: int|
            0 <= i < registry.len() ==> ((#[trigger] registry[i]).mode_name matches Some(n) && n@
                == mode.short_name@ ==> registry[i].family == mode.family),
    ensures
        transmitting(registry, mode) matches Some(i) ==> 0 <= i < registry.len()
            && registry[i].family == mode.family,
{
    lemma_serving(registry, mode, 0);
}

proof fn lemma_serving(registry: Seq<Registered>, mode: ResolvedMode, from: int)
    requires
        0 <= from <= registry.len(),
    ensures
        ({
            let i = serving_mode(registry, mode.short_name@, from);
            &&& from <= i <= registry.len()
            &&& i < registry.len() ==> (registry[i].mode_name matches Some(n) && n@
                == mode.short_name@)
        }),
        ({
            let i = serving_family(registry, mode.family, from);
            &&& from <= i <= registry.len()
            &&& i < registry.len() ==> registry[i].family == mode.family
        }),
    decreases registry.len() - from,
{
    if from < registry.len() {
        lemma_serving(registry, mode, from + 1);
    }
}

/// The mode hint that stands for a family.
pub open spec fn family_hint(family: ModeFamily) -> ModeHint {
    match family {
        ModeFamily::OfdmMain => ModeHint::MainAuto,
        ModeFamily::RobustnessFloor => ModeHint::Floor,
    }
}

/// The mode hint that stands for a family.
pub fn hint_for_family(family: ModeFamily) -> (h: ModeHint)
    ensures
        h == family_hint(family),
{
    match family {
        ModeFamily::OfdmMain => ModeHint::MainAuto,
        ModeFamily::RobustnessFloor => ModeHint::Floor,
    }
}

/// The mode that a decoded frame is labelled with: the waveform's own where the catalogue
/// holds it, else the one that stands for the frame's family.
pub open spec fn label(r: Registered, family: ModeFamily) -> Option<ResolvedMode> {
    let own = match r.mode_name {
        Some(name) => crate::modes::named(crate::modes::catalogue(), name@),
        None => None,
    };
    if own is Some {
        own
    } else {
        crate::modes::named(
            crate::modes::catalogue(),
            crate::modes::wanted_name(family_hint(family), None),
        )
    }
}

/// The mode that a decoded frame is labelled with.
pub fn label_rx(r: &Registered, family: ModeFamily) -> (m: ResolvedMode)
    ensures
        Some(m) == label(*r, family),
{
    let modes = ModeTable::default();
    if let Some(name) = r.mode_name {
        if let Some(d) = modes.descriptor(name) {
            return *d;
        }
    }
    proof {
        crate::modes::catalogue_resolves_every_hint(family_hint(family), None);
    }
    modes.resolve(hint_for_family(family), None)
}

/// The first frame that was detected and did not decode, after one more scan.
pub open spec fn noting(detected: Option<Option<i32>>, scan: DecodeScan) -> Option<Option<i32>> {
    match scan {
        DecodeScan::Detected { snr_mdb } => if detected is Some {
            detected
        } else {
            Some(snr_mdb)
        },
        _ => detected,
    }
}

/// The first frame that was detected and did not decode, after some scans.
pub open spec fn noted(scans: Seq<DecodeScan>) -> Option<Option<i32>>
    decreases scans.len(),
{
    if scans.len() == 0 {
        None
    } else {
        noting(noted(scans.drop_last()), scans.last())
    }
}

/// What is known of the channel after a window in which nothing decoded.
pub open spec fn closed_window(q: QualityModel, detected: Option<Option<i32>>) -> QualityModel {
    match detected {
        Some(snr_mdb) => q.heard(OverOutcome { failed: true, snr_mdb }),
        None => q.silent(),
    }
}

/// What is known of the channel after a scan.
pub open spec fn scanned(q: QualityModel, scan: DecodeScan) -> QualityModel {
    match scan {
        DecodeScan::Frame(f) => q.heard(OverOutcome { failed: false, snr_mdb: f.snr_mdb }),
        _ => q,
    }
}

/// What the scans of one window amount to so far.
pub struct RxWindow {
    /// The first frame that was detected but did not decode, with its SNR.
    pub detected: Option<Option<i32>>,
}

impl RxWindow {
    /// A window before any scan.
    pub fn new() -> (w: Self)
        ensures
            w.detected is None,
    {
        RxWindow { detected: None }
    }

    /// Take the scan of the next waveform. A clean decode ends the window: it is recorded
    /// and labelled for delivery. Of frames that did not decode, the first is kept in
    /// mind.
    pub fn observe(
        &mut self,
        scan: DecodeScan,
        by: &Registered,
        quality: &mut QualitySnapshot,
    ) -> (rx: Option<RxFrame>)
        requires
            old(quality)@.wf(),
        ensures
            final(quality)@.wf(),
            match scan {
                DecodeScan::Frame(f) => {
                    &&& rx matches Some(r) && r.payload == f.payload && Some(r.mode) == label(
                        *by,
                        f.family,
                    ) && r.snr_mdb == f.snr_mdb && r.decode_ok
                    &&& final(quality)@ == old(quality)@.heard(
                        OverOutcome { failed: false, snr_mdb: f.snr_mdb },
                    )
                    &&& final(self).detected == old(self).detected
                },
                DecodeScan::Detected { snr_mdb } => {
                    &&& rx is None
                    &&& final(quality)@ == old(quality)@
                    &&& final(self).detected == (if old(self).detected is Some {
                        old(self).detected
                    } else {
                        Some(snr_mdb)
                    })
                },
                DecodeScan::NoSignal => {
                    &&& rx is None
                    &&& final(quality)@ == old(quality)@
                    &&& final(self).detected == old(self).detected
                },
            },
            final(self).detected == noting(old(self).detected, scan),
            final(quality)@ == scanned(old(quality)@, scan),
            rx is Some <==> scan is Frame,
    {
        match scan {
            DecodeScan::Frame(f) => {
                quality.record_over(false, f.snr_mdb);
                let mode = label_rx(by, f.family);
                Some(RxFrame::new(f.payload, mode, f.snr_mdb, true))
            },
            DecodeScan::Detected { snr_mdb } => {
                if self.detected.is_none() {
                    self.detected = Some(snr_mdb);
                }
                None
            },
            DecodeScan::NoSignal => None,
        }
    }

    /// Close a window in which nothing decoded: a frame detected counts as one failed
    /// over, and silence only ages the report.
    pub fn close(self, quality: &mut QualitySnapshot)
        requires
            old(quality)@.wf(),
        ensures
            final(quality)@.wf(),
            final(quality)@ == (match self.detected {
                Some(snr_mdb) => old(quality)@.heard(OverOutcome { failed: true, snr_mdb }),
                None => old(quality)@.silent(),
            }),
            final(quality)@ == closed_window(old(quality)@, self.detected),
    {
        match self.detected {
            Some(snr) => quality.record_over(true, snr),
            None => quality.record_no_signal(),
        }
    }
}

/// The waveform claims the mode by name.
pub open spec fn claims(r: Registered, mode: ResolvedMode) -> bool {
    r.mode_name matches Some(n) && n@ == mode.short_name@
}

/// Which waveform transmits: the first that claims the mode by name; where none does, the
/// first of its family; and where there is none of those, no waveform at all.
pub proof fn first_that_serves_transmits(registry: Seq<Registered>, mode: ResolvedMode)
    ensures
        match transmitting(registry, mode) {
            Some(i) => {
                &&& 0 <= i < registry.len()
                &&& claims(registry[i], mode) || registry[i].family == mode.family
                &&& claims(registry[i], mode) ==> forall|j: int|
                    0 <= j < i ==> !claims(#[trigger] registry[j], mode)
                &&& !claims(registry[i], mode) ==> (forall|j: int|
                    0 <= j < registry.len() ==> !claims(#[trigger] registry[j], mode)) && (forall|
                    j: int,
                |
                    0 <= j < i ==> (#[trigger] registry[j]).family != mode.family)
            },
            None => forall|j: int|
                0 <= j < registry.len() ==> !claims(#[trigger] registry[j], mode)
                    && registry[j].family != mode.family,
        },
{
    lemma_serving(registry, mode, 0);
    lemma_none_before(registry, mode, 0);
}

proof fn lemma_none_before(registry: Seq<Registered>, mode: ResolvedMode, from: int)
    requires
        0 <= from <= registry.len(),
    ensures
        forall|j: int|
            from <= j < serving_mode(registry, mode.short_name@, from) ==> !claims(
                #[trigger] registry[j],
                mode,
            ),
        forall|j: int|
            from <= j < serving_family(registry, mode.family, from) ==> (
            #[trigger] registry[j]).family != mode.family,
    decreases registry.len() - from,
{
    if from < registry.len() {
        lemma_none_before(registry, mode, from + 1);
    }
}

/// What a received frame is labelled with. A waveform of a catalogue mode labels it with
/// that mode; any other frame is labelled by its family: a floor frame with the wide-band
/// floor, a main one with the middle main mode.
pub proof fn frames_are_labelled_as_received(r: Registered, family: ModeFamily)
    ensures
        ({
            let l = label(r, family);
            let known = r.mode_name matches Some(name) && exists|i: int|
                0 <= i < crate::modes::catalogue().len() && (
                #[trigger] crate::modes::catalogue()[i]).short_name@ == name@;
            &&& l is Some
            &&& known ==> l->0.short_name@ == r.mode_name->0@
            &&& !known && family == ModeFamily::RobustnessFloor ==> l->0.short_name@
                == "floor-wblo"@ && l->0.wire_id == 3
            &&& !known && family == ModeFamily::OfdmMain ==> l->0.short_name@ == "ofdm-mid"@
                && l->0.wire_id == 1
        }),
{
    crate::modes::hints_resolve_by_snr(None);
    crate::modes::catalogue_resolves_every_hint(family_hint(family), None);
    match r.mode_name {
        Some(name) => {
            crate::modes::lookup_finds_the_first_of_a_name(crate::modes::catalogue(), name@);
        },
        None => {},
    }
}

/// Of the frames of a window that were detected and did not decode the first counts, with the
/// SNR that was measured on it; where there was none, nothing counts.
pub proof fn first_detected_frame_counts(scans: Seq<DecodeScan>, i: int)
    ensures
        noted(scans) is None <==> forall|j: int|
            0 <= j < scans.len() ==> !((#[trigger] scans[j]) is Detected),
        0 <= i < scans.len() && scans[i] is Detected && (forall|j: int|
            0 <= j < i ==> !((#[trigger] scans[j]) is Detected)) ==> noted(scans) == Some(
            scans[i]->Detected_snr_mdb,
        ),
    decreases scans.len(),
{
    if scans.len() > 0 {
        let d = scans.drop_last();
        first_detected_frame_counts(d, i);
        assert(forall|j: int| 0 <= j < d.len() ==> d[j] == scans[j]);
        assert(scans.last() == scans[scans.len() - 1]);
        if noted(d) is None && !(scans.last() is Detected) {
            assert forall|j: int| 0 <= j < scans.len() implies !((#[trigger] scans[j]) is Detected) by {
                if j < d.len() {
                    assert(!(d[j] is Detected));
                }
            }
        }
        if noted(scans) is None {
            assert(noted(d) is None);
        }
        if forall|j: int| 0 <= j < scans.len() ==> !((#[trigger] scans[j]) is Detected) {
            assert forall|j: int| 0 <= j < d.len() implies !((#[trigger] d[j]) is Detected) by {
                assert(!(scans[j] is Detected));
            }
        }
        if 0 <= i < d.len() && scans[i] is Detected && (forall|j: int|
            0 <= j < i ==> !((#[trigger] scans[j]) is Detected)) {
            assert forall|j: int| 0 <= j < i implies !((#[trigger] d[j]) is Detected) by {
                assert(!(scans[j] is Detected));
            }
            assert(d[i] is Detected);
        }
        if i == scans.len() - 1 && scans[i] is Detected && (forall|j: int|
            0 <= j < i ==> !((#[trigger] scans[j]) is Detected)) {
            assert forall|j: int| 0 <= j < d.len() implies !((#[trigger] d[j]) is Detected) by {
                assert(!(scans[j] is Detected));
            }
        }
    }
}

/// A window counts as one over at most. A clean frame counts as one over that did not fail,
/// and a frame that did not decode as one that did, each with its SNR; silence counts as no
/// over, and no scan but a clean one counts by itself.
pub proof fn window_counts_as_one_over(
    q: QualityModel,
    detected: Option<Option<i32>>,
    scan: DecodeScan,
)
    requires
        q.wf(),
    ensures
        ({
            let c = closed_window(q, detected);
            let s = scanned(q, scan);
            &&& detected is None ==> c.windows_since_rx > 0 && c.report().errors.failed
                <= q.report().errors.failed
            &&& detected is Some ==> c.recent.last().failed && c.recent.last().snr_mdb == detected->0
                && c.windows_since_rx == 0
            &&& scan is Frame ==> !s.recent.last().failed && s.recent.last().snr_mdb
                == scan->Frame_0.snr_mdb && s.windows_since_rx == 0
            &&& !(scan is Frame) ==> s == q
        }),
{
    crate::quality::over_shows_in_the_next_report(
        q,
        OverOutcome { failed: true, snr_mdb: detected->0 },
    );
    crate::quality::over_shows_in_the_next_report(
        q,
        OverOutcome { failed: false, snr_mdb: scan->Frame_0.snr_mdb },
    );
}

} // verus!
