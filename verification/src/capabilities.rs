//! What each registered mode can do, as it is published to the link.
//!
//! The frame-error knee of a mode is measured and kept here. The airtime of a frame is
//! measured by encoding one, so that it cannot drift from the waveform.
use crate::modes::{ModeCapability, ModeDescriptor, ModeTable};
use crate::time::Duration;
use vstd::prelude::*;

verus! {

/// Samples per second of the audio path.
pub const SAMPLE_RATE_HZ: u32 = 48_000;

/// What is known of a mode beforehand.
#[derive(Debug, Clone, Copy)]
pub struct ModeMeta {
    /// The mode.
    pub mode_name: &'static str,
    /// Measured frame-error knee, in thousandths of a decibel.
    pub knee_snr_mdb: i32,
    /// Payload bytes that one frame carries.
    pub per_frame_payload_bytes: u16,
}

/// What is known of the modes.
pub open spec fn mode_meta() -> Seq<ModeMeta> {
    seq![
        ModeMeta { mode_name: "ofdm-wide", knee_snr_mdb: 6_700, per_frame_payload_bytes: 79 },
        ModeMeta { mode_name: "ofdm-mid", knee_snr_mdb: 3_000, per_frame_payload_bytes: 79 },
        ModeMeta {
            mode_name: "ofdm-narrow",
            knee_snr_mdb: -1_200i32 as i32,
            per_frame_payload_bytes: 79,
        },
        ModeMeta { mode_name: "floor-wblo", knee_snr_mdb: 3_400, per_frame_payload_bytes: 58 },
        ModeMeta { mode_name: "floor-nfsk", knee_snr_mdb: 4_800, per_frame_payload_bytes: 12 },
    ]
}

/// What is known of a mode.
pub open spec fn meta_named(all: Seq<ModeMeta>, name: Seq<char>) -> Option<ModeMeta>
    decreases all.len(),
{
    if all.len() == 0 {
        None
    } else if all[0].mode_name@ == name {
        Some(all[0])
    } else {
        meta_named(all.drop_first(), name)
    }
}

/// What is known of the modes.
fn meta_table() -> (t: Vec<ModeMeta>)
    ensures
        t@ == mode_meta(),
{
    let mut t: Vec<ModeMeta> = Vec::new();
    t.push(ModeMeta { mode_name: "ofdm-wide", knee_snr_mdb: 6_700, per_frame_payload_bytes: 79 });
    t.push(ModeMeta { mode_name: "ofdm-mid", knee_snr_mdb: 3_000, per_frame_payload_bytes: 79 });
    t.push(
        ModeMeta { mode_name: "ofdm-narrow", knee_snr_mdb: -1_200, per_frame_payload_bytes: 79 },
    );
    t.push(ModeMeta { mode_name: "floor-wblo", knee_snr_mdb: 3_400, per_frame_payload_bytes: 58 });
    t.push(ModeMeta { mode_name: "floor-nfsk", knee_snr_mdb: 4_800, per_frame_payload_bytes: 12 });
    assert(t@ =~= mode_meta());
    t
}

/// What is known of a mode; nothing, if it is not of the catalogue.
pub fn meta_for(mode_name: &str) -> (m: Option<ModeMeta>)
    ensures
        m == meta_named(mode_meta(), mode_name@),
{
    let all = meta_table();
    let mut i: usize = 0;
    assert(all@.skip(0) =~= all@);
    while i < all.len()
        invariant
            i <= all@.len(),
            all@ == mode_meta(),
            meta_named(all@, mode_name@) == meta_named(all@.skip(i as int), mode_name@),
        decreases all.len() - i,
    {
        if crate::text::same_text(all[i].mode_name, mode_name) {
            return Some(all[i]);
        }
        proof {
            assert(all@.skip(i as int).drop_first() =~= all@.skip(i + 1));
        }
        i = i + 1;
    }
    None
}

/// The airtime of some samples, to the nearest nanosecond.
pub open spec fn airtime_nanos(samples: int) -> int {
    (samples * 125_000 + 3) / 6
}

/// The airtime of some samples, to the nearest nanosecond.
pub fn airtime(samples: usize) -> (d: Duration)
    ensures
        d.nanos == airtime_nanos(samples as int),
{
    Duration::from_nanos((samples as u128 * 125_000 + 3) / 6)
}

/// The airtime is right to within half a nanosecond.
pub proof fn airtime_is_nearest(samples: nat)
    ensures
        2 * (airtime_nanos(samples as int) * SAMPLE_RATE_HZ - samples * 1_000_000_000)
            <= SAMPLE_RATE_HZ,
        2 * (samples * 1_000_000_000 - airtime_nanos(samples as int) * SAMPLE_RATE_HZ)
            <= SAMPLE_RATE_HZ,
{
}

/// The capability published for a mode, where an encoded frame of it took so many
/// samples.
pub open spec fn capability(name: &'static str, samples: int) -> Option<ModeCapability> {
    match (
        meta_named(mode_meta(), name@),
        crate::modes::named(crate::modes::catalogue(), name@),
    ) {
        (Some(meta), Some(desc)) => Some(
            ModeCapability {
                wire_id: desc.wire_id,
                mode_name: name,
                family: desc.family,
                knee_snr_mdb: meta.knee_snr_mdb,
                per_frame_airtime: Duration { nanos: airtime_nanos(samples) as u128 },
                per_frame_payload_bytes: meta.per_frame_payload_bytes,
            },
        ),
        _ => None,
    }
}

/// The capability published for a waveform, from the length of a frame that it encoded.
/// One that serves no mode of the catalogue publishes none.
pub fn capability_of(mode_name: Option<&'static str>, frame_samples: usize) -> (c: Option<
    ModeCapability,
>)
    ensures
        c == (match mode_name {
            Some(name) => capability(name, frame_samples as int),
            None => None,
        }),
{
    let name = match mode_name {
        Some(n) => n,
        None => return None,
    };
    let meta = match meta_for(name) {
        Some(m) => m,
        None => return None,
    };
    let modes = ModeTable::default();
    let desc: ModeDescriptor = match modes.descriptor(name) {
        Some(d) => *d,
        None => return None,
    };
    Some(
        ModeCapability {
            wire_id: desc.wire_id,
            mode_name: name,
            family: desc.family,
            knee_snr_mdb: meta.knee_snr_mdb,
            per_frame_airtime: airtime(frame_samples),
            per_frame_payload_bytes: meta.per_frame_payload_bytes,
        },
    )
}

/// A registered waveform, with the length of the frame that it encoded; none where it
/// could not encode one.
#[derive(Debug, Clone, Copy)]
pub struct Measured {
    /// The mode that it serves, where it serves one of the catalogue.
    pub mode_name: Option<&'static str>,
    /// Samples of a frame that carries the mode's payload.
    pub frame_samples: Option<usize>,
}

/// The capability published for a waveform.
pub open spec fn published(m: Measured) -> Option<ModeCapability> {
    match (m.mode_name, m.frame_samples) {
        (Some(name), Some(samples)) => capability(name, samples as int),
        _ => None,
    }
}

/// The capabilities published for some waveforms, in their order.
pub open spec fn all_published(waveforms: Seq<Measured>) -> Seq<ModeCapability>
    decreases waveforms.len(),
{
    if waveforms.len() == 0 {
        Seq::empty()
    } else {
        let rest = all_published(waveforms.drop_last());
        match published(waveforms.last()) {
            Some(c) => rest.push(c),
            None => rest,
        }
    }
}

/// The capabilities of a registry, in its order. A waveform that serves no mode of the
/// catalogue is left out.
pub fn snapshot(waveforms: &Vec<Measured>) -> (all: Vec<ModeCapability>)
    ensures
        all@ == all_published(waveforms@),
{
    let mut all: Vec<ModeCapability> = Vec::new();
    let mut i: usize = 0;
    assert(waveforms@.take(0) =~= Seq::empty());
    while i < waveforms.len()
        invariant
            i <= waveforms@.len(),
            all@ == all_published(waveforms@.take(i as int)),
        decreases waveforms@.len() - i,
    {
        let w: Measured = waveforms[i];
        proof {
            assert(waveforms@.take(i + 1).drop_last() =~= waveforms@.take(i as int));
            assert(waveforms@.take(i + 1).last() == w);
        }
        match w.frame_samples {
            Some(samples) => match capability_of(w.mode_name, samples) {
                Some(c) => {
                    all.push(c);
                },
                None => {},
            },
            None => {},
        }
        i = i + 1;
    }
    assert(waveforms@.take(waveforms@.len() as int) =~= waveforms@);
    all
}

/// What the table says of a mode is one of its rows.
proof fn lemma_meta_named(all: Seq<ModeMeta>, name: Seq<char>)
    ensures
        match meta_named(all, name) {
            Some(m) => all.contains(m) && m.mode_name@ == name,
            None => true,
        },
    decreases all.len(),
{
    if all.len() > 0 && all[0].mode_name@ != name {
        let rest = all.drop_first();
        lemma_meta_named(rest, name);
        match meta_named(rest, name) {
            Some(m) => {
                let j = choose|j: int| 0 <= j < rest.len() && rest[j] == m;
                assert(all[j + 1] == m);
            },
            None => {},
        }
    } else if all.len() > 0 {
        assert(all.contains(all[0]));
    }
}

/// What is published fits the link: the wire id fits its feedback field, a frame carries
/// something, and the knees span those of the narrow and the wide main mode.
pub proof fn published_capabilities_fit_the_link(m: Measured)
    ensures
        match published(m) {
            Some(c) => {
                &&& c.wire_id <= 7
                &&& c.per_frame_payload_bytes > 0
                &&& -1_200 <= c.knee_snr_mdb <= 6_700
                &&& m.mode_name == Some(c.mode_name)
            },
            None => true,
        },
{
    match (m.mode_name, m.frame_samples) {
        (Some(name), Some(samples)) => {
            lemma_meta_named(mode_meta(), name@);
            crate::modes::wire_ids_are_unique_and_fit_feedback();
            crate::modes::lemma_named(crate::modes::catalogue(), name@);
        },
        _ => {},
    }
}

/// The row is that of a mode with a name, a knee and a payload.
pub open spec fn is_row(m: Option<ModeMeta>, name: Seq<char>, knee: int, bytes: int) -> bool {
    m matches Some(r) && r.mode_name@ == name && r.knee_snr_mdb == knee
        && r.per_frame_payload_bytes == bytes
}

/// What is known of each mode: the knee in thousandths of a decibel, and the bytes of a frame.
pub proof fn modes_are_known_as_measured()
    ensures
        is_row(meta_named(mode_meta(), "ofdm-wide"@), "ofdm-wide"@, 6_700, 79),
        is_row(meta_named(mode_meta(), "ofdm-mid"@), "ofdm-mid"@, 3_000, 79),
        is_row(meta_named(mode_meta(), "ofdm-narrow"@), "ofdm-narrow"@, -1_200, 79),
        is_row(meta_named(mode_meta(), "floor-wblo"@), "floor-wblo"@, 3_400, 58),
        is_row(meta_named(mode_meta(), "floor-nfsk"@), "floor-nfsk"@, 4_800, 12),
{
    reveal_with_fuel(meta_named, 6);
    reveal_strlit("ofdm-narrow");
    reveal_strlit("ofdm-mid");
    reveal_strlit("ofdm-wide");
    reveal_strlit("floor-wblo");
    reveal_strlit("floor-nfsk");
    assert("ofdm-narrow"@.len() == 11 && "ofdm-mid"@.len() == 8 && "ofdm-wide"@.len() == 9);
    assert("floor-wblo"@.len() == 10 && "floor-nfsk"@.len() == 10);
    assert("floor-nfsk"@[6] != "floor-wblo"@[6]);
    let c = mode_meta();
    let c1 = c.drop_first();
    let c2 = c1.drop_first();
    let c3 = c2.drop_first();
    let c4 = c3.drop_first();
    assert(c1[0] == c[1] && c2[0] == c[2] && c3[0] == c[3] && c4[0] == c[4]);
}

/// What is published for a waveform is what is known of its mode, with the time that its
/// frame takes at 48000 samples a second: nothing is published for a mode that is not known,
/// nor without a frame.
pub proof fn capability_is_what_is_known_of_the_mode(m: Measured)
    ensures
        match published(m) {
            Some(c) => {
                &&& m.mode_name == Some(c.mode_name)
                &&& m.frame_samples is Some
                &&& meta_named(mode_meta(), c.mode_name@) matches Some(meta) && c.knee_snr_mdb
                    == meta.knee_snr_mdb && c.per_frame_payload_bytes
                    == meta.per_frame_payload_bytes
                &&& crate::modes::named(crate::modes::catalogue(), c.mode_name@) matches Some(d)
                    && c.wire_id == d.wire_id && c.family == d.family
                &&& -24_000 <= c.per_frame_airtime.nanos * 48_000 - m.frame_samples->0
                    * 1_000_000_000 <= 24_000
            },
            None => m.mode_name is None || m.frame_samples is None || meta_named(
                mode_meta(),
                m.mode_name->0@,
            ) is None || crate::modes::named(
                crate::modes::catalogue(),
                m.mode_name->0@,
            ) is None,
        },
{
    match (m.mode_name, m.frame_samples) {
        (Some(name), Some(samples)) => {
            airtime_is_nearest(samples as nat);
            assert(airtime_nanos(samples as int) <= u128::MAX);
        },
        _ => {},
    }
}

/// Each waveform of which something is published stands in the list once, in the registry's
/// order.
pub proof fn capabilities_stand_in_order(before: Seq<Measured>, m: Measured, after: Seq<Measured>)
    ensures
        all_published(before.push(m) + after) == all_published(before) + (match published(m) {
            Some(c) => seq![c],
            None => Seq::empty(),
        }) + all_published(after),
        all_published(Seq::empty()).len() == 0,
    decreases after.len(),
{
    let whole = before.push(m) + after;
    let own = match published(m) {
        Some(c) => seq![c],
        None => Seq::empty(),
    };
    if after.len() == 0 {
        assert(whole =~= before.push(m));
        assert(whole.drop_last() =~= before);
        assert(all_published(whole) =~= all_published(before) + own + all_published(after));
    } else {
        capabilities_stand_in_order(before, m, after.drop_last());
        assert(whole.drop_last() =~= before.push(m) + after.drop_last());
        assert(whole.last() == after.last());
        assert(all_published(whole) =~= all_published(before) + own + all_published(after));
    }
}

} // verus!
