//! The catalogue of PHY modes.
//!
//! Signal-to-noise ratios are whole thousandths of a decibel, rounded down, so that
//! every comparison with a threshold in whole thousandths is exact.
use crate::time::Duration;
use vstd::prelude::*;

verus! {

/// The two families of PHY modes.
#[derive(Debug, Clone, Copy, PartialEq, Eq, Hash, Structural)]
pub enum ModeFamily {
    /// Bit-adaptive OFDM, the main throughput family.
    OfdmMain,
    /// Robustness floor: the wide-band low-density default and the narrow-FSK variant.
    RobustnessFloor,
}

/// Hint from link adaptation or from the operator.
#[derive(Debug, Clone, Copy, PartialEq, Eq)]
pub enum ModeHint {
    /// Some mode of the main family, as channel measurement chooses.
    MainAuto,
    /// The mode with this short name.
    MainPinned(&'static str),
    /// The robustness floor's wide-band default.
    Floor,
    /// The robustness floor's narrow-FSK variant, for a crowded band.
    FloorCrowdedBand,
}

/// The catalogue identity of a mode.
#[derive(Debug, Clone, Copy)]
pub struct ModeDescriptor {
    /// Stable kebab-case identifier.
    pub short_name: &'static str,
    /// Which family the mode belongs to.
    pub family: ModeFamily,
    /// Wire id, stable across builds and at most 7: feedback carries it in three bits.
    pub wire_id: u8,
}

impl ModeDescriptor {
    /// Stable kebab-case identifier.
    pub fn short_name(&self) -> (s: &'static str)
        ensures
            s@ == self.short_name@,
    {
        self.short_name
    }

    /// Which mode family this descriptor belongs to.
    pub fn family(&self) -> (f: ModeFamily)
        ensures
            f == self.family,
    {
        self.family
    }

    /// Wire id, at most 7 in the catalogue.
    pub fn wire_id(&self) -> (id: u8)
        ensures
            id == self.wire_id,
    {
        self.wire_id
    }
}

/// A registered mode's published capability: what the adaptation ladder is built
/// from.
#[derive(Debug, Clone, Copy, PartialEq)]
pub struct ModeCapability {
    /// Wire id of the mode.
    pub wire_id: u8,
    /// Stable mode identity.
    pub mode_name: &'static str,
    /// Waveform family.
    pub family: ModeFamily,
    /// Measured frame-error knee, in thousandths of a decibel.
    pub knee_snr_mdb: i32,
    /// Airtime of one PHY frame that carries `per_frame_payload_bytes`.
    pub per_frame_airtime: Duration,
    /// Payload bytes that one PHY frame carries.
    pub per_frame_payload_bytes: u16,
}

/// A mode chosen from a hint and a channel measurement.
pub type ResolvedMode = ModeDescriptor;

/// The modes that exist.
pub open spec fn catalogue() -> Seq<ModeDescriptor> {
    seq![
        ModeDescriptor {
            short_name: "ofdm-narrow",
            family: ModeFamily::OfdmMain,
            wire_id: 2,
        },
        ModeDescriptor { short_name: "ofdm-mid", family: ModeFamily::OfdmMain, wire_id: 1 },
        ModeDescriptor { short_name: "ofdm-wide", family: ModeFamily::OfdmMain, wire_id: 0 },
        ModeDescriptor {
            short_name: "floor-wblo",
            family: ModeFamily::RobustnessFloor,
            wire_id: 3,
        },
        ModeDescriptor {
            short_name: "floor-nfsk",
            family: ModeFamily::RobustnessFloor,
            wire_id: 4,
        },
    ]
}

/// The first mode with a given name.
pub open spec fn named(modes: Seq<ModeDescriptor>, name: Seq<char>) -> Option<ModeDescriptor>
    decreases modes.len(),
{
    if modes.len() == 0 {
        None
    } else if modes[0].short_name@ == name {
        Some(modes[0])
    } else {
        named(modes.drop_first(), name)
    }
}

/// A mode found by its name is of the list, and has it.
pub proof fn lemma_named(modes: Seq<ModeDescriptor>, name: Seq<char>)
    ensures
        match named(modes, name) {
            Some(d) => modes.contains(d) && d.short_name@ == name,
            None => true,
        },
    decreases modes.len(),
{
    if modes.len() > 0 && modes[0].short_name@ != name {
        let rest = modes.drop_first();
        lemma_named(rest, name);
        match named(rest, name) {
            Some(d) => {
                let j = choose|j: int| 0 <= j < rest.len() && rest[j] == d;
                assert(modes[j + 1] == d);
            },
            None => {},
        }
    } else if modes.len() > 0 {
        assert(modes.contains(modes[0]));
    }
}

/// The name of the mode that a hint asks for on a channel of the given SNR.
pub open spec fn wanted_name(hint: ModeHint, snr_mdb: Option<i32>) -> Seq<char> {
    match hint {
        ModeHint::Floor => "floor-wblo"@,
        ModeHint::FloorCrowdedBand => "floor-nfsk"@,
        ModeHint::MainPinned(name) => name@,
        ModeHint::MainAuto => {
            let snr = match snr_mdb {
                Some(s) => s,
                None => 15_000,
            };
            if snr < 0 {
                "floor-wblo"@
            } else if snr < 10_000 {
                "ofdm-narrow"@
            } else if snr < 20_000 {
                "ofdm-mid"@
            } else {
                "ofdm-wide"@
            }
        },
    }
}

/// The distinct families of some modes, in order of first appearance.
pub open spec fn families(modes: Seq<ModeDescriptor>) -> Seq<ModeFamily>
    decreases modes.len(),
{
    if modes.len() == 0 {
        Seq::empty()
    } else {
        let before = families(modes.drop_last());
        if before.contains(modes.last().family) {
            before
        } else {
            before.push(modes.last().family)
        }
    }
}

/// Read-only mode catalogue.
pub struct ModeTable {
    /// The modes, in table order.
    pub modes: Vec<ModeDescriptor>,
}

impl Default for ModeTable {
    fn default() -> (t: Self)
        ensures
            t.modes@ == catalogue(),
    {
        let mut modes: Vec<ModeDescriptor> = Vec::new();
        modes.push(
            ModeDescriptor {
                short_name: "ofdm-narrow",
                family: ModeFamily::OfdmMain,
                wire_id: 2,
            },
        );
        modes.push(
            ModeDescriptor { short_name: "ofdm-mid", family: ModeFamily::OfdmMain, wire_id: 1 },
        );
        modes.push(
            ModeDescriptor { short_name: "ofdm-wide", family: ModeFamily::OfdmMain, wire_id: 0 },
        );
        modes.push(
            ModeDescriptor {
                short_name: "floor-wblo",
                family: ModeFamily::RobustnessFloor,
                wire_id: 3,
            },
        );
        modes.push(
            ModeDescriptor {
                short_name: "floor-nfsk",
                family: ModeFamily::RobustnessFloor,
                wire_id: 4,
            },
        );
        assert(modes@ =~= catalogue());
        ModeTable { modes }
    }
}

impl ModeTable {
    /// The distinct mode families represented in this table.
    pub fn distinct_families(&self) -> (out: Vec<ModeFamily>)
        ensures
            out@ == families(self.modes@),
    {
        let mut out: Vec<ModeFamily> = Vec::new();
        let mut i: usize = 0;
        assert(self.modes@.take(0) =~= Seq::empty());
        while i < self.modes.len()
            invariant
                i <= self.modes@.len(),
                out@ == families(self.modes@.take(i as int)),
            decreases self.modes.len() - i,
        {
            let family = self.modes[i].family;
            let mut seen = false;
            let mut j: usize = 0;
            while j < out.len()
                invariant
                    j <= out@.len(),
                    seen == out@.take(j as int).contains(family),
                decreases out.len() - j,
            {
                proof {
                    assert(out@.take(j + 1) =~= out@.take(j as int).push(out@[j as int]));
                    assert(out@.take(j + 1)[j as int] == out@[j as int]);
                    if seen {
                        let k = choose|k: int|
                            0 <= k < j && #[trigger] out@.take(j as int)[k] == family;
                        assert(out@.take(j + 1)[k] == family);
                    }
                }
                if out[j] == family {
                    seen = true;
                }
                j = j + 1;
            }
            proof {
                assert(out@.take(out@.len() as int) =~= out@);
                assert(self.modes@.take(i + 1).drop_last() =~= self.modes@.take(i as int));
            }
            if !seen {
                out.push(family);
            }
            i = i + 1;
        }
        assert(self.modes@.take(self.modes@.len() as int) =~= self.modes@);
        out
    }

    /// Resolve a hint to a mode. For [`ModeHint::MainAuto`] the channel SNR selects
    /// across the OFDM ladder; without a measurement the middle mode is taken.
    pub fn resolve(&self, hint: ModeHint, channel_snr_mdb: Option<i32>) -> (m: ResolvedMode)
        requires
            named(self.modes@, wanted_name(hint, channel_snr_mdb)) is Some,
        ensures
            Some(m) == named(self.modes@, wanted_name(hint, channel_snr_mdb)),
    {
        match hint {
            ModeHint::Floor => self.by_name("floor-wblo"),
            ModeHint::FloorCrowdedBand => self.by_name("floor-nfsk"),
            ModeHint::MainPinned(name) => self.by_name(name),
            ModeHint::MainAuto => {
                let snr: i32 = match channel_snr_mdb {
                    Some(s) => s,
                    None => 15_000,
                };
                if snr < 0 {
                    self.by_name("floor-wblo")
                } else if snr < 10_000 {
                    self.by_name("ofdm-narrow")
                } else if snr < 20_000 {
                    self.by_name("ofdm-mid")
                } else {
                    self.by_name("ofdm-wide")
                }
            },
        }
    }

    /// The mode with a name that the table is known to hold.
    fn by_name(&self, name: &str) -> (m: ResolvedMode)
        requires
            named(self.modes@, name@) is Some,
        ensures
            Some(m) == named(self.modes@, name@),
    {
        let i: usize = self.position(name);
        self.modes[i]
    }

    /// Index of the first mode with a name, or the number of modes.
    fn position(&self, name: &str) -> (i: usize)
        ensures
            i <= self.modes@.len(),
            i < self.modes@.len() ==> named(self.modes@, name@) == Some(self.modes@[i as int]),
            i == self.modes@.len() ==> named(self.modes@, name@) is None,
    {
        let mut i: usize = 0;
        assert(self.modes@.skip(0) =~= self.modes@);
        while i < self.modes.len()
            invariant
                i <= self.modes@.len(),
                named(self.modes@, name@) == named(self.modes@.skip(i as int), name@),
            decreases self.modes.len() - i,
        {
            if crate::text::same_text(self.modes[i].short_name, name) {
                return i;
            }
            proof {
                assert(self.modes@.skip(i as int).drop_first() =~= self.modes@.skip(i + 1));
            }
            i = i + 1;
        }
        i
    }

    /// Look up a mode descriptor by name.
    pub fn descriptor(&self, name: &str) -> (d: Option<&ModeDescriptor>)
        ensures
            match d {
                Some(m) => named(self.modes@, name@) == Some(*m),
                None => named(self.modes@, name@) is None,
            },
    {
        let i: usize = self.position(name);
        if i < self.modes.len() {
            Some(&self.modes[i])
        } else {
            None
        }
    }

    /// All modes, in table order.
    pub fn descriptors(&self) -> (s: &[ModeDescriptor])
        ensures
            s@ == self.modes@,
    {
        self.modes.as_slice()
    }
}

/// No two catalogue modes share a wire id, and each id fits the three bits of the
/// feedback field.
pub proof fn wire_ids_are_unique_and_fit_feedback()
    ensures
        forall|i: int, j: int|
            0 <= i < j < catalogue().len() ==> #[trigger] catalogue()[i].wire_id
                != #[trigger] catalogue()[j].wire_id,
        forall|i: int| 0 <= i < catalogue().len() ==> #[trigger] catalogue()[i].wire_id <= 7,
{
}

/// Every hint but a pinned name resolves in the catalogue, and to the family that it
/// asks for: the floor hints to the floor, and the automatic one to the main family
/// from 0 dB on.
pub proof fn catalogue_resolves_every_hint(hint: ModeHint, snr_mdb: Option<i32>)
    requires
        !(hint is MainPinned),
    ensures
        named(catalogue(), wanted_name(hint, snr_mdb)) is Some,
        hint is Floor || hint is FloorCrowdedBand ==> named(
            catalogue(),
            wanted_name(hint, snr_mdb),
        )->Some_0.family == ModeFamily::RobustnessFloor,
        hint is MainAuto && (snr_mdb matches Some(s) ==> s >= 0) ==> named(
            catalogue(),
            wanted_name(hint, snr_mdb),
        )->Some_0.family == ModeFamily::OfdmMain,
{
    reveal_with_fuel(named, 6);
    reveal_strlit("ofdm-narrow");
    reveal_strlit("ofdm-mid");
    reveal_strlit("ofdm-wide");
    reveal_strlit("floor-wblo");
    reveal_strlit("floor-nfsk");
    let c = catalogue();
    let want = wanted_name(hint, snr_mdb);
    let c1 = c.drop_first();
    let c2 = c1.drop_first();
    let c3 = c2.drop_first();
    let c4 = c3.drop_first();
    assert(c1[0] == c[1] && c2[0] == c[2] && c3[0] == c[3] && c4[0] == c[4]);
    assert("ofdm-narrow"@ != "ofdm-mid"@) by {
        assert("ofdm-narrow"@.len() != "ofdm-mid"@.len());
    }
    assert("ofdm-narrow"@ != "ofdm-wide"@) by {
        assert("ofdm-narrow"@.len() != "ofdm-wide"@.len());
    }
    assert("ofdm-mid"@ != "ofdm-wide"@) by {
        assert("ofdm-mid"@.len() != "ofdm-wide"@.len());
    }
    assert("floor-wblo"@[0] != "ofdm-narrow"@[0]);
    assert("floor-wblo"@[0] != "ofdm-mid"@[0]);
    assert("floor-wblo"@[0] != "ofdm-wide"@[0]);
    assert("floor-nfsk"@[0] != "ofdm-narrow"@[0]);
    assert("floor-nfsk"@[0] != "ofdm-mid"@[0]);
    assert("floor-nfsk"@[0] != "ofdm-wide"@[0]);
    assert("floor-nfsk"@[6] != "floor-wblo"@[6]);
}

/// The catalogue's names are all different.
proof fn lemma_names_differ()
    ensures
        forall|i: int, j: int|
            0 <= i < j < catalogue().len() ==> (#[trigger] catalogue()[i]).short_name@ != (
            #[trigger] catalogue()[j]).short_name@,
{
    reveal_strlit("ofdm-narrow");
    reveal_strlit("ofdm-mid");
    reveal_strlit("ofdm-wide");
    reveal_strlit("floor-wblo");
    reveal_strlit("floor-nfsk");
    assert("ofdm-narrow"@.len() == 11 && "ofdm-mid"@.len() == 8 && "ofdm-wide"@.len() == 9);
    assert("floor-wblo"@.len() == 10 && "floor-nfsk"@.len() == 10);
    assert("floor-nfsk"@[6] != "floor-wblo"@[6]);
}

/// A mode of the list is found by its name where no mode before it has that name; and a
/// name that none has finds nothing.
proof fn lemma_found(modes: Seq<ModeDescriptor>, name: Seq<char>)
    ensures
        named(modes, name) is None <==> forall|i: int|
            0 <= i < modes.len() ==> (#[trigger] modes[i]).short_name@ != name,
        named(modes, name) matches Some(d) ==> exists|i: int|
            {
                &&& 0 <= i < modes.len()
                &&& #[trigger] modes[i] == d
                &&& d.short_name@ == name
                &&& forall|j: int| 0 <= j < i ==> (#[trigger] modes[j]).short_name@ != name
            },
    decreases modes.len(),
{
    if modes.len() > 0 {
        let rest = modes.drop_first();
        lemma_found(rest, name);
        if modes[0].short_name@ != name {
            match named(rest, name) {
                Some(d) => {
                    let i = choose|i: int|
                        {
                            &&& 0 <= i < rest.len()
                            &&& #[trigger] rest[i] == d
                            &&& d.short_name@ == name
                            &&& forall|j: int|
                                0 <= j < i ==> (#[trigger] rest[j]).short_name@ != name
                        };
                    assert(modes[i + 1] == d);
                    assert forall|j: int| 0 <= j < i + 1 implies (#[trigger] modes[j]).short_name@
                        != name by {
                        if j > 0 {
                            assert(rest[j - 1] == modes[j]);
                        }
                    }
                },
                None => {
                    assert forall|j: int| 0 <= j < modes.len() implies (
                    #[trigger] modes[j]).short_name@ != name by {
                        if j > 0 {
                            assert(rest[j - 1] == modes[j]);
                        }
                    }
                },
            }
        } else {
            assert(modes[0].short_name@ == name);
        }
    }
}

/// Looking a name up finds the first mode that has it, and nothing only where none has.
pub proof fn lookup_finds_the_first_of_a_name(modes: Seq<ModeDescriptor>, name: Seq<char>)
    ensures
        named(modes, name) is None <==> forall|i: int|
            0 <= i < modes.len() ==> (#[trigger] modes[i]).short_name@ != name,
        named(modes, name) matches Some(d) ==> exists|i: int|
            {
                &&& 0 <= i < modes.len()
                &&& #[trigger] modes[i] == d
                &&& d.short_name@ == name
                &&& forall|j: int| 0 <= j < i ==> (#[trigger] modes[j]).short_name@ != name
            },
{
    lemma_found(modes, name);
}

/// The mode that a hint resolves to in the catalogue.
pub open spec fn resolved(hint: ModeHint, snr_mdb: Option<i32>) -> ModeDescriptor {
    named(catalogue(), wanted_name(hint, snr_mdb))->0
}

/// The descriptor is that of the mode with a name, a family and a wire id.
pub open spec fn is_mode(d: ModeDescriptor, name: Seq<char>, family: ModeFamily, id: int) -> bool {
    d.short_name@ == name && d.family == family && d.wire_id == id
}

/// What the hints resolve to. Left to choose, the link takes the floor below 0 dB, the
/// narrow mode from there to 10 dB, the middle one to 20 dB and the wide one from there on,
/// and the middle one where nothing was measured. The floor hints give the two floor modes,
/// whatever the SNR.
pub proof fn hints_resolve_by_snr(snr_mdb: Option<i32>)
    ensures
        ({
            let auto = resolved(ModeHint::MainAuto, snr_mdb);
            &&& snr_mdb is None ==> is_mode(auto, "ofdm-mid"@, ModeFamily::OfdmMain, 1)
            &&& snr_mdb matches Some(snr) ==> {
                &&& snr < 0 ==> is_mode(auto, "floor-wblo"@, ModeFamily::RobustnessFloor, 3)
                &&& 0 <= snr < 10_000 ==> is_mode(auto, "ofdm-narrow"@, ModeFamily::OfdmMain, 2)
                &&& 10_000 <= snr < 20_000 ==> is_mode(auto, "ofdm-mid"@, ModeFamily::OfdmMain, 1)
                &&& 20_000 <= snr ==> is_mode(auto, "ofdm-wide"@, ModeFamily::OfdmMain, 0)
            }
            &&& is_mode(
                resolved(ModeHint::Floor, snr_mdb),
                "floor-wblo"@,
                ModeFamily::RobustnessFloor,
                3,
            )
            &&& is_mode(
                resolved(ModeHint::FloorCrowdedBand, snr_mdb),
                "floor-nfsk"@,
                ModeFamily::RobustnessFloor,
                4,
            )
        }),
{
    lemma_names_differ();
    lemma_resolved(ModeHint::MainAuto, snr_mdb);
    lemma_resolved(ModeHint::Floor, snr_mdb);
    lemma_resolved(ModeHint::FloorCrowdedBand, snr_mdb);
}

/// A hint resolves to the one catalogue mode of the name that it wants.
proof fn lemma_resolved(hint: ModeHint, snr_mdb: Option<i32>)
    ensures
        forall|i: int|
            0 <= i < catalogue().len() && (#[trigger] catalogue()[i]).short_name@ == wanted_name(
                hint,
                snr_mdb,
            ) ==> resolved(hint, snr_mdb) == catalogue()[i],
{
    lemma_names_differ();
    lemma_found(catalogue(), wanted_name(hint, snr_mdb));
}

/// A lower SNR never resolves to a faster mode: the wire ids count from the fastest mode to
/// the most robust one.
pub proof fn lower_snr_is_never_faster(low: i32, high: i32)
    requires
        low <= high,
    ensures
        resolved(ModeHint::MainAuto, Some(low)).wire_id >= resolved(
            ModeHint::MainAuto,
            Some(high),
        ).wire_id,
{
    hints_resolve_by_snr(Some(low));
    hints_resolve_by_snr(Some(high));
}

/// A pinned name resolves to the first mode of that name, whatever the SNR, wherever the
/// table has one.
pub proof fn pinned_hint_is_kept(
    modes: Seq<ModeDescriptor>,
    name: &'static str,
    snr_mdb: Option<i32>,
)
    ensures
        ({
            let found = named(modes, wanted_name(ModeHint::MainPinned(name), snr_mdb));
            &&& found is None <==> forall|i: int|
                0 <= i < modes.len() ==> (#[trigger] modes[i]).short_name@ != name@
            &&& found matches Some(d) ==> d.short_name@ == name@ && modes.contains(d)
        }),
{
    lemma_found(modes, name@);
}

/// The families of some modes: each that occurs, once, and no other.
pub proof fn families_are_those_that_occur(modes: Seq<ModeDescriptor>, f: ModeFamily)
    ensures
        families(modes).contains(f) <==> exists|i: int|
            0 <= i < modes.len() && (#[trigger] modes[i]).family == f,
        families(modes).no_duplicates(),
        modes.len() > 0 ==> families(modes).len() > 0 && families(modes)[0] == modes[0].family,
    decreases modes.len(),
{
    if modes.len() > 0 {
        let d = modes.drop_last();
        let last = modes.last().family;
        families_are_those_that_occur(d, f);
        families_are_those_that_occur(d, last);
        assert(modes.last() == modes[modes.len() - 1]);
        if d.len() > 0 {
            assert(d[0] == modes[0]);
        }
        assert(families(d).push(last)[families(d).len() as int] == last);
        if families(d).contains(f) {
            let i = choose|i: int| 0 <= i < d.len() && (#[trigger] d[i]).family == f;
            assert(modes[i].family == f);
            let k = choose|k: int| 0 <= k < families(d).len() && families(d)[k] == f;
            assert(families(d).push(last)[k] == f);
        }
        if exists|i: int| 0 <= i < modes.len() && (#[trigger] modes[i]).family == f {
            let i = choose|i: int| 0 <= i < modes.len() && (#[trigger] modes[i]).family == f;
            if i < d.len() {
                assert(d[i].family == f);
            }
        }
    }
}

} // verus!
