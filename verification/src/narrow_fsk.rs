//! The narrow-FSK floor mode: eight tones, three bits to a symbol, one symbol at a time.
//!
//! Here is everything about it but the sound: which tone a symbol takes, which bin of a
//! transform a tone falls into, which tone a symbol was, and how a frame is delimited.
//! A frame is the payload's length in two bytes, the payload, and the CRC-32 of both.
//!
//! The strength of a tone is a key that orders as its magnitude does: the bit pattern
//! of a magnitude that is not negative.
use crate::transport::PhyError;
use vstd::prelude::*;

verus! {

/// Number of tones.
pub const TONES: usize = 8;

/// Spacing between tones, in hertz.
pub const TONE_SPACING_HZ: u32 = 50;

/// Frequency of the lowest tone, in hertz: the tones are centred at 1500 Hz.
pub const LOWEST_TONE_HZ: u32 = 1325;

/// Samples of one symbol: 0.16 s at the audio sample rate.
pub const SAMPLES_PER_SYMBOL: usize = 7680;

/// Size of the transform that a symbol is padded to.
pub const FFT_SIZE: usize = 8192;

/// Samples of the preamble.
pub const PREAMBLE_LEN: usize = crate::preamble::PREAMBLE_LEN;

/// Outcome of a scan over one received window.
#[derive(Debug, PartialEq, Eq)]
pub enum NfskDecode {
    /// No preamble: the window held only noise.
    NoSignal,
    /// A preamble, but the frame was cut short or failed its CRC.
    Detected,
    /// A whole frame with a good CRC.
    Frame(Vec<u8>),
}

/// What to do about one received window.
#[derive(Debug, Clone, Copy, PartialEq, Eq, Structural)]
pub enum ScanPlan {
    /// There is no preamble.
    NoSignal,
    /// There is a preamble and nothing behind it.
    Truncated,
    /// Demodulate so many symbols from a sample on.
    Demodulate {
        /// First sample of the frame.
        body_start: usize,
        /// Whole symbols behind it.
        symbols: usize,
    },
}

/// The CRC-32 (IEEE 802.3) of some bytes.
pub fn crc32_ieee(bytes: &[u8]) -> (c: u32)
    ensures
        c == crate::checksum::crc32(bytes@),
{
    let mut crc: u32 = 0xFFFF_FFFF;
    let mut i: usize = 0;
    assert(bytes@.take(0) =~= Seq::empty());
    while i < bytes.len()
        invariant
            i <= bytes@.len(),
            crc == crate::checksum::crc_register(bytes@.take(i as int)),
        decreases bytes.len() - i,
    {
        let ghost start = crc ^ bytes@[i as int] as u32;
        crc = crc ^ bytes[i] as u32;
        let mut k: u32 = 0;
        while k < 8
            invariant
                k <= 8,
                crc == crate::checksum::crc_bits(start, k as nat),
            decreases 8 - k,
        {
            if crc & 1 == 1 {
                crc = (crc >> 1) ^ crate::checksum::CRC_POLY;
            } else {
                crc = crc >> 1;
            }
            k = k + 1;
        }
        proof {
            assert(bytes@.take(i + 1).drop_last() =~= bytes@.take(i as int));
        }
        i = i + 1;
    }
    assert(bytes@.take(bytes@.len() as int) =~= bytes@);
    !crc
}

/// Bit `i` of a stream, or zero past its end.
pub open spec fn padded_bit(bits: Seq<u8>, i: int) -> u8 {
    if i < bits.len() {
        bits[i]
    } else {
        0
    }
}

/// Number of symbols that carry some bytes.
pub open spec fn symbol_count(bytes_len: int) -> int {
    (bytes_len * 8 + 2) / 3
}

/// The tone of a symbol.
pub open spec fn tone_of(bits: Seq<u8>, s: int) -> usize {
    (padded_bit(bits, 3 * s) * 4 + padded_bit(bits, 3 * s + 1) * 2 + padded_bit(
        bits,
        3 * s + 2,
    )) as usize
}

/// The tones of some bytes: three bits to each, the last filled up with zeros.
pub open spec fn tones_of(bytes: Seq<u8>) -> Seq<usize> {
    Seq::new(
        symbol_count(bytes.len() as int) as nat,
        |s: int| tone_of(crate::bits::bits_of(bytes), s),
    )
}

/// The bits of some tones.
pub open spec fn tone_bits(tones: Seq<usize>) -> Seq<u8> {
    Seq::new(
        (tones.len() * 3) as nat,
        |i: int|
            {
                let t = tones[i / 3];
                if i % 3 == 0 {
                    ((t / 4) % 2) as u8
                } else if i % 3 == 1 {
                    ((t / 2) % 2) as u8
                } else {
                    (t % 2) as u8
                }
            },
    )
}

/// The whole bytes in some tones.
pub open spec fn tone_bytes(tones: Seq<usize>) -> Seq<u8> {
    crate::bits::bytes_of(tone_bits(tones))
}

/// The strongest of the first `n` tones: the first among equals, and the lowest where all
/// are silent.
pub open spec fn strongest(keys: Seq<u32>, at: int, n: nat) -> usize
    decreases n,
{
    if n <= 1 {
        0
    } else {
        let best = strongest(keys, at, (n - 1) as nat);
        if keys[at + n - 1] > keys[at + best] {
            (n - 1) as usize
        } else {
            best
        }
    }
}

/// The strongest tone of each symbol.
pub open spec fn strongest_tones(keys: Seq<u32>) -> Seq<usize> {
    Seq::new(keys.len() / 8, |s: int| strongest(keys, 8 * s, 8))
}

/// Some bytes without the zeros at their end.
pub open spec fn without_trailing_zeros(bytes: Seq<u8>) -> Seq<u8>
    decreases bytes.len(),
{
    if bytes.len() > 0 && bytes.last() == 0 {
        without_trailing_zeros(bytes.drop_last())
    } else {
        bytes
    }
}

/// The frame of a payload.
pub open spec fn framed(payload: Seq<u8>) -> Seq<u8> {
    let body = crate::frame::be16(payload.len() as u16) + payload;
    body + crate::frame::be32(crate::checksum::crc32(body))
}

/// The payload in some demodulated bytes, where they begin with a whole frame whose CRC
/// is good.
pub open spec fn deframed(bytes: Seq<u8>) -> Option<Seq<u8>> {
    let len = crate::frame::from_be16(bytes, 0) as int;
    if bytes.len() < 2 || bytes.len() < 2 + len + 4 {
        None
    } else if crate::checksum::crc32(bytes.take(2 + len)) != crate::frame::from_be32(bytes, 2 + len) {
        None
    } else {
        Some(bytes.subrange(2, 2 + len))
    }
}

/// The frequency of a tone in hertz.
pub open spec fn tone_hz(idx: int) -> int {
    LOWEST_TONE_HZ + idx * TONE_SPACING_HZ
}

/// The bin of the transform that is nearest to a tone.
pub open spec fn bin_of(idx: int) -> int {
    (tone_hz(idx) * FFT_SIZE + 24_000) / 48_000
}

/// What to demodulate of a window of so many samples, where the preamble starts.
pub open spec fn planned(preamble_start: Option<usize>, samples: int) -> ScanPlan {
    match preamble_start {
        None => ScanPlan::NoSignal,
        Some(start) => if start + PREAMBLE_LEN >= samples {
            ScanPlan::Truncated
        } else {
            ScanPlan::Demodulate {
                body_start: (start + PREAMBLE_LEN) as usize,
                symbols: ((samples - start - PREAMBLE_LEN) / (SAMPLES_PER_SYMBOL as int)) as usize,
            }
        },
    }
}

/// The narrow-FSK floor mode. All of its parameters are fixed.
pub struct NarrowFskFloor;

impl NarrowFskFloor {
    /// Construct the mode.
    pub fn new() -> (f: Self)
        ensures
            f == NarrowFskFloor,
    {
        NarrowFskFloor
    }

    /// Occupied bandwidth in hertz, with a guard of one tone spacing on each side.
    pub fn occupied_bandwidth_hz(&self) -> (hz: u32)
        ensures
            hz == (TONES - 1) * TONE_SPACING_HZ + 2 * TONE_SPACING_HZ,
    {
        (TONES as u32 - 1) * TONE_SPACING_HZ + 2 * TONE_SPACING_HZ
    }

    /// Frequency of a tone in hertz.
    pub fn tone_freq_hz(&self, idx: usize) -> (hz: u32)
        requires
            idx < TONES,
        ensures
            hz == LOWEST_TONE_HZ + idx * TONE_SPACING_HZ,
            hz == tone_hz(idx as int),
    {
        LOWEST_TONE_HZ + idx as u32 * TONE_SPACING_HZ
    }

    /// The bin of the transform that is nearest to a tone.
    pub fn tone_bin(&self, idx: usize) -> (bin: usize)
        requires
            idx < TONES,
        ensures
            bin == ((LOWEST_TONE_HZ + idx * TONE_SPACING_HZ) * FFT_SIZE + 24_000) / 48_000,
            bin < FFT_SIZE,
            bin == bin_of(idx as int),
    {
        let hz: u64 = self.tone_freq_hz(idx) as u64;
        ((hz * FFT_SIZE as u64 + 24_000) / 48_000) as usize
    }

    /// The tones that carry some bytes.
    pub fn tones(&self, bytes: &[u8]) -> (t: Vec<usize>)
        requires
            bytes@.len() * 8 + 2 <= usize::MAX,
        ensures
            t@ == tones_of(bytes@),
    {
        let bits = crate::bits::unpack(bytes);
        let ghost stream = crate::bits::bits_of(bytes@);
        proof {
            crate::bits::bits_are_binary(bytes@);
        }
        let n: usize = (bits.len() + 2) / 3;
        let mut t: Vec<usize> = Vec::new();
        let mut s: usize = 0;
        while s < n
            invariant
                bits@ == stream,
                stream.len() == bytes@.len() * 8,
                stream == crate::bits::bits_of(bytes@),
                bytes@.len() * 8 + 2 <= usize::MAX,
                forall|i: int| 0 <= i < stream.len() ==> #[trigger] stream[i] <= 1,
                s <= n == symbol_count(bytes@.len() as int),
                t@ == tones_of(bytes@).take(s as int),
            decreases n - s,
        {
            let a: usize = bit_at(&bits, 3 * s);
            let b: usize = bit_at(&bits, 3 * s + 1);
            let c: usize = bit_at(&bits, 3 * s + 2);
            t.push(a * 4 + b * 2 + c);
            assert(t@ =~= tones_of(bytes@).take(s + 1));
            s = s + 1;
        }
        assert(t@ =~= tones_of(bytes@));
        t
    }

    /// The tones that transmit a bare payload, without preamble and framing.
    pub fn transmit(&self, payload: &[u8]) -> (t: Vec<usize>)
        requires
            payload@.len() * 8 + 2 <= usize::MAX,
        ensures
            t@ == tones_of(payload@),
    {
        self.tones(payload)
    }

    /// The strongest tone of each symbol, from eight keys for each.
    pub fn pick_tones(&self, keys: &[u32]) -> (t: Vec<usize>)
        ensures
            t@ == strongest_tones(keys@),
            forall|i: int| 0 <= i < t@.len() ==> #[trigger] t@[i] < TONES,
    {
        let len: usize = keys.len();
        let n: usize = len / 8;
        let mut t: Vec<usize> = Vec::new();
        let mut s: usize = 0;
        while s < n
            invariant
                len == keys@.len(),
                n == keys@.len() / 8,
                8 * n <= len,
                s <= n,
                t@ == strongest_tones(keys@).take(s as int),
                forall|i: int| 0 <= i < t@.len() ==> #[trigger] t@[i] < TONES,
            decreases n - s,
        {
            let mut best: usize = 0;
            let mut k: usize = 1;
            while k < 8
                invariant
                    len == keys@.len(),
                    8 * s + 8 <= len,
                    1 <= k <= 8,
                    best < k,
                    best == strongest(keys@, 8 * s, k as nat),
                decreases 8 - k,
            {
                if keys[8 * s + k] > keys[8 * s + best] {
                    best = k;
                }
                k = k + 1;
            }
            t.push(best);
            assert(t@ =~= strongest_tones(keys@).take(s + 1));
            s = s + 1;
        }
        assert(t@ =~= strongest_tones(keys@));
        t
    }

    /// The whole bytes in some tones.
    pub fn demod_bytes(&self, tones: &[usize]) -> (bytes: Vec<u8>)
        requires
            tones@.len() * 3 <= usize::MAX,
        ensures
            bytes@ == tone_bytes(tones@),
    {
        let mut bits: Vec<u8> = Vec::new();
        let mut i: usize = 0;
        while i < tones.len()
            invariant
                i <= tones@.len(),
                bits@ == tone_bits(tones@).take(3 * i),
            decreases tones.len() - i,
        {
            let t: usize = tones[i];
            bits.push(((t / 4) % 2) as u8);
            bits.push(((t / 2) % 2) as u8);
            bits.push((t % 2) as u8);
            assert(bits@ =~= tone_bits(tones@).take(3 * (i + 1)));
            i = i + 1;
        }
        assert(bits@ =~= tone_bits(tones@));
        crate::bits::pack(bits.as_slice())
    }

    /// Receive a bare payload from eight keys for each symbol. Zeros at its end are taken
    /// for filling.
    pub fn receive(&self, keys: &[u32]) -> (payload: Vec<u8>)
        ensures
            payload@ == without_trailing_zeros(tone_bytes(strongest_tones(keys@))),
    {
        let total: usize = keys.len();
        let tones = self.pick_tones(keys);
        assert(tones@.len() * 3 <= total);
        let mut bytes = self.demod_bytes(tones.as_slice());
        let ghost all = bytes@;
        while bytes.len() > 0 && bytes[bytes.len() - 1] == 0
            invariant
                without_trailing_zeros(all) == without_trailing_zeros(bytes@),
            decreases bytes.len(),
        {
            let ghost before = bytes@;
            bytes.pop();
            assert(bytes@ =~= before.drop_last());
        }
        bytes
    }

    /// The frame of a payload: length, payload, CRC.
    pub fn frame_bytes(payload: &[u8]) -> (r: Result<Vec<u8>, PhyError>)
        ensures
            match r {
                Ok(f) => payload@.len() <= u16::MAX && f@ == framed(payload@),
                Err(e) => payload@.len() > u16::MAX && e == (PhyError::PayloadTooLarge {
                    actual: payload@.len() as usize,
                    capacity: 65535,
                }),
            },
    {
        if payload.len() > 65535 {
            return Err(PhyError::PayloadTooLarge { actual: payload.len(), capacity: 65535 });
        }
        let mut frame: Vec<u8> = Vec::new();
        crate::frame::push_be16(&mut frame, payload.len() as u16);
        frame.extend_from_slice(payload);
        assert(frame@ =~= crate::frame::be16(payload@.len() as u16) + payload@);
        let crc: u32 = crc32_ieee(frame.as_slice());
        crate::frame::push_be32(&mut frame, crc);
        Ok(frame)
    }

    /// The tones of a framed payload, to follow the preamble.
    pub fn transmit_with_preamble(&self, payload: &[u8]) -> (r: Result<Vec<usize>, PhyError>)
        ensures
            match r {
                Ok(t) => payload@.len() <= u16::MAX && t@ == tones_of(framed(payload@)),
                Err(e) => payload@.len() > u16::MAX && e == (PhyError::PayloadTooLarge {
                    actual: payload@.len() as usize,
                    capacity: 65535,
                }),
            },
    {
        match NarrowFskFloor::frame_bytes(payload) {
            Ok(frame) => {
                assert(frame@.len() == payload@.len() + 6);
                Ok(self.tones(frame.as_slice()))
            },
            Err(e) => Err(e),
        }
    }

    /// Decide what to demodulate, from where the preamble starts, if there is one, and the
    /// length of the window.
    pub fn plan_scan(&self, preamble_start: Option<usize>, samples: usize) -> (p: ScanPlan)
        ensures
            p == (match preamble_start {
                None => ScanPlan::NoSignal,
                Some(start) => if start + PREAMBLE_LEN >= samples {
                    ScanPlan::Truncated
                } else {
                    ScanPlan::Demodulate {
                        body_start: (start + PREAMBLE_LEN) as usize,
                        symbols: ((samples - start - PREAMBLE_LEN) / (
                        SAMPLES_PER_SYMBOL as int)) as usize,
                    }
                },
            }),
            p == planned(preamble_start, samples as int),
    {
        match preamble_start {
            None => ScanPlan::NoSignal,
            Some(start) => {
                if samples <= PREAMBLE_LEN || start >= samples - PREAMBLE_LEN {
                    ScanPlan::Truncated
                } else {
                    let body_start: usize = start + PREAMBLE_LEN;
                    ScanPlan::Demodulate {
                        body_start,
                        symbols: (samples - body_start) / SAMPLES_PER_SYMBOL,
                    }
                }
            },
        }
    }

    /// Recover the frame from eight keys for each symbol behind a preamble.
    pub fn receive_scan(&self, keys: &[u32]) -> (d: NfskDecode)
        ensures
            match (d, deframed(tone_bytes(strongest_tones(keys@)))) {
                (NfskDecode::Frame(p), Some(payload)) => p@ == payload,
                (NfskDecode::Detected, None) => true,
                _ => false,
            },
    {
        let total: usize = keys.len();
        let tones = self.pick_tones(keys);
        assert(tones@.len() * 3 <= total);
        let bytes = self.demod_bytes(tones.as_slice());
        if bytes.len() < 2 {
            return NfskDecode::Detected;
        }
        let len: usize = crate::frame::read_be16(bytes.as_slice(), 0) as usize;
        if bytes.len() < 2 + len + 4 {
            return NfskDecode::Detected;
        }
        let body = vstd::slice::slice_subrange(bytes.as_slice(), 0, 2 + len);
        assert(body@ =~= bytes@.take(2 + len));
        if crc32_ieee(body) != crate::frame::read_be32(bytes.as_slice(), 2 + len) {
            return NfskDecode::Detected;
        }
        let mut payload: Vec<u8> = Vec::new();
        payload.extend_from_slice(vstd::slice::slice_subrange(bytes.as_slice(), 2, 2 + len));
        assert(payload@ =~= bytes@.subrange(2, 2 + len));
        NfskDecode::Frame(payload)
    }
}

impl Default for NarrowFskFloor {
    fn default() -> (f: Self)
        ensures
            f == NarrowFskFloor,
    {
        NarrowFskFloor::new()
    }
}

/// Bit `i` of a stream of bits, or zero past its end.
fn bit_at(bits: &Vec<u8>, i: usize) -> (b: usize)
    requires
        forall|j: int| 0 <= j < bits@.len() ==> #[trigger] bits@[j] <= 1,
    ensures
        b == padded_bit(bits@, i as int),
        b <= 1,
{
    if i < bits.len() {
        bits[i] as usize
    } else {
        0
    }
}

/// The bits of the tones of some bytes are the bits of those bytes, filled up with zeros.
proof fn lemma_tone_bits(bytes: Seq<u8>)
    ensures
        tone_bits(tones_of(bytes)).len() >= bytes.len() * 8,
        tone_bits(tones_of(bytes)).len() < bytes.len() * 8 + 3,
        forall|i: int|
            0 <= i < bytes.len() * 8 ==> #[trigger] tone_bits(tones_of(bytes))[i]
                == crate::bits::bits_of(bytes)[i],
        forall|s: int| 0 <= s < tones_of(bytes).len() ==> #[trigger] tones_of(bytes)[s] < TONES,
{
    let bits = crate::bits::bits_of(bytes);
    let tones = tones_of(bytes);
    crate::bits::bits_are_binary(bytes);
    assert forall|s: int| 0 <= s < tones.len() implies #[trigger] tones[s] < TONES by {
        assert(padded_bit(bits, 3 * s) <= 1);
        assert(padded_bit(bits, 3 * s + 1) <= 1);
        assert(padded_bit(bits, 3 * s + 2) <= 1);
    }
    assert forall|i: int| 0 <= i < bytes.len() * 8 implies #[trigger] tone_bits(tones)[i]
        == bits[i] by {
        let s = i / 3;
        assert(padded_bit(bits, 3 * s) <= 1);
        assert(padded_bit(bits, 3 * s + 1) <= 1);
        assert(padded_bit(bits, 3 * s + 2) <= 1);
        let t = tones[s];
        assert(t == padded_bit(bits, 3 * s) * 4 + padded_bit(bits, 3 * s + 1) * 2 + padded_bit(
            bits,
            3 * s + 2,
        ));
    }
}

/// Bytes come back from the tones that carry them.
pub proof fn tones_carry_their_bytes(bytes: Seq<u8>)
    ensures
        tone_bytes(tones_of(bytes)) == bytes,
{
    let bits = crate::bits::bits_of(bytes);
    let heard = tone_bits(tones_of(bytes));
    lemma_tone_bits(bytes);
    assert forall|i: int| 0 <= i < bytes.len() implies #[trigger] crate::bits::packed(
        heard,
        8 * i,
        8,
    ) == bytes[i] by {
        assert forall|j: int| 0 <= j < 8 implies #[trigger] heard[8 * i + j]
            == crate::bits::bit_of(bytes[i], j) by {
            assert(heard[8 * i + j] == bits[8 * i + j]);
            assert((8 * i + j) / 8 == i && (8 * i + j) % 8 == j);
        }
        crate::bits::lemma_packed_bits(heard, 8 * i, bytes[i]);
    }
    assert(tone_bytes(tones_of(bytes)) =~= bytes);
}

/// A payload comes back from its frame, whatever follows the frame.
pub proof fn framed_payload_comes_back(payload: Seq<u8>, rest: Seq<u8>)
    requires
        payload.len() <= u16::MAX,
    ensures
        deframed(framed(payload) + rest) == Some(payload),
{
    let n = payload.len() as int;
    let head = crate::frame::be16(n as u16);
    let body = head + payload;
    let crc = crate::frame::be32(crate::checksum::crc32(body));
    let all = framed(payload) + rest;
    crate::frame::lemma_be16(n as u16);
    crate::frame::lemma_be32(crate::checksum::crc32(body));
    assert(all[0] == head[0] && all[1] == head[1]);
    assert(all.take(2 + n) =~= body);
    assert(all[2 + n] == crc[0] && all[2 + n + 1] == crc[1] && all[2 + n + 2] == crc[2] && all[2
        + n + 3] == crc[3]);
    assert(all.subrange(2, 2 + n) =~= payload);
}

/// Whether in every symbol the tone that was sent is stronger than each other.
pub open spec fn stands_out(keys: Seq<u32>, tones: Seq<usize>) -> bool {
    &&& keys.len() == 8 * tones.len()
    &&& forall|s: int, t: int|
        0 <= s < tones.len() && 0 <= t < TONES && t != tones[s] ==> keys[8 * s + tones[s]]
            > #[trigger] keys[8 * s + t]
}

proof fn lemma_strongest(keys: Seq<u32>, at: int, tone: int, n: nat)
    requires
        1 <= n <= 8,
        0 <= tone < 8,
        forall|t: int| 0 <= t < 8 && t != tone ==> keys[at + tone] > #[trigger] keys[at + t],
    ensures
        strongest(keys, at, n) < n,
        tone < n ==> strongest(keys, at, n) == tone,
    decreases n,
{
    if n > 1 {
        lemma_strongest(keys, at, tone, (n - 1) as nat);
        let best = strongest(keys, at, (n - 1) as nat);
        assert(keys[at + (n - 1)] == keys[at + n - 1]);
        if best != tone {
            assert(keys[at + tone] > keys[at + best]);
        }
        if n - 1 != tone {
            assert(keys[at + tone] > keys[at + (n - 1)]);
        }
    }
}

/// Tones that stand out are the ones that are picked.
proof fn lemma_picked(bytes: Seq<u8>, keys: Seq<u32>)
    requires
        stands_out(keys, tones_of(bytes)),
    ensures
        tone_bytes(strongest_tones(keys)) == bytes,
{
    let tones = tones_of(bytes);
    lemma_tone_bits(bytes);
    assert forall|s: int| 0 <= s < tones.len() implies #[trigger] strongest(keys, 8 * s, 8)
        == tones[s] by {
        assert(tones[s] < TONES);
        lemma_strongest(keys, 8 * s, tones[s] as int, 8);
    }
    assert(strongest_tones(keys) =~= tones);
    tones_carry_their_bytes(bytes);
}

/// A bare payload is received wherever the tones that were sent stand out, but for the
/// zeros at its end: every other byte comes back in its place.
pub proof fn payload_is_received_when_its_tones_stand_out(payload: Seq<u8>, keys: Seq<u32>)
    requires
        stands_out(keys, tones_of(payload)),
    ensures
        without_trailing_zeros(tone_bytes(strongest_tones(keys))) == without_trailing_zeros(
            payload,
        ),
        without_trailing_zeros(payload).len() <= payload.len(),
        without_trailing_zeros(payload) == payload.take(
            without_trailing_zeros(payload).len() as int,
        ),
        forall|i: int|
            without_trailing_zeros(payload).len() <= i < payload.len() ==> #[trigger] payload[i]
                == 0,
        payload.len() > 0 && payload.last() != 0 ==> without_trailing_zeros(
            tone_bytes(strongest_tones(keys)),
        ) == payload,
{
    lemma_picked(payload, keys);
    lemma_only_zeros_go(payload);
}

/// Only zeros at the end go.
proof fn lemma_only_zeros_go(bytes: Seq<u8>)
    ensures
        without_trailing_zeros(bytes).len() <= bytes.len(),
        without_trailing_zeros(bytes) == bytes.take(without_trailing_zeros(bytes).len() as int),
        forall|i: int|
            without_trailing_zeros(bytes).len() <= i < bytes.len() ==> #[trigger] bytes[i] == 0,
    decreases bytes.len(),
{
    if bytes.len() > 0 && bytes.last() == 0 {
        let rest = bytes.drop_last();
        lemma_only_zeros_go(rest);
        let kept = without_trailing_zeros(rest);
        assert(rest.take(kept.len() as int) =~= bytes.take(kept.len() as int));
        assert forall|i: int| kept.len() <= i < bytes.len() implies #[trigger] bytes[i] == 0 by {
            if i < rest.len() {
                assert(rest[i] == bytes[i]);
            }
        }
    } else {
        assert(bytes.take(bytes.len() as int) =~= bytes);
    }
}

/// A framed payload is received wherever the tones that were sent stand out.
pub proof fn frame_is_received_when_its_tones_stand_out(payload: Seq<u8>, keys: Seq<u32>)
    requires
        payload.len() <= u16::MAX,
        stands_out(keys, tones_of(framed(payload))),
    ensures
        deframed(tone_bytes(strongest_tones(keys))) == Some(payload),
{
    lemma_picked(framed(payload), keys);
    framed_payload_comes_back(payload, Seq::empty());
    assert(framed(payload) + Seq::<u8>::empty() =~= framed(payload));
}

/// The parameters: eight tones fifty hertz apart from 1325 Hz on, each of 7680 samples, in
/// which it makes a whole number of turns more than the tone below it.
pub proof fn tones_are_fifty_hertz_apart()
    ensures
        TONES == 8,
        TONE_SPACING_HZ == 50,
        LOWEST_TONE_HZ == 1325,
        SAMPLES_PER_SYMBOL == 7680,
        FFT_SIZE == 8192,
        PREAMBLE_LEN == 320,
        TONE_SPACING_HZ * SAMPLES_PER_SYMBOL == 8 * 48_000,
        LOWEST_TONE_HZ * SAMPLES_PER_SYMBOL == 212 * 48_000,
{
}

/// Each tone carries three bits, the first of them worth four; the last tone is filled up
/// with zeros, and no tone carries none.
pub proof fn tone_counts_its_three_bits(bytes: Seq<u8>, s: int)
    requires
        0 <= s < tones_of(bytes).len(),
    ensures
        ({
            let bits = crate::bits::bits_of(bytes);
            let n = tones_of(bytes).len();
            let bit = |i: int|
                if i < bits.len() {
                    bits[i] as int
                } else {
                    0
                };
            &&& 3 * (n - 1) < 8 * bytes.len() <= 3 * n
            &&& tones_of(bytes)[s] == 4 * bit(3 * s) + 2 * bit(3 * s + 1) + bit(3 * s + 2)
            &&& tones_of(bytes)[s] < 8
        }),
{
    crate::bits::bits_are_binary(bytes);
}

/// Of the eight keys of a symbol the largest is picked, and the first of equals.
pub proof fn first_strongest_tone_is_picked(keys: Seq<u32>, s: int, t: int)
    requires
        0 <= s < keys.len() / 8,
        0 <= t < 8,
    ensures
        strongest_tones(keys).len() == keys.len() / 8,
        ({
            let best = strongest_tones(keys)[s];
            &&& best < 8
            &&& keys[8 * s + t] <= keys[8 * s + best]
            &&& t < best ==> keys[8 * s + t] < keys[8 * s + best]
        }),
{
    lemma_strongest_of(keys, 8 * s, 8);
    assert(keys[8 * s + t] <= keys[8 * s + strongest(keys, 8 * s, 8)]);
}

proof fn lemma_strongest_of(keys: Seq<u32>, at: int, n: nat)
    requires
        1 <= n,
        n <= 8,
    ensures
        ({
            let best = strongest(keys, at, n);
            &&& best < n
            &&& forall|t: int| 0 <= t < n ==> #[trigger] keys[at + t] <= keys[at + best]
            &&& forall|t: int| 0 <= t < best ==> #[trigger] keys[at + t] < keys[at + best]
        }),
    decreases n,
{
    if n > 1 {
        lemma_strongest_of(keys, at, (n - 1) as nat);
        assert(keys[at + (n - 1)] == keys[at + n - 1]);
    }
}

/// A bare payload is received without the zeros at its end: nothing but zeros is cut off, and
/// no zero is left there.
pub proof fn only_trailing_zeros_are_cut(bytes: Seq<u8>)
    ensures
        ({
            let r = without_trailing_zeros(bytes);
            &&& r.len() <= bytes.len()
            &&& r == bytes.take(r.len() as int)
            &&& forall|i: int| r.len() <= i < bytes.len() ==> #[trigger] bytes[i] == 0
            &&& r.len() > 0 ==> r.last() != 0
        }),
    decreases bytes.len(),
{
    if bytes.len() > 0 && bytes.last() == 0 {
        only_trailing_zeros_are_cut(bytes.drop_last());
        let r = without_trailing_zeros(bytes);
        assert(bytes.drop_last().take(r.len() as int) =~= bytes.take(r.len() as int));
        assert forall|i: int| r.len() <= i < bytes.len() implies #[trigger] bytes[i] == 0 by {
            if i < bytes.len() - 1 {
                assert(bytes.drop_last()[i] == bytes[i]);
            }
        }
    } else {
        assert(bytes.take(bytes.len() as int) =~= bytes);
    }
}

/// The frame of a payload: its length in two bytes, the payload, and the checksum of both in
/// four, all most significant byte first.
pub proof fn frame_is_length_payload_and_checksum(payload: Seq<u8>)
    requires
        payload.len() <= u16::MAX,
    ensures
        ({
            let f = framed(payload);
            let n = payload.len() as int;
            &&& f.len() == n + 6
            &&& f[0] * 256 + f[1] == n
            &&& f.subrange(2, 2 + n) == payload
            &&& f[n + 2] * 16777216 + f[n + 3] * 65536 + f[n + 4] * 256 + f[n + 5]
                == crate::checksum::crc32(f.take(n + 2))
        }),
{
    let f = framed(payload);
    let n = payload.len() as int;
    let head = crate::frame::be16(n as u16);
    let body = head + payload;
    let crc = crate::frame::be32(crate::checksum::crc32(body));
    crate::frame::lemma_be16(n as u16);
    crate::frame::lemma_be32(crate::checksum::crc32(body));
    assert(f[0] == head[0] && f[1] == head[1]);
    assert(f.subrange(2, 2 + n) =~= payload);
    assert(f.take(n + 2) =~= body);
    assert(f[n + 2] == crc[0] && f[n + 3] == crc[1] && f[n + 4] == crc[2] && f[n + 5] == crc[3]);
}

/// Bytes are taken for a frame exactly where they hold as many as the length in front says,
/// and the checksum behind them is right; then the payload is what stands between.
pub proof fn only_whole_frames_are_taken(b: Seq<u8>)
    ensures
        ({
            let n = b[0] * 256 + b[1];
            let whole = b.len() >= 2 && b.len() >= n + 6;
            let good = b[n + 2] * 16777216 + b[n + 3] * 65536 + b[n + 4] * 256 + b[n + 5]
                == crate::checksum::crc32(b.take(n + 2));
            &&& deframed(b) is Some <==> whole && good
            &&& deframed(b) matches Some(payload) ==> payload == b.subrange(2, n + 2)
        }),
{
}

/// The tones lie at 1325, 1375 and so on up to 1675 Hz, and each is read at the bin nearest to
/// it of 8192 bins over 48000 Hz.
pub proof fn tones_are_read_at_their_nearest_bin(idx: int)
    requires
        0 <= idx < 8,
    ensures
        tone_hz(0) == 1325,
        tone_hz(7) == 1675,
        idx > 0 ==> tone_hz(idx) == tone_hz(idx - 1) + 50,
        -24_000 <= bin_of(idx) * 48_000 - tone_hz(idx) * 8192 <= 24_000,
{
}

/// What is demodulated of a window: nothing without a preamble, nothing where the window ends
/// with it or before, and else all whole symbols behind it.
pub proof fn whole_symbols_behind_the_preamble_are_read(start: Option<usize>, samples: usize)
    ensures
        match planned(start, samples as int) {
            ScanPlan::NoSignal => start is None,
            ScanPlan::Truncated => start matches Some(s) && s + 320 >= samples,
            ScanPlan::Demodulate { body_start, symbols } => {
                &&& start matches Some(s) && body_start == s + 320
                &&& body_start < samples
                &&& body_start + symbols * 7680 <= samples < body_start + symbols * 7680 + 7680
            },
        },
{
}

} // verus!
