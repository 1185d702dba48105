//! The seam between the link and a PHY: what the link asks of a transport, and what
//! a transport reports back.
use crate::modes::{ModeHint, ResolvedMode};
use vstd::prelude::*;

verus! {

/// Errors of a PHY operation.
#[allow(inconsistent_fields)]
#[derive(Debug, PartialEq, Eq)]
pub enum PhyError {
    /// No frame could be found where one was expected.
    FrameDetect(String),
    /// The error-correcting code could not recover the block.
    FecDecode(String),
    /// The audio device or the worker behind it failed.
    AudioIo(String),
    /// The payload does not fit one frame.
    PayloadTooLarge {
        /// Attempted payload length.
        actual: usize,
        /// Largest payload that fits.
        capacity: usize,
    },
}

/// Names one frame handed to a transport.
#[derive(Debug, Clone, Copy, PartialEq, Eq, Structural)]
pub struct TxToken(pub u64);

/// A fraction of frames that failed; zero where there were none.
#[derive(Debug, Clone, Copy, PartialEq, Eq, Structural)]
pub struct FrameErrorRate {
    /// Frames that failed.
    pub failed: u32,
    /// Frames observed.
    pub total: u32,
}

impl FrameErrorRate {
    /// The rate is at least so many thousandths.
    pub open spec fn at_least(self, per_mille: u32) -> bool {
        if self.total == 0 {
            per_mille == 0
        } else {
            self.failed * 1000 >= per_mille * self.total
        }
    }

    /// The rate is at most so many thousandths.
    pub open spec fn at_most(self, per_mille: u32) -> bool {
        self.total == 0 || self.failed * 1000 <= per_mille * self.total
    }

    /// The rate is at least the other one; a rate of nothing observed is zero.
    pub open spec fn no_lower_than(self, other: Self) -> bool {
        if other.total == 0 {
            true
        } else if self.total == 0 {
            other.failed == 0
        } else {
            self.failed * other.total >= other.failed * self.total
        }
    }

    /// The rate of nothing observed.
    pub fn none() -> (r: Self)
        ensures
            r == (FrameErrorRate { failed: 0, total: 0 }),
    {
        FrameErrorRate { failed: 0, total: 0 }
    }

    /// Whether the rate is at least so many thousandths.
    pub fn is_at_least(&self, per_mille: u32) -> (b: bool)
        ensures
            b == self.at_least(per_mille),
    {
        proof {
            lemma_products(self.failed, per_mille, self.total);
        }
        if self.total == 0 {
            per_mille == 0
        } else {
            self.failed as u64 * 1000 >= per_mille as u64 * self.total as u64
        }
    }

    /// Whether the rate is at most so many thousandths.
    pub fn is_at_most(&self, per_mille: u32) -> (b: bool)
        ensures
            b == self.at_most(per_mille),
    {
        proof {
            lemma_products(self.failed, per_mille, self.total);
        }
        self.total == 0 || self.failed as u64 * 1000 <= per_mille as u64 * self.total as u64
    }
}

/// The products of a comparison fit 64 bits.
proof fn lemma_products(a: u32, b: u32, c: u32)
    ensures
        a * 1000 <= u64::MAX,
        0 <= b * c <= u64::MAX,
{
    assert(0 <= b * c <= 0xFFFF_FFFFu32 * 0xFFFF_FFFFu32) by (nonlinear_arith)
        requires
            0 <= b <= 0xFFFF_FFFFu32,
            0 <= c <= 0xFFFF_FFFFu32,
    ;
}

/// A transport's recent view of the channel. SNR is in thousandths of a decibel, and
/// absent before any measurement.
#[derive(Debug, Clone, Copy, PartialEq, Eq)]
pub struct ChannelQualityReport {
    /// SNR of the latest over that carried a measurement.
    pub snr_mdb: Option<i32>,
    /// Recent frame errors.
    pub errors: FrameErrorRate,
}

impl ChannelQualityReport {
    /// A report with no measurement.
    pub fn empty() -> (q: Self)
        ensures
            q == (ChannelQualityReport {
                snr_mdb: None,
                errors: FrameErrorRate { failed: 0, total: 0 },
            }),
    {
        ChannelQualityReport { snr_mdb: None, errors: FrameErrorRate::none() }
    }

    /// A report of a measured SNR and of the frames behind it.
    pub fn from_parts(snr_mdb: Option<i32>, frames_total: u32, frames_failed: u32) -> (q: Self)
        ensures
            q == (ChannelQualityReport {
                snr_mdb,
                errors: FrameErrorRate { failed: frames_failed, total: frames_total },
            }),
    {
        ChannelQualityReport {
            snr_mdb,
            errors: FrameErrorRate { failed: frames_failed, total: frames_total },
        }
    }

    /// SNR of the latest over that carried a measurement.
    pub fn aggregate_snr_mdb(&self) -> (s: Option<i32>)
        ensures
            s == self.snr_mdb,
    {
        self.snr_mdb
    }

    /// Recent frame-error rate.
    pub fn frame_error_rate(&self) -> (r: FrameErrorRate)
        ensures
            r == self.errors,
    {
        self.errors
    }

    /// Number of frames behind the error rate.
    pub fn recent_frames_total(&self) -> (n: u32)
        ensures
            n == self.errors.total,
    {
        self.errors.total
    }
}

/// A frame that a transport received.
#[derive(Debug, Clone)]
pub struct RxFrame {
    /// The frame's bytes.
    pub payload: Vec<u8>,
    /// The mode it was received under.
    pub mode: ResolvedMode,
    /// SNR measured on it.
    pub snr_mdb: Option<i32>,
    /// Whether it decoded cleanly.
    pub decode_ok: bool,
}

impl RxFrame {
    /// A received frame.
    pub fn new(
        payload: Vec<u8>,
        mode: ResolvedMode,
        snr_mdb: Option<i32>,
        decode_ok: bool,
    ) -> (f: Self)
        ensures
            f == (RxFrame { payload, mode, snr_mdb, decode_ok }),
    {
        RxFrame { payload, mode, snr_mdb, decode_ok }
    }

    /// The frame's bytes.
    pub fn payload(&self) -> (p: &[u8])
        ensures
            p@ == self.payload@,
    {
        self.payload.as_slice()
    }
}

/// A call that changes a transport, with what came back.
#[allow(inconsistent_fields)]
pub ghost enum PhyCall {
    /// A frame was queued.
    Sent {
        /// Its bytes.
        payload: Seq<u8>,
        /// The mode that was asked for.
        hint: ModeHint,
        /// What the transport answered.
        answer: Result<TxToken, PhyError>,
    },
    /// What was received was taken.
    Drained {
        /// The bytes of each frame.
        payloads: Seq<Seq<u8>>,
    },
}

/// What the link asks of a PHY. Nothing is taken for granted of what an implementation
/// answers: the link is proved for every answer.
///
/// The contracts speak of the calls that are made. The record of them is ghost: it stands
/// for what any implementation could note down, as [`NullPhy`](crate::null_phy::NullPhy)
/// does. The bodies below only let an implementation that is written without proofs do
/// without the three ghost functions; one that is proved gives its own.
pub trait PhyTransport {
    /// The calls made so far that change the transport.
    open spec fn calls(&self) -> Seq<PhyCall> {
        Seq::empty()
    }

    /// The transport as it stands may report this quality.
    open spec fn may_report(&self, quality: ChannelQualityReport) -> bool {
        true
    }

    /// The transport as it stands may count so many frames in flight.
    open spec fn may_count(&self, frames: usize) -> bool {
        true
    }

    /// Queue one frame for transmission under a mode.
    fn send_frame(&mut self, payload: &[u8], hint: ModeHint) -> (r: Result<TxToken, PhyError>)
        ensures
            final(self).calls() == old(self).calls().push(
                PhyCall::Sent { payload: payload@, hint, answer: r },
            ),
    ;

    /// Take the frames received since the last call, oldest first.
    fn drain_rx(&mut self) -> (rx: Vec<RxFrame>)
        ensures
            final(self).calls() == old(self).calls().push(
                PhyCall::Drained { payloads: crate::pump::buffers(rx@) },
            ),
    ;

    /// The recent quality of the channel.
    fn channel_quality(&self) -> (quality: ChannelQualityReport)
        ensures
            self.may_report(quality),
    ;

    /// Frames queued or being keyed.
    fn tx_in_flight(&self) -> (frames: usize)
        ensures
            self.may_count(frames),
    ;
}

/// The error rate is compared as a fraction: with so many thousandths, and with another rate.
/// Nothing observed is no error. The more frames fail, the higher the rate.
pub proof fn rates_compare_as_fractions(r: FrameErrorRate, more: FrameErrorRate, per_mille: u32)
    requires
        r.total > 0,
        more.total == r.total,
        more.failed >= r.failed,
    ensures
        r.at_least(per_mille) || r.at_most(per_mille),
        r.at_least(per_mille) && r.at_most(per_mille) <==> 1000 * r.failed == r.total * per_mille,
        r.at_least(0),
        r.failed <= r.total ==> r.at_most(1000),
        r.failed == r.total ==> r.at_least(1000),
        r.failed == 0 ==> r.at_most(0),
        r.failed > 0 ==> !r.at_most(0),
        r.at_least(per_mille) ==> more.at_least(per_mille),
        more.at_most(per_mille) ==> r.at_most(per_mille),
        more.no_lower_than(r),
        more.failed > r.failed ==> !r.no_lower_than(more),
        (FrameErrorRate { failed: 0, total: 0 }).at_most(per_mille),
        (FrameErrorRate { failed: 0, total: 0 }).at_least(per_mille) <==> per_mille == 0,
{
    let (f, g, t, p) = (r.failed as int, more.failed as int, r.total as int, per_mille as int);
    assert(p * t == t * p) by (nonlinear_arith);
    assert(f <= t ==> f * 1000 <= 1000 * t);
    assert(g * t >= f * t) by (nonlinear_arith)
        requires
            g >= f,
            t > 0,
    ;
    if g > f {
        assert(g * t > f * t) by (nonlinear_arith)
            requires
                g > f,
                t > 0,
        ;
    }
}

} // verus!
