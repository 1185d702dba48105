//! A transport without a radio: what is sent comes back.
use crate::modes::{ModeHint, ModeTable};
use crate::transport::{
    ChannelQualityReport, FrameErrorRate, PhyCall, PhyError, PhyTransport, RxFrame, TxToken,
};
use vstd::prelude::*;

verus! {

/// A loopback: every frame that is sent is received, in order, with nothing in between.
pub struct NullPhy {
    queue: Vec<RxFrame>,
    next_token: u64,
    record: Ghost<Seq<PhyCall>>,
}

impl NullPhy {
    /// The bytes of the frames that were sent and not received yet.
    pub closed spec fn waiting(self) -> Seq<Seq<u8>> {
        crate::pump::buffers(self.queue@)
    }

    /// The frames that were sent and not received yet.
    pub closed spec fn frames(self) -> Seq<RxFrame> {
        self.queue@
    }

    /// The number of the next token.
    pub closed spec fn next(self) -> u64 {
        self.next_token
    }

    /// A loopback with nothing in it.
    pub fn new() -> (p: Self)
        ensures
            p.frames() == Seq::<RxFrame>::empty(),
            p.next() == 0,
            p.waiting() == Seq::<Seq<u8>>::empty(),
            p.calls() == Seq::<PhyCall>::empty(),
    {
        let p = NullPhy { queue: Vec::new(), next_token: 0, record: Ghost(Seq::empty()) };
        assert(p.waiting() =~= Seq::<Seq<u8>>::empty());
        p
    }
}

/// The frame is a sent one as it comes back: whole, on the floor, and with nothing
/// measured on it.
pub open spec fn is_echo(f: RxFrame, payload: Seq<u8>) -> bool {
    &&& f.payload@ == payload
    &&& Some(f.mode) == crate::modes::named(crate::modes::catalogue(), "floor-wblo"@)
    &&& f.snr_mdb is None
    &&& f.decode_ok
}

impl PhyTransport for NullPhy {
    closed spec fn calls(&self) -> Seq<PhyCall> {
        self.record@
    }

    open spec fn may_report(&self, quality: ChannelQualityReport) -> bool {
        quality == (ChannelQualityReport {
            snr_mdb: None,
            errors: FrameErrorRate { failed: 0, total: 0 },
        })
    }

    open spec fn may_count(&self, frames: usize) -> bool {
        frames == 0
    }

    fn send_frame(&mut self, payload: &[u8], hint: ModeHint) -> (r: Result<TxToken, PhyError>)
        ensures
            r == Ok::<TxToken, PhyError>(TxToken(old(self).next())),
            final(self).next() == (if old(self).next() < u64::MAX {
                old(self).next() + 1
            } else {
                0
            }),
            final(self).waiting() == old(self).waiting().push(payload@),
            final(self).frames().len() == old(self).frames().len() + 1,
            final(self).frames().drop_last() == old(self).frames(),
            is_echo(final(self).frames().last(), payload@),
    {
        proof {
            crate::modes::catalogue_resolves_every_hint(ModeHint::Floor, None);
        }
        let mode = ModeTable::default().resolve(ModeHint::Floor, None);
        let frame = RxFrame::new(vstd::slice::slice_to_vec(payload), mode, None, true);
        self.queue.push(frame);
        let token = TxToken(self.next_token);
        self.next_token = self.next_token.wrapping_add(1);
        let r: Result<TxToken, PhyError> = Ok(token);
        proof {
            self.record@ = self.record@.push(PhyCall::Sent { payload: payload@, hint, answer: r });
            assert(self.waiting() =~= old(self).waiting().push(payload@));
            assert(self.frames().drop_last() =~= old(self).frames());
        }
        r
    }

    fn drain_rx(&mut self) -> (rx: Vec<RxFrame>)
        ensures
            rx@ == old(self).frames(),
            crate::pump::buffers(rx@) == old(self).waiting(),
            final(self).frames() == Seq::<RxFrame>::empty(),
            final(self).waiting() == Seq::<Seq<u8>>::empty(),
    {
        let mut rx: Vec<RxFrame> = Vec::new();
        std::mem::swap(&mut rx, &mut self.queue);
        proof {
            self.record@ = self.record@.push(
                PhyCall::Drained { payloads: crate::pump::buffers(rx@) },
            );
            assert(self.waiting() =~= Seq::<Seq<u8>>::empty());
        }
        rx
    }

    fn channel_quality(&self) -> (quality: ChannelQualityReport) {
        ChannelQualityReport::empty()
    }

    fn tx_in_flight(&self) -> (frames: usize) {
        0
    }
}

} // verus!
