//! A connection over any transport, at times that the caller supplies.
use crate::conn::{ConnState, Connection, HostEvent};
use crate::frame::{FrameModel, LinkFrame};
use crate::host::HostCommand;
use crate::modes::ModeHint;
use crate::session::ConnModel;
use crate::time::Duration;
use crate::transport::{PhyCall, PhyTransport, PhyError, TxToken};
use vstd::prelude::*;

verus! {

/// Drives a [`Connection`] over a transport: encodes what it has to say, decodes what
/// arrives, runs its timers and surfaces its events. A frame that does not decode is
/// dropped, as if it had been lost on the air.
pub struct Link<P: PhyTransport> {
    conn: Connection,
    phy: P,
    hint: ModeHint,
}

/// A connection after one turn at time `now`, in which `rx` arrived and `frames` were
/// taken for transmission.
pub open spec fn link_turn(
    s: ConnModel,
    now: u128,
    rx: Seq<Seq<u8>>,
    frames: Seq<FrameModel>,
    after: ConnModel,
) -> bool {
    crate::pump::drained(
        crate::pump::received_all(s, crate::pump::decodable(rx), now).timed_out(now),
        now,
        frames,
        after,
    )
}

impl<P: PhyTransport> Link<P> {
    /// The state of the connection.
    pub closed spec fn conn(self) -> ConnModel {
        self.conn@
    }

    /// The calls made to the transport so far.
    pub closed spec fn calls(self) -> Seq<PhyCall> {
        self.phy.calls()
    }

    /// The mode that frames are transmitted under.
    pub closed spec fn hint(self) -> ModeHint {
        self.hint
    }

    /// Wrap a connection and a transport, with the mode to transmit under.
    pub fn new(phy: P, conn: Connection, hint: ModeHint) -> (l: Self)
        ensures
            l.conn() == conn@,
            l.calls() == phy.calls(),
            l.hint() == hint,
    {
        Link { conn, phy, hint }
    }

    /// Begin connecting.
    pub fn connect(&mut self, now: Duration)
        requires
            old(self).conn().wf(),
            old(self).conn().remote is Some,
        ensures
            final(self).conn() == old(self).conn().connecting(now.nanos),
            final(self).conn().wf(),
            final(self).hint() == old(self).hint(),
            final(self).calls() == old(self).calls(),
    {
        self.conn.connect(now);
    }

    /// Enqueue a host message for reliable, in-order delivery.
    pub fn send(&mut self, data: Vec<u8>)
        requires
            old(self).conn().wf(),
            old(self).conn().has_room(data@.len() as int),
        ensures
            final(self).conn() == old(self).conn().sending(data@),
            final(self).conn().wf(),
            final(self).hint() == old(self).hint(),
            final(self).calls() == old(self).calls(),
    {
        self.conn.send(data);
    }

    /// Begin a clean teardown.
    pub fn disconnect(&mut self, now: Duration)
        requires
            old(self).conn().wf(),
        ensures
            final(self).conn() == old(self).conn().disconnecting(now.nanos),
            final(self).conn().wf(),
            final(self).hint() == old(self).hint(),
            final(self).calls() == old(self).calls(),
    {
        self.conn.disconnect(now);
    }

    /// Apply a host command.
    pub fn command(&mut self, cmd: HostCommand, now: Duration)
        requires
            old(self).conn().wf(),
            cmd is Connect ==> old(self).conn().remote is Some,
            cmd matches HostCommand::Send(data) ==> old(self).conn().has_room(data@.len() as int),
        ensures
            final(self).conn() == (match cmd {
                HostCommand::Connect => old(self).conn().connecting(now.nanos),
                HostCommand::Send(data) => old(self).conn().sending(data@),
                HostCommand::Disconnect => old(self).conn().disconnecting(now.nanos),
            }),
            final(self).conn().wf(),
            final(self).hint() == old(self).hint(),
            final(self).calls() == old(self).calls(),
    {
        match cmd {
            HostCommand::Connect => self.conn.connect(now),
            HostCommand::Send(data) => self.conn.send(data),
            HostCommand::Disconnect => self.conn.disconnect(now),
        }
    }

    /// Current connection state.
    pub fn state(&self) -> (s: ConnState)
        ensures
            s == self.conn().state,
    {
        self.conn.state()
    }

    /// One turn at time `now`: ingest what arrived, fire timers, hand the over to the
    /// transport, and return the events. Whatever the transport answers, the connection
    /// follows its rules on what arrived, and every frame of the over that encodes is
    /// handed over once, in order.
    pub fn poll(&mut self, now: Duration) -> (events: Vec<HostEvent>)
        requires
            old(self).conn().wf(),
        ensures
            final(self).conn().wf(),
            final(self).hint() == old(self).hint(),
            exists|
                rx: Seq<Seq<u8>>,
                frames: Seq<FrameModel>,
                answers: Seq<Result<TxToken, PhyError>>,
                after: ConnModel,
            |
                {
                    &&& #[trigger] link_turn(old(self).conn(), now.nanos, rx, frames, after)
                    &&& events@.map_values(|e: HostEvent| e@) == after.events
                    &&& final(self).conn() == (ConnModel { events: Seq::empty(), ..after })
                    &&& answers.len() == crate::driver::outgoing(frames).len()
                    &&& final(self).calls() == old(self).calls().push(
                        PhyCall::Drained { payloads: rx },
                    ) + #[trigger] crate::driver::sends(
                        crate::driver::outgoing(frames),
                        old(self).hint(),
                        answers,
                    )
                },
    {
        let received = self.phy.drain_rx();
        let inbound = crate::pump::decode_batch(&received);
        crate::pump::ingest(&mut self.conn, inbound, now);
        self.conn.handle_timeout(now);
        let over = crate::pump::take_over(&mut self.conn, now);
        let ghost frames = over@.map_values(|f: LinkFrame| f@);
        let ghost after = self.conn@;
        let wire = crate::driver::encode_over(&over);
        let answers = crate::driver::hand_to(&mut self.phy, &wire, self.hint);
        proof {
            assert(link_turn(
                old(self).conn(),
                now.nanos,
                crate::pump::buffers(received@),
                frames,
                after,
            ));
            assert(self.phy.calls() == old(self).calls().push(
                PhyCall::Drained { payloads: crate::pump::buffers(received@) },
            ) + crate::driver::sends(
                crate::driver::outgoing(frames),
                old(self).hint(),
                answers@,
            ));
        }
        crate::pump::take_events(&mut self.conn)
    }
}

/// In a turn the station first hears, then looks at its timers, then says all that it has to
/// say. So where nothing arrives and no timer is due, it says what it had to say before; and
/// a turn that a frame arrives in is the turn of a station that has heard it.
pub proof fn station_hears_before_it_speaks(
    s: ConnModel,
    now: u128,
    rx: Seq<Seq<u8>>,
    frames: Seq<FrameModel>,
    after: ConnModel,
)
    requires
        link_turn(s, now, rx, frames, after),
    ensures
        after.next_frame() is None,
        rx.len() == 0 ==> crate::pump::drained(s.timed_out(now), now, frames, after),
        rx.len() == 0 && !(s.deadline matches Some(d) && now >= d) ==> {
            &&& frames.len() > 0 <==> s.next_frame() is Some
            &&& frames.len() > 0 ==> s.next_frame() == Some(frames[0])
            &&& frames.len() == 0 ==> after == s
        },
        rx.len() > 0 ==> (match crate::frame::decoded(rx[0]) {
            Ok(f) => link_turn(s.received(f, now), now, rx.drop_first(), frames, after),
            Err(e) => link_turn(s, now, rx.drop_first(), frames, after),
        }),
{
    let heard = crate::pump::received_all(s, crate::pump::decodable(rx), now).timed_out(now);
    crate::pump::turn_takes_all_there_is_to_say(heard, now, frames, after, 0);
    if rx.len() > 0 {
        let rest = rx.drop_first();
        assert(rx =~= Seq::<Seq<u8>>::empty().push(rx[0]) + rest);
        crate::pump::decodable_frames_stand_in_order(Seq::empty(), rx[0], rest);
        match crate::frame::decoded(rx[0]) {
            Ok(f) => {
                assert(crate::pump::decodable(rx) =~= seq![f] + crate::pump::decodable(rest));
                crate::pump::frames_are_taken_in_one_by_one(
                    s,
                    f,
                    crate::pump::decodable(rest),
                    now,
                );
            },
            Err(e) => {
                assert(crate::pump::decodable(rx) =~= crate::pump::decodable(rest));
            },
        }
    }
}

} // verus!
