//! A connection over a transport that keys in its own time.
//!
//! A transport only queues what it is given; a worker keys it later. So the driver:
//! - runs the connection on a logical clock that stands still while the worker keys,
//!   for its timers mean "how long after I stop keying";
//! - begins no over while the worker is still keying the last one;
//! - identifies the station in real time, at least every [`ID_INTERVAL_SECS`] seconds
//!   of a communication;
//! - collects the errors of queueing.
use crate::clock::Clock;
use crate::conn::{ConnState, Connection, HostEvent};
use crate::frame::{FrameModel, FrameType, LinkFrame};
use crate::host::HostCommand;
use crate::modes::ModeHint;
use crate::session::ConnModel;
use crate::time::Duration;
use crate::transport::{ChannelQualityReport, PhyCall, PhyError, PhyTransport, TxToken};
use vstd::prelude::*;

verus! {

/// How often to look for the end of a transmission, in milliseconds.
pub const TX_POLL_INTERVAL_MS: u64 = 20;

/// Longest real time between identifications, in seconds.
pub const ID_INTERVAL_SECS: u64 = 540;

/// What the driver keeps about transmissions, in real time.
#[derive(Debug, Clone, Copy, PartialEq, Eq)]
pub struct TxPacing {
    /// Whether an over of ours is still being keyed.
    pub tx_active: bool,
    /// When that over began.
    pub tx_start: Duration,
    /// Time spent keying all overs before it.
    pub tx_airtime: Duration,
    /// When the station was last identified.
    pub last_id: Option<Duration>,
}

/// The difference of two times, or zero.
pub open spec fn minus(a: u128, b: u128) -> u128 {
    if a >= b {
        (a - b) as u128
    } else {
        0
    }
}

impl TxPacing {
    /// Before the first transmission.
    pub open spec fn initial() -> Self {
        TxPacing {
            tx_active: false,
            tx_start: Duration { nanos: 0 },
            tx_airtime: Duration { nanos: 0 },
            last_id: None,
        }
    }

    /// At `wall`, the time spent keying is no more than what has passed, and an over that
    /// is being keyed began after all keying before it.
    pub open spec fn in_step(self, wall: u128) -> bool {
        &&& self.tx_airtime.nanos <= wall
        &&& self.tx_active ==> self.tx_airtime.nanos <= self.tx_start.nanos <= wall
    }

    /// The logical time, where the clock read `first` and then `second`: real time less
    /// the time spent keying, the over that is being keyed included.
    pub open spec fn logical(self, first: u128, second: u128) -> u128 {
        let pending = if self.tx_active {
            minus(first, self.tx_start.nanos)
        } else {
            0
        };
        minus(second, crate::time::capped_sum(self.tx_airtime.nanos, pending))
    }

    /// After a look at the worker at `wall`: once it is idle, the time that it keyed is
    /// added up.
    pub open spec fn settled(self, wall: u128, in_flight: usize) -> Self {
        if self.tx_active && in_flight == 0 {
            TxPacing {
                tx_active: false,
                tx_airtime: Duration {
                    nanos: crate::time::capped_sum(
                        self.tx_airtime.nanos,
                        minus(wall, self.tx_start.nanos),
                    ),
                },
                ..self
            }
        } else {
            self
        }
    }

    /// Whether the station is to be identified.
    pub open spec fn is_id_due(self, wall: u128) -> bool {
        match self.last_id {
            None => true,
            Some(t) => minus(wall, t.nanos) >= ID_INTERVAL_SECS * crate::time::NANOS_PER_SEC,
        }
    }

    /// After an over was handed to the worker at `wall`: any frame that it took starts
    /// the keying, and an ID-bearing one among them identifies the station.
    pub open spec fn handed_over(self, wall: u128, any: bool, identified: bool) -> Self {
        TxPacing {
            tx_active: self.tx_active || any,
            tx_start: if any {
                Duration { nanos: wall }
            } else {
                self.tx_start
            },
            last_id: if identified {
                Some(Duration { nanos: wall })
            } else {
                self.last_id
            },
            ..self
        }
    }

    /// When the driver wants to be polled next, where the time is `wall` and the connection's
    /// timer is due at `deadline`.
    pub open spec fn woken_at(self, wall: u128, deadline: Option<u128>) -> Option<u128> {
        if self.tx_active {
            Some(
                crate::time::capped_sum(
                    wall,
                    (TX_POLL_INTERVAL_MS * crate::time::NANOS_PER_MILLI) as u128,
                ),
            )
        } else {
            match deadline {
                Some(d) => Some(crate::time::capped_sum(d, self.tx_airtime.nanos)),
                None => None,
            }
        }
    }

    /// Before the first transmission.
    pub fn new() -> (p: Self)
        ensures
            p == TxPacing::initial(),
    {
        TxPacing {
            tx_active: false,
            tx_start: Duration::zero(),
            tx_airtime: Duration::zero(),
            last_id: None,
        }
    }

    /// The logical time from two readings of the clock.
    pub fn logical_at(&self, first: Duration, second: Duration) -> (t: Duration)
        ensures
            t.nanos == self.logical(first.nanos, second.nanos),
    {
        let pending = if self.tx_active {
            first.saturating_sub(self.tx_start)
        } else {
            Duration::zero()
        };
        second.saturating_sub(self.tx_airtime.saturating_add(pending))
    }

    /// Add up the time spent keying, once the worker is idle.
    pub fn settle(&mut self, wall: Duration, in_flight: usize)
        ensures
            *final(self) == old(self).settled(wall.nanos, in_flight),
    {
        if self.tx_active && in_flight == 0 {
            self.tx_airtime = self.tx_airtime.saturating_add(wall.saturating_sub(self.tx_start));
            self.tx_active = false;
        }
    }

    /// Whether the station is to be identified: it never was, or not for too long.
    pub fn id_due(&self, wall: Duration) -> (b: bool)
        ensures
            b == self.is_id_due(wall.nanos),
    {
        match self.last_id {
            None => true,
            Some(t) => wall.saturating_sub(t).nanos >= Duration::from_secs(ID_INTERVAL_SECS).nanos,
        }
    }

    /// When the driver wants to be polled next: soon while the worker keys, else when the
    /// connection's timer is due in real time.
    pub fn wakeup(&self, wall: Duration, deadline: Option<Duration>) -> (t: Option<Duration>)
        ensures
            match t {
                Some(w) => if self.tx_active {
                    w.nanos == crate::time::capped_sum(
                        wall.nanos,
                        (TX_POLL_INTERVAL_MS * crate::time::NANOS_PER_MILLI) as u128,
                    )
                } else {
                    deadline matches Some(d) && w.nanos == crate::time::capped_sum(
                        d.nanos,
                        self.tx_airtime.nanos,
                    )
                },
                None => !self.tx_active && deadline is None,
            },
            (match t {
                Some(w) => Some(w.nanos),
                None => None,
            }) == self.woken_at(
                wall.nanos,
                match deadline {
                    Some(d) => Some(d.nanos),
                    None => None,
                },
            ),
    {
        if self.tx_active {
            return Some(wall.saturating_add(Duration::from_millis(TX_POLL_INTERVAL_MS)));
        }
        match deadline {
            Some(d) => Some(d.saturating_add(self.tx_airtime)),
            None => None,
        }
    }

    /// Note the outcome of handing an over to the worker.
    pub fn hand_over(&mut self, wall: Duration, any: bool, identified: bool)
        ensures
            *final(self) == old(self).handed_over(wall.nanos, any, identified),
    {
        if identified {
            self.last_id = Some(wall);
        }
        if any {
            self.tx_active = true;
            self.tx_start = wall;
        }
    }
}

/// The over as it goes to the transport: where the identification is due, the connection
/// is up and the over does not begin with an ID-bearing frame, one is put in front.
pub open spec fn identified_over(
    s: ConnModel,
    frames: Seq<FrameModel>,
    due: bool,
) -> Seq<FrameModel> {
    if frames.len() > 0 && !frames[0].frame_type.bears_id() && s.state == ConnState::Connected
        && due {
        seq![s.control(FrameType::Id, 0)] + frames
    } else {
        frames
    }
}

/// Put the identification in front of an over where it is due.
pub fn identify(conn: &Connection, over: Vec<LinkFrame>, due: bool) -> (out: Vec<LinkFrame>)
    requires
        conn@.wf(),
    ensures
        out@.map_values(|f: LinkFrame| f@) == identified_over(
            conn@,
            over@.map_values(|f: LinkFrame| f@),
            due,
        ),
{
    let ghost frames = over@.map_values(|f: LinkFrame| f@);
    if over.len() > 0 && !over[0].frame_type.is_id_bearing() && conn.state()
        == ConnState::Connected && due {
        let mut out = over;
        let id = conn.make_id_frame();
        out.insert(0, id);
        assert(out@.map_values(|f: LinkFrame| f@) =~= seq![id@] + frames);
        out
    } else {
        over
    }
}

/// A frame as it is handed to a transport.
pub struct Outgoing {
    /// Its wire bytes.
    pub bytes: Vec<u8>,
    /// Whether it identifies the station.
    pub id_bearing: bool,
}

/// The wire bytes of those frames of an over that encode, and whether each identifies the
/// station.
pub open spec fn outgoing(frames: Seq<FrameModel>) -> Seq<(Seq<u8>, bool)>
    decreases frames.len(),
{
    if frames.len() == 0 {
        Seq::empty()
    } else {
        let before = outgoing(frames.drop_last());
        match frames.last().encoded() {
            Ok(bytes) => before.push((bytes, frames.last().frame_type.bears_id())),
            Err(e) => before,
        }
    }
}

/// Encode an over.
pub fn encode_over(over: &Vec<LinkFrame>) -> (out: Vec<Outgoing>)
    ensures
        out@.map_values(|o: Outgoing| (o.bytes@, o.id_bearing)) == outgoing(
            over@.map_values(|f: LinkFrame| f@),
        ),
{
    let ghost frames = over@.map_values(|f: LinkFrame| f@);
    let mut out: Vec<Outgoing> = Vec::new();
    let mut i: usize = 0;
    proof {
        assert(frames.take(0) =~= Seq::empty());
        assert(out@.map_values(|o: Outgoing| (o.bytes@, o.id_bearing)) =~= Seq::empty());
    }
    while i < over.len()
        invariant
            i <= over@.len(),
            frames == over@.map_values(|f: LinkFrame| f@),
            out@.map_values(|o: Outgoing| (o.bytes@, o.id_bearing)) == outgoing(
                frames.take(i as int),
            ),
        decreases over.len() - i,
    {
        let ghost before = out@;
        proof {
            assert(frames.take(i + 1).drop_last() =~= frames.take(i as int));
            assert(frames.take(i + 1).last() == over@[i as int]@);
        }
        if let Ok(bytes) = over[i].encode() {
            let id_bearing = over[i].frame_type.is_id_bearing();
            out.push(Outgoing { bytes, id_bearing });
            assert(out@.map_values(|o: Outgoing| (o.bytes@, o.id_bearing)) =~= before.map_values(
                |o: Outgoing| (o.bytes@, o.id_bearing),
            ).push((bytes@, id_bearing)));
        }
        i = i + 1;
    }
    assert(frames.take(over@.len() as int) =~= frames);
    out
}

/// What a transport answered to the frames of an over, one answer for each.
pub type Answers = Seq<Result<TxToken, PhyError>>;

/// Whether the transport took any frame.
pub open spec fn took_any(answers: Answers) -> bool {
    exists|i: int| 0 <= i < answers.len() && (#[trigger] answers[i]) is Ok
}

/// Whether the transport took a frame that identifies the station.
pub open spec fn took_id(sent: Seq<(Seq<u8>, bool)>, answers: Answers) -> bool {
    exists|i: int| 0 <= i < answers.len() && (#[trigger] answers[i]) is Ok && sent[i].1
}

/// The errors among the answers, in order.
pub open spec fn refusals(answers: Answers) -> Seq<PhyError>
    decreases answers.len(),
{
    if answers.len() == 0 {
        Seq::empty()
    } else {
        let before = refusals(answers.drop_last());
        match answers.last() {
            Ok(t) => before,
            Err(e) => before.push(e),
        }
    }
}

/// A connection once what arrived was taken in: measured first, so that the frames are
/// judged by the fresh reading, and only if something decoded; and the timers run.
#[verifier::opaque]
pub open spec fn heard_from(
    s: ConnModel,
    rx: Seq<Seq<u8>>,
    quality: ChannelQualityReport,
    now: u128,
) -> ConnModel {
    let inbound = crate::pump::decodable(rx);
    let measured = if inbound.len() > 0 {
        s.measured(quality.snr_mdb, quality.errors, quality.errors.total)
    } else {
        s
    };
    crate::pump::received_all(measured, inbound, now).timed_out(now)
}

/// Take in what was decoded, with the channel's quality, and run the timers.
pub fn take_in(
    conn: &mut Connection,
    inbound: Vec<LinkFrame>,
    quality: ChannelQualityReport,
    now: Duration,
)
    requires
        old(conn)@.wf(),
    ensures
        final(conn)@.wf(),
        forall|rx: Seq<Seq<u8>>|
            inbound@.map_values(|f: LinkFrame| f@) == #[trigger] crate::pump::decodable(rx)
                ==> final(conn)@ == heard_from(old(conn)@, rx, quality, now.nanos),
{
    reveal(heard_from);
    if inbound.len() > 0 {
        conn.observe_quality(quality.snr_mdb, quality.errors, quality.recent_frames_total());
    }
    crate::pump::ingest(conn, inbound, now);
    conn.handle_timeout(now);
}

/// The calls that hand an over to a transport under a mode.
pub open spec fn sends(sent: Seq<(Seq<u8>, bool)>, hint: ModeHint, answers: Answers) -> Seq<
    PhyCall,
> {
    Seq::new(
        answers.len(),
        |i: int| PhyCall::Sent { payload: sent[i].0, hint, answer: answers[i] },
    )
}

/// Hand an over to a transport, frame by frame, and collect its answers.
pub(crate) fn hand_to<P: PhyTransport>(phy: &mut P, wire: &Vec<Outgoing>, hint: ModeHint) -> (answers: Vec<
    Result<TxToken, PhyError>,
>)
    ensures
        answers@.len() == wire@.len(),
        final(phy).calls() == old(phy).calls() + sends(
            wire@.map_values(|o: Outgoing| (o.bytes@, o.id_bearing)),
            hint,
            answers@,
        ),
{
    let ghost sent = wire@.map_values(|o: Outgoing| (o.bytes@, o.id_bearing));
    let ghost before = phy.calls();
    let mut answers: Vec<Result<TxToken, PhyError>> = Vec::new();
    let mut i: usize = 0;
    assert(before + sends(sent, hint, answers@) =~= before);
    while i < wire.len()
        invariant
            i <= wire@.len(),
            sent == wire@.map_values(|o: Outgoing| (o.bytes@, o.id_bearing)),
            answers@.len() == i,
            phy.calls() == before + sends(sent, hint, answers@),
        decreases wire.len() - i,
    {
        let ghost earlier = answers@;
        let answer = phy.send_frame(wire[i].bytes.as_slice(), hint);
        answers.push(answer);
        proof {
            assert(sent[i as int].0 == wire@[i as int].bytes@);
            assert(before + sends(sent, hint, answers@) =~= (before + sends(
                sent,
                hint,
                earlier,
            )).push(PhyCall::Sent { payload: wire@[i as int].bytes@, hint, answer }));
        }
        i = i + 1;
    }
    answers
}

/// Sum up a transport's answers: whether it took any frame, whether it took one that
/// identifies the station, and its errors.
pub fn tally(
    wire: &Vec<Outgoing>,
    answers: Vec<Result<TxToken, PhyError>>,
    errors: &mut Vec<PhyError>,
) -> (r: (bool, bool))
    requires
        answers@.len() <= wire@.len(),
    ensures
        r.0 == took_any(answers@),
        r.1 == took_id(wire@.map_values(|o: Outgoing| (o.bytes@, o.id_bearing)), answers@),
        final(errors)@ == old(errors)@ + refusals(answers@),
{
    let ghost sent = wire@.map_values(|o: Outgoing| (o.bytes@, o.id_bearing));
    let ghost all = answers@;
    let n: usize = answers.len();
    let mut left = answers;
    let mut any = false;
    let mut identified = false;
    let mut i: usize = 0;
    proof {
        assert(all.take(0) =~= Seq::empty());
        assert(errors@ + refusals(all.take(0)) =~= errors@);
    }
    while i < n
        invariant
            i <= n == all.len(),
            n <= wire@.len(),
            left@ == all.skip(i as int),
            sent == wire@.map_values(|o: Outgoing| (o.bytes@, o.id_bearing)),
            any == took_any(all.take(i as int)),
            identified == took_id(sent, all.take(i as int)),
            errors@ == old(errors)@ + refusals(all.take(i as int)),
        decreases n - i,
    {
        let ghost before = all.take(i as int);
        let answer = left.remove(0);
        proof {
            assert(left@ =~= all.skip(i + 1));
            assert(answer == all[i as int]);
            assert(all.take(i + 1) =~= before.push(answer));
            assert(all.take(i + 1).drop_last() =~= before);
            assert(sent[i as int].1 == wire@[i as int].id_bearing);
            lemma_took(sent, before, answer);
        }
        match answer {
            Ok(_) => {
                any = true;
                if wire[i].id_bearing {
                    identified = true;
                }
            },
            Err(e) => {
                errors.push(e);
                assert(errors@ =~= old(errors)@ + refusals(all.take(i + 1)));
            },
        }
        i = i + 1;
    }
    assert(all.take(n as int) =~= all);
    (any, identified)
}

/// The state of a driver.
#[verifier::ext_equal]
pub struct DriverModel {
    /// The connection.
    pub conn: ConnModel,
    /// Transmissions in real time.
    pub pacing: TxPacing,
    /// Errors that were not collected yet.
    pub errors: Seq<PhyError>,
}

/// What the outside answers during one poll of a driver.
pub struct PollAnswers {
    /// The time at the start.
    pub wall: u128,
    /// Frames in flight at the start.
    pub in_flight: usize,
    /// First reading of the clock for the logical time.
    pub first: u128,
    /// Second reading of the clock for the logical time.
    pub second: u128,
    /// What was received.
    pub rx: Seq<Seq<u8>>,
    /// The quality of the channel.
    pub quality: ChannelQualityReport,
    /// Frames in flight before the over.
    pub in_flight_again: usize,
    /// The frames that the connection had to say.
    pub frames: Seq<FrameModel>,
    /// Answers to the frames of the over.
    pub answers: Answers,
    /// The connection after its frames were taken.
    pub after: ConnModel,
}

impl PollAnswers {
    /// The logical time of the poll.
    pub open spec fn logical(self, d: DriverModel) -> u128 {
        d.pacing.settled(self.wall, self.in_flight).logical(self.first, self.second)
    }

    /// The connection once what arrived was taken in.
    pub open spec fn heard(self, d: DriverModel) -> ConnModel {
        heard_from(d.conn, self.rx, self.quality, self.logical(d))
    }

    /// Whether the worker was free for another over.
    pub open spec fn free(self, d: DriverModel) -> bool {
        !d.pacing.settled(self.wall, self.in_flight).tx_active && self.in_flight_again == 0
    }

    /// What is handed to the transport.
    pub open spec fn handed(self, d: DriverModel) -> Seq<(Seq<u8>, bool)> {
        outgoing(
            identified_over(
                self.heard(d),
                self.frames,
                d.pacing.settled(self.wall, self.in_flight).is_id_due(self.wall),
            ),
        )
    }

    /// The answers fit the poll: the connection's frames are taken only if the worker is
    /// free, and each frame handed over has one answer.
    pub open spec fn fit(self, d: DriverModel) -> bool {
        if self.free(d) {
            &&& crate::pump::drained(self.heard(d), self.logical(d), self.frames, self.after)
            &&& self.answers.len() == self.handed(d).len()
        } else {
            &&& self.after == self.heard(d)
            &&& self.answers.len() == 0
        }
    }

    /// The driver after the poll.
    pub open spec fn outcome(self, d: DriverModel) -> DriverModel {
        let settled = d.pacing.settled(self.wall, self.in_flight);
        DriverModel {
            conn: ConnModel { events: Seq::empty(), ..self.after },
            pacing: if self.free(d) {
                settled.handed_over(
                    self.wall,
                    took_any(self.answers),
                    took_id(self.handed(d), self.answers),
                )
            } else {
                settled
            },
            errors: d.errors + refusals(self.answers),
        }
    }
}

/// A driver after a host command at the logical time `now`.
pub open spec fn commanded(d: DriverModel, cmd: HostCommand, now: u128) -> DriverModel {
    DriverModel {
        conn: match cmd {
            HostCommand::Connect => d.conn.connecting(now),
            HostCommand::Send(data) => d.conn.sending(data@),
            HostCommand::Disconnect => d.conn.disconnecting(now),
        },
        ..d
    }
}

/// Real-time driver of a [`Connection`] over a transport and a clock. Frames go out
/// under the connection's current mode.
pub struct Driver<P: PhyTransport, C: Clock> {
    conn: Connection,
    phy: P,
    clock: C,
    pacing: TxPacing,
    errors: Vec<PhyError>,
}

impl<P: PhyTransport, C: Clock> View for Driver<P, C> {
    type V = DriverModel;

    closed spec fn view(&self) -> DriverModel {
        DriverModel { conn: self.conn@, pacing: self.pacing, errors: self.errors@ }
    }
}

impl<P: PhyTransport, C: Clock> Driver<P, C> {
    /// The transport.
    pub closed spec fn phy(self) -> P {
        self.phy
    }

    /// The clock.
    pub closed spec fn clock(self) -> C {
        self.clock
    }

    /// What a poll was answered is what its clock and its transport may answer: `mid` is
    /// the transport once what it received was taken.
    pub open spec fn was_answered(self, a: PollAnswers, mid: P) -> bool {
        let d = self@;
        let settled = d.pacing.settled(a.wall, a.in_flight);
        &&& self.clock().may_read(a.wall)
        &&& d.pacing.tx_active ==> self.phy().may_count(a.in_flight)
        &&& settled.tx_active ==> self.clock().may_read(a.first)
        &&& self.clock().may_read(a.second)
        &&& mid.calls() == self.phy().calls().push(PhyCall::Drained { payloads: a.rx })
        &&& crate::pump::decodable(a.rx).len() > 0 ==> mid.may_report(a.quality)
        &&& !settled.tx_active ==> mid.may_count(a.in_flight_again)
    }

    /// The logical time is one that the clock's readings may give.
    pub open spec fn may_be_now(self, first: u128, second: u128) -> bool {
        &&& self@.pacing.tx_active ==> self.clock().may_read(first)
        &&& self.clock().may_read(second)
    }

    /// Wrap a connection, a transport and a clock.
    pub fn new(phy: P, conn: Connection, clock: C) -> (d: Self)
        ensures
            d.phy() == phy,
            d.clock() == clock,
            d@ == (DriverModel {
                conn: conn@,
                pacing: TxPacing::initial(),
                errors: Seq::empty(),
            }),
    {
        Driver { conn, phy, clock, pacing: TxPacing::new(), errors: Vec::new() }
    }

    /// The connection's time: real time less the time spent keying.
    fn logical(&self) -> (t: Duration)
        ensures
            exists|first: u128, second: u128|
                self.may_be_now(first, second) && t.nanos == #[trigger] self@.pacing.logical(
                    first,
                    second,
                ),
    {
        let first = if self.pacing.tx_active {
            self.clock.now()
        } else {
            Duration::zero()
        };
        let second = self.clock.now();
        let t = self.pacing.logical_at(first, second);
        assert(t.nanos == self@.pacing.logical(first.nanos, second.nanos));
        t
    }

    /// Begin connecting, at the logical time that the clock gives.
    pub fn connect(&mut self)
        requires
            old(self)@.conn.wf(),
            old(self)@.conn.remote is Some,
        ensures
            exists|first: u128, second: u128|
                old(self).may_be_now(first, second) && final(self)@ == (DriverModel {
                    conn: old(self)@.conn.connecting(
                        #[trigger] old(self)@.pacing.logical(first, second),
                    ),
                    ..old(self)@
                }),
            final(self)@.conn.wf(),
            final(self).phy() == old(self).phy(),
            final(self).clock() == old(self).clock(),
    {
        let now = self.logical();
        self.conn.connect(now);
    }

    /// Enqueue a host message for reliable, in-order delivery.
    pub fn send(&mut self, data: Vec<u8>)
        requires
            old(self)@.conn.wf(),
            old(self)@.conn.has_room(data@.len() as int),
        ensures
            final(self)@ == (DriverModel { conn: old(self)@.conn.sending(data@), ..old(self)@ }),
            final(self)@.conn.wf(),
            final(self).phy() == old(self).phy(),
            final(self).clock() == old(self).clock(),
    {
        self.conn.send(data);
    }

    /// Begin a clean teardown, at the logical time that the clock gives.
    pub fn disconnect(&mut self)
        requires
            old(self)@.conn.wf(),
        ensures
            exists|first: u128, second: u128|
                old(self).may_be_now(first, second) && final(self)@ == (DriverModel {
                    conn: old(self)@.conn.disconnecting(
                        #[trigger] old(self)@.pacing.logical(first, second),
                    ),
                    ..old(self)@
                }),
            final(self)@.conn.wf(),
            final(self).phy() == old(self).phy(),
            final(self).clock() == old(self).clock(),
    {
        let now = self.logical();
        self.conn.disconnect(now);
    }

    /// Apply a host command, at the logical time that the clock gives.
    pub fn command(&mut self, cmd: HostCommand)
        requires
            old(self)@.conn.wf(),
            cmd is Connect ==> old(self)@.conn.remote is Some,
            cmd matches HostCommand::Send(data) ==> old(self)@.conn.has_room(data@.len() as int),
        ensures
            cmd matches HostCommand::Send(_) ==> final(self)@ == commanded(old(self)@, cmd, 0),
            !(cmd is Send) ==> exists|first: u128, second: u128|
                old(self).may_be_now(first, second) && final(self)@ == commanded(
                    old(self)@,
                    cmd,
                    #[trigger] old(self)@.pacing.logical(first, second),
                ),
            final(self)@.conn.wf(),
            final(self).phy() == old(self).phy(),
            final(self).clock() == old(self).clock(),
    {
        match cmd {
            HostCommand::Connect => {
                let now = self.logical();
                self.conn.connect(now);
                assert(self@ == commanded(old(self)@, cmd, now.nanos));
            },
            HostCommand::Send(data) => {
                self.conn.send(data);
                assert(self@ == commanded(old(self)@, cmd, 0));
            },
            HostCommand::Disconnect => {
                let now = self.logical();
                self.conn.disconnect(now);
                assert(self@ == commanded(old(self)@, cmd, now.nanos));
            },
        }
    }

    /// Current connection state.
    pub fn state(&self) -> (s: ConnState)
        ensures
            s == self@.conn.state,
    {
        self.conn.state()
    }

    /// Current rung.
    pub fn current_rung(&self) -> (id: u8)
        ensures
            id == self@.conn.current_rung,
    {
        self.conn.current_rung()
    }

    /// When the station was last identified.
    pub fn last_id(&self) -> (t: Option<Duration>)
        ensures
            t == self@.pacing.last_id,
    {
        self.pacing.last_id
    }

    /// Collect the errors of queueing since the last call.
    pub fn take_errors(&mut self) -> (errors: Vec<PhyError>)
        ensures
            errors@ == old(self)@.errors,
            final(self)@ == (DriverModel { errors: Seq::empty(), ..old(self)@ }),
            final(self).phy() == old(self).phy(),
            final(self).clock() == old(self).clock(),
    {
        let mut errors: Vec<PhyError> = Vec::new();
        std::mem::swap(&mut errors, &mut self.errors);
        errors
    }

    /// Real time at which the driver wants to be polled next, by what the clock reads.
    pub fn next_wakeup(&self) -> (t: Option<Duration>)
        ensures
            match t {
                Some(w) => if self@.pacing.tx_active {
                    exists|wall: u128|
                        self.clock().may_read(wall) && w.nanos == #[trigger] crate::time::capped_sum(
                            wall,
                            (TX_POLL_INTERVAL_MS * crate::time::NANOS_PER_MILLI) as u128,
                        )
                } else {
                    self@.conn.deadline matches Some(d) && w.nanos == crate::time::capped_sum(
                        d,
                        self@.pacing.tx_airtime.nanos,
                    )
                },
                None => !self@.pacing.tx_active && self@.conn.deadline is None,
            },
            exists|wall: u128|
                self.clock().may_read(wall) && (match t {
                    Some(w) => Some(w.nanos),
                    None => None,
                }) == #[trigger] self@.pacing.woken_at(wall, self@.conn.deadline),
    {
        let wall = self.clock.now();
        let t = self.pacing.wakeup(wall, self.conn.next_timeout());
        assert((match t {
            Some(w) => Some(w.nanos),
            None => None,
        }) == self@.pacing.woken_at(wall.nanos, self@.conn.deadline));
        t
    }

    /// One iteration at the current time: settle a finished transmission, ingest what
    /// arrived, fire timers, hand the next over to the transport if its worker is free,
    /// and return the events. Whatever clock and transport answer, the driver's next
    /// state is determined by those answers.
    pub fn poll(&mut self) -> (events: Vec<HostEvent>)
        requires
            old(self)@.conn.wf(),
        ensures
            final(self)@.conn.wf(),
            final(self).clock() == old(self).clock(),
            exists|a: PollAnswers, mid: P|
                {
                    &&& #[trigger] old(self).was_answered(a, mid)
                    &&& a.fit(old(self)@)
                    &&& final(self)@ == a.outcome(old(self)@)
                    &&& final(self).phy().calls() == mid.calls() + sends(
                        a.handed(old(self)@),
                        a.heard(old(self)@).route().mode,
                        a.answers,
                    )
                    &&& events@.map_values(|e: HostEvent| e@) == a.after.events
                },
    {
        let ghost d = self@;
        let wall = self.clock.now();
        let in_flight: usize = if self.pacing.tx_active {
            self.phy.tx_in_flight()
        } else {
            0
        };
        self.pacing.settle(wall, in_flight);
        let first = if self.pacing.tx_active {
            self.clock.now()
        } else {
            wall
        };
        let second = self.clock.now();
        let logical = self.pacing.logical_at(first, second);
        let received = self.phy.drain_rx();
        let ghost mid = self.phy;
        let inbound = crate::pump::decode_batch(&received);
        let quality = if inbound.len() > 0 {
            self.phy.channel_quality()
        } else {
            ChannelQualityReport::empty()
        };
        take_in(&mut self.conn, inbound, quality, logical);
        let in_flight_again: usize = if self.pacing.tx_active {
            1
        } else {
            self.phy.tx_in_flight()
        };
        let ghost mut a = PollAnswers {
            wall: wall.nanos,
            in_flight,
            first: first.nanos,
            second: second.nanos,
            rx: crate::pump::buffers(received@),
            quality,
            in_flight_again,
            frames: Seq::empty(),
            answers: Seq::empty(),
            after: self.conn@,
        };
        let ghost heard = self.conn@;
        assert(a.heard(d) == heard);
        if !self.pacing.tx_active && in_flight_again == 0 {
            let hint = self.conn.current_hint();
            let due = self.pacing.id_due(wall);
            let over = crate::pump::take_over(&mut self.conn, logical);
            let ghost frames = over@.map_values(|f: LinkFrame| f@);
            proof {
                lemma_identification_is_steady(heard, logical.nanos, frames, self.conn@);
            }
            let whole = identify(&self.conn, over, due);
            let wire = encode_over(&whole);
            let answers = hand_to(&mut self.phy, &wire, hint);
            proof {
                a = PollAnswers { frames, answers: answers@, after: self.conn@, ..a };
                assert(a.heard(d) == heard);
                assert(a.handed(d) == wire@.map_values(|o: Outgoing| (o.bytes@, o.id_bearing)));
            }
            let (any, identified) = tally(&wire, answers, &mut self.errors);
            self.pacing.hand_over(wall, any, identified);
        } else {
            assert(d.errors + refusals(Seq::empty()) =~= d.errors);
            assert(mid.calls() + sends(a.handed(d), heard.route().mode, Seq::empty())
                =~= mid.calls());
        }
        assert(a.fit(d));
        assert(old(self).was_answered(a, mid));
        let events = crate::pump::take_events(&mut self.conn);
        assert(self@ =~= a.outcome(d));
        events
    }
}

/// Taking frames leaves the station, the session and the rung as they were, and so the
/// identification too.
proof fn lemma_identification_is_steady(
    s: ConnModel,
    now: u128,
    frames: Seq<FrameModel>,
    after: ConnModel,
)
    requires
        crate::pump::drained(s, now, frames, after),
    ensures
        after.state == s.state,
        after.control(FrameType::Id, 0) == s.control(FrameType::Id, 0),
{
    reveal(crate::pump::drained);
    lemma_identification_after(s, now, frames.len());
}

proof fn lemma_identification_after(s: ConnModel, now: u128, n: nat)
    ensures
        ({
            let t = crate::pump::transmitted_n(s, now, n);
            &&& t.state == s.state
            &&& t.control(FrameType::Id, 0) == s.control(FrameType::Id, 0)
        }),
    decreases n,
{
    if n > 0 {
        lemma_identification_after(s, now, (n - 1) as nat);
    }
}

/// One more answer.
proof fn lemma_took(sent: Seq<(Seq<u8>, bool)>, before: Answers, answer: Result<TxToken, PhyError>)
    ensures
        took_any(before.push(answer)) == (took_any(before) || answer is Ok),
        took_id(sent, before.push(answer)) == (took_id(sent, before) || (answer is Ok
            && sent[before.len() as int].1)),
{
    let after = before.push(answer);
    if took_any(before) {
        let i = choose|i: int| 0 <= i < before.len() && (#[trigger] before[i]) is Ok;
        assert(after[i] is Ok);
    }
    if took_id(sent, before) {
        let i = choose|i: int| 0 <= i < before.len() && (#[trigger] before[i]) is Ok && sent[i].1;
        assert(after[i] is Ok);
    }
    assert(after[before.len() as int] == answer);
    if took_any(after) && !(answer is Ok) {
        let i = choose|i: int| 0 <= i < after.len() && (#[trigger] after[i]) is Ok;
        assert(before[i] is Ok);
    }
    if took_id(sent, after) && !(answer is Ok && sent[before.len() as int].1) {
        let i = choose|i: int| 0 <= i < after.len() && (#[trigger] after[i]) is Ok && sent[i].1;
        assert(before[i] is Ok);
    }
}

/// While the worker keys an over, the logical clock stands still at the time at which the
/// over began.
pub proof fn logical_clock_stands_still_while_keying(p: TxPacing, t: u128)
    requires
        p.tx_active,
        p.in_step(t),
    ensures
        p.logical(t, t) == p.tx_start.nanos - p.tx_airtime.nanos,
{
}

/// Settling a finished over does not move the logical clock, which then runs on from
/// where it stood.
pub proof fn logical_clock_resumes_where_it_stood(p: TxPacing, end: u128, later: u128)
    requires
        p.tx_active,
        p.in_step(end),
        end <= later,
    ensures
        p.settled(end, 0).logical(end, end) == p.logical(end, end),
        p.settled(end, 0).logical(later, later) == p.logical(end, end) + (later - end),
{
}

/// Between overs the logical clock runs with the real one and never backwards.
pub proof fn logical_clock_is_monotonic(p: TxPacing, earlier: u128, later: u128)
    requires
        !p.tx_active,
        earlier <= later,
    ensures
        p.logical(earlier, earlier) <= p.logical(later, later),
{
}

/// The time spent keying never outruns the clock: it starts in step, time passes in step,
/// and a poll at `wall` keeps it so.
pub proof fn keying_never_outruns_the_clock(
    p: TxPacing,
    earlier: u128,
    wall: u128,
    in_flight: usize,
    any: bool,
    identified: bool,
)
    requires
        p.in_step(earlier),
        earlier <= wall,
    ensures
        TxPacing::initial().in_step(wall),
        p.settled(wall, in_flight).in_step(wall),
        p.settled(wall, in_flight).handed_over(wall, any, identified).in_step(wall),
{
}

/// No over begins while the worker is still keying: nothing is taken from the connection
/// and nothing is handed to the transport.
pub proof fn no_over_while_keying(a: PollAnswers, d: DriverModel)
    requires
        a.fit(d),
        a.in_flight_again > 0 || (d.pacing.tx_active && a.in_flight > 0),
    ensures
        a.after == a.heard(d),
        sends(a.handed(d), a.heard(d).route().mode, a.answers).len() == 0,
{
}

/// Where the identification is due, an over of a running session opens with a frame that
/// identifies the station; and no over carries the identification where it opens with
/// one already.
pub proof fn due_identification_opens_the_over(s: ConnModel, frames: Seq<FrameModel>)
    requires
        s.state == ConnState::Connected,
        frames.len() > 0,
    ensures
        identified_over(s, frames, true)[0].frame_type.bears_id(),
        frames[0].frame_type.bears_id() ==> identified_over(s, frames, true) == frames,
        identified_over(s, frames, false) == frames,
{
}

/// Only a frame that the transport took counts as an identification: until one is taken,
/// the identification stays due.
pub proof fn identification_stays_due_until_taken(
    p: TxPacing,
    wall: u128,
    later: u128,
    any: bool,
)
    requires
        p.is_id_due(wall),
        wall <= later,
    ensures
        p.handed_over(wall, any, false).is_id_due(later),
        !p.handed_over(wall, any, true).is_id_due(wall),
{
}

} // verus!
