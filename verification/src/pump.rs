//! Moving frames and events through a connection in batches.
use crate::conn::{Connection, HostEvent};
use crate::frame::{FrameModel, LinkFrame};
use crate::session::{ConnModel, ConnState, Floor};
use crate::time::Duration;
use crate::transport::RxFrame;
use vstd::prelude::*;

verus! {

/// The frames among some received buffers; what does not decode is dropped.
pub open spec fn decodable(rx: Seq<Seq<u8>>) -> Seq<FrameModel>
    decreases rx.len(),
{
    if rx.len() == 0 {
        Seq::empty()
    } else {
        let before = decodable(rx.drop_last());
        match crate::frame::decoded(rx.last()) {
            Ok(f) => before.push(f),
            Err(e) => before,
        }
    }
}

/// The bytes of some received frames.
pub open spec fn buffers(rx: Seq<RxFrame>) -> Seq<Seq<u8>> {
    rx.map_values(|r: RxFrame| r.payload@)
}

/// A connection after a run of inbound frames.
pub open spec fn received_all(s: ConnModel, frames: Seq<FrameModel>, now: u128) -> ConnModel
    decreases frames.len(),
{
    if frames.len() == 0 {
        s
    } else {
        received_all(s, frames.drop_last(), now).received(frames.last(), now)
    }
}

/// A connection after `n` frames were taken for transmission.
pub open spec fn transmitted_n(s: ConnModel, now: u128, n: nat) -> ConnModel
    decreases n,
{
    if n == 0 {
        s
    } else {
        transmitted_n(s, now, (n - 1) as nat).transmitted(now)
    }
}

/// The first `n` frames taken for transmission.
pub open spec fn frames_n(s: ConnModel, now: u128, n: nat) -> Seq<FrameModel>
    decreases n,
{
    if n == 0 {
        Seq::empty()
    } else {
        frames_n(s, now, (n - 1) as nat).push(
            transmitted_n(s, now, (n - 1) as nat).next_frame()->0,
        )
    }
}

/// Whether taking frames until none is left gives exactly `frames` and leaves `after`.
#[verifier::opaque]
pub open spec fn drained(
    s: ConnModel,
    now: u128,
    frames: Seq<FrameModel>,
    after: ConnModel,
) -> bool {
    &&& after == transmitted_n(s, now, frames.len())
    &&& frames == frames_n(s, now, frames.len())
    &&& forall|i: nat|
        i < frames.len() ==> (#[trigger] transmitted_n(s, now, i)).next_frame() is Some
    &&& after.next_frame() is None
}

/// Decode what was received.
pub fn decode_batch(rx: &Vec<RxFrame>) -> (out: Vec<LinkFrame>)
    ensures
        out@.map_values(|f: LinkFrame| f@) == decodable(buffers(rx@)),
{
    let mut out: Vec<LinkFrame> = Vec::new();
    let mut i: usize = 0;
    proof {
        assert(buffers(rx@).take(0) =~= Seq::empty());
        assert(out@.map_values(|f: LinkFrame| f@) =~= Seq::empty());
    }
    while i < rx.len()
        invariant
            i <= rx@.len(),
            out@.map_values(|f: LinkFrame| f@) == decodable(buffers(rx@).take(i as int)),
        decreases rx.len() - i,
    {
        let ghost before = out@;
        proof {
            assert(buffers(rx@).take(i + 1).drop_last() =~= buffers(rx@).take(i as int));
            assert(buffers(rx@).take(i + 1).last() == rx@[i as int].payload@);
        }
        match LinkFrame::decode(rx[i].payload()) {
            Ok(f) => {
                out.push(f);
                assert(out@.map_values(|f: LinkFrame| f@) =~= before.map_values(
                    |f: LinkFrame| f@,
                ).push(f@));
            },
            Err(_) => {},
        }
        i = i + 1;
    }
    assert(buffers(rx@).take(rx@.len() as int) =~= buffers(rx@));
    out
}

/// Feed a run of inbound frames to a connection.
pub fn ingest(conn: &mut Connection, frames: Vec<LinkFrame>, now: Duration)
    requires
        old(conn)@.wf(),
    ensures
        final(conn)@ == received_all(
            old(conn)@,
            frames@.map_values(|f: LinkFrame| f@),
            now.nanos,
        ),
        final(conn)@.wf(),
{
    let ghost all = frames@;
    let ghost models = all.map_values(|f: LinkFrame| f@);
    let n: usize = frames.len();
    let mut left = frames;
    let mut i: usize = 0;
    assert(models.take(0) =~= Seq::empty());
    while i < n
        invariant
            i <= n == all.len(),
            left@ == all.skip(i as int),
            models == all.map_values(|f: LinkFrame| f@),
            conn@ == received_all(old(conn)@, models.take(i as int), now.nanos),
            conn@.wf(),
        decreases n - i,
    {
        let f = left.remove(0);
        proof {
            assert(left@ =~= all.skip(i + 1));
            assert(f@ == models[i as int]);
            assert(models.take(i + 1).drop_last() =~= models.take(i as int));
        }
        conn.handle_frame(f, now);
        i = i + 1;
    }
    assert(models.take(n as int) =~= models);
}

/// Whether some frame of the outbox ends an over.
pub open spec fn ends_an_over(outbox: Seq<FrameModel>) -> bool {
    exists|i: int| 0 <= i < outbox.len() && (#[trigger] outbox[i]).ends_over()
}

/// How far a connection is from having nothing left to say in this turn.
pub open spec fn turn_phase(s: ConnModel) -> nat {
    if s.owe_ack {
        0
    } else if ends_an_over(s.outbox) {
        1
    } else if s.state == ConnState::Connected && (s.floor == Floor::Sending || (s.floor
        == Floor::Idle && s.wants_floor())) {
        2
    } else {
        0
    }
}

/// An over ends: taking frames one by one reaches the point where there is none.
pub proof fn lemma_turn_ends(s: ConnModel, now: u128)
    requires
        s.wf(),
        s.next_frame() is Some,
    ensures
        ({
            let t = s.transmitted(now);
            let owed = if s.owe_ack { 1nat } else { 0nat };
            let owes = if t.owe_ack { 1nat } else { 0nat };
            ||| owes < owed
            ||| owes == owed && turn_phase(t) < turn_phase(s)
            ||| owes == owed && turn_phase(t) == turn_phase(s) && t.outbox.len() < s.outbox.len()
        }),
{
    let p = s.primed();
    let t = s.transmitted(now);
    if p == s {
        let rest = s.outbox.drop_first();
        if ends_an_over(rest) {
            let i = choose|i: int| 0 <= i < rest.len() && (#[trigger] rest[i]).ends_over();
            assert(s.outbox[i + 1].ends_over());
        }
        if ends_an_over(s.outbox) && !s.outbox[0].ends_over() {
            let i = choose|i: int| 0 <= i < s.outbox.len() && (#[trigger] s.outbox[i]).ends_over();
            assert(rest[i - 1].ends_over());
        }
        assert(t.outbox == rest);
        assert(t.has_unacked() == s.has_unacked());
    } else {
        let u = ConnModel { floor: Floor::Sending, ..s };
        crate::session_laws::over_passes_the_floor_once(u);
        assert(p.outbox =~= u.over());
        assert(!ends_an_over(s.outbox));
        assert(!p.owe_ack && !t.owe_ack);
        if u.over().len() == 1 {
            assert(t.outbox =~= Seq::empty());
            assert(!ends_an_over(t.outbox));
        } else {
            let last = t.outbox.len() - 1;
            assert(t.outbox[last] == u.over().last());
            assert(ends_an_over(t.outbox));
        }
    }
}

/// Take every frame that the connection has to say in this turn.
pub fn take_over(conn: &mut Connection, now: Duration) -> (out: Vec<LinkFrame>)
    requires
        old(conn)@.wf(),
    ensures
        drained(old(conn)@, now.nanos, out@.map_values(|f: LinkFrame| f@), final(conn)@),
        final(conn)@.wf(),
{
    let mut out: Vec<LinkFrame> = Vec::new();
    let ghost s = conn@;
    assert(out@.map_values(|f: LinkFrame| f@) =~= Seq::empty());
    loop
        invariant
            conn@.wf(),
            s == old(conn)@,
            conn@ == transmitted_n(s, now.nanos, out@.len()),
            out@.map_values(|f: LinkFrame| f@) == frames_n(s, now.nanos, out@.len()),
            forall|i: nat|
                i < out@.len() ==> (#[trigger] transmitted_n(s, now.nanos, i)).next_frame()
                    is Some,
        ensures
            conn@.next_frame() is None,
        decreases
                (if conn@.owe_ack { 1nat } else { 0nat }),
                turn_phase(conn@),
                conn@.outbox.len(),
    {
        let ghost before = conn@;
        let ghost prior = out@;
        match conn.poll_transmit(now) {
            Some(f) => {
                proof {
                    lemma_turn_ends(before, now.nanos);
                }
                out.push(f);
                assert(out@.map_values(|f: LinkFrame| f@) =~= prior.map_values(
                    |f: LinkFrame| f@,
                ).push(f@));
                assert(transmitted_n(s, now.nanos, prior.len()).next_frame() is Some);
            },
            None => {
                proof {
                    lemma_nothing_left(before, now.nanos);
                }
                break ;
            },
        }
    }
    reveal(drained);
    out
}

/// Where there is nothing to say, asking changes nothing.
proof fn lemma_nothing_left(s: ConnModel, now: u128)
    requires
        s.next_frame() is None,
    ensures
        s.transmitted(now) == s,
{
    if s.primed() != s {
        let u = ConnModel { floor: Floor::Sending, ..s };
        assert(s.primed().outbox =~= u.over());
        assert(u.over().len() >= 1);
    }
}

/// Take every event that waits for the host.
pub fn take_events(conn: &mut Connection) -> (out: Vec<HostEvent>)
    requires
        old(conn)@.wf(),
    ensures
        out@.map_values(|e: HostEvent| e@) == old(conn)@.events,
        final(conn)@ == (ConnModel { events: Seq::empty(), ..old(conn)@ }),
        final(conn)@.wf(),
{
    let mut out: Vec<HostEvent> = Vec::new();
    let ghost s = conn@;
    assert(out@.map_values(|e: HostEvent| e@) =~= s.events.take(0));
    assert(s.events.skip(0) =~= s.events);
    loop
        invariant
            s == old(conn)@,
            conn@.wf(),
            out@.len() <= s.events.len(),
            conn@ == (ConnModel { events: s.events.skip(out@.len() as int), ..s }),
            out@.map_values(|e: HostEvent| e@) == s.events.take(out@.len() as int),
        ensures
            out@.len() == s.events.len(),
        decreases s.events.len() - out@.len(),
    {
        let ghost prior = out@;
        match conn.poll_event() {
            Some(e) => {
                out.push(e);
                assert(s.events.skip(prior.len() as int).drop_first() =~= s.events.skip(
                    out@.len() as int,
                ));
                assert(out@.map_values(|e: HostEvent| e@) =~= s.events.take(out@.len() as int));
            },
            None => {
                break ;
            },
        }
    }
    proof {
        assert(s.events.skip(out@.len() as int) =~= Seq::empty());
        assert(s.events.take(out@.len() as int) =~= s.events);
    }
    out
}

/// Each buffer that decodes gives its frame, in the order of the buffers; one that does not
/// gives nothing and disturbs no other.
pub proof fn decodable_frames_stand_in_order(before: Seq<Seq<u8>>, b: Seq<u8>, after: Seq<Seq<u8>>)
    ensures
        decodable(before.push(b) + after) == decodable(before) + (match crate::frame::decoded(b) {
            Ok(f) => seq![f],
            Err(e) => Seq::empty(),
        }) + decodable(after),
        decodable(Seq::empty()).len() == 0,
    decreases after.len(),
{
    let whole = before.push(b) + after;
    let own = match crate::frame::decoded(b) {
        Ok(f) => seq![f],
        Err(e) => Seq::empty(),
    };
    if after.len() == 0 {
        assert(whole =~= before.push(b));
        assert(whole.drop_last() =~= before);
        assert(decodable(whole) =~= decodable(before) + own + decodable(after));
    } else {
        decodable_frames_stand_in_order(before, b, after.drop_last());
        assert(whole.drop_last() =~= before.push(b) + after.drop_last());
        assert(whole.last() == after.last());
        assert(decodable(whole) =~= decodable(before) + own + decodable(after));
    }
}

/// A run of frames is taken in one by one, the first of them first.
pub proof fn frames_are_taken_in_one_by_one(
    s: ConnModel,
    first: FrameModel,
    rest: Seq<FrameModel>,
    now: u128,
)
    ensures
        received_all(s, seq![first] + rest, now) == received_all(s.received(first, now), rest, now),
        received_all(s, Seq::empty(), now) == s,
    decreases rest.len(),
{
    let whole = seq![first] + rest;
    if rest.len() == 0 {
        assert(whole =~= seq![first]);
        assert(whole.drop_last() =~= Seq::empty());
        reveal_with_fuel(received_all, 2);
    } else {
        frames_are_taken_in_one_by_one(s, first, rest.drop_last(), now);
        assert(whole.drop_last() =~= seq![first] + rest.drop_last());
        assert(whole.last() == rest.last());
    }
}

/// A turn takes everything that the connection has to say, frame by frame, and leaves it
/// with nothing to say: what is taken is the next frame each time.
pub proof fn turn_takes_all_there_is_to_say(
    s: ConnModel,
    now: u128,
    frames: Seq<FrameModel>,
    after: ConnModel,
    i: nat,
)
    requires
        drained(s, now, frames, after),
    ensures
        after.next_frame() is None,
        i < frames.len() ==> transmitted_n(s, now, i).next_frame() == Some(frames[i as int]),
        frames.len() == 0 ==> after == s,
        transmitted_n(s, now, i + 1) == transmitted_n(s, now, i).transmitted(now),
{
    reveal(drained);
    if i < frames.len() {
        lemma_frames_n(s, now, frames.len(), i);
        assert(transmitted_n(s, now, i).next_frame() is Some);
    }
}

proof fn lemma_frames_n(s: ConnModel, now: u128, n: nat, i: nat)
    requires
        i < n,
    ensures
        frames_n(s, now, n).len() == n,
        frames_n(s, now, n)[i as int] == transmitted_n(s, now, i).next_frame()->0,
    decreases n,
{
    if i + 1 < n {
        lemma_frames_n(s, now, (n - 1) as nat, i);
    } else {
        lemma_frames_len(s, now, (n - 1) as nat);
    }
}

proof fn lemma_frames_len(s: ConnModel, now: u128, n: nat)
    ensures
        frames_n(s, now, n).len() == n,
    decreases n,
{
    if n > 0 {
        lemma_frames_len(s, now, (n - 1) as nat);
    }
}

} // verus!
