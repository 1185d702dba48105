//! When a driver keys, what it hands to its transport, and when it identifies the station.
use crate::driver::{
    identified_over, outgoing, refusals, sends, Answers, DriverModel, PollAnswers, TxPacing,
};
use crate::frame::{FrameModel, FrameType, StationText};
use crate::host::HostCommand;
use crate::modes::ModeHint;
use crate::session::{ConnModel, ConnState};
use crate::transport::{ChannelQualityReport, PhyCall, PhyError};
use crate::turn_laws::{identifies, is_control};
use vstd::prelude::*;

verus! {

/// The identification takes nothing from an over and changes none of it. An over goes out as
/// it is, or with one frame more in front that names both stations. It has that frame
/// exactly where the identification is due, the session is up, and the over has frames of
/// which the first does not identify.
pub proof fn identification_only_goes_in_front(s: ConnModel, frames: Seq<FrameModel>, due: bool)
    ensures
        ({
            let out = identified_over(s, frames, due);
            let added = due && s.state == ConnState::Connected && frames.len() > 0 && !identifies(
                frames[0].frame_type,
            );
            &&& !added ==> out == frames
            &&& added ==> {
                &&& out.len() == frames.len() + 1
                &&& out.drop_first() == frames
                &&& out[0].frame_type == FrameType::Id
                &&& out[0].id == Some(StationText { src: s.local, dst: s.remote->0 })
                &&& is_control(out[0], s, FrameType::Id, 0)
            }
            &&& forall|i: int|
                0 <= i < frames.len() ==> out[i + out.len() - frames.len()] == #[trigger] frames[i]
        }),
{
    let out = identified_over(s, frames, due);
    crate::turn_laws::lemma_control(s, FrameType::Id, 0);
    if out.len() > frames.len() {
        assert(out.drop_first() =~= frames);
    }
}

/// A frame of the over that encodes is handed over once, as its own wire bytes, and counts
/// as an identification exactly where its type identifies; a frame that does not encode is
/// left out. The order is kept.
pub proof fn over_is_handed_over_in_order(before: Seq<FrameModel>, f: FrameModel, after: Seq<FrameModel>)
    ensures
        ({
            let whole = outgoing(before.push(f) + after);
            let own = match f.encoded() {
                Ok(bytes) => seq![(bytes, identifies(f.frame_type))],
                Err(e) => Seq::empty(),
            };
            whole == outgoing(before) + own + outgoing(after)
        }),
        outgoing(Seq::empty()).len() == 0,
    decreases after.len(),
{
    let whole = before.push(f) + after;
    if after.len() == 0 {
        assert(whole =~= before.push(f));
        assert(whole.drop_last() =~= before);
    } else {
        over_is_handed_over_in_order(before, f, after.drop_last());
        assert(whole.drop_last() =~= before.push(f) + after.drop_last());
        assert(whole.last() == after.last());
        reveal_with_fuel(outgoing, 2);
        let own = match f.encoded() {
            Ok(bytes) => seq![(bytes, identifies(f.frame_type))],
            Err(e) => Seq::empty(),
        };
        assert(outgoing(whole) =~= outgoing(before) + own + outgoing(after));
    }
}

/// The transport is called once for each frame, in order, with the frame's bytes and the
/// mode of the link.
pub proof fn each_frame_is_one_call(
    sent: Seq<(Seq<u8>, bool)>,
    hint: ModeHint,
    answers: Answers,
    i: int,
)
    requires
        answers.len() == sent.len(),
        0 <= i < sent.len(),
    ensures
        sends(sent, hint, answers).len() == sent.len(),
        sends(sent, hint, answers)[i] == (PhyCall::Sent {
            payload: sent[i].0,
            hint,
            answer: answers[i],
        }),
{
}

/// Every error that the transport answers is kept, in order, and nothing else is.
pub proof fn errors_are_kept_in_order(before: Answers, e: PhyError, after: Answers)
    ensures
        refusals(before.push(Err(e)) + after) == refusals(before).push(e) + refusals(after),
        (forall|i: int| 0 <= i < after.len() ==> (#[trigger] after[i]) is Ok) ==> refusals(
            after,
        ).len() == 0,
    decreases after.len(),
{
    let whole = before.push(Err(e)) + after;
    if after.len() == 0 {
        assert(whole =~= before.push(Err(e)));
        assert(whole.drop_last() =~= before);
        assert(refusals(before).push(e) + refusals(after) =~= refusals(before).push(e));
    } else {
        errors_are_kept_in_order(before, e, after.drop_last());
        assert(whole.drop_last() =~= before.push(Err(e)) + after.drop_last());
        assert(whole.last() == after.last());
        assert(refusals(whole) =~= refusals(before).push(e) + refusals(after));
        if forall|i: int| 0 <= i < after.len() ==> (#[trigger] after[i]) is Ok {
            assert forall|i: int| 0 <= i < after.drop_last().len() implies (
            #[trigger] after.drop_last()[i]) is Ok by {
                assert(after[i] is Ok);
            }
            assert(after[after.len() - 1] is Ok);
        }
    }
}

/// The identification is due before the first one, and from nine minutes after the last one
/// on, but not sooner.
pub proof fn identification_is_due_every_nine_minutes(p: TxPacing, wall: u128)
    ensures
        p.last_id is None ==> p.is_id_due(wall),
        p.last_id matches Some(t) ==> (p.is_id_due(wall) <==> wall - t.nanos >= 540_000_000_000),
{
}

/// The logical time is the real time without what was spent keying, the over that is being
/// keyed included; it never passes the real one.
pub proof fn logical_time_leaves_keying_out(p: TxPacing, wall: u128)
    ensures
        p.logical(wall, wall) <= wall,
        p.in_step(wall) && !p.tx_active ==> p.logical(wall, wall) == wall - p.tx_airtime.nanos,
        p.in_step(wall) && p.tx_active ==> p.logical(wall, wall) == wall - p.tx_airtime.nanos - (
        wall - p.tx_start.nanos),
{
}

/// A transmission ends only when the worker is idle, and then the time that it took is added
/// to the time spent keying, in full.
pub proof fn keying_is_counted_when_it_ends(p: TxPacing, wall: u128, in_flight: usize)
    ensures
        ({
            let t = p.settled(wall, in_flight);
            let ends = p.tx_active && in_flight == 0;
            &&& t.tx_active <==> p.tx_active && in_flight > 0
            &&& t.last_id == p.last_id
            &&& t.tx_start == p.tx_start
            &&& !ends ==> t.tx_airtime == p.tx_airtime
            &&& ends && p.in_step(wall) && p.tx_airtime.nanos + wall - p.tx_start.nanos
                <= u128::MAX ==> t.tx_airtime.nanos == p.tx_airtime.nanos + wall
                - p.tx_start.nanos
        }),
{
}

/// Once the transport took a frame the worker keys, from that moment; and the station was
/// identified at that moment if it took an identifying one. A refused over changes neither.
pub proof fn keying_begins_with_a_frame_taken(p: TxPacing, wall: u128, any: bool, identified: bool)
    ensures
        ({
            let t = p.handed_over(wall, any, identified);
            &&& t.tx_airtime == p.tx_airtime
            &&& any ==> t.tx_active && t.tx_start.nanos == wall
            &&& !any ==> t.tx_active == p.tx_active && t.tx_start == p.tx_start
            &&& identified ==> t.last_id is Some && t.last_id->0.nanos == wall
            &&& !identified ==> t.last_id == p.last_id
        }),
{
}

/// A driver begins with nothing keyed, no time counted and no identification made.
pub proof fn pacing_begins_idle()
    ensures
        ({
            let p = TxPacing::initial();
            &&& !p.tx_active
            &&& p.tx_airtime.nanos == 0
            &&& p.last_id is None
        }),
{
}

/// What a poll does with the answers. Only a driver whose worker is idle begins an over, and
/// then it keys exactly if the transport took a frame. The events are handed out, the errors
/// are added to those that wait, and the connection is what the frames left.
pub proof fn poll_follows_its_answers(a: PollAnswers, d: DriverModel)
    requires
        a.fit(d),
    ensures
        ({
            let t = a.outcome(d);
            let idle = !(d.pacing.tx_active && a.in_flight > 0) && a.in_flight_again == 0;
            &&& t.conn == (ConnModel { events: Seq::empty(), ..a.after })
            &&& t.errors == d.errors + refusals(a.answers)
            &&& !idle ==> a.answers.len() == 0 && a.after == a.heard(d) && t.pacing.last_id
                == d.pacing.last_id
            &&& idle ==> {
                &&& t.pacing.tx_active <==> exists|i: int|
                    0 <= i < a.answers.len() && (#[trigger] a.answers[i]) is Ok
                &&& t.pacing.tx_active ==> t.pacing.tx_start.nanos == a.wall
                &&& (exists|i: int|
                    0 <= i < a.answers.len() && (#[trigger] a.answers[i]) is Ok && a.handed(
                        d,
                    )[i].1) ==> t.pacing.last_id is Some && t.pacing.last_id->0.nanos == a.wall
                &&& !(exists|i: int|
                    0 <= i < a.answers.len() && (#[trigger] a.answers[i]) is Ok && a.handed(
                        d,
                    )[i].1) ==> t.pacing.last_id == d.pacing.last_id
            }
        }),
{
}

/// What a connection takes in. Where nothing decodes, no measurement counts and only the
/// timers run. Where something does, the measurement comes first: it counts whatever the
/// frames are.
pub proof fn measurement_counts_only_with_a_frame(
    s: ConnModel,
    rx: Seq<Seq<u8>>,
    quality: ChannelQualityReport,
    now: u128,
)
    ensures
        ({
            let frames = crate::pump::decodable(rx);
            let t = crate::driver::heard_from(s, rx, quality, now);
            &&& frames.len() == 0 ==> t == s.timed_out(now)
            &&& frames.len() > 0 ==> t == crate::pump::received_all(
                s.measured(quality.snr_mdb, quality.errors, quality.errors.total),
                frames,
                now,
            ).timed_out(now)
        }),
{
    reveal(crate::driver::heard_from);
}

/// A host's command goes to the connection, and touches neither the keying nor the errors.
pub proof fn commands_reach_the_connection(d: DriverModel, cmd: HostCommand, now: u128)
    ensures
        ({
            let t = crate::driver::commanded(d, cmd, now);
            &&& t.pacing == d.pacing
            &&& t.errors == d.errors
            &&& cmd is Connect ==> t.conn == d.conn.connecting(now)
            &&& cmd matches HostCommand::Send(data) ==> t.conn == d.conn.sending(data@)
            &&& cmd is Disconnect ==> t.conn == d.conn.disconnecting(now)
        }),
{
}

/// While the worker keys, the driver wants to be polled twenty milliseconds on, whatever its
/// timers; else when the connection's timer is due, which in real time is later by what was
/// spent keying; and not at all where no timer runs.
pub proof fn driver_is_woken_in_real_time(p: TxPacing, wall: u128, deadline: Option<u128>)
    ensures
        ({
            let w = p.woken_at(wall, deadline);
            &&& w is None <==> !p.tx_active && deadline is None
            &&& p.tx_active && wall + 20_000_000 <= u128::MAX ==> w == Some(
                (wall + 20_000_000) as u128,
            )
            &&& !p.tx_active && deadline is Some && deadline->0 + p.tx_airtime.nanos <= u128::MAX
                ==> w is Some && w->0 - p.tx_airtime.nanos == deadline->0
        }),
{
}

/// When the driver is woken for a timer, the timer is due in the connection's own time.
pub proof fn woken_driver_finds_its_timer_due(p: TxPacing, wall: u128, deadline: u128)
    requires
        !p.tx_active,
        p.woken_at(wall, Some(deadline)) matches Some(w) && w < u128::MAX && wall >= w,
    ensures
        p.logical(wall, wall) >= deadline,
{
}

/// The time that a poll gives to the connection. While the worker keys it stands at the
/// moment when the over began, less what was keyed before; and once the worker is idle it is
/// the real time less all that was spent keying, the over that just ended included.
pub proof fn poll_hears_in_the_connections_time(a: PollAnswers, d: DriverModel)
    requires
        d.pacing.in_step(a.wall),
        a.first == a.wall,
        a.second == a.wall,
    ensures
        ({
            let keyed = d.pacing.tx_airtime.nanos as int;
            let begun = d.pacing.tx_start.nanos as int;
            let now = if d.pacing.tx_active && a.in_flight > 0 {
                begun - keyed
            } else if d.pacing.tx_active {
                a.wall - (keyed + (a.wall - begun))
            } else {
                a.wall - keyed
            };
            &&& a.logical(d) == now
            &&& a.heard(d) == crate::driver::heard_from(d.conn, a.rx, a.quality, now as u128)
        }),
{
}

/// What a poll hands over is the over with its identification: due before the first one and
/// from nine minutes after the last one on.
pub proof fn poll_identifies_in_real_time(a: PollAnswers, d: DriverModel)
    ensures
        ({
            let due = d.pacing.last_id is None || a.wall - d.pacing.last_id->0.nanos
                >= 540_000_000_000;
            a.handed(d) == outgoing(identified_over(a.heard(d), a.frames, due))
        }),
{
}

} // verus!
