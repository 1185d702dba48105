//! What moves a link along its ladder, and what a move leaves as it was.
use crate::frame::FrameModel;
use crate::mac::Rung;
use crate::session::ConnModel;
use crate::transport::FrameErrorRate;
use vstd::prelude::*;

verus! {

/// `to` is the available rung nearest to `id` on the robust side of it; where there is
/// none, it is the most robust available one.
pub open spec fn is_nearest_rung(rungs: Seq<Rung>, id: int, to: int) -> bool {
    &&& 0 <= to < rungs.len()
    &&& rungs[to].available
    &&& if id <= to {
        forall|j: int| id <= j < to && 0 <= j ==> !(#[trigger] rungs[j]).available
    } else {
        forall|j: int| to < j < rungs.len() ==> !(#[trigger] rungs[j]).available
    }
}

/// Clamping finds the nearest rung.
pub proof fn clamping_finds_the_nearest_rung(rungs: Seq<Rung>, id: u8)
    requires
        crate::mac::ladder_wf(rungs),
    ensures
        is_nearest_rung(rungs, id as int, crate::mac::clamped(rungs, id)),
{
    crate::mac::lemma_clamped(rungs, id);
    crate::mac::lemma_base(rungs);
    if id <= rungs.len() {
        crate::mac::lemma_next(rungs, id as int);
    }
}

/// The base is the most robust available rung.
pub open spec fn is_base(rungs: Seq<Rung>, base: int) -> bool {
    &&& 0 <= base < rungs.len()
    &&& rungs[base].available
    &&& forall|j: int| base < j < rungs.len() ==> !(#[trigger] rungs[j]).available
}

/// What two states have in common when only the mode of the link differs: the stations,
/// the session, everything sent and received, and what is queued.
pub open spec fn same_but_for_the_mode(s: ConnModel, t: ConnModel) -> bool {
    &&& t.local == s.local
    &&& t.remote == s.remote
    &&& t.learns_remote == s.learns_remote
    &&& t.ladder == s.ladder
    &&& t.conn_id == s.conn_id
    &&& t.state == s.state
    &&& t.send.base == s.send.base
    &&& t.send.next_seq == s.send.next_seq
    &&& t.send.frames == s.send.frames
    &&& t.recv.next_expected == s.recv.next_expected
    &&& t.recv.buffered == s.recv.buffered
    &&& t.partial == s.partial
    &&& t.msg_ends == s.msg_ends
    &&& t.outbox == s.outbox
    &&& t.events == s.events
    &&& t.awaiting_reply == s.awaiting_reply
    &&& t.owe_ack == s.owe_ack
    &&& t.initial_window == s.initial_window
    &&& t.conn_retries == s.conn_retries
    &&& t.disc_retries == s.disc_retries
}

/// `t` is `s` moved to the available rung nearest to `id`. The window, the acknowledgements
/// and the profile are those of the rung; a running timer is set anew, to two overs of the
/// new mode; no error rate is left behind, for it belongs to the rung that it was measured
/// on, and no SNR where the waveform family changes. Everything else stays, and all of it
/// where the rung does.
pub open spec fn moves_to(s: ConnModel, t: ConnModel, id: int, now: u128) -> bool {
    let rung = s.ladder[t.current_rung as int];
    &&& is_nearest_rung(s.ladder, id, t.current_rung as int)
    &&& same_but_for_the_mode(s, t)
    &&& t.floor == s.floor
    &&& t.silent_overs == s.silent_overs
    &&& t.current_rung == s.current_rung ==> t == s
    &&& t.current_rung != s.current_rung ==> {
        &&& t.fer.failed == 0 && t.fer.total == 0 && t.fer_samples == 0
        &&& rung.family == s.ladder[s.current_rung as int].family ==> t.snr_raw == s.snr_raw
            && t.snr_smoothed == s.snr_smoothed
        &&& rung.family != s.ladder[s.current_rung as int].family ==> t.snr_raw is None
            && t.snr_smoothed is None
        &&& t.send.window == rung.route.window.window
        &&& t.recv.window == rung.route.window.window
        &&& t.sack_enabled <==> rung.route.strategy is SelectiveRepeat
        &&& t.profile == rung.route.profile
        &&& t.deadline is Some <==> s.deadline is Some
        &&& s.deadline is Some && now + 2 * rung.route.profile.over_airtime.nanos <= u128::MAX
            ==> t.deadline == Some((now + 2 * rung.route.profile.over_airtime.nanos) as u128)
    }
}

/// A change of rung is a move, and starts its measurements over.
pub proof fn rung_change_starts_its_measurements_over(s: ConnModel, id: u8, now: u128)
    requires
        s.wf(),
    ensures
        moves_to(s, s.at_rung(id, now), id as int, now),
{
    clamping_finds_the_nearest_rung(s.ladder, id);
}

/// The larger of two rungs, which is the more robust.
pub open spec fn more_robust(a: u8, b: u8) -> int {
    if a >= b {
        a as int
    } else {
        b as int
    }
}

/// Heeding advice is a move to the more robust of what the peer recommends and what this
/// station measured itself.
pub proof fn advice_is_heeded_on_the_robust_side(s: ConnModel, peer: u8, now: u128)
    requires
        s.wf(),
    ensures
        moves_to(s, s.heeding(peer, now), more_robust(peer, s.advice()), now),
{
    let own = s.advice();
    rung_change_starts_its_measurements_over(s, peer, now);
    rung_change_starts_its_measurements_over(s, own, now);
}

/// A frame of the session shows that the peer is alive, and moves the link. A station that
/// awaits a reply heeds the advice in the frame; any other follows the rung that the frame
/// came on.
pub proof fn session_frame_moves_the_link(s: ConnModel, f: FrameModel, now: u128)
    requires
        s.wf(),
    ensures
        ({
            let quiet = ConnModel { silent_overs: 0, ..s };
            let h = s.hearing(f, now);
            &&& s.awaiting_reply ==> moves_to(
                quiet,
                h,
                more_robust(((f.flags / 4) % 8) as u8, s.advice()),
                now,
            )
            &&& !s.awaiting_reply ==> moves_to(quiet, h, f.mode as int, now)
            &&& h.silent_overs == 0
        }),
{
    let quiet = ConnModel { silent_overs: 0, ..s };
    assert(quiet.wf());
    assert(quiet.advice() == s.advice());
    crate::frame::flags_hold_tokens_and_advice(f);
    if s.awaiting_reply {
        advice_is_heeded_on_the_robust_side(quiet, f.advised_rung(), now);
    } else {
        rung_change_starts_its_measurements_over(quiet, f.mode, now);
    }
}

/// What a measurement changes. The errors are those just measured. A reading of the SNR
/// replaces the last one; the estimate falls to it at once, and rises half way, to a unit of
/// which a thousandth of a decibel has 1024. Without a reading both stay; and nothing else
/// changes.
pub proof fn measurement_is_taken_over(
    s: ConnModel,
    snr: Option<i32>,
    fer: FrameErrorRate,
    samples: u32,
)
    requires
        s.wf(),
    ensures
        ({
            let t = s.measured(snr, fer, samples);
            &&& t == (ConnModel {
                fer,
                fer_samples: samples,
                snr_raw: t.snr_raw,
                snr_smoothed: t.snr_smoothed,
                ..s
            })
            &&& snr is None ==> t.snr_raw == s.snr_raw && t.snr_smoothed == s.snr_smoothed
            &&& snr matches Some(r) ==> {
                let level = r * 1024;
                &&& t.snr_raw == Some(r)
                &&& t.snr_smoothed is Some
                &&& s.snr_smoothed is None ==> t.snr_smoothed->0 == level
                &&& s.snr_smoothed matches Some(e) ==> {
                    &&& level <= e ==> t.snr_smoothed->0 == level
                    &&& level > e ==> 0 <= 2 * t.snr_smoothed->0 - (level + e) <= 1
                }
            }
        }),
{
}

/// In whole thousandths of a decibel an estimate is rounded down, and one that is none stays
/// none.
pub proof fn estimate_is_rounded_down(e: i64)
    requires
        crate::session::is_estimate(e),
    ensures
        ({
            let w = crate::session::whole_mdb(Some(e));
            &&& w is Some
            &&& w->0 * 1024 <= e < w->0 * 1024 + 1024
        }),
        crate::session::whole_mdb(None) is None,
        -2_199_023_255_552 <= e < 2_199_023_255_552,
{
}

/// Right after a move the advice is to stay: nothing measured on another rung drives it
/// on, but for an SNR of the same waveform family that does not support the new rung.
pub proof fn errors_of_another_rung_drive_nothing(s: ConnModel, id: u8, now: u128)
    requires
        s.wf(),
        s.at_rung(id, now).current_rung != s.current_rung,
    ensures
        ({
            let t = s.at_rung(id, now);
            let rung = s.ladder[t.current_rung as int];
            &&& t.advice() >= t.current_rung
            &&& t.snr_raw is None ==> t.advice() == t.current_rung
            &&& (t.snr_raw matches Some(snr) && (rung.snr_floor_mdb matches Some(floor) ==> snr
                >= floor)) ==> t.advice() == t.current_rung
        }),
{
    let t = s.at_rung(id, now);
    let rungs = s.ladder;
    clamping_finds_the_nearest_rung(rungs, id);
    crate::mac::adaptation_moves_as_measured(
        rungs,
        t.current_rung,
        t.snr_raw,
        crate::session::whole_mdb(t.snr_smoothed),
        t.fer,
        t.fer_samples,
    );
    crate::mac::adaptation_chooses_available_rungs(
        rungs,
        t.current_rung,
        t.snr_raw,
        crate::session::whole_mdb(t.snr_smoothed),
        t.fer,
        t.fer_samples,
    );
}

/// What a station advises is what its own measurements move a link to: the last SNR takes
/// it down, the errors one rung down, and the smoothed SNR, in whole thousandths of a decibel
/// rounded down, up again.
pub proof fn advice_follows_what_was_measured(s: ConnModel)
    requires
        s.wf(),
    ensures
        ({
            let w = crate::session::whole_mdb(s.snr_smoothed);
            &&& w is Some <==> s.snr_smoothed is Some
            &&& s.snr_smoothed matches Some(e) ==> w->0 * 1024 <= e < w->0 * 1024 + 1024
            &&& crate::mac::is_moved_to(
                s.ladder,
                s.current_rung,
                s.snr_raw,
                w,
                s.fer,
                s.fer_samples,
                s.advice() as int,
            )
        }),
{
    let w = crate::session::whole_mdb(s.snr_smoothed);
    crate::mac::adaptation_moves_as_measured(
        s.ladder,
        s.current_rung,
        s.snr_raw,
        w,
        s.fer,
        s.fer_samples,
    );
    crate::mac::adaptation_chooses_available_rungs(
        s.ladder,
        s.current_rung,
        s.snr_raw,
        w,
        s.fer,
        s.fer_samples,
    );
}

} // verus!
