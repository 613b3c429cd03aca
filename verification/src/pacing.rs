//! When a sender sends: soon what is new, again what was lost, and otherwise seldom.

use vstd::prelude::*;

use crate::sender::{
    later, CHAFF_MAX, Differences, Pace, RoundTrip, SendError, SenderView, SyncState, Timing,
};

verus! {

/// The later of two times.
pub open spec fn max_time(a: int, b: int) -> int {
    if a > b {
        a
    } else {
        b
    }
}

/// A time, held at the largest there is.
pub open spec fn held(t: int) -> int {
    if t > u64::MAX {
        u64::MAX as int
    } else {
        t
    }
}

/// When a frame may be sent that starts to be collected at `start`: not before the interval
/// between frames has passed, and not before the time for collecting is over.
pub open spec fn frame_time<S>(s: SenderView<S>, p: Pace, start: Option<u64>) -> int {
    let at_frame_rate = held(s.sent.last().timestamp + p.interval);
    match start {
        Some(t) => max_time(at_frame_rate, held(t + s.timing.send_mindelay)),
        None => at_frame_rate,
    }
}

/// Bringing the timers up to date changes no timestamp and no delay.
proof fn lemma_timed<S: SyncState>(s: SenderView<S>, p: Pace, after: SenderView<S>) -> (d: Differences)
    requires
        s.valid(),
        s.timed(p, after),
    ensures
        after.differences(d),
        after.sent.len() == s.sent.len(),
        after.sent.last().timestamp == s.sent.last().timestamp,
        after.sent.last().num == s.sent.last().num,
        after.shutdown == s.shutdown,
        after.ack == s.ack,
        0 <= after.assumed < after.sent.len(),
        after.timing == s.timing.ack_brought_forward(s.ack.pending_data, p.now).send_scheduled(
            d,
            s.sent.last().timestamp,
            p,
        ).hurried(s.hurry(), s.sent.last().timestamp, p),
{
    let (mid, d) = choose|mid: SenderView<S>, d: Differences|
        {
            &&& #[trigger] s.assumption_updated(p.now, p.timeout).rationalized(mid)
            &&& #[trigger] mid.differences(d)
            &&& after == mid.scheduled(d, p)
        };
    crate::sender::assumptions_rest_on_recent_sends(s, p.now, p.timeout);
    let t = s.assumption_updated(p.now, p.timeout);
    let known = choose|known: S|
        known.is_snapshot_of(&t.sent[0].state) && #[trigger] t.rationalized_by(known, mid);
    assert(mid.sent[mid.sent.len() - 1].timestamp == t.sent[t.sent.len() - 1].timestamp);
    assert(after.differences(d));
    d
}

/// What is new is sent as a frame: it is collected from when it is first seen.
pub proof fn new_states_are_sent_in_frames<S: SyncState>(
    s: SenderView<S>,
    p: Pace,
    after: SenderView<S>,
)
    requires
        s.valid(),
        s.timed(p, after),
        !after.current.found_same(&after.sent.last().state, true),
    ensures
        after.timing.mindelay_clock is Some,
        s.timing.mindelay_clock is Some ==> after.timing.mindelay_clock == s.timing.mindelay_clock,
        s.timing.mindelay_clock is None ==> after.timing.mindelay_clock == Some(p.now),
        after.timing.next_send_time == frame_time(s, p, after.timing.mindelay_clock),
{
    let d = lemma_timed(s, p, after);
    assert(d.from_last);
}

/// What was lost is sent again at the frame rate: while the peer is not assumed to hold the
/// current state, and was heard within ten seconds, another frame is due as soon as one may
/// be sent.
pub proof fn lost_states_are_sent_again<S: SyncState>(
    s: SenderView<S>,
    p: Pace,
    after: SenderView<S>,
)
    requires
        s.valid(),
        s.timed(p, after),
        !after.current.found_same(&after.sent[after.assumed].state, true),
        p.now < s.timing.last_heard + 10_000,
        p.now < u64::MAX,
    ensures
        after.timing.next_send_time == frame_time(s, p, after.timing.mindelay_clock),
        s.timing.mindelay_clock is Some ==> after.timing.mindelay_clock == s.timing.mindelay_clock,
        !after.current.found_same(&after.sent.last().state, false)
            ==> after.timing.mindelay_clock == s.timing.mindelay_clock,
{
    let d = lemma_timed(s, p, after);
    assert(d.from_assumed);
}

/// What was not acknowledged is sent again after a timeout and the time that an
/// acknowledgement may be held back, if not earlier, while the peer was heard within ten
/// seconds.
pub proof fn unacknowledged_states_are_sent_again<S: SyncState>(
    s: SenderView<S>,
    p: Pace,
    after: SenderView<S>,
)
    requires
        s.valid(),
        s.timed(p, after),
        !after.current.found_same(&after.sent[0].state, true),
        p.now < s.timing.last_heard + 10_000,
        p.now < u64::MAX,
    ensures
        after.timing.next_send_time == frame_time(s, p, after.timing.mindelay_clock)
            || after.timing.next_send_time == held(
            held(s.sent.last().timestamp + p.timeout) + 100,
        ),
{
    let d = lemma_timed(s, p, after);
    assert(d.from_known);
}

/// A sender that has nothing to say, or whose peer was silent for ten seconds and has been
/// sent everything, schedules nothing.
pub proof fn nothing_is_scheduled_without_need<S: SyncState>(
    s: SenderView<S>,
    p: Pace,
    after: SenderView<S>,
)
    requires
        s.valid(),
        s.timed(p, after),
        !after.current.found_same(&after.sent.last().state, false),
        p.now >= s.timing.last_heard + 10_000 || (!after.current.found_same(
            &after.sent[after.assumed].state,
            false,
        ) && !after.current.found_same(&after.sent[0].state, false)),
    ensures
        after.timing.next_send_time == u64::MAX,
{
    let d = lemma_timed(s, p, after);
}

/// Data is acknowledged within a tenth of a second, and an acknowledgement that is due sooner
/// stays due then. Without data, the time stays as it is. While the session is ending,
/// acknowledgements go out at the frame rate.
pub proof fn acknowledgements_are_due_soon<S: SyncState>(
    s: SenderView<S>,
    p: Pace,
    after: SenderView<S>,
)
    requires
        s.valid(),
        s.timed(p, after),
    ensures
        !s.shutdown.in_progress && s.ack.num != u64::MAX ==> after.timing.next_ack_time == if
            s.ack.pending_data && s.timing.next_ack_time > p.now + 100 {
            held(p.now + 100)
        } else {
            s.timing.next_ack_time as int
        },
        s.shutdown.in_progress || s.ack.num == u64::MAX ==> after.timing.next_ack_time == held(
            s.sent.last().timestamp + p.interval,
        ),
{
    let d = lemma_timed(s, p, after);
}

/// Is this what a tick can do once the timers are up to date?
spec fn answered<S: SyncState>(
    mid: SenderView<S>,
    p: Pace,
    mtu: nat,
    after: SenderView<S>,
    outcome: (Result<Seq<Seq<u8>>, SendError>, Option<RoundTrip>),
) -> bool {
    exists|chosen: SenderView<S>, diff: Seq<u8>, chaff: Option<Seq<u8>>|
        {
            &&& #[trigger] mid.diff_chosen(chosen, diff)
            &&& chaff matches Some(c) ==> c.len() <= CHAFF_MAX
            &&& #[trigger] chosen.response(diff, chaff, p.now, mtu, (after, outcome.0))
            &&& chosen.check_made(diff, outcome.1)
        }
}

proof fn lemma_ticked<S: SyncState>(
    s: SenderView<S>,
    p: Pace,
    attached: bool,
    mtu: nat,
    after: SenderView<S>,
    outcome: (Result<Seq<Seq<u8>>, SendError>, Option<RoundTrip>),
) -> (mid: SenderView<S>)
    requires
        s.ticked(p, attached, mtu, after, outcome),
    ensures
        s.timed(p, mid),
        !attached || (p.now < mid.timing.next_ack_time && p.now < mid.timing.next_send_time)
            ==> after == mid && outcome.0 == Ok::<Seq<Seq<u8>>, SendError>(Seq::empty()),
        attached && (p.now >= mid.timing.next_ack_time || p.now >= mid.timing.next_send_time)
            ==> answered(mid, p, mtu, after, outcome),
{
    let mid = choose|mid: SenderView<S>|
        {
            &&& #[trigger] s.timed(p, mid)
            &&& if !attached || !mid.timing.due(p.now) {
                after == mid && outcome == (
                    Ok::<Seq<Seq<u8>>, SendError>(Seq::empty()),
                    None::<RoundTrip>,
                )
            } else {
                exists|chosen: SenderView<S>, diff: Seq<u8>, chaff: Option<Seq<u8>>|
                    {
                        &&& #[trigger] mid.diff_chosen(chosen, diff)
                        &&& chaff matches Some(c) ==> c.len() <= CHAFF_MAX
                        &&& #[trigger] chosen.response(
                            diff,
                            chaff,
                            p.now,
                            mtu,
                            (after, outcome.0),
                        )
                        &&& chosen.check_made(diff, outcome.1)
                    }
            }
        };
    mid
}

/// Nothing is sent while there is no one to send to.
pub proof fn nothing_is_sent_to_no_one<S: SyncState>(
    s: SenderView<S>,
    p: Pace,
    mtu: nat,
    after: SenderView<S>,
    outcome: (Result<Seq<Seq<u8>>, SendError>, Option<RoundTrip>),
)
    requires
        s.valid(),
        s.ticked(p, false, mtu, after, outcome),
    ensures
        outcome.0 == Ok::<Seq<Seq<u8>>, SendError>(Seq::empty()),
        after.sent.last().num == s.sent.last().num,
{
    let mid = lemma_ticked(s, p, false, mtu, after, outcome);
    let d = lemma_timed(s, p, mid);
}

/// The peer hears from the sender at least every three seconds: once an acknowledgement is
/// due, a tick sends something, unless it fails, and the next one is due three seconds later.
pub proof fn the_peer_is_kept_informed<S: SyncState>(
    s: SenderView<S>,
    p: Pace,
    mtu: nat,
    after: SenderView<S>,
    outcome: (Result<Seq<Seq<u8>>, SendError>, Option<RoundTrip>),
)
    requires
        s.valid(),
        s.ticked(p, true, mtu, after, outcome),
        !s.shutdown.in_progress,
        s.ack.num != u64::MAX,
        p.now >= s.timing.next_ack_time,
    ensures
        outcome.0 matches Ok(payloads) ==> {
            &&& payloads.len() > 0
            &&& after.timing.next_ack_time == held(p.now + 3000)
            &&& after.timing.next_send_time == u64::MAX
            &&& after.timing.mindelay_clock is None
            &&& !after.ack.pending_data
            &&& after.sent.last().timestamp == p.now
        },
{
    let mid = lemma_ticked(s, p, true, mtu, after, outcome);
    let d = lemma_timed(s, p, mid);
    acknowledgements_are_due_soon(s, p, mid);
    assert(p.now >= mid.timing.next_ack_time);
    lemma_answered(mid, p, mtu, after, outcome);
}

/// What is sent in fragments takes at least one datagram.
proof fn lemma_fragments<S: SyncState>(
    s: SenderView<S>,
    diff: Seq<u8>,
    num: u64,
    chaff: Option<Seq<u8>>,
    mtu: nat,
)
    ensures
        ({
            let (w, r) = s.sent_in_fragments(diff, num, chaff, mtu);
            &&& w.sent == s.sent
            &&& w.timing == s.timing
            &&& w.assumed == s.assumed
            &&& chaff is None ==> r is Err
            &&& r matches Ok(payloads) ==> payloads.len() > 0 && !w.ack.pending_data
        }),
{
}

/// What a tick leaves behind when an acknowledgement is due.
proof fn lemma_answered<S: SyncState>(
    mid: SenderView<S>,
    p: Pace,
    mtu: nat,
    after: SenderView<S>,
    outcome: (Result<Seq<Seq<u8>>, SendError>, Option<RoundTrip>),
)
    requires
        1 <= mid.sent.len() <= 32,
        answered(mid, p, mtu, after, outcome),
        p.now >= mid.timing.next_ack_time,
    ensures
        outcome.0 matches Ok(payloads) ==> {
            &&& payloads.len() > 0
            &&& after.timing.next_ack_time == held(p.now + 3000)
            &&& after.timing.next_send_time == u64::MAX
            &&& after.timing.mindelay_clock is None
            &&& !after.ack.pending_data
            &&& after.sent.last().timestamp == p.now
        },
{
    let (chosen, diff, chaff) = choose|chosen: SenderView<S>, diff: Seq<u8>, chaff: Option<Seq<u8>>|
        {
            &&& #[trigger] mid.diff_chosen(chosen, diff)
            &&& chaff matches Some(c) ==> c.len() <= CHAFF_MAX
            &&& #[trigger] chosen.response(diff, chaff, p.now, mtu, (after, outcome.0))
            &&& chosen.check_made(diff, outcome.1)
        };
    lemma_chosen(mid, chosen, diff);
    let (copy, last_matches) = choose|copy: S, last_matches: bool|
        {
            &&& chosen.copies(last_matches, diff, p.now) ==> copy.is_snapshot_of(&chosen.current)
            &&& chosen.current.found_same(&chosen.sent.last().state, last_matches)
            &&& (after, outcome.0) == #[trigger] chosen.responded(
                copy,
                last_matches,
                diff,
                chaff,
                p.now,
                mtu,
            )
        };
    if diff.len() == 0 {
        let num = chosen.next_num();
        lemma_fragments(chosen.sent_added(p.now, num, copy), Seq::empty(), num, chaff, mtu);
        lemma_last_added(chosen, p.now, num, copy);
    } else {
        senders_rest_after_sending(chosen, diff, chaff, p.now, mtu, (after, outcome.0));
    }
}

/// What is added to the queue is its last state.
proof fn lemma_last_added<S: SyncState>(s: SenderView<S>, timestamp: u64, num: u64, state: S)
    requires
        1 <= s.sent.len() <= 32,
    ensures
        s.sent_added(timestamp, num, state).sent.len() >= 1,
        s.sent_added(timestamp, num, state).sent.last().timestamp == timestamp,
        s.sent_added(timestamp, num, state).sent.last().num == num,
        s.sent_added(timestamp, num, state).sent.last().state == state,
        s.sent_added(timestamp, num, state).timing == s.timing,
{
}

proof fn lemma_chosen<S: SyncState>(mid: SenderView<S>, chosen: SenderView<S>, diff: Seq<u8>)
    requires
        mid.diff_chosen(chosen, diff),
    ensures
        chosen == (SenderView { assumed: chosen.assumed, ..mid }),
        chosen.assumed == mid.assumed || chosen.assumed == 0,
        mid.current.is_diff(&mid.sent[chosen.assumed].state, diff),
{
    let proposed = choose|proposed: Seq<u8>|
        {
            &&& #[trigger] mid.current.is_diff(&mid.sent[mid.assumed].state, proposed)
            &&& mid.resend_considered(proposed, chosen, diff)
        };
}

/// Whatever is sent says what it is a diff from: the diff leads from the state whose number
/// the instruction gives, which the peer is assumed or known to hold, to the current one.
pub proof fn diffs_are_from_the_state_they_name<S: SyncState>(
    mid: SenderView<S>,
    chosen: SenderView<S>,
    diff: Seq<u8>,
    num: u64,
    chaff: Seq<u8>,
)
    requires
        0 <= mid.assumed < mid.sent.len(),
        mid.diff_chosen(chosen, diff),
    ensures
        ({
            let inst = chosen.instruction(diff, num, chaff);
            &&& exists|i: int|
                {
                    &&& 0 <= i < mid.sent.len()
                    &&& i == mid.assumed || i == 0
                    &&& inst.old_num == Some((#[trigger] mid.sent[i]).num)
                    &&& mid.current.is_diff(&mid.sent[i].state, diff)
                }
            &&& inst.new_num == Some(num)
            &&& inst.diff == Some(diff)
            &&& inst.ack_num == Some(mid.ack.num)
            &&& inst.throwaway_num == Some(mid.sent[0].num)
            &&& inst.protocol_version == Some(2u32)
        }),
{
    lemma_chosen(mid, chosen, diff);
    assert(chosen.sent[chosen.assumed].num == mid.sent[chosen.assumed].num);
}

/// A diff from what the peer is known to hold is preferred when it is no longer than the one
/// from what it is assumed to hold, and it is never preferred when it is longer by a hundred
/// bytes or more.
pub proof fn safe_diffs_are_preferred_when_they_are_cheap<S: SyncState>(
    s: SenderView<S>,
    proposed: Seq<u8>,
    after: SenderView<S>,
    diff: Seq<u8>,
)
    requires
        s.assumed > 0,
        s.resend_considered(proposed, after, diff),
    ensures
        exists|resend: Seq<u8>|
            {
                &&& #[trigger] s.current.is_diff(&s.sent[0].state, resend)
                &&& resend.len() <= proposed.len() ==> diff == resend && after.assumed == 0
                &&& resend.len() >= proposed.len() + 100 ==> diff == proposed && after.assumed
                    == s.assumed
                &&& (resend.len() < 1000 && resend.len() < proposed.len() + 100) ==> diff == resend
                    && after.assumed == 0
                &&& (resend.len() >= 1000 && resend.len() > proposed.len()) ==> diff == proposed
                    && after.assumed == s.assumed
            },
        after.sent == s.sent,
        after.current == s.current,
{
}

/// After a diff was sent, the peer is assumed to hold what was sent, and the next datagram is
/// due when there is news, or in three seconds.
pub proof fn senders_rest_after_sending<S: SyncState>(
    s: SenderView<S>,
    diff: Seq<u8>,
    chaff: Option<Seq<u8>>,
    now: u64,
    mtu: nat,
    outcome: (SenderView<S>, Result<Seq<Seq<u8>>, SendError>),
)
    requires
        1 <= s.sent.len() <= 32,
        s.response(diff, chaff, now, mtu, outcome),
        diff.len() > 0,
        now >= s.timing.next_send_time || now >= s.timing.next_ack_time,
    ensures
        outcome.1 matches Ok(payloads) ==> {
            &&& payloads.len() > 0
            &&& outcome.0.assumed == outcome.0.sent.len() - 1
            &&& outcome.0.sent.last().timestamp == now
            &&& outcome.0.timing.next_ack_time == held(now + 3000)
            &&& outcome.0.timing.next_send_time == u64::MAX
            &&& outcome.0.timing.mindelay_clock is None
            &&& !outcome.0.ack.pending_data
        },
        chaff is None ==> outcome.1 is Err,
{
    let (copy, last_matches) = choose|copy: S, last_matches: bool|
        {
            &&& s.copies(last_matches, diff, now) ==> copy.is_snapshot_of(&s.current)
            &&& s.current.found_same(&s.sent.last().state, last_matches)
            &&& outcome == #[trigger] s.responded(copy, last_matches, diff, chaff, now, mtu)
        };
    let num = s.num_to_send(last_matches);
    lemma_fragments(s.noted_as_sent(copy, last_matches, now), diff, num, chaff, mtu);
    lemma_last_added(s, now, num, copy);
}

/// Numbers rise by one with each new state; a session that is ending sends the one number
/// that says so. A state that is sent again keeps its number.
pub proof fn numbers_rise_with_new_states<S: SyncState>(s: SenderView<S>)
    requires
        s.sent.len() > 0,
        s.sent.last().num < u64::MAX,
    ensures
        !s.shutdown.in_progress ==> s.next_num() == s.sent.last().num + 1,
        s.shutdown.in_progress ==> s.next_num() == u64::MAX,
        !s.shutdown.in_progress ==> s.num_to_send(true) == s.sent.last().num,
        !s.shutdown.in_progress ==> s.num_to_send(false) == s.sent.last().num + 1,
        s.shutdown.in_progress ==> s.num_to_send(true) == u64::MAX && s.num_to_send(false)
            == u64::MAX,
{
}

/// A session that is ending is given up after sixteen tries or ten seconds, and not before.
pub proof fn endings_are_given_up_in_time<S: SyncState>(s: SenderView<S>, start: u64, now: u64)
    requires
        start <= now,
        !s.shutdown.in_progress,
    ensures
        ({
            let ending = s.shutdown_started(start);
            &&& ending.shutdown.in_progress
            &&& ending.shutdown_timed_out(now) <==> s.shutdown.tries >= 16 || now - start
                >= 10_000
            &&& !s.shutdown_timed_out(now)
            &&& ending.shutdown_started(now) == ending
        }),
{
}

/// A datagram has room for the fragment that it carries and for what is added to it.
pub proof fn fragments_leave_room_for_what_is_added(mtu: nat)
    ensures
        mtu >= 28 ==> crate::sender::room_for_fragment(mtu) + 28 == mtu,
        mtu < 28 ==> crate::sender::room_for_fragment(mtu) == 0,
{
}

/// Sums of times never pass the largest number.
pub proof fn times_are_held_at_the_largest(t: u64, ms: u64)
    ensures
        later(t, ms) == held(t + ms),
{
}

/// While a session is ending, an acknowledgement is due with every frame.
pub proof fn endings_are_hurried<S: SyncState>(s: SenderView<S>, p: Pace, after: SenderView<S>)
    requires
        s.valid(),
        s.timed(p, after),
        s.shutdown.in_progress || s.ack.num == u64::MAX,
    ensures
        after.timing.next_ack_time == held(s.sent.last().timestamp + p.interval),
{
    let d = lemma_timed(s, p, after);
}

/// Something is due once the time of an acknowledgement or of a send has come, and the next
/// time to look is the first of the two.
pub proof fn what_is_due_is_due_on_time(t: Timing, now: u64)
    ensures
        t.due(now) <==> now >= t.next_due(),
        t.next_due() <= t.next_ack_time,
        t.next_due() <= t.next_send_time,
        t.next_due() == t.next_ack_time || t.next_due() == t.next_send_time,
{
}

} // verus!
