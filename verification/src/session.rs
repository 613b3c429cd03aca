//! What two endpoints come to hold of each other.
//!
//! One endpoint sends a diff from a state that it takes the other to hold. If the other
//! does hold it, the diff brings it to the state that was sent, whatever got lost, repeated
//! or reordered before.

use vstd::prelude::*;

use crate::complete::{
    an_unchanged_state_needs_no_diff, applying_a_diff_reaches_the_newer_screen, Complete,
};
use crate::sender::{
    assumptions_rest_on_recent_sends, holds_num, later, latest, worth_resending, Differences, Pace, RoundTrip, SendError, SenderView, SyncState,
    TimestampedState, ACK_DELAY, CHAFF_MAX, MAX_SENT_STATES,
};
use crate::transport::{
    index_of, new_instructions_are_taken_in, TransportError, TransportView,
};
use crate::user::{
    applying_a_diff_reaches_the_newer_stream, user_applied, user_diff, UserEvent, UserStream,
};

verus! {

/// With states that each have a number of their own, the first one of a number is the one.
proof fn lemma_index_of<M: SyncState, R: SyncState>(t: TransportView<M, R>, num: u64, i: int, k: int)
    requires
        t.valid(),
        0 <= i <= k < t.received.len(),
        t.received[k].num == num,
    ensures
        index_of(t.received, num, i) == k,
    decreases k - i,
{
    if i < k {
        assert(t.received[i].num < t.received[k].num);
        lemma_index_of(t, num, i + 1, k);
    }
}

/// What the user types reaches the server. `typed` is everything up to the state that the
/// client takes the server to hold, and `more` is what came after; each side has dropped
/// some of the oldest events, which both had. A diff that the server takes in makes its
/// stream what the user typed.
pub proof fn keystrokes_reach_the_server<M: SyncState>(
    client: SenderView<UserStream>,
    server: TransportView<M, UserStream>,
    typed: Seq<UserEvent>,
    more: Seq<UserEvent>,
    client_dropped: int,
    server_dropped: int,
    held: int,
    diff: Seq<u8>,
    num: u64,
    chaff: Seq<u8>,
    now: u64,
    after: TransportView<M, UserStream>,
    r: Result<(), TransportError>,
)
    requires
        client.valid(),
        server.valid(),
        0 <= client_dropped <= typed.len(),
        0 <= server_dropped <= typed.len(),
        client.sent[client.assumed].state@ == typed.skip(client_dropped),
        client.current@ == (typed + more).skip(client_dropped),
        client.current.is_diff(&client.sent[client.assumed].state, diff),
        diff.len() <= u64::MAX,
        0 <= held < server.received.len(),
        server.received[held].num == client.sent[client.assumed].num,
        server.received[held].state@ == typed.skip(server_dropped),
        server.is_news(client.instruction(diff, num, chaff)),
        !(server.prepared(client.instruction(diff, num, chaff)).full() && now
            < server.quench_timer),
        server.instructed(client.instruction(diff, num, chaff), now, after, r),
    ensures
        r is Ok,
        exists|i: int|
            0 <= i < after.received.len() && (#[trigger] after.received[i]).num == num
                && after.received[i].state@ == (typed + more).skip(server_dropped),
{
    let inst = client.instruction(diff, num, chaff);
    let (old, new) = (typed.skip(server_dropped), (typed + more).skip(server_dropped));
    let (known, current) = (typed.skip(client_dropped), (typed + more).skip(client_dropped));
    assert(current.skip(known.len() as int) =~= more);
    assert(new.skip(old.len() as int) =~= more);
    assert(diff == user_diff(new, old));
    assert(old =~= new.take(old.len() as int));
    applying_a_diff_reaches_the_newer_stream(old, new);
    new_instructions_are_taken_in(server, inst, now, after, r);
    lemma_index_of(server, client.sent[client.assumed].num, 0, held);
    let i = choose|i: int| 0 <= i < after.received.len() && (#[trigger] after.received[i]).num == num;
    let state = after.received[i].state;
    assert(server.reached(inst, state));
    if diff.len() == 0 {
        let none = Seq::<UserEvent>::empty();
        crate::user::an_unchanged_stream_needs_no_diff(none);
        applying_a_diff_reaches_the_newer_stream(none, none);
        assert(diff =~= user_diff(none, none));
        assert(old + (user_applied(none, diff)->0) =~= old);
        assert(user_applied(old, diff)->0 =~= old + (user_applied(none, diff)->0));
    }
}

/// What the server's screen holds reaches the client. If the client's copy of the state
/// that the server takes it to hold shows what that state holds, then a diff that the
/// client takes in makes a state that shows what the server's screen holds.
pub proof fn screens_reach_the_client<M: SyncState>(
    server: SenderView<Complete>,
    client: TransportView<M, Complete>,
    held: int,
    diff: Seq<u8>,
    num: u64,
    chaff: Seq<u8>,
    now: u64,
    after: TransportView<M, Complete>,
    r: Result<(), TransportError>,
)
    requires
        server.valid(),
        client.valid(),
        server.current.is_diff(&server.sent[server.assumed].state, diff),
        diff.len() <= u64::MAX,
        0 <= held < client.received.len(),
        client.received[held].num == server.sent[server.assumed].num,
        client.received[held].state@.mirrors(server.sent[server.assumed].state@),
        server.current@.diffable(
            server.sent[server.assumed].state@,
            client.received[held].state@.terminal.widths,
        ),
        client.is_news(server.instruction(diff, num, chaff)),
        !(client.prepared(server.instruction(diff, num, chaff)).full() && now
            < client.quench_timer),
        client.instructed(server.instruction(diff, num, chaff), now, after, r),
    ensures
        r is Ok,
        exists|i: int|
            0 <= i < after.received.len() && (#[trigger] after.received[i]).num == num
                && after.received[i].state@.mirrors(server.current@),
{
    let inst = server.instruction(diff, num, chaff);
    let (older, newer) = (server.sent[server.assumed].state@, server.current@);
    let reference = client.received[held].state;
    applying_a_diff_reaches_the_newer_screen(reference@, older, newer, diff);
    new_instructions_are_taken_in(client, inst, now, after, r);
    lemma_index_of(client, server.sent[server.assumed].num, 0, held);
    let i = choose|i: int| 0 <= i < after.received.len() && (#[trigger] after.received[i]).num == num;
    let state = after.received[i].state;
    assert(client.reached(inst, state));
    if diff.len() == 0 {
        applying_a_diff_reaches_the_newer_screen(state@, older, newer, diff);
        crate::protobufs::host::host_messages_round_trip(Seq::empty());
        assert(state@.applied(diff) == Some(state@));
    } else {
        let copy = choose|copy: Complete|
            copy.is_snapshot_of(&reference) && #[trigger] Complete::applied(copy, diff, state);
        applying_a_diff_reaches_the_newer_screen(copy@, older, newer, diff);
    }
}

/// Bringing the timers up to date touches no screen.
proof fn lemma_timed_screens(s: SenderView<Complete>, p: Pace, after: SenderView<Complete>)
    requires
        s.valid(),
        s.timed(p, after),
    ensures
        ({
            let timing = after.timing;
            let last_sent = s.sent.last().timestamp;
            &&& after.current@ == s.current@
            &&& after.sent.len() == s.sent.len()
            &&& forall|i: int|
                0 <= i < s.sent.len() ==> {
                    let (a, b) = (s.sent[i], #[trigger] after.sent[i]);
                    &&& b.state@ == a.state@
                    &&& b.num == a.num
                    &&& b.timestamp == a.timestamp
                }
            &&& 0 <= after.assumed < after.sent.len()
            &&& after.shutdown == s.shutdown
            &&& after.ack == s.ack
            &&& exists|d: Differences|
                {
                    &&& #[trigger] after.differences(d)
                    &&& timing == s.timing.ack_brought_forward(
                        s.ack.pending_data,
                        p.now,
                    ).send_scheduled(d, last_sent, p).hurried(s.hurry(), last_sent, p)
                }
        }),
{
    let (mid, d) = choose|mid: SenderView<Complete>, d: Differences|
        {
            &&& #[trigger] s.assumption_updated(p.now, p.timeout).rationalized(mid)
            &&& #[trigger] mid.differences(d)
            &&& after == mid.scheduled(d, p)
        };
    assumptions_rest_on_recent_sends(s, p.now, p.timeout);
    let t = s.assumption_updated(p.now, p.timeout);
    let known = choose|known: Complete|
        known.is_snapshot_of(&t.sent[0].state) && #[trigger] t.rationalized_by(known, mid);
    assert(mid.sent[mid.sent.len() - 1].timestamp == t.sent[t.sent.len() - 1].timestamp);
    assert(after.differences(d));
}

/// A screen that was changed is scheduled to be sent: a while is spent collecting more, and
/// there is no more than one frame per interval.
pub proof fn changed_screens_are_scheduled(
    s: SenderView<Complete>,
    p: Pace,
    after: SenderView<Complete>,
)
    requires
        s.valid(),
        s.timed(p, after),
        !s.current@.same_state(s.sent.last().state@),
    ensures
        after.timing.mindelay_clock == Some(
            match s.timing.mindelay_clock {
                Some(t) => t,
                None => p.now,
            },
        ),
        after.timing.next_send_time == latest(
            later(after.timing.mindelay_clock->0, s.timing.send_mindelay),
            later(s.sent.last().timestamp, p.interval),
        ),
{
    lemma_timed_screens(s, p, after);
    assert(after.sent[after.sent.len() - 1].state@ == s.sent.last().state@);
}

/// The times that are added up stay below the largest number.
pub open spec fn times_fit<S>(s: SenderView<S>, p: Pace) -> bool {
    let t = s.timing;
    let last_sent = s.sent.last().timestamp;
    &&& p.now + t.send_mindelay < u64::MAX
    &&& t.mindelay_clock matches Some(clock) ==> clock + t.send_mindelay < u64::MAX
    &&& last_sent + p.interval < u64::MAX
    &&& last_sent + p.timeout + ACK_DELAY < u64::MAX
}

/// No send of the screen is scheduled only if there is nothing to say: the screen is the one
/// that was sent last, and it is also the one that the peer is assumed to hold and the one
/// that it is known to hold, unless the peer has been silent for long.
pub proof fn screens_rest_only_if_there_is_nothing_to_say(
    s: SenderView<Complete>,
    p: Pace,
    after: SenderView<Complete>,
)
    requires
        s.valid(),
        s.timed(p, after),
        times_fit(s, p),
        after.timing.next_send_time == u64::MAX,
    ensures
        s.current@.same_state(s.sent.last().state@),
        s.timing.peer_active(p.now) ==> s.current@.same_state(s.sent[after.assumed].state@),
        s.timing.peer_active(p.now) ==> s.current@.same_state(s.sent[0].state@),
{
    lemma_timed_screens(s, p, after);
    assert(after.sent[after.sent.len() - 1].state@ == s.sent.last().state@);
    assert(after.sent[after.assumed].state@ == s.sent[after.assumed].state@);
    assert(after.sent[0].state@ == s.sent[0].state@);
}

/// No send of keystrokes is scheduled exactly if there is nothing to say: what there is is
/// what was sent last, and also what the peer is assumed to hold and what it is known to
/// hold, unless the peer has been silent for long.
pub proof fn keystrokes_rest_exactly_if_there_is_nothing_to_say(
    s: SenderView<UserStream>,
    p: Pace,
    after: SenderView<UserStream>,
)
    requires
        s.valid(),
        s.timed(p, after),
        times_fit(s, p),
    ensures
        after.timing.next_send_time == u64::MAX <==> {
            &&& after.current@ == after.sent.last().state@
            &&& s.timing.peer_active(p.now) ==> after.current@
                == after.sent[after.assumed].state@ && after.current@ == after.sent[0].state@
        },
{
    let (mid, d) = choose|mid: SenderView<UserStream>, d: Differences|
        {
            &&& #[trigger] s.assumption_updated(p.now, p.timeout).rationalized(mid)
            &&& #[trigger] mid.differences(d)
            &&& after == mid.scheduled(d, p)
        };
    let t = s.assumption_updated(p.now, p.timeout);
    let known = choose|known: UserStream|
        known.is_snapshot_of(&t.sent[0].state) && #[trigger] t.rationalized_by(known, mid);
    assert(mid.sent[mid.sent.len() - 1].timestamp == t.sent[t.sent.len() - 1].timestamp);
}

/// Data that is to be acknowledged is acknowledged soon, unless the session is ending.
pub proof fn data_is_acknowledged_soon<S: SyncState>(s: SenderView<S>, p: Pace, after: SenderView<S>)
    requires
        s.timed(p, after),
        s.ack.pending_data,
        !s.hurry(),
    ensures
        after.timing.next_ack_time <= later(p.now, ACK_DELAY),
{
    let (mid, d) = choose|mid: SenderView<S>, d: Differences|
        {
            &&& #[trigger] s.assumption_updated(p.now, p.timeout).rationalized(mid)
            &&& #[trigger] mid.differences(d)
            &&& after == mid.scheduled(d, p)
        };
    let t = s.assumption_updated(p.now, p.timeout);
    let known = choose|known: S|
        known.is_snapshot_of(&t.sent[0].state) && #[trigger] t.rationalized_by(known, mid);
}

/// A changed screen goes out under a new number: where a diff of it is due, the fragments
/// that carry it say that number, and a copy of the screen is kept under it.
pub proof fn changed_screens_go_out_under_a_new_number(
    s: SenderView<Complete>,
    diff: Seq<u8>,
    chaff: Option<Seq<u8>>,
    now: u64,
    mtu: nat,
    outcome: (SenderView<Complete>, Result<Seq<Seq<u8>>, SendError>),
)
    requires
        1 <= s.sent.len() <= MAX_SENT_STATES,
        s.response(diff, chaff, now, mtu, outcome),
        diff.len() > 0,
        s.timing.due(now),
        !s.current@.same_state(s.sent.last().state@),
        s.next_num() != s.sent.last().num,
    ensures
        s.next_num() > s.sent.last().num,
        exists|copy: Complete|
            {
                let noted = #[trigger] s.sent_added(now, s.next_num(), copy);
                &&& copy@.copy_of(s.current@)
                &&& outcome.0.sent == noted.sent
                &&& outcome.1 == noted.sent_in_fragments(diff, s.next_num(), chaff, mtu).1
            },
        outcome.0.sent.last().num == s.next_num(),
        outcome.0.sent.last().timestamp == now,
        outcome.0.sent.last().state@.copy_of(s.current@),
        outcome.1 matches Ok(payloads) ==> payloads.len() > 0,
{
    let (copy, last_matches) = choose|copy: Complete, last_matches: bool|
        {
            &&& s.copies(last_matches, diff, now) ==> copy.is_snapshot_of(&s.current)
            &&& s.current.found_same(&s.sent.last().state, last_matches)
            &&& outcome == #[trigger] s.responded(copy, last_matches, diff, chaff, now, mtu)
        };
    assert(!last_matches);
    let noted = s.sent_added(now, s.next_num(), copy);
    assert(noted.sent.last() == (TimestampedState {
        timestamp: now,
        num: s.next_num(),
        state: copy,
    }));
    assert(outcome.0.sent == noted.sent);
}

/// What a number says that is new to the sender is news to the peer, which knows no other
/// numbers than the sender's, and holds the state that the diff is from.
pub proof fn new_numbers_are_news<M: SyncState, R: SyncState>(
    server: SenderView<R>,
    client: TransportView<M, R>,
    diff: Seq<u8>,
    chaff: Seq<u8>,
)
    requires
        server.valid(),
        server.next_num() > server.sent.last().num,
        forall|i: int|
            0 <= i < client.received.len() ==> (#[trigger] client.received[i]).num
                <= server.sent.last().num,
        holds_num(client.received, server.sent[server.assumed].num),
    ensures
        client.is_news(server.instruction(diff, server.next_num(), chaff)),
{
}

/// Was the sender's screen sent: is a copy of it the state that was sent last, under the next
/// number, and are there datagrams to send, unless something failed?
pub open spec fn screen_told(
    s: SenderView<Complete>,
    now: u64,
    after: SenderView<Complete>,
    r: Result<Seq<Seq<u8>>, SendError>,
) -> bool {
    let last = after.sent.last();
    &&& last.num == s.next_num()
    &&& last.timestamp == now
    &&& last.state@.copy_of(s.current@)
    &&& r matches Ok(payloads) ==> payloads.len() > 0
}

/// A tick sends a changed screen as soon as it is due. The diff is one from the state that
/// the peer is assumed or known to hold; if it is not empty, the screen is sent under a new
/// number.
pub proof fn changed_screens_are_sent_when_they_are_due(
    s: SenderView<Complete>,
    p: Pace,
    mtu: nat,
    after: SenderView<Complete>,
    outcome: (Result<Seq<Seq<u8>>, SendError>, Option<RoundTrip>),
)
    requires
        s.valid(),
        s.ticked(p, true, mtu, after, outcome),
        !s.current@.same_state(s.sent.last().state@),
        s.next_num() != s.sent.last().num,
        p.now >= later(s.sent.last().timestamp, p.interval),
        p.now >= later(
            match s.timing.mindelay_clock {
                Some(t) => t,
                None => p.now,
            },
            s.timing.send_mindelay,
        ),
    ensures
        exists|diff: Seq<u8>, i: int|
            {
                &&& 0 <= i < s.sent.len()
                &&& #[trigger] s.current@.possible_diff(s.sent[i].state@, diff)
                &&& diff.len() > 0 ==> screen_told(s, p.now, after, outcome.0)
            },
{
    let mid = choose|mid: SenderView<Complete>|
        {
            &&& #[trigger] s.timed(p, mid)
            &&& if !true || !mid.timing.due(p.now) {
                after == mid && outcome == (
                    Ok::<Seq<Seq<u8>>, SendError>(Seq::empty()),
                    None::<RoundTrip>,
                )
            } else {
                exists|chosen: SenderView<Complete>, diff: Seq<u8>, chaff: Option<Seq<u8>>|
                    {
                        &&& #[trigger] mid.diff_chosen(chosen, diff)
                        &&& chaff matches Some(c) ==> c.len() <= CHAFF_MAX
                        &&& #[trigger] chosen.response(
                            diff,
                            chaff,
                            p.now,
                            mtu,
                            (after, outcome.0),
                        )
                        &&& chosen.check_made(diff, outcome.1)
                    }
            }
        };
    changed_screens_are_scheduled(s, p, mid);
    lemma_timed_screens(s, p, mid);
    assert(mid.timing.due(p.now));
    let (chosen, diff, chaff) = choose|
        chosen: SenderView<Complete>,
        diff: Seq<u8>,
        chaff: Option<Seq<u8>>,
    |
        {
            &&& #[trigger] mid.diff_chosen(chosen, diff)
            &&& chaff matches Some(c) ==> c.len() <= CHAFF_MAX
            &&& #[trigger] chosen.response(diff, chaff, p.now, mtu, (after, outcome.0))
            &&& chosen.check_made(diff, outcome.1)
        };
    let i = lemma_chosen_diff(mid, chosen, diff);
    assert(mid.sent[i].state@ == s.sent[i].state@);
    assert(s.current@.possible_diff(s.sent[i].state@, diff));
    assert(mid.sent[mid.sent.len() - 1].state@ == s.sent.last().state@);
    assert(mid.sent[mid.sent.len() - 1].num == s.sent.last().num);
    if diff.len() > 0 {
        changed_screens_go_out_under_a_new_number(
            chosen,
            diff,
            chaff,
            p.now,
            mtu,
            (after, outcome.0),
        );
    }
}

/// The diff that is chosen is one from the state that the peer is assumed or known to hold.
proof fn lemma_chosen_diff(
    mid: SenderView<Complete>,
    chosen: SenderView<Complete>,
    diff: Seq<u8>,
) -> (i: int)
    requires
        mid.diff_chosen(chosen, diff),
        0 <= mid.assumed < mid.sent.len(),
    ensures
        i == mid.assumed || i == 0,
        mid.current@.possible_diff(mid.sent[i].state@, diff),
        chosen == (SenderView { assumed: chosen.assumed, ..mid }),
        0 <= chosen.assumed < mid.sent.len(),
{
    let proposed = choose|proposed: Seq<u8>|
        {
            &&& #[trigger] mid.current.is_diff(&mid.sent[mid.assumed].state, proposed)
            &&& mid.resend_considered(proposed, chosen, diff)
        };
    if mid.assumed == 0 {
        0
    } else {
        let resend = choose|resend: Seq<u8>|
            {
                &&& #[trigger] mid.current.is_diff(&mid.sent[0].state, resend)
                &&& if worth_resending(resend.len(), proposed.len()) {
                    chosen == (SenderView { assumed: 0, ..mid }) && diff == resend
                } else {
                    chosen == mid && diff == proposed
                }
            };
        if worth_resending(resend.len(), proposed.len()) {
            0
        } else {
            mid.assumed
        }
    }
}

/// A screen that has not changed is not sent again: while no acknowledgement is due either, a
/// tick has nothing to send and keeps nothing as sent.
pub proof fn unchanged_screens_are_not_sent(
    s: SenderView<Complete>,
    p: Pace,
    attached: bool,
    mtu: nat,
    after: SenderView<Complete>,
    outcome: (Result<Seq<Seq<u8>>, SendError>, Option<RoundTrip>),
)
    requires
        s.valid(),
        s.ticked(p, attached, mtu, after, outcome),
        forall|i: int|
            0 <= i < s.sent.len() ==> (#[trigger] s.sent[i]).state@.copy_of(s.current@),
        p.now < s.timing.next_ack_time,
        !s.ack.pending_data,
        !s.hurry(),
    ensures
        outcome.0 == Ok::<Seq<Seq<u8>>, SendError>(Seq::empty()),
        after.sent.len() == s.sent.len(),
        after.sent.last().num == s.sent.last().num,
{
    let mid = choose|mid: SenderView<Complete>|
        {
            &&& #[trigger] s.timed(p, mid)
            &&& if !attached || !mid.timing.due(p.now) {
                after == mid && outcome == (
                    Ok::<Seq<Seq<u8>>, SendError>(Seq::empty()),
                    None::<RoundTrip>,
                )
            } else {
                exists|chosen: SenderView<Complete>, diff: Seq<u8>, chaff: Option<Seq<u8>>|
                    {
                        &&& #[trigger] mid.diff_chosen(chosen, diff)
                        &&& chaff matches Some(c) ==> c.len() <= CHAFF_MAX
                        &&& #[trigger] chosen.response(
                            diff,
                            chaff,
                            p.now,
                            mtu,
                            (after, outcome.0),
                        )
                        &&& chosen.check_made(diff, outcome.1)
                    }
            }
        };
    lemma_timed_screens(s, p, mid);
    assert(mid.sent[mid.sent.len() - 1].num == s.sent.last().num);
    assert(mid.timing.next_ack_time == s.timing.next_ack_time);
    if attached && mid.timing.due(p.now) {
        let (chosen, diff, chaff) = choose|
            chosen: SenderView<Complete>,
            diff: Seq<u8>,
            chaff: Option<Seq<u8>>,
        |
            {
                &&& #[trigger] mid.diff_chosen(chosen, diff)
                &&& chaff matches Some(c) ==> c.len() <= CHAFF_MAX
                &&& #[trigger] chosen.response(diff, chaff, p.now, mtu, (after, outcome.0))
                &&& chosen.check_made(diff, outcome.1)
            };
        let i = lemma_chosen_diff(mid, chosen, diff);
        assert(mid.sent[i].state@ == s.sent[i].state@);
        s.current.lemma_well_formed();
        an_unchanged_state_needs_no_diff(s.current@, s.sent[i].state@, diff);
    }
}

} // verus!
