//! What the two ends of a transport keep of each other's states.

use vstd::prelude::*;

use crate::fragment::fragment_in;
use crate::protobufs::transport::InstructionView;
use crate::sender::{
    first_from, holds_num, later, recent, recent_run, SenderView, SyncState, TimestampedState,
};
use crate::transport::{diff_in, kept_from, strictly_ordered, TransportError, TransportView};

verus! {

proof fn lemma_first<S>(states: Seq<TimestampedState<S>>, num: u64, i: int)
    requires
        0 <= i <= states.len(),
    ensures
        ({
            let f = first_from(states, num, i);
            &&& i <= f <= states.len()
            &&& f < states.len() ==> states[f].num >= num
            &&& forall|j: int| i <= j < f ==> (#[trigger] states[j]).num < num
        }),
    decreases states.len() - i,
{
    if i < states.len() && states[i].num < num {
        lemma_first(states, num, i + 1);
    }
}

/// Of the states that were received, those go that the peer will not refer to again, and no
/// others; only the newest stays whatever it says.
pub proof fn only_states_that_are_done_with_go<M: SyncState, R: SyncState>(
    t: TransportView<M, R>,
    num: u64,
)
    requires
        t.received.len() > 0,
        strictly_ordered(t.received),
    ensures
        ({
            let after = t.thrown_away(num);
            let gone = t.received.len() - after.received.len();
            &&& after == (TransportView { received: after.received, ..t })
            &&& 0 <= gone < t.received.len()
            &&& after.received == t.received.skip(gone)
            &&& forall|i: int|
                0 <= i < t.received.len() - 1 ==> ((#[trigger] t.received[i]).num < num <==> i
                    < gone)
        }),
{
    lemma_first(t.received, num, 0);
    let f = first_from(t.received, num, 0);
    let k = kept_from(t.received, num);
    assert forall|i: int| 0 <= i < t.received.len() - 1 implies ((
    #[trigger] t.received[i]).num < num <==> i < k) by {
        if f < t.received.len() && i >= f {
            if i > f {
                assert(t.received[f].num < t.received[i].num);
            }
        }
    }
}

/// A state that is received takes its place by its number, and the others stay.
pub proof fn received_states_stay_in_order<M: SyncState, R: SyncState>(
    t: TransportView<M, R>,
    s: TimestampedState<R>,
)
    requires
        strictly_ordered(t.received),
        !holds_num(t.received, s.num),
        s.num < u64::MAX,
    ensures
        ({
            let after = t.received_inserted(s);
            &&& strictly_ordered(after.received)
            &&& after.received.len() == t.received.len() + 1
            &&& after.received.contains(s)
            &&& forall|i: int|
                0 <= i < t.received.len() ==> after.received.contains(#[trigger] t.received[i])
        }),
{
    let num = later(s.num, 1);
    lemma_first(t.received, num, 0);
    let f = first_from(t.received, num, 0);
    let after = t.received_inserted(s);
    assert(after.received[f] == s);
    assert forall|i: int| 0 <= i < t.received.len() implies after.received.contains(
        #[trigger] t.received[i],
    ) by {
        if i < f {
            assert(after.received[i] == t.received[i]);
        } else {
            assert(after.received[i + 1] == t.received[i]);
        }
    }
    assert forall|i: int| 0 <= i < t.received.len() implies (#[trigger] t.received[i]).num
        != s.num by {}
    assert forall|i: int, j: int| 0 <= i < j < after.received.len() implies #[trigger] after.received[i].num
        < #[trigger] after.received[j].num by {
        let (a, b) = (
            if i < f {
                i
            } else {
                i - 1
            },
            if j < f {
                j
            } else {
                j - 1
            },
        );
        if i == f {
            assert(t.received[f].num >= num);
            if b > f {
                assert(t.received[f].num < t.received[b].num);
            }
        } else if j == f {
            assert(t.received[a].num < num);
        } else {
            assert(t.received[a].num < t.received[b].num);
        }
    }
}

/// An instruction of another version is refused, and one whose diff cannot be read adds no
/// state.
pub proof fn unreadable_instructions_are_refused<M: SyncState, R: SyncState>(
    t: TransportView<M, R>,
    inst: InstructionView,
    now: u64,
    after: TransportView<M, R>,
    r: Result<(), TransportError>,
)
    requires
        t.instructed(inst, now, after, r),
    ensures
        inst.protocol_version != Some(2u32) ==> after == t && r == Err::<(), TransportError>(
            TransportError::ProtocolVersionMismatch,
        ),
        inst.protocol_version == Some(2u32) && t.is_news(inst) && !(t.prepared(inst).received.len()
            > 1024 && now < t.quench_timer) && diff_in(inst).len() > 0 && !R::readable(
            diff_in(inst),
        ) ==> r == Err::<(), TransportError>(TransportError::Malformed) && after.received
            == t.prepared(inst).received,
{
}

/// What an instruction acknowledges and throws away is taken note of, and when the
/// acknowledged state was sent is the time of the last round trip that worked.
pub proof fn acknowledgements_are_taken_note_of<M: SyncState, R: SyncState>(
    t: TransportView<M, R>,
    inst: InstructionView,
    now: u64,
    after: TransportView<M, R>,
    r: Result<(), TransportError>,
)
    requires
        t.instructed(inst, now, after, r),
        inst.protocol_version == Some(2u32),
    ensures
        ({
            let num = match inst.ack_num {
                Some(n) => n,
                None => 0,
            };
            &&& after.sender.sent == t.sender.acknowledged(num).sent
            &&& after.connection.last_roundtrip_success == after.sender.sent[0].timestamp
        }),
{
}

/// A full queue refuses growth for fifteen seconds; one that has room is not held up.
pub proof fn full_queues_wait<M: SyncState, R: SyncState>(t: TransportView<M, R>, now: u64)
    requires
        now <= u64::MAX - 15_000,
    ensures
        t.received.len() > 1024 ==> t.quenched(now).quench_timer == now + 15_000,
        t.received.len() <= 1024 ==> t.quenched(now) == t,
        t.quenched(now).received == t.received,
{
}

/// A fragment that does not complete its instruction changes nothing else.
pub proof fn incomplete_instructions_change_nothing<M: SyncState, R: SyncState>(
    t: TransportView<M, R>,
    payload: Seq<u8>,
    now: u64,
    after: TransportView<M, R>,
    r: Result<(), TransportError>,
)
    requires
        t.delivered(payload, now, after, r),
    ensures
        match fragment_in(payload) {
            Err(_) => after == t && r is Err,
            Ok(f) => !t.fragments.added(f).complete() ==> r is Ok && after == (TransportView {
                fragments: after.fragments,
                ..t
            }),
        },
{
}

/// Once a state was taken in, the newest there is will be acknowledged, the peer counts as
/// heard, and data is owed an answer.
pub proof fn what_is_heard_is_acknowledged<M: SyncState, R: SyncState>(
    t: TransportView<M, R>,
    data: bool,
    now: u64,
)
    requires
        t.received.len() > 0,
    ensures
        ({
            let after = t.heard(data, now);
            &&& after.sender.ack.num == t.received.last().num
            &&& after.sender.ack.pending_data == (data || t.sender.ack.pending_data)
            &&& after.sender.timing.last_heard == now
            &&& after.received == t.received
            &&& after.sender.sent == t.sender.sent
        }),
{
}

/// An instruction names the state that its diff starts from, which is the one that the peer
/// is assumed to have; the one it leads to; the newest that was received; and the oldest that
/// may still be referred to.
pub proof fn instructions_name_their_states<S: SyncState>(
    s: SenderView<S>,
    diff: Seq<u8>,
    num: u64,
    chaff: Seq<u8>,
)
    ensures
        s.instruction(diff, num, chaff) == (InstructionView {
            protocol_version: Some(2u32),
            old_num: Some(s.sent[s.assumed].num),
            new_num: Some(num),
            ack_num: Some(s.ack.num),
            throwaway_num: Some(s.sent[0].num),
            diff: Some(diff),
            chaff: Some(chaff),
        }),
{
}

proof fn lemma_run<S>(states: Seq<TimestampedState<S>>, now: u64, timeout: u64, i: int)
    requires
        0 <= i < states.len(),
    ensures
        ({
            let k = recent_run(states, now, timeout, i);
            &&& i <= k < states.len()
            &&& forall|j: int|
                i < j <= k ==> recent((#[trigger] states[j]).timestamp, now, timeout)
            &&& k + 1 < states.len() ==> !recent(states[k + 1].timestamp, now, timeout)
        }),
    decreases states.len() - i,
{
    if i + 1 < states.len() && recent(states[i + 1].timestamp, now, timeout) {
        lemma_run(states, now, timeout, i + 1);
    }
}

/// The peer is assumed to have the acknowledged state and every state behind it, up to the
/// first one that was sent so long ago that an acknowledgement should have come: the timeout
/// and a tenth of a second.
pub proof fn states_are_assumed_until_they_should_be_acknowledged<S: SyncState>(
    s: SenderView<S>,
    now: u64,
    timeout: u64,
)
    requires
        s.valid(),
        timeout <= 1000,
    ensures
        ({
            let k = s.assumption_updated(now, timeout).assumed;
            &&& 0 <= k < s.sent.len()
            &&& forall|j: int|
                0 < j <= k ==> now < (#[trigger] s.sent[j]).timestamp + timeout + 100
            &&& k + 1 < s.sent.len() ==> now >= s.sent[k + 1].timestamp + timeout + 100
        }),
{
    lemma_run(s.sent, now, timeout, 0);
    let k = s.assumption_updated(now, timeout).assumed;
    assert forall|j: int| 0 < j <= k implies now < (#[trigger] s.sent[j]).timestamp + timeout
        + 100 by {
        assert(recent(s.sent[j].timestamp, now, timeout));
    }
}

/// A queue of sent states holds at most 32. A longer one loses the state that has fifteen
/// newer ones; all others stay, in order, and what the peer is assumed to have is still the
/// same state, if it is there.
pub proof fn long_queues_lose_one_from_the_middle<S: SyncState>(
    s: SenderView<S>,
    timestamp: u64,
    num: u64,
    state: S,
)
    requires
        s.valid(),
    ensures
        ({
            let added = TimestampedState { timestamp, num, state };
            let after = s.sent_added(timestamp, num, state);
            let n = s.sent.len();
            &&& n < 32 ==> after.sent == s.sent.push(added) && after.assumed == s.assumed
            &&& n == 32 ==> {
                &&& after.sent.len() == 32
                &&& forall|i: int| 0 <= i < 17 ==> #[trigger] after.sent[i] == s.sent[i]
                &&& forall|i: int| 17 <= i < 31 ==> #[trigger] after.sent[i] == s.sent[i + 1]
                &&& after.sent[31] == added
                &&& s.assumed != 17 ==> after.sent[after.assumed] == s.sent[s.assumed]
            }
        }),
{
    let added = TimestampedState { timestamp, num, state };
    let longer = s.sent.push(added);
    if s.sent.len() == 32 {
        let after = s.sent_added(timestamp, num, state);
        assert(after.sent =~= longer.remove(17));
    }
}

} // verus!
