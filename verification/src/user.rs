//! The client's state: what the user has typed.

use std::collections::VecDeque;
use vstd::prelude::*;

use crate::protobufs::user as pb;
use crate::protobufs::user::{
    user_message_in, user_messages_round_trip, KeystrokeView, UserInstructionView, UserMessage,
};
use crate::protobufs::resize::ResizeView;
use crate::protobufs::Message;
use crate::sender::{StateError, SyncState};
use crate::views::group_views;

verus! {

broadcast use group_views;

/// One thing the user did.
#[derive(Debug, Clone, Copy, PartialEq, Eq, Structural)]
pub enum UserEvent {
    Byte(u8),
    Resize { width: i32, height: i32 },
}

/// A diff that could not be applied. A peer can only produce one by being broken or
/// hostile, and neither is a reason to stop: the caller drops the datagram.
#[derive(Debug, Clone, Copy, PartialEq, Eq, Structural)]
pub enum ApplyError {
    Malformed,
}

impl ApplyError {
    /// The message for a person.
    pub fn text(&self) -> (s: &'static str)
        ensures
            s@ == "could not parse a state diff"@,
    {
        "could not parse a state diff"
    }
}

/// A part of a diff that carries keystrokes.
pub open spec fn keystrokes(keys: Seq<u8>) -> UserInstructionView {
    UserInstructionView { keystroke: Some(KeystrokeView { keys: Some(keys) }), resize: None }
}

/// A part of a diff that carries a new size.
pub open spec fn new_size(width: i32, height: i32) -> UserInstructionView {
    UserInstructionView {
        keystroke: None,
        resize: Some(ResizeView { width: Some(width), height: Some(height) }),
    }
}

/// The keys that a part carries.
pub open spec fn keys_of(part: UserInstructionView) -> Seq<u8> {
    match part.keystroke {
        Some(k) => match k.keys {
            Some(keys) => keys,
            None => Seq::empty(),
        },
        None => Seq::empty(),
    }
}

/// The parts that describe a run of events: consecutive keystrokes share one part.
pub open spec fn grouped(events: Seq<UserEvent>) -> Seq<UserInstructionView>
    decreases events.len(),
{
    if events.len() == 0 {
        Seq::empty()
    } else {
        let before = grouped(events.drop_last());
        match events.last() {
            UserEvent::Byte(c) => if before.len() > 0 && before.last().keystroke is Some {
                before.drop_last().push(keystrokes(keys_of(before.last()).push(c)))
            } else {
                before.push(keystrokes(seq![c]))
            },
            UserEvent::Resize { width, height } => before.push(new_size(width, height)),
        }
    }
}

/// A keystroke for each byte.
pub open spec fn typed(keys: Seq<u8>) -> Seq<UserEvent> {
    keys.map_values(|c: u8| UserEvent::Byte(c))
}

/// The given number, or -1.
pub open spec fn or_unknown(x: Option<i32>) -> i32 {
    match x {
        Some(n) => n,
        None => -1i32,
    }
}

/// The events that one part of a diff describes.
pub open spec fn events_of(part: UserInstructionView) -> Seq<UserEvent> {
    if part.keystroke is Some {
        typed(keys_of(part))
    } else {
        match part.resize {
            Some(size) => seq![
                UserEvent::Resize {
                    width: or_unknown(size.width),
                    height: or_unknown(size.height),
                },
            ],
            None => Seq::empty(),
        }
    }
}

/// The events that the parts of a diff describe.
pub open spec fn all_events(parts: Seq<UserInstructionView>) -> Seq<UserEvent>
    decreases parts.len(),
{
    if parts.len() == 0 {
        Seq::empty()
    } else {
        all_events(parts.drop_last()) + events_of(parts.last())
    }
}

/// What comes after the first `n` events.
pub open spec fn events_after(events: Seq<UserEvent>, n: nat) -> Seq<UserEvent> {
    if n <= events.len() {
        events.skip(n as int)
    } else {
        Seq::empty()
    }
}

/// The diff that takes a stream of `known` events to `events`.
pub open spec fn user_diff(events: Seq<UserEvent>, known: Seq<UserEvent>) -> Seq<u8> {
    UserMessage::encoding(grouped(events_after(events, known.len())))
}

/// The stream after a diff, or nothing if the diff is malformed.
pub open spec fn user_applied(events: Seq<UserEvent>, diff: Seq<u8>) -> Option<Seq<UserEvent>> {
    match user_message_in(diff) {
        Some(parts) => Some(events + all_events(parts)),
        None => None,
    }
}

/// The ordered stream of everything the user has done.
#[derive(Debug)]
pub struct UserStream {
    actions: VecDeque<UserEvent>,
}

impl View for UserStream {
    type V = Seq<UserEvent>;

    closed spec fn view(&self) -> Seq<UserEvent> {
        self.actions@
    }
}

impl Default for UserStream {
    fn default() -> (s: Self)
        ensures
            s@ == Seq::<UserEvent>::empty(),
    {
        UserStream { actions: VecDeque::new() }
    }
}

impl Clone for UserStream {
    fn clone(&self) -> (s: Self)
        ensures
            s@ == self@,
    {
        let s = UserStream { actions: self.actions.clone() };
        assert(s.actions@ =~= self.actions@);
        s
    }
}

impl PartialEq for UserStream {
    fn eq(&self, other: &Self) -> (r: bool) {
        self.same(other)
    }
}

impl vstd::std_specs::cmp::PartialEqSpecImpl for UserStream {
    open spec fn obeys_eq_spec() -> bool {
        true
    }

    open spec fn eq_spec(&self, other: &Self) -> bool {
        self@ == other@
    }
}

impl Eq for UserStream {

}

impl UserStream {
    pub fn new() -> (s: Self)
        ensures
            s@ == Seq::<UserEvent>::empty(),
    {
        UserStream { actions: VecDeque::new() }
    }

    pub fn push_byte(&mut self, c: u8)
        ensures
            final(self)@ == old(self)@.push(UserEvent::Byte(c)),
    {
        self.actions.push_back(UserEvent::Byte(c));
    }

    pub fn push_resize(&mut self, width: i32, height: i32)
        ensures
            final(self)@ == old(self)@.push(UserEvent::Resize { width, height }),
    {
        self.actions.push_back(UserEvent::Resize { width, height });
    }

    pub fn is_empty(&self) -> (r: bool)
        ensures
            r == (self@.len() == 0),
    {
        self.actions.len() == 0
    }

    pub fn len(&self) -> (n: usize)
        ensures
            n == self@.len(),
    {
        self.actions.len()
    }

    pub fn get(&self, i: usize) -> (r: Option<UserEvent>)
        ensures
            r == (if i < self@.len() {
                Some(self@[i as int])
            } else {
                None
            }),
    {
        if i < self.actions.len() {
            Some(self.actions[i])
        } else {
            None
        }
    }

    /// Whether two streams hold the same events.
    pub fn same(&self, other: &UserStream) -> (r: bool)
        ensures
            r == (self@ == other@),
    {
        if self.actions.len() != other.actions.len() {
            return false;
        }
        let mut i: usize = 0;
        while i < self.actions.len()
            invariant
                i <= self@.len(),
                self@.len() == other@.len(),
                forall|j: int| 0 <= j < i ==> self@[j] == other@[j],
            decreases self@.len() - i,
        {
            if self.actions[i] != other.actions[i] {
                return false;
            }
            i = i + 1;
        }
        assert(self@ =~= other@);
        true
    }

    /// Drop the events the peer has already acknowledged: as many as `prefix` holds.
    pub fn subtract(&mut self, prefix: &UserStream)
        ensures
            final(self)@ == events_after(old(self)@, prefix@.len()),
    {
        let n: usize = prefix.actions.len();
        if n >= self.actions.len() {
            self.actions.clear();
            assert(self@ =~= events_after(old(self)@, prefix@.len()));
            return ;
        }
        self.actions = self.actions.split_off(n);
        assert(self@ =~= events_after(old(self)@, prefix@.len()));
    }

    /// Encode everything in this stream that `existing` does not already have.
    pub fn diff_from(&self, existing: &UserStream) -> (diff: Vec<u8>)
        ensures
            diff@ == user_diff(self@, existing@),
    {
        let mut output = UserMessage { instruction: Vec::new() };
        let start: usize = existing.actions.len();
        let mut i: usize = start;
        let ghost events = events_after(self@, existing@.len());
        assert(events.subrange(0, 0) =~= Seq::<UserEvent>::empty());
        assert(output@ =~= Seq::<UserInstructionView>::empty());
        if i > self.actions.len() {
            assert(events =~= Seq::<UserEvent>::empty());
            return output.encode_to_vec();
        }
        while i < self.actions.len()
            invariant
                start == existing@.len(),
                start <= i <= self@.len(),
                events == self@.skip(start as int),
                output@ == grouped(events.subrange(0, i - start)),
            decreases self@.len() - i,
        {
            let ghost next = events.subrange(0, i - start + 1);
            assert(next.drop_last() =~= events.subrange(0, i - start));
            assert(next.last() == self@[i as int]);
            match self.actions[i] {
                UserEvent::Byte(c) => {
                    append_byte(&mut output, c);
                },
                UserEvent::Resize { width, height } => {
                    append_size(&mut output, width, height);
                },
            }
            i = i + 1;
        }
        assert(events.subrange(0, i - start) =~= events);
        output.encode_to_vec()
    }

    /// Encode the whole stream.
    pub fn init_diff(&self) -> (diff: Vec<u8>)
        ensures
            diff@ == user_diff(self@, Seq::empty()),
    {
        self.diff_from(&UserStream::new())
    }

    /// Apply a diff received from the peer.
    pub fn apply_string(&mut self, diff: &[u8]) -> (r: Result<(), ApplyError>)
        ensures
            match user_applied(old(self)@, diff@) {
                Some(events) => r is Ok && final(self)@ == events,
                None => r == Err::<(), ApplyError>(ApplyError::Malformed) && final(self)@ == old(
                    self,
                )@,
            },
    {
        let input = match UserMessage::decode(diff) {
            Ok(input) => input,
            Err(_) => {
                return Err(ApplyError::Malformed);
            },
        };
        let ghost parts = input@;
        let mut i: usize = 0;
        assert(parts.subrange(0, 0) =~= Seq::<UserInstructionView>::empty());
        assert(self@ =~= old(self)@ + all_events(parts.subrange(0, 0)));
        while i < input.instruction.len()
            invariant
                parts == input@,
                i <= parts.len(),
                self@ == old(self)@ + all_events(parts.subrange(0, i as int)),
            decreases parts.len() - i,
        {
            let ghost next = parts.subrange(0, i + 1);
            assert(next.drop_last() =~= parts.subrange(0, i as int));
            assert(next.last() == input.instruction@[i as int]@);
            self.apply_part(&input.instruction[i]);
            assert(self@ =~= old(self)@ + all_events(next));
            i = i + 1;
        }
        assert(parts.subrange(0, i as int) =~= parts);
        Ok(())
    }

    fn apply_part(&mut self, part: &pb::Instruction)
        ensures
            final(self)@ == old(self)@ + events_of(part@),
    {
        match &part.keystroke {
            Some(keystroke) => {
                match &keystroke.keys {
                    Some(keys) => {
                        self.push_keys(keys.as_slice());
                    },
                    None => {},
                }
                assert(self@ =~= old(self)@ + events_of(part@));
            },
            None => {
                match &part.resize {
                    Some(size) => {
                        let width: i32 = match size.width {
                            Some(n) => n,
                            None => -1,
                        };
                        let height: i32 = match size.height {
                            Some(n) => n,
                            None => -1,
                        };
                        self.push_resize(width, height);
                    },
                    None => {},
                }
                assert(self@ =~= old(self)@ + events_of(part@));
            },
        }
    }

    fn push_keys(&mut self, keys: &[u8])
        ensures
            final(self)@ == old(self)@ + typed(keys@),
    {
        let mut i: usize = 0;
        assert(self@ =~= old(self)@ + typed(keys@.subrange(0, 0)));
        while i < keys.len()
            invariant
                i <= keys.len(),
                self@ == old(self)@ + typed(keys@.subrange(0, i as int)),
            decreases keys.len() - i,
        {
            self.push_byte(keys[i]);
            i = i + 1;
            assert(self@ =~= old(self)@ + typed(keys@.subrange(0, i as int)));
        }
        assert(keys@.subrange(0, i as int) =~= keys@);
    }
}

impl SyncState for UserStream {
    open spec fn consistent(&self) -> bool {
        true
    }

    open spec fn is_snapshot_of(&self, original: &Self) -> bool {
        self@ == original@
    }

    open spec fn subtracted(before: Self, prefix: Self, after: Self) -> bool {
        after@ == events_after(before@, prefix@.len())
    }

    open spec fn is_diff(&self, existing: &Self, diff: Seq<u8>) -> bool {
        diff == user_diff(self@, existing@)
    }

    open spec fn is_init_diff(&self, diff: Seq<u8>) -> bool {
        diff == user_diff(self@, Seq::empty())
    }

    open spec fn readable(diff: Seq<u8>) -> bool {
        user_message_in(diff) is Some
    }

    open spec fn applied(before: Self, diff: Seq<u8>, after: Self) -> bool {
        user_applied(before@, diff) == Some(after@)
    }

    open spec fn input_reset(before: Self, after: Self) -> bool {
        after@ == before@
    }

    open spec fn found_same(&self, other: &Self, same: bool) -> bool {
        same == (self@ == other@)
    }

    open spec fn differs(&self, other: &Self) -> bool {
        false
    }

    open spec fn reported(&self, other: &Self, lines: Seq<Seq<char>>) -> bool {
        lines.len() == 0
    }

    fn snapshot(&self) -> (copy: Self) {
        self.clone()
    }

    fn subtract(&mut self, prefix: &Self) {
        UserStream::subtract(self, prefix);
    }

    fn diff_from(&self, existing: &Self) -> (diff: Vec<u8>) {
        UserStream::diff_from(self, existing)
    }

    fn init_diff(&self) -> (diff: Vec<u8>) {
        UserStream::init_diff(self)
    }

    fn apply_string(&mut self, diff: &[u8]) -> (r: Result<(), StateError>) {
        match UserStream::apply_string(self, diff) {
            Ok(()) => Ok(()),
            Err(_) => Err(StateError),
        }
    }

    fn reset_input(&mut self) {
    }

    fn same_as(&self, other: &Self) -> (same: bool) {
        self.same(other)
    }

    /// Keystrokes show nothing.
    fn compare(&self, _other: &Self) -> (r: bool) {
        false
    }

    fn report(&self, _other: &Self) -> (lines: Vec<String>) {
        Vec::new()
    }
}

/// Adds a keystroke to the parts of a diff.
fn append_byte(output: &mut UserMessage, c: u8)
    ensures
        ({
            let before = old(output)@;
            final(output)@ == if before.len() > 0 && before.last().keystroke is Some {
                before.drop_last().push(keystrokes(keys_of(before.last()).push(c)))
            } else {
                before.push(keystrokes(seq![c]))
            }
        }),
{
    let ghost before = output@;
    if output.instruction.len() > 0 {
        let last = output.instruction.len() - 1;
        if output.instruction[last].keystroke.is_some() {
            let mut part = output.instruction.pop().unwrap();
            assert(part@ == before.last());
            let mut keys = match part.keystroke.take() {
                Some(k) => match k.keys {
                    Some(keys) => keys,
                    None => Vec::new(),
                },
                None => Vec::new(),
            };
            assert(keys@ =~= keys_of(before.last()));
            keys.push(c);
            let whole = pb::Instruction {
                keystroke: Some(pb::Keystroke { keys: Some(keys) }),
                resize: None,
            };
            assert(whole@ == keystrokes(keys_of(before.last()).push(c)));
            output.instruction.push(whole);
            assert(output@ =~= before.drop_last().push(whole@));
            return ;
        }
    }
    let mut keys: Vec<u8> = Vec::new();
    keys.push(c);
    assert(keys@ =~= seq![c]);
    let part = pb::Instruction {
        keystroke: Some(pb::Keystroke { keys: Some(keys) }),
        resize: None,
    };
    assert(part@ == keystrokes(seq![c]));
    output.instruction.push(part);
}

/// Adds a new size to the parts of a diff.
fn append_size(output: &mut UserMessage, width: i32, height: i32)
    ensures
        final(output)@ == old(output)@.push(new_size(width, height)),
{
    let part = pb::Instruction {
        keystroke: None,
        resize: Some(pb::ResizeMessage { width: Some(width), height: Some(height) }),
    };
    assert(part@ == new_size(width, height));
    output.instruction.push(part);
}

/// Reading the parts that a run of events was grouped into gives the events back.
pub proof fn grouping_keeps_every_event(events: Seq<UserEvent>)
    ensures
        all_events(grouped(events)) == events,
        grouped(events).len() <= events.len(),
        forall|i: int|
            0 <= i < grouped(events).len() ==> (#[trigger] grouped(events)[i]).keystroke is None
                || grouped(events)[i] == keystrokes(keys_of(grouped(events)[i])),
    decreases events.len(),
{
    if events.len() > 0 {
        let init = events.drop_last();
        grouping_keeps_every_event(init);
        let before = grouped(init);
        let after = grouped(events);
        match events.last() {
            UserEvent::Byte(c) => {
                if before.len() > 0 && before.last().keystroke is Some {
                    let keys = keys_of(before.last());
                    assert(after.drop_last() =~= before.drop_last());
                    assert(typed(keys.push(c)) =~= typed(keys).push(UserEvent::Byte(c)));
                    assert(before.last() == before[before.len() - 1]);
                    assert(all_events(after) =~= all_events(before).push(UserEvent::Byte(c)));
                } else {
                    assert(after.drop_last() =~= before);
                    assert(typed(seq![c]) =~= seq![UserEvent::Byte(c)]);
                    assert(all_events(after) =~= all_events(before).push(UserEvent::Byte(c)));
                }
            },
            UserEvent::Resize { width, height } => {
                assert(after.drop_last() =~= before);
                assert(all_events(after) =~= all_events(before).push(events.last()));
            },
        }
        assert(all_events(after) =~= events);
    }
}

/// Applying to a stream the diff that leads from it to a longer one gives the longer
/// one.
pub proof fn applying_a_diff_reaches_the_newer_stream(
    old_events: Seq<UserEvent>,
    new_events: Seq<UserEvent>,
)
    requires
        old_events.is_prefix_of(new_events),
        user_diff(new_events, old_events).len() <= u64::MAX,
    ensures
        user_applied(old_events, user_diff(new_events, old_events)) == Some(new_events),
{
    let added = events_after(new_events, old_events.len());
    grouping_keeps_every_event(added);
    user_messages_round_trip(grouped(added));
    assert(old_events + added =~= new_events);
}

/// A stream that differs from another in nothing needs no diff.
pub proof fn an_unchanged_stream_needs_no_diff(events: Seq<UserEvent>)
    ensures
        user_diff(events, events) == Seq::<u8>::empty(),
{
    assert(events_after(events, events.len()) =~= Seq::<UserEvent>::empty());
}

/// Dropping the same acknowledged prefix from both streams leaves the diff between them
/// as it was.
pub proof fn dropping_a_shared_prefix_keeps_the_diff(
    known: Seq<UserEvent>,
    old_events: Seq<UserEvent>,
    new_events: Seq<UserEvent>,
)
    requires
        known.len() <= old_events.len() <= new_events.len(),
    ensures
        user_diff(
            events_after(new_events, known.len()),
            events_after(old_events, known.len()),
        ) == user_diff(new_events, old_events),
{
    let n = events_after(new_events, known.len());
    let o = events_after(old_events, known.len());
    assert(events_after(n, o.len()) =~= events_after(new_events, old_events.len()));
}

} // verus!
