//! The client's diffs: what was typed, and new sizes of the window.

use vstd::prelude::*;

pub use crate::protobufs::resize::ResizeMessage;

use crate::protobufs::resize::{sizes_round_trip, ResizeView};
use crate::protobufs::{
    all_merged, bytes_field, bytes_view, copy_bytes, decode_message, lemma_bytes_merged,
    merge_all, merge_optional, optional_bytes, optional_encoding, optional_message,
    optional_view, or_blank, push_bytes, push_optional_bytes,
    DecodeError, Field, Message, RawField,
    RECURSION_LIMIT, WIRE_DELIMITED,
};
use crate::views::{group_views, views};

verus! {

broadcast use group_views;

/// What was typed.
#[verifier::ext_equal]
pub struct KeystrokeView {
    pub keys: Option<Seq<u8>>,
}

#[derive(Debug, Clone, PartialEq, Eq, Default)]
pub struct Keystroke {
    pub keys: Option<Vec<u8>>,
}

impl View for Keystroke {
    type V = KeystrokeView;

    open spec fn view(&self) -> KeystrokeView {
        KeystrokeView { keys: bytes_view(self.keys) }
    }
}

impl Message for Keystroke {
    open spec fn blank() -> KeystrokeView {
        KeystrokeView { keys: None }
    }

    open spec fn merged(v: KeystrokeView, f: Field, depth: nat) -> Option<KeystrokeView> {
        if f.tag != 4 {
            Some(v)
        } else if f.wire != WIRE_DELIMITED {
            None
        } else {
            Some(KeystrokeView { keys: Some(f.data) })
        }
    }

    open spec fn encoding(v: KeystrokeView) -> Seq<u8> {
        optional_bytes(4, v.keys)
    }

    open spec fn levels() -> nat {
        1
    }

    fn empty() -> (m: Self) {
        Keystroke { keys: None }
    }

    fn merge_field(&mut self, f: &RawField, Ghost(g): Ghost<Field>, depth: u32) -> (ok: bool) {
        if f.tag == 4 {
            if f.wire != WIRE_DELIMITED {
                return false;
            }
            self.keys = Some(copy_bytes(f.data));
        }
        true
    }
}

impl Keystroke {
    pub fn encode_to_vec(&self) -> (out: Vec<u8>)
        ensures
            out@ == Keystroke::encoding(self@),
    {
        let mut out: Vec<u8> = Vec::new();
        push_optional_bytes(&mut out, 4, &self.keys);
        assert(out@ =~= Keystroke::encoding(self@));
        out
    }
}

/// One part of a diff.
#[verifier::ext_equal]
pub struct UserInstructionView {
    pub keystroke: Option<KeystrokeView>,
    pub resize: Option<ResizeView>,
}

#[derive(Debug, Clone, PartialEq, Eq, Default)]
pub struct Instruction {
    pub keystroke: Option<Keystroke>,
    pub resize: Option<ResizeMessage>,
}

impl View for Instruction {
    type V = UserInstructionView;

    open spec fn view(&self) -> UserInstructionView {
        UserInstructionView {
            keystroke: optional_view(self.keystroke),
            resize: optional_view(self.resize),
        }
    }
}

impl Message for Instruction {
    open spec fn blank() -> UserInstructionView {
        UserInstructionView { keystroke: None, resize: None }
    }

    open spec fn merged(v: UserInstructionView, f: Field, depth: nat) -> Option<
        UserInstructionView,
    > {
        let inner = (depth - 1) as nat;
        if f.tag != 2 && f.tag != 3 {
            Some(v)
        } else if f.wire != WIRE_DELIMITED {
            None
        } else if f.tag == 2 {
            match all_merged::<Keystroke>(or_blank::<Keystroke>(v.keystroke), f.data, inner) {
                Some(x) => Some(UserInstructionView { keystroke: Some(x), ..v }),
                None => None,
            }
        } else {
            match all_merged::<ResizeMessage>(or_blank::<ResizeMessage>(v.resize), f.data, inner) {
                Some(x) => Some(UserInstructionView { resize: Some(x), ..v }),
                None => None,
            }
        }
    }

    open spec fn encoding(v: UserInstructionView) -> Seq<u8> {
        optional_message::<Keystroke>(2, v.keystroke) + optional_message::<ResizeMessage>(
            3,
            v.resize,
        )
    }

    open spec fn levels() -> nat {
        2
    }

    fn empty() -> (m: Self) {
        Instruction { keystroke: None, resize: None }
    }

    fn merge_field(&mut self, f: &RawField, Ghost(g): Ghost<Field>, depth: u32) -> (ok: bool) {
        if f.tag != 2 && f.tag != 3 {
            return true;
        }
        if f.wire != WIRE_DELIMITED {
            return false;
        }
        if f.tag == 2 {
            return merge_optional(&mut self.keystroke, f.data, depth - 1);
        }
        merge_optional(&mut self.resize, f.data, depth - 1)
    }
}

impl Instruction {
    pub fn encode_to_vec(&self) -> (out: Vec<u8>)
        ensures
            out@ == Instruction::encoding(self@),
    {
        let mut out: Vec<u8> = Vec::new();
        match &self.keystroke {
            Some(x) => push_bytes(&mut out, 2, x.encode_to_vec().as_slice()),
            None => {},
        }
        let ghost p2 = optional_message::<Keystroke>(2, self@.keystroke);
        assert(out@ =~= p2);
        match &self.resize {
            Some(x) => push_bytes(&mut out, 3, x.encode_to_vec().as_slice()),
            None => {},
        }
        assert(out@ =~= Instruction::encoding(self@));
        out
    }
}

/// A run of parts.
pub open spec fn parts_encoding(parts: Seq<UserInstructionView>) -> Seq<u8>
    decreases parts.len(),
{
    if parts.len() == 0 {
        Seq::empty()
    } else {
        parts_encoding(parts.drop_last()) + bytes_field(1, Instruction::encoding(parts.last()))
    }
}

/// A diff of the user's input.
#[derive(Debug, Clone, PartialEq, Eq, Default)]
pub struct UserMessage {
    pub instruction: Vec<Instruction>,
}

impl View for UserMessage {
    type V = Seq<UserInstructionView>;

    open spec fn view(&self) -> Seq<UserInstructionView> {
        views(self.instruction@)
    }
}

impl Message for UserMessage {
    open spec fn blank() -> Seq<UserInstructionView> {
        Seq::empty()
    }

    open spec fn merged(v: Seq<UserInstructionView>, f: Field, depth: nat) -> Option<
        Seq<UserInstructionView>,
    > {
        if f.tag != 1 {
            Some(v)
        } else if f.wire != WIRE_DELIMITED {
            None
        } else {
            match all_merged::<Instruction>(Instruction::blank(), f.data, (depth - 1) as nat) {
                Some(x) => Some(v.push(x)),
                None => None,
            }
        }
    }

    open spec fn encoding(v: Seq<UserInstructionView>) -> Seq<u8> {
        parts_encoding(v)
    }

    open spec fn levels() -> nat {
        3
    }

    fn empty() -> (m: Self) {
        let m = UserMessage { instruction: Vec::new() };
        assert(m@ =~= Seq::empty());
        m
    }

    fn merge_field(&mut self, f: &RawField, Ghost(g): Ghost<Field>, depth: u32) -> (ok: bool) {
        if f.tag != 1 {
            return true;
        }
        if f.wire != WIRE_DELIMITED {
            return false;
        }
        let mut part = Instruction::empty();
        if !merge_all(&mut part, f.data, depth - 1) {
            return false;
        }
        self.instruction.push(part);
        true
    }
}

/// The diff that bytes encode, if they encode one.
pub open spec fn user_message_in(s: Seq<u8>) -> Option<Seq<UserInstructionView>> {
    all_merged::<UserMessage>(UserMessage::blank(), s, RECURSION_LIMIT as nat)
}

impl UserMessage {
    pub fn encode_to_vec(&self) -> (out: Vec<u8>)
        ensures
            out@ == UserMessage::encoding(self@),
    {
        let mut out: Vec<u8> = Vec::new();
        let mut i: usize = 0;
        assert(self@.subrange(0, 0) =~= Seq::<UserInstructionView>::empty());
        while i < self.instruction.len()
            invariant
                i <= self.instruction.len(),
                out@ == parts_encoding(self@.subrange(0, i as int)),
            decreases self.instruction.len() - i,
        {
            proof {
                let next = self@.subrange(0, i + 1);
                assert(next.drop_last() =~= self@.subrange(0, i as int));
                assert(next.last() == self.instruction@[i as int]@);
            }
            push_bytes(&mut out, 1, self.instruction[i].encode_to_vec().as_slice());
            i = i + 1;
        }
        assert(self@.subrange(0, i as int) =~= self@);
        out
    }

    pub fn decode(buf: &[u8]) -> (r: Result<UserMessage, DecodeError>)
        ensures
            match user_message_in(buf@) {
                Some(v) => r matches Ok(m) && m@ == v,
                None => r matches Err(_),
            },
    {
        decode_message(buf)
    }
}

proof fn lemma_keystroke_round_trip(v: KeystrokeView, depth: nat)
    requires
        Keystroke::encoding(v).len() <= u64::MAX,
    ensures
        all_merged::<Keystroke>(Keystroke::blank(), Keystroke::encoding(v), depth) == Some(v),
{
    let e = Seq::<u8>::empty();
    assert(Keystroke::encoding(v) =~= optional_bytes(4, v.keys) + e);
    lemma_bytes_merged::<Keystroke>(Keystroke::blank(), 4, v.keys, e, depth);
}

proof fn lemma_part_round_trip(v: UserInstructionView, depth: nat)
    requires
        depth >= 1,
        Instruction::encoding(v).len() <= u64::MAX,
    ensures
        all_merged::<Instruction>(Instruction::blank(), Instruction::encoding(v), depth) == Some(v),
{
    let e = Seq::<u8>::empty();
    let d = (depth - 1) as nat;
    let p3 = optional_message::<ResizeMessage>(3, v.resize) + e;
    let p2 = optional_message::<Keystroke>(2, v.keystroke) + p3;
    assert(Instruction::encoding(v) =~= p2);
    let m0 = Instruction::blank();
    let m2 = UserInstructionView { keystroke: v.keystroke, ..m0 };
    lemma_bytes_merged::<Instruction>(m0, 2, optional_encoding::<Keystroke>(v.keystroke), p3, depth);
    if let Some(x) = v.keystroke {
        lemma_keystroke_round_trip(x, d);
    }
    assert(all_merged::<Instruction>(m0, p2, depth) == all_merged::<Instruction>(m2, p3, depth));
    lemma_bytes_merged::<Instruction>(m2, 3, optional_encoding::<ResizeMessage>(v.resize), e, depth);
    if let Some(x) = v.resize {
        sizes_round_trip(x, d);
    }
    assert(all_merged::<Instruction>(m2, p3, depth) == all_merged::<Instruction>(v, e, depth));
}

proof fn lemma_parts_merged(
    before: Seq<UserInstructionView>,
    parts: Seq<UserInstructionView>,
    rest: Seq<u8>,
    depth: nat,
)
    requires
        depth >= 2,
        parts_encoding(parts).len() <= u64::MAX,
    ensures
        all_merged::<UserMessage>(before, parts_encoding(parts) + rest, depth) == all_merged::<
            UserMessage,
        >(before + parts, rest, depth),
    decreases parts.len(),
{
    if parts.len() == 0 {
        assert(parts_encoding(parts) + rest =~= rest);
        assert(before + parts =~= before);
    } else {
        let init = parts.drop_last();
        let data = Instruction::encoding(parts.last());
        let next = optional_bytes(1, Some(data)) + rest;
        assert(parts_encoding(parts) + rest =~= parts_encoding(init) + next);
        lemma_parts_merged(before, init, next, depth);
        lemma_bytes_merged::<UserMessage>(before + init, 1, Some(data), rest, depth);
        lemma_part_round_trip(parts.last(), (depth - 1) as nat);
        assert((before + init).push(parts.last()) =~= before + parts);
    }
}

/// Reading a diff of the user's input that was written gives it back.
pub proof fn user_messages_round_trip(v: Seq<UserInstructionView>)
    requires
        UserMessage::encoding(v).len() <= u64::MAX,
    ensures
        user_message_in(UserMessage::encoding(v)) == Some(v),
{
    let e = Seq::<u8>::empty();
    assert(UserMessage::encoding(v) =~= parts_encoding(v) + e);
    lemma_parts_merged(UserMessage::blank(), v, e, RECURSION_LIMIT as nat);
    assert(UserMessage::blank() + v =~= v);
}

} // verus!
