//! The server's diffs: what to draw, a new size, and how much input was echoed.

use vstd::prelude::*;

pub use crate::protobufs::resize::ResizeMessage;

use crate::protobufs::resize::{sizes_round_trip, ResizeView};
use crate::protobufs::{
    all_merged, bytes_field, bytes_view, copy_bytes, decode_message, lemma_bytes_merged,
    lemma_number_merged, merge_all, merge_optional, optional_bytes, optional_encoding, optional_message,
    optional_number, optional_view, or_blank, push_bytes, push_optional_bytes,
    push_optional_number, DecodeError, Field, Message, RawField,
    RECURSION_LIMIT, WIRE_DELIMITED, WIRE_VARINT,
};
use crate::views::{group_views, views};

verus! {

broadcast use group_views;

/// Bytes for the client's terminal.
#[verifier::ext_equal]
pub struct HostBytesView {
    pub hoststring: Option<Seq<u8>>,
}

#[derive(Debug, Clone, PartialEq, Eq, Default)]
pub struct HostBytes {
    pub hoststring: Option<Vec<u8>>,
}

impl View for HostBytes {
    type V = HostBytesView;

    open spec fn view(&self) -> HostBytesView {
        HostBytesView { hoststring: bytes_view(self.hoststring) }
    }
}

impl Message for HostBytes {
    open spec fn blank() -> HostBytesView {
        HostBytesView { hoststring: None }
    }

    open spec fn merged(v: HostBytesView, f: Field, depth: nat) -> Option<HostBytesView> {
        if f.tag != 4 {
            Some(v)
        } else if f.wire != WIRE_DELIMITED {
            None
        } else {
            Some(HostBytesView { hoststring: Some(f.data) })
        }
    }

    open spec fn encoding(v: HostBytesView) -> Seq<u8> {
        optional_bytes(4, v.hoststring)
    }

    open spec fn levels() -> nat {
        1
    }

    fn empty() -> (m: Self) {
        HostBytes { hoststring: None }
    }

    fn merge_field(&mut self, f: &RawField, Ghost(g): Ghost<Field>, depth: u32) -> (ok: bool) {
        if f.tag == 4 {
            if f.wire != WIRE_DELIMITED {
                return false;
            }
            self.hoststring = Some(copy_bytes(f.data));
        }
        true
    }
}

impl HostBytes {
    pub fn encode_to_vec(&self) -> (out: Vec<u8>)
        ensures
            out@ == HostBytes::encoding(self@),
    {
        let mut out: Vec<u8> = Vec::new();
        push_optional_bytes(&mut out, 4, &self.hoststring);
        assert(out@ =~= HostBytes::encoding(self@));
        out
    }
}

/// How much of the user's typing the screen reflects.
#[verifier::ext_equal]
pub struct EchoAckView {
    pub echo_ack_num: Option<u64>,
}

#[derive(Debug, Clone, Copy, PartialEq, Eq, Default)]
pub struct EchoAck {
    pub echo_ack_num: Option<u64>,
}

impl View for EchoAck {
    type V = EchoAckView;

    open spec fn view(&self) -> EchoAckView {
        EchoAckView { echo_ack_num: self.echo_ack_num }
    }
}

impl Message for EchoAck {
    open spec fn blank() -> EchoAckView {
        EchoAckView { echo_ack_num: None }
    }

    open spec fn merged(v: EchoAckView, f: Field, depth: nat) -> Option<EchoAckView> {
        if f.tag != 8 {
            Some(v)
        } else if f.wire != WIRE_VARINT {
            None
        } else {
            Some(EchoAckView { echo_ack_num: Some(f.value) })
        }
    }

    open spec fn encoding(v: EchoAckView) -> Seq<u8> {
        optional_number(8, v.echo_ack_num)
    }

    open spec fn levels() -> nat {
        1
    }

    fn empty() -> (m: Self) {
        EchoAck { echo_ack_num: None }
    }

    fn merge_field(&mut self, f: &RawField, Ghost(g): Ghost<Field>, depth: u32) -> (ok: bool) {
        if f.tag == 8 {
            if f.wire != WIRE_VARINT {
                return false;
            }
            self.echo_ack_num = Some(f.value);
        }
        true
    }
}

impl EchoAck {
    pub fn encode_to_vec(&self) -> (out: Vec<u8>)
        ensures
            out@ == EchoAck::encoding(self@),
    {
        let mut out: Vec<u8> = Vec::new();
        push_optional_number(&mut out, 8, self.echo_ack_num);
        assert(out@ =~= EchoAck::encoding(self@));
        out
    }
}

/// One part of a diff.
#[verifier::ext_equal]
pub struct HostInstructionView {
    pub hostbytes: Option<HostBytesView>,
    pub resize: Option<ResizeView>,
    pub echoack: Option<EchoAckView>,
}

#[derive(Debug, Clone, PartialEq, Eq, Default)]
pub struct Instruction {
    pub hostbytes: Option<HostBytes>,
    pub resize: Option<ResizeMessage>,
    pub echoack: Option<EchoAck>,
}

impl View for Instruction {
    type V = HostInstructionView;

    open spec fn view(&self) -> HostInstructionView {
        HostInstructionView {
            hostbytes: optional_view(self.hostbytes),
            resize: optional_view(self.resize),
            echoack: optional_view(self.echoack),
        }
    }
}

impl Message for Instruction {
    open spec fn blank() -> HostInstructionView {
        HostInstructionView { hostbytes: None, resize: None, echoack: None }
    }

    open spec fn merged(v: HostInstructionView, f: Field, depth: nat) -> Option<
        HostInstructionView,
    > {
        let inner = (depth - 1) as nat;
        if f.tag != 2 && f.tag != 3 && f.tag != 7 {
            Some(v)
        } else if f.wire != WIRE_DELIMITED {
            None
        } else if f.tag == 2 {
            match all_merged::<HostBytes>(or_blank::<HostBytes>(v.hostbytes), f.data, inner) {
                Some(x) => Some(HostInstructionView { hostbytes: Some(x), ..v }),
                None => None,
            }
        } else if f.tag == 3 {
            match all_merged::<ResizeMessage>(or_blank::<ResizeMessage>(v.resize), f.data, inner) {
                Some(x) => Some(HostInstructionView { resize: Some(x), ..v }),
                None => None,
            }
        } else {
            match all_merged::<EchoAck>(or_blank::<EchoAck>(v.echoack), f.data, inner) {
                Some(x) => Some(HostInstructionView { echoack: Some(x), ..v }),
                None => None,
            }
        }
    }

    open spec fn encoding(v: HostInstructionView) -> Seq<u8> {
        optional_message::<HostBytes>(2, v.hostbytes) + optional_message::<ResizeMessage>(
            3,
            v.resize,
        ) + optional_message::<EchoAck>(7, v.echoack)
    }

    open spec fn levels() -> nat {
        2
    }

    fn empty() -> (m: Self) {
        Instruction { hostbytes: None, resize: None, echoack: None }
    }

    fn merge_field(&mut self, f: &RawField, Ghost(g): Ghost<Field>, depth: u32) -> (ok: bool) {
        if f.tag != 2 && f.tag != 3 && f.tag != 7 {
            return true;
        }
        if f.wire != WIRE_DELIMITED {
            return false;
        }
        if f.tag == 2 {
            return merge_optional(&mut self.hostbytes, f.data, depth - 1);
        }
        if f.tag == 3 {
            return merge_optional(&mut self.resize, f.data, depth - 1);
        }
        merge_optional(&mut self.echoack, f.data, depth - 1)
    }
}

impl Instruction {
    pub fn encode_to_vec(&self) -> (out: Vec<u8>)
        ensures
            out@ == Instruction::encoding(self@),
    {
        let mut out: Vec<u8> = Vec::new();
        match &self.hostbytes {
            Some(x) => push_bytes(&mut out, 2, x.encode_to_vec().as_slice()),
            None => {},
        }
        let ghost p2 = optional_message::<HostBytes>(2, self@.hostbytes);
        assert(out@ =~= p2);
        match &self.resize {
            Some(x) => push_bytes(&mut out, 3, x.encode_to_vec().as_slice()),
            None => {},
        }
        let ghost p3 = optional_message::<ResizeMessage>(3, self@.resize);
        assert(out@ =~= p2 + p3);
        match &self.echoack {
            Some(x) => push_bytes(&mut out, 7, x.encode_to_vec().as_slice()),
            None => {},
        }
        assert(out@ =~= Instruction::encoding(self@));
        out
    }
}

/// A run of parts.
pub open spec fn parts_encoding(parts: Seq<HostInstructionView>) -> Seq<u8>
    decreases parts.len(),
{
    if parts.len() == 0 {
        Seq::empty()
    } else {
        parts_encoding(parts.drop_last()) + bytes_field(1, Instruction::encoding(parts.last()))
    }
}

/// A diff of the screen.
#[derive(Debug, Clone, PartialEq, Eq, Default)]
pub struct HostMessage {
    pub instruction: Vec<Instruction>,
}

impl View for HostMessage {
    type V = Seq<HostInstructionView>;

    open spec fn view(&self) -> Seq<HostInstructionView> {
        views(self.instruction@)
    }
}

impl Message for HostMessage {
    open spec fn blank() -> Seq<HostInstructionView> {
        Seq::empty()
    }

    open spec fn merged(v: Seq<HostInstructionView>, f: Field, depth: nat) -> Option<
        Seq<HostInstructionView>,
    > {
        if f.tag != 1 {
            Some(v)
        } else if f.wire != WIRE_DELIMITED {
            None
        } else {
            match all_merged::<Instruction>(Instruction::blank(), f.data, (depth - 1) as nat) {
                Some(x) => Some(v.push(x)),
                None => None,
            }
        }
    }

    open spec fn encoding(v: Seq<HostInstructionView>) -> Seq<u8> {
        parts_encoding(v)
    }

    open spec fn levels() -> nat {
        3
    }

    fn empty() -> (m: Self) {
        let m = HostMessage { instruction: Vec::new() };
        assert(m@ =~= Seq::empty());
        m
    }

    fn merge_field(&mut self, f: &RawField, Ghost(g): Ghost<Field>, depth: u32) -> (ok: bool) {
        if f.tag != 1 {
            return true;
        }
        if f.wire != WIRE_DELIMITED {
            return false;
        }
        let mut part = Instruction::empty();
        if !merge_all(&mut part, f.data, depth - 1) {
            return false;
        }
        self.instruction.push(part);
        true
    }
}

/// The diff that bytes encode, if they encode one.
pub open spec fn host_message_in(s: Seq<u8>) -> Option<Seq<HostInstructionView>> {
    all_merged::<HostMessage>(HostMessage::blank(), s, RECURSION_LIMIT as nat)
}

impl HostMessage {
    pub fn encode_to_vec(&self) -> (out: Vec<u8>)
        ensures
            out@ == HostMessage::encoding(self@),
    {
        let mut out: Vec<u8> = Vec::new();
        let mut i: usize = 0;
        assert(self@.subrange(0, 0) =~= Seq::<HostInstructionView>::empty());
        while i < self.instruction.len()
            invariant
                i <= self.instruction.len(),
                out@ == parts_encoding(self@.subrange(0, i as int)),
            decreases self.instruction.len() - i,
        {
            proof {
                let next = self@.subrange(0, i + 1);
                assert(next.drop_last() =~= self@.subrange(0, i as int));
                assert(next.last() == self.instruction@[i as int]@);
            }
            push_bytes(&mut out, 1, self.instruction[i].encode_to_vec().as_slice());
            i = i + 1;
        }
        assert(self@.subrange(0, i as int) =~= self@);
        out
    }

    pub fn decode(buf: &[u8]) -> (r: Result<HostMessage, DecodeError>)
        ensures
            match host_message_in(buf@) {
                Some(v) => r matches Ok(m) && m@ == v,
                None => r matches Err(_),
            },
    {
        decode_message(buf)
    }
}

proof fn lemma_host_bytes_round_trip(v: HostBytesView, depth: nat)
    requires
        HostBytes::encoding(v).len() <= u64::MAX,
    ensures
        all_merged::<HostBytes>(HostBytes::blank(), HostBytes::encoding(v), depth) == Some(v),
{
    let e = Seq::<u8>::empty();
    assert(HostBytes::encoding(v) =~= optional_bytes(4, v.hoststring) + e);
    lemma_bytes_merged::<HostBytes>(HostBytes::blank(), 4, v.hoststring, e, depth);
}

proof fn lemma_echo_ack_round_trip(v: EchoAckView, depth: nat)
    ensures
        all_merged::<EchoAck>(EchoAck::blank(), EchoAck::encoding(v), depth) == Some(v),
{
    let e = Seq::<u8>::empty();
    assert(EchoAck::encoding(v) =~= optional_number(8, v.echo_ack_num) + e);
    lemma_number_merged::<EchoAck>(EchoAck::blank(), 8, v.echo_ack_num, e, depth);
}

proof fn lemma_part_round_trip(v: HostInstructionView, depth: nat)
    requires
        depth >= 1,
        Instruction::encoding(v).len() <= u64::MAX,
    ensures
        all_merged::<Instruction>(Instruction::blank(), Instruction::encoding(v), depth) == Some(v),
{
    let e = Seq::<u8>::empty();
    let d = (depth - 1) as nat;
    let p7 = optional_message::<EchoAck>(7, v.echoack) + e;
    let p3 = optional_message::<ResizeMessage>(3, v.resize) + p7;
    let p2 = optional_message::<HostBytes>(2, v.hostbytes) + p3;
    assert(Instruction::encoding(v) =~= p2);
    let m0 = Instruction::blank();
    let m2 = HostInstructionView { hostbytes: v.hostbytes, ..m0 };
    let m3 = HostInstructionView { resize: v.resize, ..m2 };
    lemma_bytes_merged::<Instruction>(m0, 2, optional_encoding::<HostBytes>(v.hostbytes), p3, depth);
    if let Some(x) = v.hostbytes {
        lemma_host_bytes_round_trip(x, d);
    }
    assert(all_merged::<Instruction>(m0, p2, depth) == all_merged::<Instruction>(m2, p3, depth));
    lemma_bytes_merged::<Instruction>(m2, 3, optional_encoding::<ResizeMessage>(v.resize), p7, depth);
    if let Some(x) = v.resize {
        sizes_round_trip(x, d);
    }
    assert(all_merged::<Instruction>(m2, p3, depth) == all_merged::<Instruction>(m3, p7, depth));
    lemma_bytes_merged::<Instruction>(m3, 7, optional_encoding::<EchoAck>(v.echoack), e, depth);
    if let Some(x) = v.echoack {
        lemma_echo_ack_round_trip(x, d);
    }
    assert(all_merged::<Instruction>(m3, p7, depth) == all_merged::<Instruction>(v, e, depth));
}

proof fn lemma_parts_merged(
    before: Seq<HostInstructionView>,
    parts: Seq<HostInstructionView>,
    rest: Seq<u8>,
    depth: nat,
)
    requires
        depth >= 2,
        parts_encoding(parts).len() <= u64::MAX,
    ensures
        all_merged::<HostMessage>(before, parts_encoding(parts) + rest, depth) == all_merged::<
            HostMessage,
        >(before + parts, rest, depth),
    decreases parts.len(),
{
    if parts.len() == 0 {
        assert(parts_encoding(parts) + rest =~= rest);
        assert(before + parts =~= before);
    } else {
        let init = parts.drop_last();
        let data = Instruction::encoding(parts.last());
        let next = optional_bytes(1, Some(data)) + rest;
        assert(parts_encoding(parts) + rest =~= parts_encoding(init) + next);
        lemma_parts_merged(before, init, next, depth);
        lemma_bytes_merged::<HostMessage>(before + init, 1, Some(data), rest, depth);
        lemma_part_round_trip(parts.last(), (depth - 1) as nat);
        assert((before + init).push(parts.last()) =~= before + parts);
    }
}

/// Reading a diff of the screen that was written gives it back.
pub proof fn host_messages_round_trip(v: Seq<HostInstructionView>)
    requires
        HostMessage::encoding(v).len() <= u64::MAX,
    ensures
        host_message_in(HostMessage::encoding(v)) == Some(v),
{
    let e = Seq::<u8>::empty();
    assert(HostMessage::encoding(v) =~= parts_encoding(v) + e);
    lemma_parts_merged(HostMessage::blank(), v, e, RECURSION_LIMIT as nat);
    assert(HostMessage::blank() + v =~= v);
}

} // verus!
