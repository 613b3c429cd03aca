//! What one end tells the other in a datagram.

use vstd::prelude::*;

use crate::protobufs::{
    all_merged, bytes_view, copy_bytes, decode_message, lemma_bytes_merged,
    lemma_number_merged, optional_bytes, optional_number, push_optional_bytes,
    push_optional_number, DecodeError, Field, Message, RawField, RECURSION_LIMIT, WIRE_DELIMITED,
    WIRE_VARINT,
};

verus! {

/// An instruction as a value. A field that is absent was not sent.
#[verifier::ext_equal]
pub struct InstructionView {
    pub protocol_version: Option<u32>,
    pub old_num: Option<u64>,
    pub new_num: Option<u64>,
    pub ack_num: Option<u64>,
    pub throwaway_num: Option<u64>,
    pub diff: Option<Seq<u8>>,
    pub chaff: Option<Seq<u8>>,
}

/// Which state the sender is moving from, which it is moving to, the last it heard about
/// from the peer, and the change itself.
#[derive(Debug, PartialEq, Eq, Default)]
pub struct Instruction {
    pub protocol_version: Option<u32>,
    pub old_num: Option<u64>,
    pub new_num: Option<u64>,
    pub ack_num: Option<u64>,
    pub throwaway_num: Option<u64>,
    pub diff: Option<Vec<u8>>,
    pub chaff: Option<Vec<u8>>,
}

impl View for Instruction {
    type V = InstructionView;

    open spec fn view(&self) -> InstructionView {
        InstructionView {
            protocol_version: self.protocol_version,
            old_num: self.old_num,
            new_num: self.new_num,
            ack_num: self.ack_num,
            throwaway_num: self.throwaway_num,
            diff: bytes_view(self.diff),
            chaff: bytes_view(self.chaff),
        }
    }
}

fn copy_optional(data: &Option<Vec<u8>>) -> (copy: Option<Vec<u8>>)
    ensures
        bytes_view(copy) == bytes_view(*data),
{
    match data {
        Some(d) => Some(copy_bytes(d.as_slice())),
        None => None,
    }
}

impl Clone for Instruction {
    fn clone(&self) -> (copy: Self)
        ensures
            copy@ == self@,
    {
        Instruction {
            protocol_version: self.protocol_version,
            old_num: self.old_num,
            new_num: self.new_num,
            ack_num: self.ack_num,
            throwaway_num: self.throwaway_num,
            diff: copy_optional(&self.diff),
            chaff: copy_optional(&self.chaff),
        }
    }
}

/// A 32-bit number in the width of the wire.
pub open spec fn widened(v: Option<u32>) -> Option<u64> {
    match v {
        Some(x) => Some(x as u64),
        None => None,
    }
}

impl Message for Instruction {
    open spec fn blank() -> InstructionView {
        InstructionView {
            protocol_version: None,
            old_num: None,
            new_num: None,
            ack_num: None,
            throwaway_num: None,
            diff: None,
            chaff: None,
        }
    }

    open spec fn merged(v: InstructionView, f: Field, depth: nat) -> Option<InstructionView> {
        if 1 <= f.tag <= 5 && f.wire != WIRE_VARINT {
            None
        } else if 6 <= f.tag <= 7 && f.wire != WIRE_DELIMITED {
            None
        } else if f.tag == 1 {
            Some(InstructionView { protocol_version: Some(f.value as u32), ..v })
        } else if f.tag == 2 {
            Some(InstructionView { old_num: Some(f.value), ..v })
        } else if f.tag == 3 {
            Some(InstructionView { new_num: Some(f.value), ..v })
        } else if f.tag == 4 {
            Some(InstructionView { ack_num: Some(f.value), ..v })
        } else if f.tag == 5 {
            Some(InstructionView { throwaway_num: Some(f.value), ..v })
        } else if f.tag == 6 {
            Some(InstructionView { diff: Some(f.data), ..v })
        } else if f.tag == 7 {
            Some(InstructionView { chaff: Some(f.data), ..v })
        } else {
            Some(v)
        }
    }

    open spec fn encoding(v: InstructionView) -> Seq<u8> {
        optional_number(1, widened(v.protocol_version)) + optional_number(2, v.old_num)
            + optional_number(3, v.new_num) + optional_number(4, v.ack_num) + optional_number(
            5,
            v.throwaway_num,
        ) + optional_bytes(6, v.diff) + optional_bytes(7, v.chaff)
    }

    open spec fn levels() -> nat {
        1
    }

    fn empty() -> (m: Self) {
        Instruction {
            protocol_version: None,
            old_num: None,
            new_num: None,
            ack_num: None,
            throwaway_num: None,
            diff: None,
            chaff: None,
        }
    }

    fn merge_field(&mut self, f: &RawField, Ghost(g): Ghost<Field>, depth: u32) -> (ok: bool) {
        if 1 <= f.tag && f.tag <= 5 && f.wire != WIRE_VARINT {
            return false;
        }
        if 6 <= f.tag && f.tag <= 7 && f.wire != WIRE_DELIMITED {
            return false;
        }
        match f.tag {
            1 => {
                self.protocol_version = Some(#[verifier::truncate] (f.value as u32));
                return true;
            },
            2 => {
                self.old_num = Some(f.value);
                return true;
            },
            3 => {
                self.new_num = Some(f.value);
                return true;
            },
            4 => {
                self.ack_num = Some(f.value);
                return true;
            },
            5 => {
                self.throwaway_num = Some(f.value);
                return true;
            },
            6 => {
                self.diff = Some(copy_bytes(f.data));
                return true;
            },
            7 => {
                self.chaff = Some(copy_bytes(f.data));
                return true;
            },
            _ => {
                return true;
            },
        }
    }
}

/// The instruction that bytes encode, if they encode one.
pub open spec fn instruction_in(s: Seq<u8>) -> Option<InstructionView> {
    all_merged::<Instruction>(Instruction::blank(), s, RECURSION_LIMIT as nat)
}

impl Instruction {
    /// The instruction in its wire form. A field that is absent is not written at all, so a
    /// peer can tell "not sent" from "sent as zero".
    pub fn encode_to_vec(&self) -> (out: Vec<u8>)
        ensures
            out@ == Instruction::encoding(self@),
    {
        let mut out: Vec<u8> = Vec::new();
        let version: Option<u64> = match self.protocol_version {
            Some(x) => Some(x as u64),
            None => None,
        };
        push_optional_number(&mut out, 1, version);
        assert(out@ =~= optional_number(1, version));
        push_optional_number(&mut out, 2, self.old_num);
        push_optional_number(&mut out, 3, self.new_num);
        push_optional_number(&mut out, 4, self.ack_num);
        push_optional_number(&mut out, 5, self.throwaway_num);
        push_optional_bytes(&mut out, 6, &self.diff);
        push_optional_bytes(&mut out, 7, &self.chaff);
        out
    }

    /// Reads an instruction. Fields may come in any order, the last of a number counts, and
    /// those of unknown number are passed over.
    pub fn decode(buf: &[u8]) -> (r: Result<Instruction, DecodeError>)
        ensures
            match instruction_in(buf@) {
                Some(v) => r matches Ok(m) && m@ == v,
                None => r matches Err(_),
            },
    {
        decode_message(buf)
    }
}

proof fn lemma_regroup(
    a: Seq<u8>,
    b: Seq<u8>,
    c: Seq<u8>,
    d: Seq<u8>,
    e: Seq<u8>,
    f: Seq<u8>,
    g: Seq<u8>,
)
    ensures
        a + b + c + d + e + f + g == a + (b + (c + (d + (e + (f + (g + Seq::<u8>::empty())))))),
{
    let h = Seq::<u8>::empty();
    assert(g + h =~= g);
    assert(a + b + c + d + e + f + g =~= (a + b + c + d) + (e + (f + g)));
    assert((a + b + c + d) + (e + (f + g)) =~= a + (b + (c + (d + (e + (f + g))))));
}

/// Reading an instruction that was written gives it back: every field that was set, with
/// its value, and none that was not.
pub proof fn instructions_round_trip(v: InstructionView)
    requires
        v.diff matches Some(d) ==> d.len() <= u64::MAX,
        v.chaff matches Some(d) ==> d.len() <= u64::MAX,
    ensures
        instruction_in(Instruction::encoding(v)) == Some(v),
{
    let e = Seq::<u8>::empty();
    let p7 = optional_bytes(7, v.chaff) + e;
    let p6 = optional_bytes(6, v.diff) + p7;
    let p5 = optional_number(5, v.throwaway_num) + p6;
    let p4 = optional_number(4, v.ack_num) + p5;
    let p3 = optional_number(3, v.new_num) + p4;
    let p2 = optional_number(2, v.old_num) + p3;
    let p1 = optional_number(1, widened(v.protocol_version)) + p2;
    lemma_regroup(
        optional_number(1, widened(v.protocol_version)),
        optional_number(2, v.old_num),
        optional_number(3, v.new_num),
        optional_number(4, v.ack_num),
        optional_number(5, v.throwaway_num),
        optional_bytes(6, v.diff),
        optional_bytes(7, v.chaff),
    );
    assert(Instruction::encoding(v) == p1);
    let m0 = Instruction::blank();
    let m1 = InstructionView { protocol_version: v.protocol_version, ..m0 };
    let m2 = InstructionView { old_num: v.old_num, ..m1 };
    let m3 = InstructionView { new_num: v.new_num, ..m2 };
    let m4 = InstructionView { ack_num: v.ack_num, ..m3 };
    let m5 = InstructionView { throwaway_num: v.throwaway_num, ..m4 };
    let m6 = InstructionView { diff: v.diff, ..m5 };
    let n = RECURSION_LIMIT as nat;
    assert(all_merged::<Instruction>(m0, p1, n) == all_merged::<Instruction>(m1, p2, n)) by {
        lemma_number_merged::<Instruction>(m0, 1, widened(v.protocol_version), p2, n);
    }
    assert(all_merged::<Instruction>(m1, p2, n) == all_merged::<Instruction>(m2, p3, n)) by {
        lemma_number_merged::<Instruction>(m1, 2, v.old_num, p3, n);
    }
    assert(all_merged::<Instruction>(m2, p3, n) == all_merged::<Instruction>(m3, p4, n)) by {
        lemma_number_merged::<Instruction>(m2, 3, v.new_num, p4, n);
    }
    assert(all_merged::<Instruction>(m3, p4, n) == all_merged::<Instruction>(m4, p5, n)) by {
        lemma_number_merged::<Instruction>(m3, 4, v.ack_num, p5, n);
    }
    assert(all_merged::<Instruction>(m4, p5, n) == all_merged::<Instruction>(m5, p6, n)) by {
        lemma_number_merged::<Instruction>(m4, 5, v.throwaway_num, p6, n);
    }
    assert(all_merged::<Instruction>(m5, p6, n) == all_merged::<Instruction>(m6, p7, n)) by {
        lemma_bytes_merged::<Instruction>(m5, 6, v.diff, p7, n);
    }
    assert(all_merged::<Instruction>(m6, p7, n) == all_merged::<Instruction>(v, e, n)) by {
        lemma_bytes_merged::<Instruction>(m6, 7, v.chaff, e, n);
    }
}

} // verus!
