//! A new window size, which both directions carry in the same form.

use vstd::prelude::*;

use crate::protobufs::{
    all_merged, lemma_number_merged, optional_number, push_optional_number, Field, Message,
    RawField, WIRE_VARINT,
};

verus! {

/// A signed 32-bit number as it stands on the wire: negative ones are sign-extended.
pub open spec fn signed_wire(x: i32) -> u64 {
    if x >= 0 {
        x as u64
    } else {
        (x + 0x1_0000_0000_0000_0000) as u64
    }
}

/// The signed number in the low 32 bits.
pub open spec fn signed_low(v: u64) -> i32 {
    let w = v % 0x1_0000_0000;
    if w < 0x8000_0000 {
        w as i32
    } else {
        (w - 0x1_0000_0000) as i32
    }
}

fn to_wire(x: i32) -> (v: u64)
    ensures
        v == signed_wire(x),
{
    if x >= 0 {
        x as u64
    } else {
        0xffff_ffff_ffff_ffffu64 - (-(x as i64)) as u64 + 1
    }
}

fn from_wire(v: u64) -> (x: i32)
    ensures
        x == signed_low(v),
{
    let w: u64 = v % 0x1_0000_0000;
    if w < 0x8000_0000 {
        w as i32
    } else {
        (w as i64 - 0x1_0000_0000) as i32
    }
}

/// A signed number read from the wire is the one that was written.
pub proof fn signed_numbers_round_trip(x: i32)
    ensures
        signed_low(signed_wire(x)) == x,
{
}

#[verifier::ext_equal]
pub struct ResizeView {
    pub width: Option<i32>,
    pub height: Option<i32>,
}

#[derive(Debug, Clone, Copy, PartialEq, Eq, Default)]
pub struct ResizeMessage {
    pub width: Option<i32>,
    pub height: Option<i32>,
}

impl View for ResizeMessage {
    type V = ResizeView;

    open spec fn view(&self) -> ResizeView {
        ResizeView { width: self.width, height: self.height }
    }
}

/// An optional signed number as it stands on the wire.
pub open spec fn optional_wire(x: Option<i32>) -> Option<u64> {
    match x {
        Some(n) => Some(signed_wire(n)),
        None => None,
    }
}

impl Message for ResizeMessage {
    open spec fn blank() -> ResizeView {
        ResizeView { width: None, height: None }
    }

    open spec fn merged(v: ResizeView, f: Field, depth: nat) -> Option<ResizeView> {
        if 5 <= f.tag <= 6 && f.wire != WIRE_VARINT {
            None
        } else if f.tag == 5 {
            Some(ResizeView { width: Some(signed_low(f.value)), ..v })
        } else if f.tag == 6 {
            Some(ResizeView { height: Some(signed_low(f.value)), ..v })
        } else {
            Some(v)
        }
    }

    open spec fn encoding(v: ResizeView) -> Seq<u8> {
        optional_number(5, optional_wire(v.width)) + optional_number(6, optional_wire(v.height))
    }

    open spec fn levels() -> nat {
        1
    }

    fn empty() -> (m: Self) {
        ResizeMessage { width: None, height: None }
    }

    fn merge_field(&mut self, f: &RawField, Ghost(g): Ghost<Field>, depth: u32) -> (ok: bool) {
        if 5 <= f.tag && f.tag <= 6 && f.wire != WIRE_VARINT {
            return false;
        }
        if f.tag == 5 {
            self.width = Some(from_wire(f.value));
        } else if f.tag == 6 {
            self.height = Some(from_wire(f.value));
        }
        true
    }
}

fn optional_to_wire(x: Option<i32>) -> (v: Option<u64>)
    ensures
        v == optional_wire(x),
{
    match x {
        Some(n) => Some(to_wire(n)),
        None => None,
    }
}

impl ResizeMessage {
    pub fn encode_to_vec(&self) -> (out: Vec<u8>)
        ensures
            out@ == ResizeMessage::encoding(self@),
    {
        let mut out: Vec<u8> = Vec::new();
        push_optional_number(&mut out, 5, optional_to_wire(self.width));
        assert(out@ =~= optional_number(5, optional_wire(self@.width)));
        push_optional_number(&mut out, 6, optional_to_wire(self.height));
        out
    }
}

/// Reading a size that was written gives it back.
pub proof fn sizes_round_trip(v: ResizeView, depth: nat)
    ensures
        all_merged::<ResizeMessage>(ResizeMessage::blank(), ResizeMessage::encoding(v), depth)
            == Some(v),
{
    let e = Seq::<u8>::empty();
    let p6 = optional_number(6, optional_wire(v.height)) + e;
    let p5 = optional_number(5, optional_wire(v.width)) + p6;
    assert(ResizeMessage::encoding(v) =~= p5);
    let m0 = ResizeMessage::blank();
    let m1 = ResizeView { width: v.width, ..m0 };
    lemma_number_merged::<ResizeMessage>(m0, 5, optional_wire(v.width), p6, depth);
    assert(all_merged::<ResizeMessage>(m0, p5, depth) == all_merged::<ResizeMessage>(
        m1,
        p6,
        depth,
    )) by {
        if let Some(x) = v.width {
            signed_numbers_round_trip(x);
        }
    }
    lemma_number_merged::<ResizeMessage>(m1, 6, optional_wire(v.height), e, depth);
    assert(all_merged::<ResizeMessage>(m1, p6, depth) == all_merged::<ResizeMessage>(v, e, depth))
        by {
        if let Some(x) = v.height {
            signed_numbers_round_trip(x);
        }
    }
}

} // verus!
