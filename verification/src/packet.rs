//! The datagram payload beneath the encryption: direction, sequence and timestamps.
//!
//! The nonce carries the direction in its top bit and the sequence number in the rest,
//! and the plaintext begins with two big-endian 16-bit timestamps before the fragment
//! itself.

use vstd::prelude::*;
use vstd::slice::*;

use crate::big_endian::{
    be_bytes, be_value, from_be, lemma_be_bytes_round_trip, lemma_be_number_round_trip,
    lemma_pow256, to_be,
};
use crate::crypto::{CryptoError, Message, MessageView, Nonce};

verus! {

/// The version of the protocol.
pub const MOSH_PROTOCOL_VERSION: u32 = 2;

/// Bytes the transport adds to every datagram, on top of the crypto tag: the sequence
/// number, doubling as the nonce, and two timestamps.
pub const ADDED_BYTES: usize = 12;

/// The bit of the nonce that tells the direction.
pub const DIRECTION_MASK: u64 = 0x8000_0000_0000_0000;

/// The bits of the nonce that hold the sequence number.
pub const SEQUENCE_MASK: u64 = 0x7fff_ffff_ffff_ffff;

/// A timestamp value meaning "none".
pub const TIMESTAMP_NONE: u16 = 65535;

#[derive(Debug, Clone, Copy, PartialEq, Eq, Structural)]
pub enum Direction {
    ToServer,
    ToClient,
}

/// What a datagram says.
#[verifier::ext_equal]
pub struct PacketView {
    pub seq: u64,
    pub direction: Direction,
    pub timestamp: u16,
    pub timestamp_reply: u16,
    pub payload: Seq<u8>,
}

/// The part of a nonce that counts.
pub open spec fn sequence_of(nonce: u64) -> u64 {
    (nonce % DIRECTION_MASK) as u64
}

/// The part of a nonce that tells the direction.
pub open spec fn direction_of(nonce: u64) -> Direction {
    if nonce >= DIRECTION_MASK {
        Direction::ToClient
    } else {
        Direction::ToServer
    }
}

/// The nonce for a direction and a sequence number.
pub open spec fn nonce_for(direction: Direction, seq: u64) -> u64 {
    if direction == Direction::ToClient {
        (DIRECTION_MASK + seq % DIRECTION_MASK) as u64
    } else {
        (seq % DIRECTION_MASK) as u64
    }
}

/// The packet in a decrypted message.
pub open spec fn packet_in(m: MessageView) -> Result<PacketView, CryptoError> {
    if m.text.len() < 4 {
        Err(CryptoError::TooShort)
    } else {
        Ok(
            PacketView {
                seq: sequence_of(m.nonce),
                direction: direction_of(m.nonce),
                timestamp: be_value(m.text.subrange(0, 2)) as u16,
                timestamp_reply: be_value(m.text.subrange(2, 4)) as u16,
                payload: m.text.skip(4),
            },
        )
    }
}

/// The message that a packet goes into.
pub open spec fn message_of(p: PacketView) -> MessageView {
    MessageView {
        nonce: nonce_for(p.direction, p.seq),
        text: be_bytes(p.timestamp as nat, 2) + be_bytes(p.timestamp_reply as nat, 2) + p.payload,
    }
}

#[derive(Debug, Clone, PartialEq, Eq)]
pub struct Packet {
    pub seq: u64,
    pub direction: Direction,
    pub timestamp: u16,
    pub timestamp_reply: u16,
    pub payload: Vec<u8>,
}

impl View for Packet {
    type V = PacketView;

    open spec fn view(&self) -> PacketView {
        PacketView {
            seq: self.seq,
            direction: self.direction,
            timestamp: self.timestamp,
            timestamp_reply: self.timestamp_reply,
            payload: self.payload@,
        }
    }
}

impl Packet {
    pub fn new(
        seq: u64,
        direction: Direction,
        timestamp: u16,
        timestamp_reply: u16,
        payload: Vec<u8>,
    ) -> (p: Self)
        ensures
            p@ == (PacketView {
                seq,
                direction,
                timestamp,
                timestamp_reply,
                payload: payload@,
            }),
    {
        Packet { seq, direction, timestamp, timestamp_reply, payload }
    }

    /// Read a packet out of a decrypted message.
    pub fn from_message(message: &Message) -> (r: Result<Self, CryptoError>)
        ensures
            match packet_in(message@) {
                Ok(p) => r matches Ok(packet) && packet@ == p,
                Err(e) => r matches Err(f) && f == e,
            },
    {
        let text = message.text.as_slice();
        if text.len() < 4 {
            return Err(CryptoError::TooShort);
        }
        let val = message.nonce.val();
        let first = slice_subrange(text, 0, 2);
        let second = slice_subrange(text, 2, 4);
        proof {
            lemma_be_bytes_round_trip(first@);
            lemma_be_bytes_round_trip(second@);
            lemma_pow256();
        }
        let payload = slice_to_vec(slice_subrange(text, 4, text.len()));
        assert(payload@ =~= message@.text.skip(4));
        Ok(
            Packet {
                seq: val % DIRECTION_MASK,
                direction: if val >= DIRECTION_MASK {
                    Direction::ToClient
                } else {
                    Direction::ToServer
                },
                timestamp: from_be(first) as u16,
                timestamp_reply: from_be(second) as u16,
                payload,
            },
        )
    }

    /// Render as a message ready to encrypt.
    pub fn to_message(&self) -> (m: Message)
        ensures
            m@ == message_of(self@),
    {
        let seq: u64 = self.seq % DIRECTION_MASK;
        let direction_seq: u64 = if self.direction == Direction::ToClient {
            DIRECTION_MASK + seq
        } else {
            seq
        };
        let mut text: Vec<u8> = to_be(self.timestamp as u64, 2);
        let mut reply = to_be(self.timestamp_reply as u64, 2);
        text.append(&mut reply);
        text.extend_from_slice(self.payload.as_slice());
        assert(text@ =~= message_of(self@).text);
        Message::new(Nonce::new(direction_seq), text)
    }
}

/// A packet is read back from the message it goes into. A sequence number never collides
/// with the direction: its top bit is not carried.
pub proof fn packets_round_trip(p: PacketView)
    ensures
        packet_in(message_of(p)) == Ok::<PacketView, CryptoError>(
            PacketView { seq: sequence_of(p.seq), ..p },
        ),
{
    let m = message_of(p);
    lemma_pow256();
    lemma_be_number_round_trip(p.timestamp as nat, 2);
    lemma_be_number_round_trip(p.timestamp_reply as nat, 2);
    assert(m.text.subrange(0, 2) =~= be_bytes(p.timestamp as nat, 2));
    assert(m.text.subrange(2, 4) =~= be_bytes(p.timestamp_reply as nat, 2));
    assert(m.text.skip(4) =~= p.payload);
}

/// Different sequence numbers go under different nonces, and so do the two directions:
/// no nonce is used twice while the counter of either side does not repeat.
pub proof fn nonces_are_distinct(d1: Direction, s1: u64, d2: Direction, s2: u64)
    requires
        s1 < DIRECTION_MASK,
        s2 < DIRECTION_MASK,
        d1 != d2 || s1 != s2,
    ensures
        nonce_for(d1, s1) != nonce_for(d2, s2),
{
}

/// The low 16 bits of a millisecond clock, avoiding the "none" value.
pub open spec fn clock16(now: u64) -> u16 {
    if now % 65536 == TIMESTAMP_NONE {
        0
    } else {
        (now % 65536) as u16
    }
}

/// The low 16 bits of a millisecond clock, avoiding the "none" value.
pub fn timestamp16(now: u64) -> (ts: u16)
    ensures
        ts == clock16(now),
        ts != TIMESTAMP_NONE,
{
    let ts: u16 = (now % 65536) as u16;
    if ts == TIMESTAMP_NONE {
        0
    } else {
        ts
    }
}

/// Difference between two 16-bit timestamps, allowing for wraparound.
pub fn timestamp_diff(tsnew: u16, tsold: u16) -> (d: u16)
    ensures
        d == (tsnew - tsold) % 65536,
{
    if tsnew >= tsold {
        tsnew - tsold
    } else {
        let d: u32 = 65536 + tsnew as u32 - tsold as u32;
        d as u16
    }
}

} // verus!
