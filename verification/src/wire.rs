//! What stands on the wire, byte by byte.
//!
//! The two ends may be of different versions, so it is not enough that each reads what it
//! writes: where every part stands is fixed here.

use vstd::prelude::*;

use crate::base64::{encoded, letter_of};
use crate::big_endian::{be_bytes, lemma_be_bytes_len};
use crate::connection::rto_within_bounds;
use crate::crypto::{framed, nonce_bytes};
use crate::fragment::{contents_size, FragmentError, FragmentView, FragmenterView};
use crate::packet::{clock16, message_of, Direction, PacketView};
use crate::protobufs::host;
use crate::protobufs::resize::{ResizeMessage, ResizeView};
use crate::protobufs::transport::{Instruction, InstructionView};
use crate::protobufs::user;
use crate::protobufs::{key_bytes, varint, Message};

verus! {

/// A number of two bytes is written with its high byte first, and one of eight bytes with the
/// highest first.
pub proof fn numbers_are_written_high_byte_first(v: u64, w: u16)
    ensures
        be_bytes(w as nat, 2) == seq![(w / 256) as u8, (w % 256) as u8],
        ({
            let b = be_bytes(v as nat, 8);
            &&& b.len() == 8
            &&& b[7] == v % 256
            &&& b[6] == v / 0x100 % 256
            &&& b[5] == v / 0x1_0000 % 256
            &&& b[4] == v / 0x100_0000 % 256
            &&& b[3] == v / 0x1_0000_0000 % 256
            &&& b[2] == v / 0x100_0000_0000 % 256
            &&& b[1] == v / 0x1_0000_0000_0000 % 256
            &&& b[0] == v / 0x100_0000_0000_0000
        }),
{
    let low = be_bytes(w as nat / 256, 1);
    assert(be_bytes(w as nat / 256 / 256, 0) =~= Seq::empty());
    assert(low =~= seq![(w / 256) as u8]);
    assert(be_bytes(w as nat, 2) =~= seq![(w / 256) as u8, (w % 256) as u8]);
    lemma_eight_bytes(v as nat);
    assert(v as nat / 0x100_0000_0000_0000 < 256);
}

/// Eight bytes, one by one.
proof fn lemma_eight_bytes(v: nat)
    ensures
        be_bytes(v, 8) == seq![
            (v / 0x100_0000_0000_0000 % 256) as u8,
            (v / 0x1_0000_0000_0000 % 256) as u8,
            (v / 0x100_0000_0000 % 256) as u8,
            (v / 0x1_0000_0000 % 256) as u8,
            (v / 0x100_0000 % 256) as u8,
            (v / 0x1_0000 % 256) as u8,
            (v / 0x100 % 256) as u8,
            (v % 256) as u8,
        ],
{
    let v1 = v / 0x100;
    let v2 = v / 0x1_0000;
    let v3 = v / 0x100_0000;
    let v4 = v / 0x1_0000_0000;
    let v5 = v / 0x100_0000_0000;
    let v6 = v / 0x1_0000_0000_0000;
    let v7 = v / 0x100_0000_0000_0000;
    assert(v1 / 256 == v2 && v2 / 256 == v3 && v3 / 256 == v4 && v4 / 256 == v5 && v5 / 256 == v6
        && v6 / 256 == v7);
    let b: Seq<u8> = be_bytes(v7 / 256, 0);
    assert(b =~= Seq::empty());
    assert(be_bytes(v7, 1) =~= seq![(v7 % 256) as u8]);
    assert(be_bytes(v6, 2) =~= seq![(v7 % 256) as u8, (v6 % 256) as u8]);
    assert(be_bytes(v5, 3) =~= seq![(v7 % 256) as u8, (v6 % 256) as u8, (v5 % 256) as u8]);
    assert(be_bytes(v4, 4) =~= seq![
        (v7 % 256) as u8,
        (v6 % 256) as u8,
        (v5 % 256) as u8,
        (v4 % 256) as u8,
    ]);
    assert(be_bytes(v3, 5) =~= be_bytes(v4, 4).push((v3 % 256) as u8));
    assert(be_bytes(v2, 6) =~= be_bytes(v3, 5).push((v2 % 256) as u8));
    assert(be_bytes(v1, 7) =~= be_bytes(v2, 6).push((v1 % 256) as u8));
    assert(be_bytes(v, 8) =~= be_bytes(v1, 7).push((v % 256) as u8));
}

/// A packet: two timestamps of two bytes each, the sender's own and then the one it replies
/// to, and the payload. The number of the packet is its nonce, and what goes to the client
/// has the highest bit set.
pub proof fn packets_are_timestamps_and_a_payload(p: PacketView)
    requires
        p.seq < 0x8000_0000_0000_0000,
    ensures
        ({
            let m = message_of(p);
            &&& m.text == seq![
                (p.timestamp / 256) as u8,
                (p.timestamp % 256) as u8,
                (p.timestamp_reply / 256) as u8,
                (p.timestamp_reply % 256) as u8,
            ] + p.payload
            &&& m.nonce == (if p.direction == Direction::ToClient {
                p.seq + 0x8000_0000_0000_0000
            } else {
                p.seq as int
            })
        }),
{
    numbers_are_written_high_byte_first(0, p.timestamp);
    numbers_are_written_high_byte_first(0, p.timestamp_reply);
    assert(message_of(p).text =~= seq![
        (p.timestamp / 256) as u8,
        (p.timestamp % 256) as u8,
        (p.timestamp_reply / 256) as u8,
        (p.timestamp_reply % 256) as u8,
    ] + p.payload);
}

/// A datagram: eight bytes of nonce, and what was sealed. The cipher gets four zero bytes in
/// front of them.
pub proof fn datagrams_begin_with_their_nonce(nonce: u64, sealed: Seq<u8>)
    ensures
        framed(nonce, sealed).take(8) == be_bytes(nonce as nat, 8),
        framed(nonce, sealed).skip(8) == sealed,
        nonce_bytes(nonce) == seq![0u8, 0u8, 0u8, 0u8] + be_bytes(nonce as nat, 8),
{
    lemma_be_bytes_len(nonce as nat, 8);
    assert(framed(nonce, sealed).take(8) =~= be_bytes(nonce as nat, 8));
    assert(framed(nonce, sealed).skip(8) =~= sealed);
}

/// A fragment: eight bytes of instruction id, two of its number, with the highest bit set in
/// the last fragment, and the contents. So the contents may be ten bytes less than what fits.
pub proof fn fragments_are_an_id_a_number_and_contents(f: FragmentView, mtu: nat)
    requires
        f.fragment_num < 0x8000,
        mtu > 11,
    ensures
        ({
            let n = if f.final_fragment {
                f.fragment_num + 0x8000
            } else {
                f.fragment_num as int
            };
            f.bytes() == Ok::<Seq<u8>, FragmentError>(
                be_bytes(f.id as nat, 8) + seq![(n / 256) as u8, (n % 256) as u8] + f.contents,
            )
        }),
        contents_size(mtu) == mtu - 10,
{
    numbers_are_written_high_byte_first(0, f.combined() as u16);
}

/// A field that holds a number, if there is one, behind the byte that announces it.
pub open spec fn announced_number(key: u8, v: Option<u64>) -> Seq<u8> {
    match v {
        Some(x) => seq![key] + varint(x as nat),
        None => Seq::empty(),
    }
}

/// A field that holds bytes, if there are any, behind the byte that announces it and their
/// number.
pub open spec fn announced_bytes(key: u8, v: Option<Seq<u8>>) -> Seq<u8> {
    match v {
        Some(x) => seq![key] + varint(x.len()) + x,
        None => Seq::empty(),
    }
}

proof fn lemma_keys()
    ensures
        forall|tag: u32| #![trigger key_bytes(tag, 0)] tag < 16 ==> key_bytes(tag, 0) == seq![
            (tag * 8) as u8,
        ],
        forall|tag: u32| #![trigger key_bytes(tag, 2)] tag < 16 ==> key_bytes(tag, 2) == seq![
            (tag * 8 + 2) as u8,
        ],
{
}

/// An instruction of the transport: the version, the number of the state that the diff starts
/// from, the one it leads to, the acknowledgement, the number up to which states may be
/// thrown away, the diff, and the chaff, each announced by its own byte.
pub proof fn instructions_are_these_fields(v: InstructionView)
    ensures
        Instruction::encoding(v) == announced_number(
            8,
            match v.protocol_version {
                Some(x) => Some(x as u64),
                None => None,
            },
        ) + announced_number(16, v.old_num) + announced_number(24, v.new_num) + announced_number(
            32,
            v.ack_num,
        ) + announced_number(40, v.throwaway_num) + announced_bytes(50, v.diff) + announced_bytes(
            58,
            v.chaff,
        ),
{
    lemma_keys();
    assert(key_bytes(1, 0) == seq![8u8]);
    assert(key_bytes(2, 0) == seq![16u8]);
    assert(key_bytes(3, 0) == seq![24u8]);
    assert(key_bytes(4, 0) == seq![32u8]);
    assert(key_bytes(5, 0) == seq![40u8]);
    assert(key_bytes(6, 2) == seq![50u8]);
    assert(key_bytes(7, 2) == seq![58u8]);
}

/// A signed number as it stands on the wire: a negative one counts down from the largest.
pub open spec fn on_the_wire(n: i32) -> u64 {
    if n >= 0 {
        n as u64
    } else {
        (0x1_0000_0000_0000_0000 + n) as u64
    }
}

/// A new size: its width and its height.
pub proof fn sizes_are_a_width_and_a_height(width: i32, height: i32)
    ensures
        ResizeMessage::encoding(ResizeView { width: Some(width), height: Some(height) })
            == announced_number(40, Some(on_the_wire(width))) + announced_number(
            48,
            Some(on_the_wire(height)),
        ),
{
    lemma_keys();
    assert(key_bytes(5, 0) == seq![40u8]);
    assert(key_bytes(6, 0) == seq![48u8]);
}

/// What the client says: one part after the other, each either keys or a size.
pub proof fn user_parts_are_keys_or_a_size(keys: Seq<u8>, size: ResizeView, parts: Seq<user::UserInstructionView>)
    ensures
        user::Instruction::encoding(
            user::UserInstructionView {
                keystroke: Some(user::KeystrokeView { keys: Some(keys) }),
                resize: None,
            },
        ) == announced_bytes(18, Some(announced_bytes(34, Some(keys)))),
        user::Instruction::encoding(
            user::UserInstructionView { keystroke: None, resize: Some(size) },
        ) == announced_bytes(26, Some(ResizeMessage::encoding(size))),
        parts.len() > 0 ==> user::parts_encoding(parts) == user::parts_encoding(parts.drop_last())
            + announced_bytes(10, Some(user::Instruction::encoding(parts.last()))),
{
    lemma_keys();
    assert(key_bytes(1, 2) == seq![10u8]);
    assert(key_bytes(2, 2) == seq![18u8]);
    assert(key_bytes(3, 2) == seq![26u8]);
    assert(key_bytes(4, 2) == seq![34u8]);
    assert(user::Instruction::encoding(
        user::UserInstructionView {
            keystroke: Some(user::KeystrokeView { keys: Some(keys) }),
            resize: None,
        },
    ) =~= announced_bytes(18, Some(announced_bytes(34, Some(keys)))));
    assert(user::Instruction::encoding(
        user::UserInstructionView { keystroke: None, resize: Some(size) },
    ) =~= announced_bytes(26, Some(ResizeMessage::encoding(size))));
}

/// What the server says: one part after the other, each text for the terminal, a size, or the
/// number of what was echoed.
pub proof fn host_parts_are_text_a_size_or_an_echo(
    text: Seq<u8>,
    size: ResizeView,
    n: u64,
    parts: Seq<host::HostInstructionView>,
)
    ensures
        host::Instruction::encoding(
            host::HostInstructionView {
                hostbytes: Some(host::HostBytesView { hoststring: Some(text) }),
                resize: None,
                echoack: None,
            },
        ) == announced_bytes(18, Some(announced_bytes(34, Some(text)))),
        host::Instruction::encoding(
            host::HostInstructionView { hostbytes: None, resize: Some(size), echoack: None },
        ) == announced_bytes(26, Some(ResizeMessage::encoding(size))),
        host::Instruction::encoding(
            host::HostInstructionView {
                hostbytes: None,
                resize: None,
                echoack: Some(host::EchoAckView { echo_ack_num: Some(n) }),
            },
        ) == announced_bytes(58, Some(announced_number(64, Some(n)))),
        parts.len() > 0 ==> host::parts_encoding(parts) == host::parts_encoding(parts.drop_last())
            + announced_bytes(10, Some(host::Instruction::encoding(parts.last()))),
{
    lemma_keys();
    assert(key_bytes(1, 2) == seq![10u8]);
    assert(key_bytes(2, 2) == seq![18u8]);
    assert(key_bytes(3, 2) == seq![26u8]);
    assert(key_bytes(4, 2) == seq![34u8]);
    assert(key_bytes(7, 2) == seq![58u8]);
    assert(key_bytes(8, 0) == seq![64u8]);
    assert(host::Instruction::encoding(
        host::HostInstructionView {
            hostbytes: Some(host::HostBytesView { hoststring: Some(text) }),
            resize: None,
            echoack: None,
        },
    ) =~= announced_bytes(18, Some(announced_bytes(34, Some(text)))));
    assert(host::Instruction::encoding(
        host::HostInstructionView { hostbytes: None, resize: Some(size), echoack: None },
    ) =~= announced_bytes(26, Some(ResizeMessage::encoding(size))));
    assert(host::Instruction::encoding(
        host::HostInstructionView {
            hostbytes: None,
            resize: None,
            echoack: Some(host::EchoAckView { echo_ack_num: Some(n) }),
        },
    ) =~= announced_bytes(58, Some(announced_number(64, Some(n)))));
}

/// Clocks are cut to 16 bits, and never read as no time at all.
pub proof fn clocks_are_cut_to_sixteen_bits(now: u64)
    ensures
        now % 65536 != 65535 ==> clock16(now) == now % 65536,
        now % 65536 == 65535 ==> clock16(now) == 0,
{
}

/// The timeout for a round trip is what was estimated, but at least 50 ms and at most a
/// second.
pub proof fn timeouts_stay_within_bounds(estimate: i64)
    ensures
        50 <= estimate <= 1000 ==> rto_within_bounds(estimate) == estimate,
        estimate < 50 ==> rto_within_bounds(estimate) == 50,
        estimate > 1000 ==> rto_within_bounds(estimate) == 1000,
{
}

/// An instruction that is sent again keeps its id; one that differs in anything but its diff,
/// or that is cut into pieces of another size, gets the next.
pub proof fn instructions_sent_again_keep_their_id(
    f: FragmenterView,
    first: InstructionView,
    second: InstructionView,
    size: nat,
    other: nat,
)
    requires
        f.next_instruction_id < u64::MAX - 1,
        f.is_new(first, size),
    ensures
        ({
            let a = f.advanced(first, size);
            let b = a.advanced(second, other);
            let same = second == (InstructionView { diff: second.diff, ..first }) && size == other;
            &&& a.next_instruction_id == f.next_instruction_id + 1
            &&& b.next_instruction_id == (if same {
                a.next_instruction_id as int
            } else {
                a.next_instruction_id + 1
            })
        }),
{
}

/// A key is printed six bits at a time, in the letters of base 64, with two of padding.
pub proof fn keys_are_printed_six_bits_at_a_time(raw: Seq<u8>, i: int)
    requires
        raw.len() == 16,
        0 <= i < 5,
    ensures
        ({
            let (a, b, c) = (raw[3 * i] as int, raw[3 * i + 1] as int, raw[3 * i + 2] as int);
            let e = encoded(raw);
            &&& e.len() == 24
            &&& e[4 * i] == letter_of((a / 4) as nat)
            &&& e[4 * i + 1] == letter_of((a % 4 * 16 + b / 16) as nat)
            &&& e[4 * i + 2] == letter_of((b % 16 * 4 + c / 64) as nat)
            &&& e[4 * i + 3] == letter_of((c % 64) as nat)
            &&& e[20] == letter_of((raw[15] / 4) as nat)
            &&& e[21] == letter_of((raw[15] % 4 * 16) as nat)
            &&& e[22] == '=' as u8 && e[23] == '=' as u8
        }),
        forall|v: nat| v < 26 ==> #[trigger] letter_of(v) == 'A' as u8 + v,
        forall|v: nat| 26 <= v < 52 ==> #[trigger] letter_of(v) == 'a' as u8 + (v - 26),
        forall|v: nat| 52 <= v < 62 ==> #[trigger] letter_of(v) == '0' as u8 + (v - 52),
        letter_of(62) == '+' as u8,
        letter_of(63) == '/' as u8,
{
    let (a, b, c) = (raw[3 * i] as int, raw[3 * i + 1] as int, raw[3 * i + 2] as int);
    let t = a * 0x10000 + b * 0x100 + c;
    assert(t / 0x40000 == a / 4);
    assert(t / 0x1000 % 64 == a % 4 * 16 + b / 16);
    assert(t / 0x40 % 64 == b % 16 * 4 + c / 64);
    assert(t % 64 == c % 64);
    assert((4 * i) % 4 == 0 && (4 * i) / 4 == i);
    assert((4 * i + 1) % 4 == 1 && (4 * i + 1) / 4 == i);
    assert((4 * i + 2) % 4 == 2 && (4 * i + 2) / 4 == i);
    assert((4 * i + 3) % 4 == 3 && (4 * i + 3) / 4 == i);
}

} // verus!
