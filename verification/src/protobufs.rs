//! Wire encoding for transport instructions and state diffs.
//!
//! A message is a run of fields. Each begins with a key, which holds its number and the
//! kind of value that follows. Fields of unknown number are passed over, so that an older
//! end can read what a newer one writes.

pub mod host;
pub mod resize;
pub mod transport;
pub mod user;

use vstd::prelude::*;
use vstd::slice::*;

verus! {

/// A message could not be read.
#[derive(Debug, Clone, Copy, PartialEq, Eq, Structural)]
pub struct DecodeError;

/// `v` in groups of seven bits, the least significant first. Every byte but the last has
/// its high bit set.
pub open spec fn varint(v: nat) -> Seq<u8>
    decreases v,
{
    if v < 128 {
        seq![v as u8]
    } else {
        seq![(v % 128 + 128) as u8] + varint(v / 128)
    }
}

/// The number that `s` begins with, and how many bytes it takes. At most `limit` bytes are
/// read, and the last of them may hold only one bit.
pub open spec fn varint_read(s: Seq<u8>, limit: nat) -> Option<(nat, nat)>
    decreases limit,
{
    if limit == 0 || s.len() == 0 {
        None
    } else if s[0] < 0x80 {
        if limit == 1 && s[0] >= 2 {
            None
        } else {
            Some((s[0] as nat, 1nat))
        }
    } else {
        match varint_read(s.skip(1), (limit - 1) as nat) {
            Some((v, n)) => Some(((s[0] - 0x80) as nat + 128 * v, n + 1)),
            None => None,
        }
    }
}

/// Ten bytes hold any 64-bit number.
pub const MAX_VARINT_BYTES: u64 = 10;

/// The number that `s` begins with, and how many bytes it takes.
pub open spec fn number_read(s: Seq<u8>) -> Option<(nat, nat)> {
    varint_read(s, MAX_VARINT_BYTES as nat)
}

/// `prost::encoding::encode_varint` writes a number in the base-128 format of protocol
/// buffers: groups of seven bits, least significant first, with the high bit of a byte
/// telling that more follow.
#[verifier::external_body]
pub(crate) fn encode_varint(v: u64) -> (out: Vec<u8>)
    ensures
        out@ == varint(v as nat),
{
    let mut out = Vec::new();
    prost::encoding::encode_varint(v, &mut out);
    out
}

/// `prost::encoding::decode_varint` reads a number in the same format and moves past it.
/// It fails on input that ends first, on more than ten bytes, and on a tenth byte that
/// holds more than one bit. The result is the number and how many bytes are left.
#[verifier::external_body]
pub(crate) fn decode_varint(buf: &[u8]) -> (r: Option<(u64, usize)>)
    ensures
        match r {
            Some((v, left)) => left < buf@.len() && number_read(buf@) == Some(
                (v as nat, (buf@.len() - left) as nat),
            ),
            None => number_read(buf@) is None,
        },
{
    let mut rest = buf;
    match prost::encoding::decode_varint(&mut rest) {
        Ok(v) => Some((v, rest.len())),
        Err(_) => None,
    }
}

/// The kinds of value, by their number on the wire.
pub const WIRE_VARINT: u8 = 0;

pub const WIRE_64_BIT: u8 = 1;

pub const WIRE_DELIMITED: u8 = 2;

pub const WIRE_START_GROUP: u8 = 3;

pub const WIRE_END_GROUP: u8 = 4;

pub const WIRE_32_BIT: u8 = 5;

/// How deep groups and messages may be nested.
pub const RECURSION_LIMIT: u32 = 100;

/// A field key: its number, the kind of its value, and how many bytes the key takes.
pub struct Key {
    pub tag: u32,
    pub wire: u8,
    pub size: nat,
}

/// The key that `s` begins with.
pub open spec fn key_read(s: Seq<u8>) -> Option<Key> {
    match number_read(s) {
        Some((v, n)) => if v > u32::MAX || v % 8 > 5 || v / 8 == 0 {
            None
        } else {
            Some(Key { tag: (v / 8) as u32, wire: (v % 8) as u8, size: n })
        },
        None => None,
    }
}

/// A field: its number, the kind of its value, the number or the bytes it holds, and what
/// follows it. Values that no message here uses are only passed over.
pub struct Field {
    pub tag: u32,
    pub wire: u8,
    pub value: u64,
    pub data: Seq<u8>,
    pub rest: Seq<u8>,
}

/// What follows the rest of a group, which ends with the key that closes it.
pub open spec fn group_rest(s: Seq<u8>, tag: u32, depth: nat) -> Option<Seq<u8>>
    decreases s.len(), 0nat,
{
    match key_read(s) {
        None => None,
        Some(k) => {
            let after_key = s.skip(k.size as int);
            if k.size == 0 || k.size > s.len() {
                None
            } else if k.wire == WIRE_END_GROUP {
                if k.tag == tag {
                    Some(after_key)
                } else {
                    None
                }
            } else if depth == 0 {
                None
            } else {
                match value_read(after_key, k.tag, k.wire, depth) {
                    None => None,
                    Some(f) => if f.rest.len() < s.len() {
                        group_rest(f.rest, tag, depth)
                    } else {
                        None
                    },
                }
            }
        },
    }
}

/// The value that `s` begins with, for a key that was read.
pub open spec fn value_read(s: Seq<u8>, tag: u32, wire: u8, depth: nat) -> Option<Field>
    decreases s.len(), 1nat,
{
    if wire == WIRE_VARINT {
        match number_read(s) {
            Some((v, n)) => Some(
                Field {
                    tag,
                    wire,
                    value: v as u64,
                    data: Seq::empty(),
                    rest: s.skip(n as int),
                },
            ),
            None => None,
        }
    } else if wire == WIRE_DELIMITED {
        match number_read(s) {
            Some((v, n)) => if v > s.len() - n {
                None
            } else {
                Some(
                    Field {
                        tag,
                        wire,
                        value: 0,
                        data: s.subrange(n as int, (n + v) as int),
                        rest: s.skip((n + v) as int),
                    },
                )
            },
            None => None,
        }
    } else if wire == WIRE_64_BIT || wire == WIRE_32_BIT {
        let n = if wire == WIRE_64_BIT {
            8
        } else {
            4int
        };
        if s.len() < n {
            None
        } else {
            Some(Field { tag, wire, value: 0, data: Seq::empty(), rest: s.skip(n) })
        }
    } else if wire == WIRE_START_GROUP && depth > 0 {
        match group_rest(s, tag, (depth - 1) as nat) {
            Some(rest) => Some(Field { tag, wire, value: 0, data: Seq::empty(), rest }),
            None => None,
        }
    } else {
        None
    }
}

/// The field that `s` begins with.
pub open spec fn field_read(s: Seq<u8>, depth: nat) -> Option<Field> {
    match key_read(s) {
        None => None,
        Some(k) => value_read(s.skip(k.size as int), k.tag, k.wire, depth),
    }
}

/// A number takes at least one byte, and at most those that are there.
pub proof fn lemma_varint_size(s: Seq<u8>, limit: nat)
    ensures
        match varint_read(s, limit) {
            Some((v, n)) => 1 <= n <= s.len() && n <= limit,
            None => true,
        },
    decreases limit,
{
    if limit > 0 && s.len() > 0 && s[0] >= 0x80 {
        lemma_varint_size(s.skip(1), (limit - 1) as nat);
    }
}

/// A number that was read is less than this.
spec fn varint_bound(limit: nat) -> nat
    decreases limit,
{
    if limit <= 1 {
        2
    } else {
        128 * varint_bound((limit - 1) as nat)
    }
}

proof fn lemma_varint_bound()
    ensures
        varint_bound(10) == 0x1_0000_0000_0000_0000,
{
    reveal_with_fuel(varint_bound, 10);
}

proof fn lemma_varint_bounded(s: Seq<u8>, limit: nat)
    ensures
        match varint_read(s, limit) {
            Some((v, n)) => v < varint_bound(limit),
            None => true,
        },
    decreases limit,
{
    if limit > 0 && s.len() > 0 {
        if s[0] >= 0x80 {
            lemma_varint_bounded(s.skip(1), (limit - 1) as nat);
            if limit == 1 {
                assert(varint_read(s.skip(1), 0) is None);
            }
        } else if limit > 1 {
            lemma_bound_at_least(limit);
        }
    }
}

proof fn lemma_bound_at_least(limit: nat)
    requires
        limit > 1,
    ensures
        varint_bound(limit) >= 256,
    decreases limit,
{
    reveal_with_fuel(varint_bound, 3);
    if limit > 2 {
        lemma_bound_at_least((limit - 1) as nat);
    }
}

/// A number that was read fits in 64 bits.
pub proof fn lemma_number_fits(s: Seq<u8>)
    ensures
        match number_read(s) {
            Some((v, n)) => v <= u64::MAX && 1 <= n <= s.len() && n <= 10,
            None => true,
        },
{
    lemma_varint_bound();
    lemma_varint_bounded(s, 10);
    lemma_varint_size(s, 10);
}

proof fn lemma_varint_round_trip(v: nat, rest: Seq<u8>, limit: nat)
    requires
        v < varint_bound(limit),
        limit >= 1,
    ensures
        varint_read(varint(v) + rest, limit) == Some((v, varint(v).len())),
    decreases limit,
{
    let s = varint(v) + rest;
    if v < 128 {
        assert(s[0] == v as u8);
    } else {
        if limit == 1 {
            assert(false);
        }
        let head = (v % 128 + 128) as u8;
        assert(s[0] == head);
        assert(s.skip(1) =~= varint(v / 128) + rest);
        lemma_varint_round_trip(v / 128, rest, (limit - 1) as nat);
    }
}

/// Reading a number that was written gives it back, whatever follows it.
pub proof fn numbers_round_trip(v: u64, rest: Seq<u8>)
    ensures
        number_read(varint(v as nat) + rest) == Some((v as nat, varint(v as nat).len())),
{
    lemma_varint_bound();
    lemma_varint_round_trip(v as nat, rest, 10);
}

/// A field that was read.
pub struct RawField<'a> {
    pub tag: u32,
    pub wire: u8,
    pub value: u64,
    pub data: &'a [u8],
    /// How many bytes follow the field.
    pub left: usize,
}

impl<'a> RawField<'a> {
    /// Is this the field `f`, read from `s`?
    pub open spec fn shows(self, f: Field, s: Seq<u8>) -> bool {
        &&& f.tag == self.tag
        &&& f.wire == self.wire
        &&& f.value == self.value
        &&& f.data == self.data@
        &&& self.left <= s.len()
        &&& f.rest == s.skip(s.len() - self.left)
    }
}

/// The last `left` bytes.
fn tail(s: &[u8], left: usize) -> (t: &[u8])
    requires
        left <= s@.len(),
    ensures
        t@ == s@.skip(s@.len() - left),
{
    let t = slice_subrange(s, s.len() - left, s.len());
    assert(t@ =~= s@.skip(s@.len() - left));
    t
}

/// Reads a key; the result holds its number, its kind, and how many bytes are left.
fn read_key(s: &[u8]) -> (r: Option<(u32, u8, usize)>)
    ensures
        match r {
            Some((tag, wire, left)) => left < s@.len() && key_read(s@) == Some(
                Key { tag, wire, size: (s@.len() - left) as nat },
            ) && wire <= 5,
            None => key_read(s@) is None,
        },
{
    proof {
        lemma_number_fits(s@);
    }
    match decode_varint(s) {
        Some((v, left)) => {
            if v > 0xffff_ffff || v % 8 > 5 || v / 8 == 0 {
                return None;
            }
            Some(((v / 8) as u32, (v % 8) as u8, left))
        },
        None => None,
    }
}

/// Passes over the rest of a group; the result is how many bytes are left.
fn skip_group(s: &[u8], tag: u32, depth: u32) -> (r: Option<usize>)
    ensures
        match r {
            Some(left) => left < s@.len() && group_rest(s@, tag, depth as nat) == Some(
                s@.skip(s@.len() - left),
            ),
            None => group_rest(s@, tag, depth as nat) is None,
        },
    decreases s@.len(), 0nat,
{
    match read_key(s) {
        None => None,
        Some((inner_tag, wire, left)) => {
            if wire == WIRE_END_GROUP {
                if inner_tag == tag {
                    return Some(left);
                }
                return None;
            }
            if depth == 0 {
                return None;
            }
            let after_key = tail(s, left);
            match read_value(after_key, inner_tag, wire, depth) {
                None => None,
                Some(f) => {
                    let rest = tail(after_key, f.left);
                    assert(rest@.len() < s@.len());
                    match skip_group(rest, tag, depth) {
                        None => None,
                        Some(left2) => {
                            assert(rest@.skip(rest@.len() - left2) =~= s@.skip(s@.len() - left2));
                            Some(left2)
                        },
                    }
                },
            }
        },
    }
}

/// Reads the value that follows a key.
fn read_value<'a>(s: &'a [u8], tag: u32, wire: u8, depth: u32) -> (r: Option<RawField<'a>>)
    requires
        wire <= 5,
    ensures
        match r {
            Some(f) => value_read(s@, tag, wire, depth as nat) matches Some(g) && f.shows(g, s@),
            None => value_read(s@, tag, wire, depth as nat) is None,
        },
    decreases s@.len(), 1nat,
{
    proof {
        lemma_number_fits(s@);
    }
    let empty = tail(s, 0);
    assert(empty@ =~= Seq::<u8>::empty());
    if wire == WIRE_VARINT {
        return match decode_varint(s) {
            Some((v, left)) => Some(RawField { tag, wire, value: v, data: empty, left }),
            None => None,
        };
    }
    if wire == WIRE_DELIMITED {
        return match decode_varint(s) {
            Some((v, left)) => {
                if v > left as u64 {
                    return None;
                }
                let start: usize = s.len() - left;
                let n: usize = v as usize;
                let data = slice_subrange(s, start, start + n);
                Some(RawField { tag, wire, value: 0, data, left: left - n })
            },
            None => None,
        };
    }
    if wire == WIRE_64_BIT || wire == WIRE_32_BIT {
        let n: usize = if wire == WIRE_64_BIT {
            8
        } else {
            4
        };
        if s.len() < n {
            return None;
        }
        return Some(RawField { tag, wire, value: 0, data: empty, left: s.len() - n });
    }
    if wire == WIRE_START_GROUP && depth > 0 {
        return match skip_group(s, tag, depth - 1) {
            Some(left) => Some(RawField { tag, wire, value: 0, data: empty, left }),
            None => None,
        };
    }
    None
}

/// Reads the field that `s` begins with.
pub(crate) fn read_field<'a>(s: &'a [u8], depth: u32) -> (r: Option<RawField<'a>>)
    ensures
        match r {
            Some(f) => field_read(s@, depth as nat) matches Some(g) && f.shows(g, s@) && f.left
                < s@.len(),
            None => field_read(s@, depth as nat) is None,
        },
{
    match read_key(s) {
        None => None,
        Some((tag, wire, left)) => {
            let after_key = tail(s, left);
            match read_value(after_key, tag, wire, depth) {
                None => None,
                Some(f) => {
                    assert(after_key@.skip(after_key@.len() - f.left) =~= s@.skip(
                        s@.len() - f.left,
                    ));
                    Some(f)
                },
            }
        },
    }
}

/// A message: what it is before any field, and what a field does to it. A field that is
/// known but holds the wrong kind of value is an error.
pub trait Message: Sized + View {
    /// A message without fields.
    spec fn blank() -> Self::V;

    /// The message after a field, or nothing if the field is wrong.
    spec fn merged(v: Self::V, f: Field, depth: nat) -> Option<Self::V>;

    /// The fields of a message, one after the other.
    spec fn encoding(v: Self::V) -> Seq<u8>;

    /// How many levels of messages there are in this one, itself counted.
    spec fn levels() -> nat;

    fn empty() -> (m: Self)
        ensures
            m@ == Self::blank(),
    ;

    fn merge_field(&mut self, f: &RawField, Ghost(g): Ghost<Field>, depth: u32) -> (ok: bool)
        requires
            g.tag == f.tag,
            g.wire == f.wire,
            g.value == f.value,
            g.data == f.data@,
            depth >= Self::levels(),
        ensures
            match Self::merged(old(self)@, g, depth as nat) {
                Some(v) => ok && final(self)@ == v,
                None => !ok,
            },
    ;
}

/// The message after all fields in `s`.
pub open spec fn all_merged<M: Message>(v: M::V, s: Seq<u8>, depth: nat) -> Option<M::V>
    decreases s.len(),
{
    if s.len() == 0 {
        Some(v)
    } else {
        match field_read(s, depth) {
            None => None,
            Some(f) => if f.rest.len() < s.len() {
                match M::merged(v, f, depth) {
                    Some(w) => all_merged::<M>(w, f.rest, depth),
                    None => None,
                }
            } else {
                None
            },
        }
    }
}

/// Merges all fields in `s` into a message.
pub(crate) fn merge_all<M: Message>(m: &mut M, s: &[u8], depth: u32) -> (ok: bool)
    requires
        depth >= M::levels(),
    ensures
        match all_merged::<M>(old(m)@, s@, depth as nat) {
            Some(v) => ok && final(m)@ == v,
            None => !ok,
        },
{
    let mut rest = s;
    while rest.len() > 0
        invariant
            depth >= M::levels(),
            all_merged::<M>(old(m)@, s@, depth as nat) == all_merged::<M>(
                m@,
                rest@,
                depth as nat,
            ),
        decreases rest@.len(),
    {
        match read_field(rest, depth) {
            None => {
                return false;
            },
            Some(f) => {
                let ghost g = field_read(rest@, depth as nat)->0;
                if !m.merge_field(&f, Ghost(g), depth) {
                    return false;
                }
                rest = tail(rest, f.left);
            },
        }
    }
    true
}

/// Reads a message.
pub(crate) fn decode_message<M: Message>(s: &[u8]) -> (r: Result<M, DecodeError>)
    requires
        RECURSION_LIMIT >= M::levels(),
    ensures
        match all_merged::<M>(M::blank(), s@, RECURSION_LIMIT as nat) {
            Some(v) => r matches Ok(m) && m@ == v,
            None => r matches Err(_),
        },
{
    let mut m = M::empty();
    if merge_all(&mut m, s, RECURSION_LIMIT) {
        Ok(m)
    } else {
        Err(DecodeError)
    }
}

/// The view of an optional message.
pub open spec fn optional_view<M: View>(m: Option<M>) -> Option<M::V> {
    match m {
        Some(x) => Some(x@),
        None => None,
    }
}

/// What is there, or an empty message.
pub open spec fn or_blank<M: Message>(v: Option<M::V>) -> M::V {
    match v {
        Some(x) => x,
        None => M::blank(),
    }
}

/// An optional field that holds a message.
pub open spec fn optional_message<M: Message>(tag: u32, v: Option<M::V>) -> Seq<u8> {
    optional_bytes(tag, optional_encoding::<M>(v))
}

/// Merges all fields in `s` into an optional message.
pub(crate) fn merge_optional<M: Message>(m: &mut Option<M>, s: &[u8], depth: u32) -> (ok: bool)
    requires
        depth >= M::levels(),
    ensures
        match all_merged::<M>(or_blank::<M>(optional_view(*old(m))), s@, depth as nat) {
            Some(v) => ok && optional_view(*final(m)) == Some(v),
            None => !ok,
        },
{
    let mut x = match m.take() {
        Some(x) => x,
        None => M::empty(),
    };
    let ok = merge_all(&mut x, s, depth);
    *m = Some(x);
    ok
}

/// A key.
pub open spec fn key_bytes(tag: u32, wire: u8) -> Seq<u8> {
    varint((tag * 8 + wire) as nat)
}

/// A field that holds a number.
pub open spec fn number_field(tag: u32, v: u64) -> Seq<u8> {
    key_bytes(tag, WIRE_VARINT) + varint(v as nat)
}

/// A field that holds bytes.
pub open spec fn bytes_field(tag: u32, data: Seq<u8>) -> Seq<u8> {
    key_bytes(tag, WIRE_DELIMITED) + varint(data.len()) + data
}

/// An optional field that holds a number.
pub open spec fn optional_number(tag: u32, v: Option<u64>) -> Seq<u8> {
    match v {
        Some(x) => number_field(tag, x),
        None => Seq::empty(),
    }
}

/// An optional field that holds bytes.
pub open spec fn optional_bytes(tag: u32, v: Option<Seq<u8>>) -> Seq<u8> {
    match v {
        Some(x) => bytes_field(tag, x),
        None => Seq::empty(),
    }
}

fn push_varint(out: &mut Vec<u8>, v: u64)
    ensures
        final(out)@ == old(out)@ + varint(v as nat),
{
    let mut bytes = encode_varint(v);
    out.append(&mut bytes);
}

fn push_key(out: &mut Vec<u8>, tag: u32, wire: u8)
    requires
        1 <= tag < 0x1000_0000,
        wire <= 5,
    ensures
        final(out)@ == old(out)@ + key_bytes(tag, wire),
{
    push_varint(out, tag as u64 * 8 + wire as u64);
}

pub(crate) fn push_number(out: &mut Vec<u8>, tag: u32, v: u64)
    requires
        1 <= tag < 0x1000_0000,
    ensures
        final(out)@ == old(out)@ + number_field(tag, v),
{
    push_key(out, tag, WIRE_VARINT);
    push_varint(out, v);
    assert(out@ =~= old(out)@ + number_field(tag, v));
}

pub(crate) fn push_bytes(out: &mut Vec<u8>, tag: u32, data: &[u8])
    requires
        1 <= tag < 0x1000_0000,
    ensures
        final(out)@ == old(out)@ + bytes_field(tag, data@),
{
    push_key(out, tag, WIRE_DELIMITED);
    push_varint(out, data.len() as u64);
    out.extend_from_slice(data);
    assert(out@ =~= old(out)@ + bytes_field(tag, data@));
}

pub(crate) fn push_optional_number(out: &mut Vec<u8>, tag: u32, v: Option<u64>)
    requires
        1 <= tag < 0x1000_0000,
    ensures
        final(out)@ == old(out)@ + optional_number(tag, v),
{
    if let Some(x) = v {
        push_number(out, tag, x);
    } else {
        assert(out@ =~= old(out)@ + optional_number(tag, v));
    }
}

/// Copies bytes.
pub(crate) fn copy_bytes(data: &[u8]) -> (v: Vec<u8>)
    ensures
        v@ == data@,
{
    let v = slice_to_vec(data);
    assert(v@ =~= data@);
    v
}

/// The view of optional bytes.
pub open spec fn bytes_view(v: Option<Vec<u8>>) -> Option<Seq<u8>> {
    match v {
        Some(x) => Some(x@),
        None => None,
    }
}

pub(crate) fn push_optional_bytes(out: &mut Vec<u8>, tag: u32, v: &Option<Vec<u8>>)
    requires
        1 <= tag < 0x1000_0000,
    ensures
        final(out)@ == old(out)@ + optional_bytes(tag, bytes_view(*v)),
{
    match v {
        Some(x) => push_bytes(out, tag, x.as_slice()),
        None => {
            assert(out@ =~= old(out)@ + optional_bytes(tag, bytes_view(*v)));
        },
    }
}

/// Reading a field that holds a number gives it back, whatever follows it.
pub proof fn lemma_number_field_read(tag: u32, v: u64, rest: Seq<u8>, depth: nat)
    requires
        1 <= tag < 0x1000_0000,
    ensures
        field_read(number_field(tag, v) + rest, depth) == Some(
            Field { tag, wire: WIRE_VARINT, value: v, data: Seq::empty(), rest },
        ),
        number_field(tag, v).len() > 0,
{
    let key = (tag * 8 + WIRE_VARINT) as u64;
    let s = number_field(tag, v) + rest;
    let after = varint(v as nat) + rest;
    numbers_round_trip(key, after);
    assert(s =~= varint(key as nat) + after);
    numbers_round_trip(v, rest);
    lemma_number_fits(s);
    assert(s.skip(varint(key as nat).len() as int) =~= after);
    assert(after.skip(varint(v as nat).len() as int) =~= rest);
}

/// Reading a field that holds bytes gives them back, whatever follows it.
pub proof fn lemma_bytes_field_read(tag: u32, data: Seq<u8>, rest: Seq<u8>, depth: nat)
    requires
        1 <= tag < 0x1000_0000,
        data.len() <= u64::MAX,
    ensures
        field_read(bytes_field(tag, data) + rest, depth) == Some(
            Field { tag, wire: WIRE_DELIMITED, value: 0, data, rest },
        ),
        bytes_field(tag, data).len() > 0,
{
    let key = (tag * 8 + WIRE_DELIMITED) as u64;
    let s = bytes_field(tag, data) + rest;
    let after = varint(data.len()) + (data + rest);
    numbers_round_trip(key, after);
    assert(s =~= varint(key as nat) + after);
    numbers_round_trip(data.len() as u64, data + rest);
    lemma_number_fits(s);
    let n = varint(data.len()).len();
    assert(s.skip(varint(key as nat).len() as int) =~= after);
    assert(after.subrange(n as int, (n + data.len()) as int) =~= data);
    assert(after.skip((n + data.len()) as int) =~= rest);
}

/// A message after fields that begin with one that may hold a number.
pub proof fn lemma_number_merged<M: Message>(
    v: M::V,
    tag: u32,
    x: Option<u64>,
    rest: Seq<u8>,
    depth: nat,
)
    requires
        1 <= tag < 0x1000_0000,
    ensures
        all_merged::<M>(v, optional_number(tag, x) + rest, depth) == match x {
            None => all_merged::<M>(v, rest, depth),
            Some(n) => match M::merged(
                v,
                Field { tag, wire: WIRE_VARINT, value: n, data: Seq::empty(), rest },
                depth,
            ) {
                Some(w) => all_merged::<M>(w, rest, depth),
                None => None,
            },
        },
{
    match x {
        Some(n) => {
            lemma_number_field_read(tag, n, rest, depth);
        },
        None => {
            assert(optional_number(tag, x) + rest =~= rest);
        },
    }
}

/// A message after fields that begin with one that may hold bytes.
pub proof fn lemma_bytes_merged<M: Message>(
    v: M::V,
    tag: u32,
    x: Option<Seq<u8>>,
    rest: Seq<u8>,
    depth: nat,
)
    requires
        1 <= tag < 0x1000_0000,
        x matches Some(d) ==> d.len() <= u64::MAX,
    ensures
        all_merged::<M>(v, optional_bytes(tag, x) + rest, depth) == match x {
            None => all_merged::<M>(v, rest, depth),
            Some(data) => match M::merged(
                v,
                Field { tag, wire: WIRE_DELIMITED, value: 0, data, rest },
                depth,
            ) {
                Some(w) => all_merged::<M>(w, rest, depth),
                None => None,
            },
        },
{
    match x {
        Some(data) => {
            lemma_bytes_field_read(tag, data, rest, depth);
        },
        None => {
            assert(optional_bytes(tag, x) + rest =~= rest);
        },
    }
}

/// The bytes that an optional message is written as.
pub open spec fn optional_encoding<M: Message>(v: Option<M::V>) -> Option<Seq<u8>> {
    match v {
        Some(x) => Some(M::encoding(x)),
        None => None,
    }
}

} // verus!
