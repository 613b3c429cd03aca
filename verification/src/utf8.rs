//! Decoding UTF-8 one character at a time.

use vstd::prelude::*;

verus! {

/// `char::from_u32` gives the character with the given scalar value, and nothing for the
/// numbers that are not scalar values: surrogates and numbers past 0x10ffff.
pub assume_specification[ char::from_u32 ](i: u32) -> (c: Option<char>)
    ensures
        match c {
            Some(ch) => ch as u32 == i,
            None => 0xd800 <= i <= 0xdfff || i > 0x10ffff,
        },
;

/// One step of an incremental decode.
#[derive(Debug, Clone, Copy, PartialEq, Eq)]
pub enum Decoded {
    /// A character was produced, consuming this many bytes.
    Char(char, usize),
    /// A NUL character was produced, consuming one byte.
    Nul,
    /// The input is a valid prefix; more bytes are needed.
    Incomplete,
    /// The input is not a valid sequence.
    Invalid,
}

/// How many bytes a sequence that begins with `b` has, or 0 if none does.
pub open spec fn sequence_length(b: u8) -> int {
    if b <= 0x7f {
        1
    } else if 0xc2 <= b <= 0xdf {
        2
    } else if 0xe0 <= b <= 0xef {
        3
    } else if 0xf0 <= b <= 0xf7 {
        4
    } else {
        0
    }
}

/// Is `b` a continuation byte?
pub open spec fn continues(b: u8) -> bool {
    0x80 <= b <= 0xbf
}

/// The number that the first `n` bytes of `buf` encode.
pub open spec fn scalar_value(buf: Seq<u8>, n: int) -> int {
    if n == 1 {
        buf[0] as int
    } else if n == 2 {
        (buf[0] - 0xc0) * 64 + (buf[1] - 0x80)
    } else if n == 3 {
        (buf[0] - 0xe0) * 4096 + (buf[1] - 0x80) * 64 + (buf[2] - 0x80)
    } else {
        (buf[0] - 0xf0) * 262144 + (buf[1] - 0x80) * 4096 + (buf[2] - 0x80) * 64 + (buf[3] - 0x80)
    }
}

/// The smallest number that takes `n` bytes; a smaller one is encoded in too many.
pub open spec fn least_value(n: int) -> int {
    if n == 3 {
        0x800
    } else if n == 4 {
        0x10000
    } else {
        0
    }
}

/// Is every byte of `buf` after the first, up to the `n`-th, a continuation byte?
pub open spec fn well_continued(buf: Seq<u8>, n: int) -> bool {
    forall|i: int| 1 <= i < n && i < buf.len() ==> continues(#[trigger] buf[i])
}

/// Is `v` a number that can be a character?
pub open spec fn is_scalar_value(v: int) -> bool {
    0 <= v <= 0x10ffff && !(0xd800 <= v <= 0xdfff)
}

/// What `buf` begins with.
pub open spec fn decoding(buf: Seq<u8>) -> Decoded {
    if buf.len() == 0 {
        Decoded::Incomplete
    } else {
        let n = sequence_length(buf[0]);
        if n == 0 || !well_continued(buf, n) {
            Decoded::Invalid
        } else if buf.len() < n {
            Decoded::Incomplete
        } else {
            let v = scalar_value(buf, n);
            if v < least_value(n) || !is_scalar_value(v) {
                Decoded::Invalid
            } else if v == 0 {
                Decoded::Nul
            } else {
                Decoded::Char(v as char, n as usize)
            }
        }
    }
}

/// Decodes the character that `buf` begins with.
pub fn decode(buf: &[u8]) -> (d: Decoded)
    ensures
        d == decoding(buf@),
        d matches Decoded::Char(c, n) ==> 1 <= n <= buf@.len() && n <= 4,
        d !is Incomplete ==> buf@.len() > 0,
{
    if buf.len() == 0 {
        return Decoded::Incomplete;
    }
    let b = buf[0];
    let n: usize = if b <= 0x7f {
        1
    } else if 0xc2 <= b && b <= 0xdf {
        2
    } else if 0xe0 <= b && b <= 0xef {
        3
    } else if 0xf0 <= b && b <= 0xf7 {
        4
    } else {
        return Decoded::Invalid;
    };
    let mut i: usize = 1;
    while i < n && i < buf.len()
        invariant
            1 <= i,
            buf.len() > 0,
            n == sequence_length(buf@[0]),
            forall|k: int| 1 <= k < i && k < buf@.len() ==> continues(#[trigger] buf@[k]),
        decreases n - i,
    {
        if buf[i] < 0x80 || buf[i] > 0xbf {
            assert(!continues(buf@[i as int]));
            return Decoded::Invalid;
        }
        i = i + 1;
    }
    assert(well_continued(buf@, n as int));
    if buf.len() < n {
        return Decoded::Incomplete;
    }
    let v: u32 = if n == 1 {
        b as u32
    } else if n == 2 {
        assert(continues(buf@[1]));
        (b as u32 - 0xc0) * 64 + (buf[1] as u32 - 0x80)
    } else if n == 3 {
        assert(continues(buf@[1]) && continues(buf@[2]));
        (b as u32 - 0xe0) * 4096 + (buf[1] as u32 - 0x80) * 64 + (buf[2] as u32 - 0x80)
    } else {
        assert(continues(buf@[1]) && continues(buf@[2]) && continues(buf@[3]));
        (b as u32 - 0xf0) * 262144 + (buf[1] as u32 - 0x80) * 4096 + (buf[2] as u32 - 0x80) * 64
            + (buf[3] as u32 - 0x80)
    };
    if (n == 3 && v < 0x800) || (n == 4 && v < 0x10000) {
        return Decoded::Invalid;
    }
    match char::from_u32(v) {
        Some(c) => {
            proof {
                vstd::utf8::char_u32_cast(c, v);
            }
            if v == 0 {
                Decoded::Nul
            } else {
                Decoded::Char(c, n)
            }
        },
        None => Decoded::Invalid,
    }
}

/// An incremental decoder: a sequence may be split across reads.
pub struct MbDecoder {
    pending: Vec<u8>,
}

impl View for MbDecoder {
    type V = Seq<u8>;

    closed spec fn view(&self) -> Seq<u8> {
        self.pending@
    }
}

impl Default for MbDecoder {
    fn default() -> (d: Self)
        ensures
            d@ == Seq::<u8>::empty(),
    {
        Self::new()
    }
}

/// The next step, when the `pending` bytes of the sequence came before: a character
/// consumes what it takes of the new bytes.
pub open spec fn next_step(pending: Seq<u8>, buf: Seq<u8>) -> Decoded {
    match decoding(pending + buf) {
        Decoded::Char(c, n) => Decoded::Char(c, (n - pending.len()) as usize),
        d => d,
    }
}

impl MbDecoder {
    /// Is what is pending the beginning of a sequence?
    pub open spec fn well_formed(&self) -> bool {
        decoding(self@) is Incomplete
    }

    pub fn new() -> (d: Self)
        ensures
            d@ == Seq::<u8>::empty(),
            d.well_formed(),
    {
        MbDecoder { pending: Vec::new() }
    }

    /// Forget what is pending.
    pub fn reset(&mut self)
        ensures
            final(self)@ == Seq::<u8>::empty(),
            final(self).well_formed(),
    {
        self.pending = Vec::new();
    }

    /// Decode the next character from `buf`.
    pub fn decode(&mut self, buf: &[u8]) -> (d: Decoded)
        requires
            old(self).well_formed(),
        ensures
            d == next_step(old(self)@, buf@),
            d matches Decoded::Char(c, n) ==> 1 <= n <= buf@.len() && n <= 4,
            d !is Incomplete ==> buf@.len() > 0,
            final(self)@ == if d is Incomplete {
                old(self)@ + buf@
            } else {
                Seq::empty()
            },
            final(self).well_formed(),
    {
        let ghost before = self@;
        let held: usize = self.pending.len();
        let mut all: Vec<u8> = Vec::new();
        all.append(&mut self.pending);
        all.extend_from_slice(buf);
        assert(all@ =~= before + buf@);
        let d = decode(all.as_slice());
        proof {
            assert(buf@.len() == 0 ==> before + buf@ =~= before);
            if before.len() > 0 {
                assert((before + buf@)[0] == before[0]);
            }
        }
        match d {
            Decoded::Incomplete => {
                self.pending = all;
                d
            },
            Decoded::Char(c, n) => {
                self.pending = Vec::new();
                Decoded::Char(c, n - held)
            },
            _ => {
                self.pending = Vec::new();
                d
            },
        }
    }
}

} // verus!
