//! Base64 restricted to what a session needs: 16-byte keys as 22 printable characters and
//! two of padding.

use vstd::prelude::*;

verus! {

/// The six-bit value of a letter of the alphabet; nothing for any other character.
pub open spec fn sixbit_of(c: u8) -> Option<u8> {
    if 65 <= c <= 90 {
        Some((c - 65) as u8)
    } else if 97 <= c <= 122 {
        Some((c - 97 + 26) as u8)
    } else if 48 <= c <= 57 {
        Some((c - 48 + 52) as u8)
    } else if c == 43 {
        Some(62)
    } else if c == 47 {
        Some(63)
    } else {
        None
    }
}

/// The letter for a six-bit value.
pub open spec fn letter_of(v: nat) -> u8 {
    if v < 26 {
        (65 + v) as u8
    } else if v < 52 {
        (97 + v - 26) as u8
    } else if v < 62 {
        (48 + v - 52) as u8
    } else if v == 62 {
        43
    } else {
        47
    }
}

/// The value of the letter at `i`.
pub open spec fn value_at(b64: Seq<u8>, i: int) -> nat {
    match sixbit_of(b64[i]) {
        Some(v) => v as nat,
        None => 0,
    }
}

/// The number that the four letters from `4 * i` on spell.
pub open spec fn quad(b64: Seq<u8>, i: int) -> nat {
    value_at(b64, 4 * i) * 0x40000 + value_at(b64, 4 * i + 1) * 0x1000 + value_at(b64, 4 * i + 2)
        * 0x40 + value_at(b64, 4 * i + 3)
}

/// The byte at `k` of the key that the letters spell.
pub open spec fn decoded_byte(b64: Seq<u8>, k: int) -> u8 {
    if k == 15 {
        ((value_at(b64, 20) * 64 + value_at(b64, 21)) / 16) as u8
    } else if k % 3 == 0 {
        (quad(b64, k / 3) / 0x10000) as u8
    } else if k % 3 == 1 {
        (quad(b64, k / 3) / 0x100 % 0x100) as u8
    } else {
        (quad(b64, k / 3) % 0x100) as u8
    }
}

/// Do the letters spell a key: 22 letters of the alphabet and two of padding?
pub open spec fn spells_key(b64: Seq<u8>) -> bool {
    &&& b64.len() == 24
    &&& forall|i: int| 0 <= i < 22 ==> sixbit_of(#[trigger] b64[i]) is Some
    &&& b64[22] == 61
    &&& b64[23] == 61
}

/// The key that the letters spell.
pub open spec fn decoded(b64: Seq<u8>) -> Option<Seq<u8>> {
    if spells_key(b64) {
        Some(Seq::new(16, |k: int| decoded_byte(b64, k)))
    } else {
        None
    }
}

/// The number that the three bytes from `3 * i` on spell.
pub open spec fn triple(raw: Seq<u8>, i: int) -> nat {
    (raw[3 * i] * 0x10000 + raw[3 * i + 1] * 0x100 + raw[3 * i + 2]) as nat
}

/// The six-bit value that is written at `j`.
pub open spec fn sixbit_at(raw: Seq<u8>, j: int) -> nat {
    if j == 20 {
        raw[15] as nat / 4
    } else if j == 21 {
        raw[15] as nat % 4 * 16
    } else if j % 4 == 0 {
        triple(raw, j / 4) / 0x40000
    } else if j % 4 == 1 {
        triple(raw, j / 4) / 0x1000 % 64
    } else if j % 4 == 2 {
        triple(raw, j / 4) / 0x40 % 64
    } else {
        triple(raw, j / 4) % 64
    }
}

/// The letters that a key is written as.
pub open spec fn encoded(raw: Seq<u8>) -> Seq<u8> {
    Seq::new(
        24,
        |j: int|
            if j < 22 {
                letter_of(sixbit_at(raw, j))
            } else {
                61
            },
    )
}

/// Reverse map from ASCII to a six-bit value; `None` for anything not in the alphabet.
fn sixbit(c: u8) -> (r: Option<u8>)
    ensures
        r == sixbit_of(c),
        r matches Some(v) ==> v < 64,
{
    if 65 <= c && c <= 90 {
        Some(c - 65)
    } else if 97 <= c && c <= 122 {
        Some(c - 97 + 26)
    } else if 48 <= c && c <= 57 {
        Some(c - 48 + 52)
    } else if c == 43 {
        Some(62)
    } else if c == 47 {
        Some(63)
    } else {
        None
    }
}

/// The letter for a six-bit value.
fn letter(v: u32) -> (c: u8)
    requires
        v < 64,
    ensures
        c == letter_of(v as nat),
{
    let v: u8 = v as u8;
    if v < 26 {
        65 + v
    } else if v < 52 {
        97 + (v - 26)
    } else if v < 62 {
        48 + (v - 52)
    } else if v == 62 {
        43
    } else {
        47
    }
}

/// Decode 24 base64 characters ("22 payload + ==") into 16 bytes.
pub fn decode_key(b64: &[u8]) -> (r: Option<[u8; 16]>)
    ensures
        match r {
            Some(raw) => decoded(b64@) == Some(raw@),
            None => decoded(b64@) is None,
        },
{
    if b64.len() != 24 {
        return None;
    }
    let mut raw: [u8; 16] = [0; 16];
    let mut i: usize = 0;
    while i < 5
        invariant
            i <= 5,
            b64@.len() == 24,
            forall|j: int| 0 <= j < 4 * i ==> sixbit_of(#[trigger] b64@[j]) is Some,
            forall|k: int| 0 <= k < 3 * i ==> raw@[k] == #[trigger] decoded_byte(b64@, k),
        decreases 5 - i,
    {
        let (a, b, c, d) = match (
            sixbit(b64[4 * i]),
            sixbit(b64[4 * i + 1]),
            sixbit(b64[4 * i + 2]),
            sixbit(b64[4 * i + 3]),
        ) {
            (Some(a), Some(b), Some(c), Some(d)) => (a, b, c, d),
            _ => {
                return None;
            },
        };
        let bytes: u32 = a as u32 * 0x40000 + b as u32 * 0x1000 + c as u32 * 0x40 + d as u32;
        assert(bytes == quad(b64@, i as int));
        raw[3 * i] = (bytes / 0x10000) as u8;
        raw[3 * i + 1] = (bytes / 0x100 % 0x100) as u8;
        raw[3 * i + 2] = (bytes % 0x100) as u8;
        assert(raw@[3 * i] == decoded_byte(b64@, 3 * i));
        assert(raw@[3 * i + 1] == decoded_byte(b64@, 3 * i + 1));
        assert(raw@[3 * i + 2] == decoded_byte(b64@, 3 * i + 2));
        i = i + 1;
    }
    let (a, b) = match (sixbit(b64[20]), sixbit(b64[21])) {
        (Some(a), Some(b)) => (a, b),
        _ => {
            return None;
        },
    };
    raw[15] = ((a as u32 * 64 + b as u32) / 16) as u8;
    if b64[22] != 61 || b64[23] != 61 {
        return None;
    }
    assert(raw@ =~= Seq::new(16, |k: int| decoded_byte(b64@, k)));
    Some(raw)
}

/// Encode 16 bytes as 24 base64 characters, the last two of which are always `=`.
pub fn encode_key(raw: &[u8; 16]) -> (b64: [u8; 24])
    ensures
        b64@ == encoded(raw@),
{
    let mut b64: [u8; 24] = [61; 24];
    let mut i: usize = 0;
    while i < 5
        invariant
            i <= 5,
            b64@.len() == 24,
            b64@[22] == 61,
            b64@[23] == 61,
            forall|j: int| 0 <= j < 4 * i ==> b64@[j] == letter_of(#[trigger] sixbit_at(raw@, j)),
        decreases 5 - i,
    {
        let bytes: u32 = raw[3 * i] as u32 * 0x10000 + raw[3 * i + 1] as u32 * 0x100 + raw[3 * i
            + 2] as u32;
        assert(bytes == triple(raw@, i as int));
        b64[4 * i] = letter(bytes / 0x40000);
        b64[4 * i + 1] = letter(bytes / 0x1000 % 64);
        b64[4 * i + 2] = letter(bytes / 0x40 % 64);
        b64[4 * i + 3] = letter(bytes % 64);
        assert(b64@[4 * i] == letter_of(sixbit_at(raw@, 4 * i)));
        assert(b64@[4 * i + 1] == letter_of(sixbit_at(raw@, 4 * i + 1)));
        assert(b64@[4 * i + 2] == letter_of(sixbit_at(raw@, 4 * i + 2)));
        assert(b64@[4 * i + 3] == letter_of(sixbit_at(raw@, 4 * i + 3)));
        i = i + 1;
    }
    let last: u32 = raw[15] as u32;
    b64[20] = letter(last / 4);
    b64[21] = letter(last % 4 * 16);
    assert(b64@ =~= encoded(raw@));
    b64
}

proof fn lemma_letter_read(v: nat)
    requires
        v < 64,
    ensures
        sixbit_of(letter_of(v)) == Some(v as u8),
{
}

proof fn lemma_quad_of_triple(t: nat)
    requires
        t < 0x100_0000,
    ensures
        (t / 0x40000) * 0x40000 + (t / 0x1000 % 64) * 0x1000 + (t / 0x40 % 64) * 0x40 + t % 64
            == t,
        t / 0x40000 < 64,
{
    assert(t / 0x1000 / 64 == t / 0x40000);
    assert(t / 0x40 / 64 == t / 0x1000);
}

proof fn lemma_triple_parts(a: u8, b: u8, c: u8)
    ensures
        ({
            let t = (a * 0x10000 + b * 0x100 + c) as nat;
            &&& t < 0x100_0000
            &&& t / 0x10000 == a
            &&& t / 0x100 % 0x100 == b
            &&& t % 0x100 == c
        }),
{
}

proof fn lemma_letters_at(raw: Seq<u8>, i: int)
    requires
        0 <= i < 5,
    ensures
        encoded(raw)[4 * i] == letter_of(triple(raw, i) / 0x40000),
        encoded(raw)[4 * i + 1] == letter_of(triple(raw, i) / 0x1000 % 64),
        encoded(raw)[4 * i + 2] == letter_of(triple(raw, i) / 0x40 % 64),
        encoded(raw)[4 * i + 3] == letter_of(triple(raw, i) % 64),
{
    assert((4 * i) % 4 == 0 && (4 * i) / 4 == i);
    assert((4 * i + 1) % 4 == 1 && (4 * i + 1) / 4 == i);
    assert((4 * i + 2) % 4 == 2 && (4 * i + 2) / 4 == i);
    assert((4 * i + 3) % 4 == 3 && (4 * i + 3) / 4 == i);
}

proof fn lemma_group_read(raw: Seq<u8>, i: int)
    requires
        raw.len() == 16,
        0 <= i < 5,
    ensures
        quad(encoded(raw), i) == triple(raw, i),
        sixbit_of(encoded(raw)[4 * i]) is Some,
        sixbit_of(encoded(raw)[4 * i + 1]) is Some,
        sixbit_of(encoded(raw)[4 * i + 2]) is Some,
        sixbit_of(encoded(raw)[4 * i + 3]) is Some,
{
    let t = triple(raw, i);
    lemma_triple_parts(raw[3 * i], raw[3 * i + 1], raw[3 * i + 2]);
    lemma_letters_at(raw, i);
    let (a, b, c, d) = (t / 0x40000, t / 0x1000 % 64, t / 0x40 % 64, t % 64);
    assert(a * 0x40000 + b * 0x1000 + c * 0x40 + d == t && a < 64) by {
        lemma_quad_of_triple(t);
    }
    lemma_letter_read(a);
    lemma_letter_read(b);
    lemma_letter_read(c);
    lemma_letter_read(d);
}

proof fn lemma_last_read(raw: Seq<u8>)
    requires
        raw.len() == 16,
    ensures
        decoded_byte(encoded(raw), 15) == raw[15],
        sixbit_of(encoded(raw)[20]) is Some,
        sixbit_of(encoded(raw)[21]) is Some,
{
    let last = raw[15] as nat;
    lemma_letter_read(last / 4);
    lemma_letter_read(last % 4 * 16);
    assert(encoded(raw)[20] == letter_of(last / 4));
    assert(encoded(raw)[21] == letter_of(last % 4 * 16));
}

/// Reading a key that was written gives it back.
pub proof fn keys_round_trip(raw: Seq<u8>)
    requires
        raw.len() == 16,
    ensures
        decoded(encoded(raw)) == Some(raw),
{
    let b64 = encoded(raw);
    lemma_last_read(raw);
    assert forall|j: int| 0 <= j < 22 implies sixbit_of(#[trigger] b64[j]) is Some by {
        if j < 20 {
            lemma_group_read(raw, j / 4);
        }
    }
    let d = Seq::new(16, |k: int| decoded_byte(b64, k));
    assert forall|k: int| 0 <= k < 16 implies d[k] == #[trigger] raw[k] by {
        if k < 15 {
            let i = k / 3;
            lemma_group_read(raw, i);
            lemma_triple_parts(raw[3 * i], raw[3 * i + 1], raw[3 * i + 2]);
        }
    }
    assert(d =~= raw);
}

} // verus!
