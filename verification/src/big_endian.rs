//! Numbers as bytes, most significant first.

use vstd::prelude::*;

verus! {

/// 256 to the power of `n`.
pub open spec fn pow256(n: nat) -> nat
    decreases n,
{
    if n == 0 {
        1
    } else {
        256 * pow256((n - 1) as nat)
    }
}

/// The last `n` bytes of a number.
pub open spec fn be_bytes(v: nat, n: nat) -> Seq<u8>
    decreases n,
{
    if n == 0 {
        Seq::empty()
    } else {
        be_bytes(v / 256, (n - 1) as nat).push((v % 256) as u8)
    }
}

/// The number that bytes spell.
pub open spec fn be_value(s: Seq<u8>) -> nat
    decreases s.len(),
{
    if s.len() == 0 {
        0
    } else {
        be_value(s.drop_last()) * 256 + s.last() as nat
    }
}

/// There are as many bytes as were asked for.
pub proof fn lemma_be_bytes_len(v: nat, n: nat)
    ensures
        be_bytes(v, n).len() == n,
    decreases n,
{
    if n > 0 {
        lemma_be_bytes_len(v / 256, (n - 1) as nat);
    }
}

/// A number that fits in `n` bytes is read back from them.
pub proof fn lemma_be_number_round_trip(v: nat, n: nat)
    requires
        v < pow256(n),
    ensures
        be_value(be_bytes(v, n)) == v,
        be_bytes(v, n).len() == n,
    decreases n,
{
    lemma_be_bytes_len(v, n);
    if n > 0 {
        let s = be_bytes(v, n);
        lemma_be_number_round_trip(v / 256, (n - 1) as nat);
        assert(s.drop_last() =~= be_bytes(v / 256, (n - 1) as nat));
    }
}

/// Bytes are what their number is written as.
pub proof fn lemma_be_bytes_round_trip(s: Seq<u8>)
    ensures
        be_bytes(be_value(s), s.len()) == s,
        be_value(s) < pow256(s.len()),
    decreases s.len(),
{
    if s.len() > 0 {
        lemma_be_bytes_round_trip(s.drop_last());
        assert(be_value(s) / 256 == be_value(s.drop_last()));
        assert(be_bytes(be_value(s), s.len()) =~= s.drop_last().push(s.last()));
        assert(s.drop_last().push(s.last()) =~= s);
    } else {
        assert(be_bytes(be_value(s), 0) =~= s);
    }
}

/// The sizes that are used.
pub proof fn lemma_pow256()
    ensures
        pow256(2) == 0x1_0000,
        pow256(8) == 0x1_0000_0000_0000_0000,
{
    reveal_with_fuel(pow256, 9);
}

proof fn lemma_pow256_grows(m: nat, n: nat)
    requires
        m <= n,
    ensures
        pow256(m) <= pow256(n),
    decreases n,
{
    if m < n {
        lemma_pow256_grows(m, (n - 1) as nat);
    }
}

/// The last `n` bytes of a number.
pub fn to_be(v: u64, n: usize) -> (out: Vec<u8>)
    ensures
        out@ == be_bytes(v as nat, n as nat),
        out@.len() == n,
    decreases n,
{
    if n == 0 {
        let out: Vec<u8> = Vec::new();
        assert(out@ =~= be_bytes(v as nat, 0));
        return out;
    }
    let mut out = to_be(v / 256, n - 1);
    out.push((v % 256) as u8);
    out
}

/// The number that up to eight bytes spell.
pub fn from_be(s: &[u8]) -> (v: u64)
    requires
        s@.len() <= 8,
    ensures
        v == be_value(s@),
{
    let mut v: u64 = 0;
    let mut i: usize = 0;
    assert(s@.subrange(0, 0) =~= Seq::<u8>::empty());
    while i < s.len()
        invariant
            i <= s@.len() <= 8,
            v == be_value(s@.subrange(0, i as int)),
        decreases s@.len() - i,
    {
        proof {
            let next = s@.subrange(0, i + 1);
            assert(next.drop_last() =~= s@.subrange(0, i as int));
            lemma_be_bytes_round_trip(next);
            lemma_pow256_grows((i + 1) as nat, 8);
            lemma_pow256();
        }
        v = v * 256 + s[i] as u64;
        i = i + 1;
    }
    assert(s@.subrange(0, i as int) =~= s@);
    v
}

} // verus!
