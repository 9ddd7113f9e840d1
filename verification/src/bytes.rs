//! Fixed-width integers as byte sequences, in both byte orders.

use vstd::prelude::*;

verus! {

/// The `n` low bytes of `x`, least significant first.
pub open spec fn le_bytes(x: nat, n: nat) -> Seq<u8>
    decreases n,
{
    if n == 0 {
        Seq::empty()
    } else {
        seq![(x % 256) as u8] + le_bytes(x / 256, (n - 1) as nat)
    }
}

/// The number whose bytes are `s`, least significant first.
pub open spec fn le_value(s: Seq<u8>) -> nat
    decreases s.len(),
{
    if s.len() == 0 {
        0
    } else {
        s[0] as nat + 256 * le_value(s.drop_first())
    }
}

/// The `n` low bytes of `x`, most significant first.
pub open spec fn be_bytes(x: nat, n: nat) -> Seq<u8>
    decreases n,
{
    if n == 0 {
        Seq::empty()
    } else {
        be_bytes(x / 256, (n - 1) as nat).push((x % 256) as u8)
    }
}

/// The number whose bytes are `s`, most significant first.
pub open spec fn be_value(s: Seq<u8>) -> nat
    decreases s.len(),
{
    if s.len() == 0 {
        0
    } else {
        256 * be_value(s.drop_last()) + s.last() as nat
    }
}

/// 256 to the power `n`: how many values `n` bytes can hold.
pub open spec fn byte_range(n: nat) -> nat
    decreases n,
{
    if n == 0 {
        1
    } else {
        256 * byte_range((n - 1) as nat)
    }
}

/// The sizes used in this crate.
pub proof fn lemma_byte_range()
    ensures
        byte_range(0) == 1,
        byte_range(1) == 0x100,
        byte_range(2) == 0x1_0000,
        byte_range(3) == 0x100_0000,
        byte_range(4) == 0x1_0000_0000,
        byte_range(8) == 0x1_0000_0000_0000_0000,
{
    reveal_with_fuel(byte_range, 9);
}

/// Encoding has the requested length.
pub proof fn lemma_le_bytes_len(x: nat, n: nat)
    ensures
        le_bytes(x, n).len() == n,
    decreases n,
{
    if n > 0 {
        lemma_le_bytes_len(x / 256, (n - 1) as nat);
    }
}

/// Encoding has the requested length.
pub proof fn lemma_be_bytes_len(x: nat, n: nat)
    ensures
        be_bytes(x, n).len() == n,
    decreases n,
{
    if n > 0 {
        lemma_be_bytes_len(x / 256, (n - 1) as nat);
    }
}

/// A number that fits in `n` bytes comes back from its little-endian encoding.
pub proof fn law_le_round_trip(x: nat, n: nat)
    requires
        x < byte_range(n),
    ensures
        le_value(le_bytes(x, n)) == x,
    decreases n,
{
    if n > 0 {
        let rest = le_bytes(x / 256, (n - 1) as nat);
        law_le_round_trip(x / 256, (n - 1) as nat);
        assert(le_bytes(x, n).drop_first() == rest);
    }
}

/// A number that fits in `n` bytes comes back from its big-endian encoding.
pub proof fn law_be_round_trip(x: nat, n: nat)
    requires
        x < byte_range(n),
    ensures
        be_value(be_bytes(x, n)) == x,
    decreases n,
{
    if n > 0 {
        let head = be_bytes(x / 256, (n - 1) as nat);
        law_be_round_trip(x / 256, (n - 1) as nat);
        assert(be_bytes(x, n).drop_last() == head);
    }
}

/// What `n` bytes hold is below `byte_range(n)`.
pub proof fn lemma_le_value_bound(s: Seq<u8>)
    ensures
        le_value(s) < byte_range(s.len()),
    decreases s.len(),
{
    if s.len() > 0 {
        lemma_le_value_bound(s.drop_first());
    }
}

/// What `n` bytes hold is below `byte_range(n)`.
pub proof fn lemma_be_value_bound(s: Seq<u8>)
    ensures
        be_value(s) < byte_range(s.len()),
    decreases s.len(),
{
    if s.len() > 0 {
        lemma_be_value_bound(s.drop_last());
    }
}

/// Bytes come back from the number that they hold.
pub proof fn law_le_bytes_of_value(s: Seq<u8>)
    ensures
        le_bytes(le_value(s), s.len()) == s,
    decreases s.len(),
{
    if s.len() > 0 {
        law_le_bytes_of_value(s.drop_first());
        assert(le_value(s) % 256 == s[0] as nat && le_value(s) / 256 == le_value(s.drop_first()));
        assert(s == seq![s[0]] + s.drop_first());
    }
}

/// Appends the `n` low bytes of `x`, least significant first.
pub fn push_le(out: &mut Vec<u8>, x: u64, n: usize)
    ensures
        final(out)@ == old(out)@ + le_bytes(x as nat, n as nat),
{
    let mut rest: u64 = x;
    let mut i: usize = 0;
    while i < n
        invariant
            i <= n,
            out@ + le_bytes(rest as nat, (n - i) as nat) == old(out)@ + le_bytes(x as nat, n as nat),
        decreases n - i,
    {
        let ghost before = out@;
        out.push((rest % 256) as u8);
        assert(before + le_bytes(rest as nat, (n - i) as nat) == out@ + le_bytes(
            (rest / 256) as nat,
            (n - i - 1) as nat,
        ));
        rest = rest / 256;
        i = i + 1;
    }
    assert(out@ + le_bytes(rest as nat, 0) == out@);
}

/// Appends the `n` low bytes of `x`, most significant first.
pub fn push_be(out: &mut Vec<u8>, x: u64, n: usize)
    ensures
        final(out)@ == old(out)@ + be_bytes(x as nat, n as nat),
    decreases n,
{
    if n > 0 {
        push_be(out, x / 256, n - 1);
        out.push((x % 256) as u8);
    }
    assert(out@ == old(out)@ + be_bytes(x as nat, n as nat));
}

/// The little-endian number in `n` bytes of `buf`, starting at `off`.
pub fn read_le(buf: &[u8], off: usize, n: usize) -> (x: u64)
    requires
        n <= 8,
        off + n <= buf.len(),
    ensures
        x == le_value(buf@.subrange(off as int, off + n)),
    decreases n,
{
    proof {
        lemma_le_value_bound(buf@.subrange(off as int, off + n));
        reveal_with_fuel(byte_range, 9);
    }
    if n == 0 {
        0
    } else {
        proof {
            lemma_le_value_bound(buf@.subrange(off + 1, off + n));
            assert(buf@.subrange(off as int, off + n).drop_first() == buf@.subrange(
                off + 1,
                off + n,
            ));
        }
        let rest: u64 = read_le(buf, off + 1, n - 1);
        buf[off] as u64 + 256 * rest
    }
}

/// The big-endian number in `n` bytes of `buf`, starting at `off`.
pub fn read_be(buf: &[u8], off: usize, n: usize) -> (x: u64)
    requires
        n <= 8,
        off + n <= buf.len(),
    ensures
        x == be_value(buf@.subrange(off as int, off + n)),
    decreases n,
{
    proof {
        lemma_be_value_bound(buf@.subrange(off as int, off + n));
        reveal_with_fuel(byte_range, 9);
    }
    if n == 0 {
        0
    } else {
        proof {
            assert(buf@.subrange(off as int, off + n).drop_last() == buf@.subrange(
                off as int,
                off + n - 1,
            ));
        }
        let head: u64 = read_be(buf, off, n - 1);
        256 * head + buf[off + n - 1] as u64
    }
}

/// The two byte orders are each other's reverse, and in the first of them the low byte comes
/// first.
pub proof fn law_byte_orders(x: nat, n: nat)
    ensures
        le_bytes(x, n) == be_bytes(x, n).reverse(),
        n > 0 ==> le_bytes(x, n)[0] == x % 256,
        n > 0 ==> be_bytes(x, n).last() == x % 256,
    decreases n,
{
    if n > 0 {
        let m = (n - 1) as nat;
        law_byte_orders(x / 256, m);
        lemma_le_bytes_len(x / 256, m);
        lemma_be_bytes_len(x / 256, m);
        assert(le_bytes(x, n) == be_bytes(x, n).reverse());
    } else {
        assert(le_bytes(x, n) == be_bytes(x, n).reverse());
    }
}

} // verus!
