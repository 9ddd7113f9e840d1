//! The SHA-1 hash, as the Secure Hash Standard defines it.

use vstd::prelude::*;
use vstd::slice::slice_to_vec;
use crate::bytes::{push_be, read_be};

verus! {

/// The working variables of the hash, or a chaining value.
#[derive(Clone, Copy)]
pub struct State {
    /// First word.
    pub a: u32,
    /// Second word.
    pub b: u32,
    /// Third word.
    pub c: u32,
    /// Fourth word.
    pub d: u32,
    /// Fifth word.
    pub e: u32,
}

/// Sum of two words modulo 2^32.
pub open spec fn plus(x: u32, y: u32) -> u32 {
    ((x + y) % 0x1_0000_0000) as u32
}

/// A word rotated left by `n` bits.
pub open spec fn rotl(x: u32, n: u32) -> u32 {
    (x << n) | (x >> ((32 - n) as u32))
}

/// The initial chaining value.
pub open spec fn initial() -> State {
    State { a: 0x6745_2301, b: 0xEFCD_AB89, c: 0x98BA_DCFE, d: 0x1032_5476, e: 0xC3D2_E1F0 }
}

/// The number of zero bytes in the padding of a message of `n` bytes.
pub open spec fn zeros(n: int) -> int {
    (119 - n % 64) % 64
}

/// The message with its padding: a one bit, zeros, and the length in bits.
pub open spec fn padded(data: Seq<u8>) -> Seq<u8> {
    data + seq![0x80u8] + Seq::new(zeros(data.len() as int) as nat, |i: int| 0u8)
        + crate::bytes::be_bytes(((data.len() * 8) % 0x1_0000_0000_0000_0000) as nat, 8)
}

/// Word `t` of the schedule of a block.
pub open spec fn schedule(block: Seq<u8>, t: int) -> u32
    decreases t,
{
    if t < 16 {
        crate::bytes::be_value(block.subrange(4 * t, 4 * t + 4)) as u32
    } else {
        rotl(
            schedule(block, t - 3) ^ schedule(block, t - 8) ^ schedule(block, t - 14) ^ schedule(
                block,
                t - 16,
            ),
            1,
        )
    }
}

/// The function of round `t`.
pub open spec fn mix(t: int, b: u32, c: u32, d: u32) -> u32 {
    if t < 20 {
        (b & c) | ((!b) & d)
    } else if t < 40 {
        b ^ c ^ d
    } else if t < 60 {
        (b & c) | (b & d) | (c & d)
    } else {
        b ^ c ^ d
    }
}

/// The constant of round `t`.
pub open spec fn constant(t: int) -> u32 {
    if t < 20 {
        0x5A82_7999
    } else if t < 40 {
        0x6ED9_EBA1
    } else if t < 60 {
        0x8F1B_BCDC
    } else {
        0xCA62_C1D6
    }
}

/// The working variables after `t` rounds on a block.
pub open spec fn rounds(block: Seq<u8>, s: State, t: int) -> State
    decreases t,
{
    if t <= 0 {
        s
    } else {
        let p = rounds(block, s, t - 1);
        State {
            a: plus(
                plus(
                    plus(plus(rotl(p.a, 5), mix(t - 1, p.b, p.c, p.d)), p.e),
                    constant(t - 1),
                ),
                schedule(block, t - 1),
            ),
            b: p.a,
            c: rotl(p.b, 30),
            d: p.c,
            e: p.d,
        }
    }
}

/// The chaining value after one more block.
pub open spec fn compress(s: State, block: Seq<u8>) -> State {
    let r = rounds(block, s, 80);
    State {
        a: plus(s.a, r.a),
        b: plus(s.b, r.b),
        c: plus(s.c, r.c),
        d: plus(s.d, r.d),
        e: plus(s.e, r.e),
    }
}

/// The chaining value after the first `n` blocks of a padded message.
pub open spec fn chained(msg: Seq<u8>, n: int) -> State
    decreases n,
{
    if n <= 0 {
        initial()
    } else {
        compress(chained(msg, n - 1), msg.subrange(64 * (n - 1), 64 * n))
    }
}

/// The bytes of a chaining value.
pub open spec fn state_bytes(s: State) -> Seq<u8> {
    crate::bytes::be_bytes(s.a as nat, 4) + crate::bytes::be_bytes(s.b as nat, 4)
        + crate::bytes::be_bytes(s.c as nat, 4) + crate::bytes::be_bytes(s.d as nat, 4)
        + crate::bytes::be_bytes(s.e as nat, 4)
}

/// The hash of a message.
pub open spec fn digest(data: Seq<u8>) -> Seq<u8> {
    let msg = padded(data);
    state_bytes(chained(msg, msg.len() as int / 64))
}

fn add_words(x: u32, y: u32) -> (r: u32)
    ensures
        r == plus(x, y),
{
    ((x as u64 + y as u64) % 0x1_0000_0000) as u32
}

fn rotate(x: u32, n: u32) -> (r: u32)
    requires
        0 < n < 32,
    ensures
        r == rotl(x, n),
{
    (x << n) | (x >> (32 - n))
}

fn round(t: usize, p: State, word: u32) -> (s: State)
    requires
        t < 80,
    ensures
        s == (State {
            a: plus(
                plus(
                    plus(plus(rotl(p.a, 5), mix(t as int, p.b, p.c, p.d)), p.e),
                    constant(t as int),
                ),
                word,
            ),
            b: p.a,
            c: rotl(p.b, 30),
            d: p.c,
            e: p.d,
        }),
{
    let (f, k): (u32, u32) = if t < 20 {
        ((p.b & p.c) | ((!p.b) & p.d), 0x5A82_7999)
    } else if t < 40 {
        (p.b ^ p.c ^ p.d, 0x6ED9_EBA1)
    } else if t < 60 {
        ((p.b & p.c) | (p.b & p.d) | (p.c & p.d), 0x8F1B_BCDC)
    } else {
        (p.b ^ p.c ^ p.d, 0xCA62_C1D6)
    };
    let a: u32 = add_words(add_words(add_words(add_words(rotate(p.a, 5), f), p.e), k), word);
    State { a, b: p.a, c: rotate(p.b, 30), d: p.c, e: p.d }
}

/// The schedule of the block of `msg` that starts at `off`.
fn expand(msg: &Vec<u8>, off: usize) -> (w: Vec<u32>)
    requires
        off + 64 <= msg.len(),
    ensures
        w@.len() == 80,
        forall|t: int|
            0 <= t < 80 ==> w@[t] == schedule(msg@.subrange(off as int, off + 64), t),
{
    let ghost block = msg@.subrange(off as int, off + 64);
    let mut w: Vec<u32> = Vec::new();
    let mut t: usize = 0;
    while t < 16
        invariant
            t <= 16,
            off + 64 <= msg.len(),
            block == msg@.subrange(off as int, off + 64),
            w@.len() == t,
            forall|k: int| 0 <= k < t ==> w@[k] == schedule(block, k),
        decreases 16 - t,
    {
        proof {
            assert(msg@.subrange(off + 4 * t, off + 4 * t + 4) == block.subrange(
                4 * t as int,
                4 * t + 4,
            ));
            crate::bytes::lemma_be_value_bound(block.subrange(4 * t as int, 4 * t + 4));
            crate::bytes::lemma_byte_range();
        }
        w.push(read_be(msg.as_slice(), off + 4 * t, 4) as u32);
        t = t + 1;
    }
    while t < 80
        invariant
            16 <= t <= 80,
            w@.len() == t,
            forall|k: int| 0 <= k < t ==> w@[k] == schedule(block, k),
        decreases 80 - t,
    {
        let x: u32 = w[t - 3] ^ w[t - 8] ^ w[t - 14] ^ w[t - 16];
        assert(w@[t - 3] == schedule(block, t - 3));
        assert(w@[t - 8] == schedule(block, t - 8));
        assert(w@[t - 14] == schedule(block, t - 14));
        assert(w@[t - 16] == schedule(block, t - 16));
        w.push(rotate(x, 1));
        t = t + 1;
    }
    w
}

fn compress_block(s: State, msg: &Vec<u8>, off: usize) -> (r: State)
    requires
        off + 64 <= msg.len(),
    ensures
        r == compress(s, msg@.subrange(off as int, off + 64)),
{
    let ghost block = msg@.subrange(off as int, off + 64);
    let w = expand(msg, off);
    let mut v = s;
    let mut t: usize = 0;
    while t < 80
        invariant
            t <= 80,
            w@.len() == 80,
            forall|k: int| 0 <= k < 80 ==> w@[k] == schedule(block, k),
            v == rounds(block, s, t as int),
        decreases 80 - t,
    {
        v = round(t, v, w[t]);
        t = t + 1;
    }
    State {
        a: add_words(s.a, v.a),
        b: add_words(s.b, v.b),
        c: add_words(s.c, v.c),
        d: add_words(s.d, v.d),
        e: add_words(s.e, v.e),
    }
}

/// The SHA-1 hash of a message.
pub fn sha1(data: &[u8]) -> (out: [u8; 20])
    ensures
        out@ == digest(data@),
{
    let bits: u64 = (data.len() as u64).wrapping_mul(8);
    let mut msg: Vec<u8> = slice_to_vec(data);
    msg.push(0x80);
    let ghost body = data@ + seq![0x80u8];
    let ghost mut k: nat = 0;
    while msg.len() % 64 != 56
        invariant
            body == data@ + seq![0x80u8],
            msg@ == body + Seq::new(k, |i: int| 0u8),
            k <= zeros(data@.len() as int),
        decreases zeros(data@.len() as int) - k,
    {
        assert(k < zeros(data@.len() as int)) by {
            if k == zeros(data@.len() as int) {
                assert((data@.len() + 1 + k) % 64 == 56);
            }
        }
        msg.push(0);
        proof {
            assert(msg@ == body + Seq::new(k + 1, |i: int| 0u8));
            k = k + 1;
        }
    }
    assert(k == zeros(data@.len() as int)) by {
        assert((data@.len() + 1 + k) % 64 == 56);
        assert(k < 64);
    }
    push_be(&mut msg, bits, 8);
    proof {
        crate::bytes::lemma_be_bytes_len(bits as nat, 8);
        assert(msg@ == padded(data@));
    }
    let blocks: usize = msg.len() / 64;
    let mut s = State {
        a: 0x6745_2301,
        b: 0xEFCD_AB89,
        c: 0x98BA_DCFE,
        d: 0x1032_5476,
        e: 0xC3D2_E1F0,
    };
    let mut n: usize = 0;
    while n < blocks
        invariant
            blocks == msg.len() / 64,
            n <= blocks,
            s == chained(msg@, n as int),
        decreases blocks - n,
    {
        s = compress_block(s, &msg, 64 * n);
        n = n + 1;
    }
    let mut bytes: Vec<u8> = Vec::new();
    push_be(&mut bytes, s.a as u64, 4);
    push_be(&mut bytes, s.b as u64, 4);
    push_be(&mut bytes, s.c as u64, 4);
    push_be(&mut bytes, s.d as u64, 4);
    push_be(&mut bytes, s.e as u64, 4);
    proof {
        crate::bytes::lemma_be_bytes_len(s.a as nat, 4);
        crate::bytes::lemma_be_bytes_len(s.b as nat, 4);
        crate::bytes::lemma_be_bytes_len(s.c as nat, 4);
        crate::bytes::lemma_be_bytes_len(s.d as nat, 4);
        crate::bytes::lemma_be_bytes_len(s.e as nat, 4);
        assert(bytes@ == state_bytes(s));
    }
    let mut out: [u8; 20] = [0u8; 20];
    let mut i: usize = 0;
    while i < 20
        invariant
            i <= 20,
            bytes@.len() == 20,
            forall|k: int| 0 <= k < i ==> out@[k] == bytes@[k],
        decreases 20 - i,
    {
        out[i] = bytes[i];
        i = i + 1;
    }
    assert(out@ == digest(data@));
    out
}

/// A padded message is whole blocks of 64 bytes: the message, a one bit, no more zeros than
/// needed, and the length in bits.
pub proof fn law_padding_fills_blocks(data: Seq<u8>)
    requires
        data.len() * 8 <= u64::MAX,
    ensures
        padded(data).len() % 64 == 0,
        data.len() + 9 <= padded(data).len() < data.len() + 9 + 64,
        padded(data).take(data.len() as int) == data,
        padded(data)[data.len() as int] == 0x80,
        forall|i: int|
            data.len() < i < padded(data).len() - 8 ==> #[trigger] padded(data)[i] == 0,
        crate::bytes::be_value(padded(data).skip(padded(data).len() - 8)) == data.len() * 8,
{
    let bits = (data.len() * 8) as nat;
    crate::bytes::lemma_be_bytes_len(bits, 8);
    crate::bytes::lemma_byte_range();
    crate::bytes::law_be_round_trip(bits, 8);
    assert(padded(data).take(data.len() as int) == data);
    assert(padded(data).skip(padded(data).len() - 8) == crate::bytes::be_bytes(bits, 8));
}

/// Every block counts: one more block behind a message of whole blocks is compressed into
/// what the blocks before it gave.
pub proof fn law_every_block_counts(msg: Seq<u8>, block: Seq<u8>)
    requires
        msg.len() % 64 == 0,
        block.len() == 64,
    ensures
        chained(msg + block, (msg + block).len() as int / 64) == compress(
            chained(msg, msg.len() as int / 64),
            block,
        ),
{
    let n = msg.len() as int / 64;
    lemma_chained_prefix(msg, block, n);
    assert((msg + block).subrange(64 * n, 64 * (n + 1)) == block);
}

proof fn lemma_chained_prefix(msg: Seq<u8>, rest: Seq<u8>, n: int)
    requires
        0 <= n,
        64 * n <= msg.len(),
    ensures
        chained(msg + rest, n) == chained(msg, n),
    decreases n,
{
    if n > 0 {
        lemma_chained_prefix(msg, rest, n - 1);
        assert((msg + rest).subrange(64 * (n - 1), 64 * n) == msg.subrange(64 * (n - 1), 64 * n));
    }
}

} // verus!
