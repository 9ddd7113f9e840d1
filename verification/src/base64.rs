//! Base64 text of a byte sequence, with padding.

use vstd::prelude::*;

verus! {

/// The character of a 6-bit value.
pub open spec fn symbol(v: int) -> char {
    if v < 26 {
        (65 + v) as u8 as char
    } else if v < 52 {
        (97 + v - 26) as u8 as char
    } else if v < 62 {
        (48 + v - 52) as u8 as char
    } else if v == 62 {
        '+'
    } else {
        '/'
    }
}

/// The 6-bit value of a character.
pub open spec fn symbol_value(c: char) -> int {
    if 'A' <= c <= 'Z' {
        c as int - 65
    } else if 'a' <= c <= 'z' {
        c as int - 97 + 26
    } else if '0' <= c <= '9' {
        c as int - 48 + 52
    } else if c == '+' {
        62
    } else {
        63
    }
}

/// Byte `i` of a sequence, 0 behind its end.
pub open spec fn byte_or_zero(s: Seq<u8>, i: int) -> int {
    if i < s.len() {
        s[i] as int
    } else {
        0
    }
}

/// The first three bytes as one 24-bit number.
pub open spec fn group_value(s: Seq<u8>) -> int {
    byte_or_zero(s, 0) * 65536 + byte_or_zero(s, 1) * 256 + byte_or_zero(s, 2)
}

/// The four characters of the first one to three bytes.
pub open spec fn group(s: Seq<u8>) -> Seq<char> {
    let n = group_value(s);
    seq![
        symbol(n / 262144),
        symbol((n / 4096) % 64),
        if s.len() > 1 {
            symbol((n / 64) % 64)
        } else {
            '='
        },
        if s.len() > 2 {
            symbol(n % 64)
        } else {
            '='
        },
    ]
}

/// The base64 text of a byte sequence.
pub open spec fn encoded(s: Seq<u8>) -> Seq<char>
    decreases s.len(),
{
    if s.len() == 0 {
        Seq::empty()
    } else if s.len() <= 3 {
        group(s)
    } else {
        group(s.take(3)) + encoded(s.skip(3))
    }
}

/// Base64 text is one line.
pub proof fn law_base64_has_no_newline(s: Seq<u8>)
    ensures
        !encoded(s).contains('\n'),
    decreases s.len(),
{
    if s.len() > 3 {
        law_base64_has_no_newline(s.skip(3));
        let head = group(s.take(3));
        let tail = encoded(s.skip(3));
        assert forall|i: int| 0 <= i < encoded(s).len() implies encoded(s)[i] != '\n' by {
            if i >= head.len() {
                assert(tail[i - head.len()] == encoded(s)[i]);
            }
        }
    }
}

/// The bytes of four characters.
pub open spec fn ungroup(t: Seq<char>) -> Seq<u8> {
    let n = symbol_value(t[0]) * 262144 + symbol_value(t[1]) * 4096 + (if t[2] == '=' {
        0
    } else {
        symbol_value(t[2]) * 64
    }) + (if t[3] == '=' {
        0
    } else {
        symbol_value(t[3])
    });
    let all = seq![(n / 65536) as u8, ((n / 256) % 256) as u8, (n % 256) as u8];
    if t[2] == '=' {
        all.take(1)
    } else if t[3] == '=' {
        all.take(2)
    } else {
        all
    }
}

/// The bytes that a base64 text stands for.
pub open spec fn decoded(t: Seq<char>) -> Seq<u8>
    decreases t.len(),
{
    if t.len() < 4 {
        Seq::empty()
    } else {
        ungroup(t.take(4)) + decoded(t.skip(4))
    }
}

proof fn lemma_symbol(v: int)
    requires
        0 <= v < 64,
    ensures
        symbol_value(symbol(v)) == v,
        symbol(v) != '=',
{
}

proof fn lemma_sixes(n: int)
    requires
        0 <= n < 16777216,
    ensures
        0 <= n / 262144 < 64,
        n == (n / 262144) * 262144 + ((n / 4096) % 64) * 4096 + ((n / 64) % 64) * 64 + n % 64,
{
    let q1 = n / 64;
    let q2 = q1 / 64;
    let q3 = q2 / 64;
    assert(q2 == n / 4096);
    assert(q3 == n / 262144);
    assert(n == 64 * q1 + n % 64);
    assert(q1 == 64 * q2 + q1 % 64);
    assert(q2 == 64 * q3 + q2 % 64);
}

proof fn lemma_eights(b0: int, b1: int, b2: int)
    requires
        0 <= b0 < 256,
        0 <= b1 < 256,
        0 <= b2 < 256,
    ensures
        ({
            let n = b0 * 65536 + b1 * 256 + b2;
            &&& 0 <= n < 16777216
            &&& n / 65536 == b0
            &&& (n / 256) % 256 == b1
            &&& n % 256 == b2
        }),
{
    let n = b0 * 65536 + b1 * 256 + b2;
    assert(n / 256 == b0 * 256 + b1);
}

proof fn lemma_tail(b0: int, b1: int)
    requires
        0 <= b0 < 256,
        0 <= b1 < 256,
    ensures
        (b0 * 65536 + b1 * 256) % 64 == 0,
        ((b0 * 65536) / 64) % 64 == 0,
        (b0 * 65536) % 64 == 0,
{
    assert(b0 * 65536 == 64 * (b0 * 1024));
    assert((b0 * 65536) / 64 == b0 * 1024);
}

proof fn lemma_group(s: Seq<u8>)
    requires
        1 <= s.len() <= 3,
    ensures
        ungroup(group(s)) == s,
        group(s).len() == 4,
{
    let n = group_value(s);
    let t = group(s);
    lemma_eights(byte_or_zero(s, 0), byte_or_zero(s, 1), byte_or_zero(s, 2));
    lemma_tail(byte_or_zero(s, 0), byte_or_zero(s, 1));
    lemma_sixes(n);
    lemma_symbol(n / 262144);
    lemma_symbol((n / 4096) % 64);
    lemma_symbol((n / 64) % 64);
    lemma_symbol(n % 64);
    let m = symbol_value(t[0]) * 262144 + symbol_value(t[1]) * 4096 + (if t[2] == '=' {
        0
    } else {
        symbol_value(t[2]) * 64
    }) + (if t[3] == '=' {
        0
    } else {
        symbol_value(t[3])
    });
    assert(m == n);
    assert(ungroup(t)[0] == s[0]);
    assert(ungroup(t).len() == s.len());
    assert(ungroup(t) == s);
}

/// Decoding gives back what was encoded.
pub proof fn law_base64_round_trip(s: Seq<u8>)
    ensures
        decoded(encoded(s)) == s,
        encoded(s).len() == 4 * ((s.len() + 2) / 3),
    decreases s.len(),
{
    if s.len() == 0 {
    } else if s.len() <= 3 {
        lemma_group(s);
        let t = encoded(s);
        assert(t.take(4) == t);
        assert(decoded(t.skip(4)) == Seq::<u8>::empty());
        assert(decoded(t) == s);
    } else {
        law_base64_round_trip(s.skip(3));
        lemma_group(s.take(3));
        let t = encoded(s);
        assert(t.take(4) == group(s.take(3)));
        assert(t.skip(4) == encoded(s.skip(3)));
        assert(decoded(t) == s.take(3) + s.skip(3));
        assert(s.take(3) + s.skip(3) == s);
    }
}

/// Different byte sequences have different texts.
pub proof fn law_base64_injective(a: Seq<u8>, b: Seq<u8>)
    requires
        encoded(a) == encoded(b),
    ensures
        a == b,
{
    law_base64_round_trip(a);
    law_base64_round_trip(b);
}

fn symbol_of(v: u32) -> (c: char)
    requires
        v < 64,
    ensures
        c == symbol(v as int),
{
    if v < 26 {
        (65 + v) as u8 as char
    } else if v < 52 {
        (97 + (v - 26)) as u8 as char
    } else if v < 62 {
        (48 + (v - 52)) as u8 as char
    } else if v == 62 {
        '+'
    } else {
        '/'
    }
}

/// Encodes bytes as base64 text.
pub fn base64_encode(input: &[u8]) -> (out: String)
    ensures
        out@ == encoded(input@),
{
    let mut out = String::new();
    let n: usize = input.len();
    let mut i: usize = 0;
    assert(input@.skip(0) == input@);
    while i < n
        invariant
            n == input.len(),
            i <= n,
            out@ + encoded(input@.skip(i as int)) == encoded(input@),
        decreases n - i,
    {
        let left: usize = n - i;
        let b0: u32 = input[i] as u32;
        let b1: u32 = if left > 1 {
            input[i + 1] as u32
        } else {
            0
        };
        let b2: u32 = if left > 2 {
            input[i + 2] as u32
        } else {
            0
        };
        let v: u32 = b0 * 65536 + b1 * 256 + b2;
        let ghost rest = input@.skip(i as int);
        let ghost before = out@;
        let ghost chunk = if left <= 3 {
            rest
        } else {
            rest.take(3)
        };
        assert(group_value(chunk) == v);
        out.push(symbol_of(v / 262144));
        out.push(symbol_of((v / 4096) % 64));
        out.push(if left > 1 {
            symbol_of((v / 64) % 64)
        } else {
            '='
        });
        out.push(if left > 2 {
            symbol_of(v % 64)
        } else {
            '='
        });
        assert(out@ == before + group(chunk));
        if left <= 3 {
            i = n;
            assert(input@.skip(n as int) == Seq::<u8>::empty());
            assert(out@ + encoded(input@.skip(i as int)) == before + encoded(rest));
        } else {
            i = i + 3;
            assert(rest.skip(3) == input@.skip(i as int));
            assert(out@ + encoded(input@.skip(i as int)) == before + encoded(rest));
        }
    }
    assert(input@.skip(n as int) == Seq::<u8>::empty());
    assert(out@ == encoded(input@));
    out
}

/// The symbols are the capital letters, the small letters, the digits, plus and slash, in
/// this order; each byte sequence has four of them for every three bytes, the last four
/// filled up with equals signs.
pub proof fn law_base64_symbols(v: int, s: Seq<u8>)
    ensures
        0 <= v < 26 ==> symbol(v) as int == 'A' as int + v,
        26 <= v < 52 ==> symbol(v) as int == 'a' as int + v - 26,
        52 <= v < 62 ==> symbol(v) as int == '0' as int + v - 52,
        symbol(62) == '+',
        symbol(63) == '/',
        encoded(s).len() == 4 * ((s.len() + 2) / 3),
        s.len() % 3 == 1 ==> encoded(s).last() == '=' && encoded(s)[encoded(s).len() - 2] == '=',
        s.len() % 3 == 2 ==> encoded(s).last() == '=',
    decreases s.len(),
{
    if s.len() > 3 {
        law_base64_symbols(v, s.skip(3));
    }
}

} // verus!
