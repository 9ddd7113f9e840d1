//! WebSocket frames: building masked client frames and parsing whatever arrives.

use vstd::prelude::*;
use crate::bytes::{push_be, read_be};

verus! {

/// Byte `i` of the payload, masked or unmasked: the mask repeats every four bytes.
pub open spec fn masked_byte(payload: Seq<u8>, mask: Seq<u8>, i: int) -> u8 {
    payload[i] ^ mask[i % 4]
}

/// The payload with the mask applied.
pub open spec fn masked(payload: Seq<u8>, mask: Seq<u8>) -> Seq<u8> {
    Seq::new(payload.len(), |i: int| masked_byte(payload, mask, i))
}

/// The length field of a masked frame: one byte, or a marker and two or eight bytes.
pub open spec fn length_field(n: nat) -> Seq<u8> {
    if n < 126 {
        seq![(128 + n) as u8]
    } else if n <= 0xFFFF {
        seq![254u8] + crate::bytes::be_bytes(n, 2)
    } else {
        seq![255u8] + crate::bytes::be_bytes(n, 8)
    }
}

/// The bytes of a final, masked frame.
pub open spec fn frame_bytes(opcode: u8, payload: Seq<u8>, mask: Seq<u8>) -> Seq<u8> {
    seq![opcode | 0x80u8] + length_field(payload.len()) + mask + masked(payload, mask)
}

/// Bytes that the extended length of a frame takes, by its second byte.
pub open spec fn extended(second: u8) -> int {
    if second % 128 < 126 {
        0
    } else if second % 128 == 126 {
        2
    } else {
        8
    }
}

/// Length of the payload of a frame whose header is complete.
pub open spec fn payload_length(buf: Seq<u8>) -> nat {
    if extended(buf[1]) == 0 {
        (buf[1] % 128) as nat
    } else {
        crate::bytes::be_value(buf.subrange(2, 2 + extended(buf[1])))
    }
}

/// Where the payload starts.
pub open spec fn payload_offset(buf: Seq<u8>) -> int {
    2 + extended(buf[1]) + if buf[1] >= 128 {
        4int
    } else {
        0int
    }
}

/// Bytes that the frame at the front of the buffer takes.
pub open spec fn frame_size(buf: Seq<u8>) -> int {
    payload_offset(buf) + payload_length(buf)
}

/// The buffer starts with a complete frame.
pub open spec fn complete(buf: Seq<u8>) -> bool {
    &&& buf.len() >= 2
    &&& buf.len() >= 2 + extended(buf[1])
    &&& buf.len() >= frame_size(buf)
}

/// The payload of the frame at the front of the buffer.
pub open spec fn payload_of(buf: Seq<u8>) -> Seq<u8> {
    let off = payload_offset(buf);
    let raw = buf.subrange(off, off + payload_length(buf));
    if buf[1] >= 128 {
        masked(raw, buf.subrange(off - 4, off))
    } else {
        raw
    }
}

/// Opcode, payload and size of the frame at the front of the buffer, if it is complete.
pub open spec fn parsed(buf: Seq<u8>) -> Option<(u8, Seq<u8>, int)> {
    if complete(buf) {
        Some(((buf[0] % 16) as u8, payload_of(buf), frame_size(buf)))
    } else {
        None
    }
}

fn apply_mask(out: &mut Vec<u8>, payload: &[u8], from: usize, n: usize, mask: [u8; 4])
    requires
        from + n <= payload.len(),
    ensures
        final(out)@ == old(out)@ + masked(payload@.subrange(from as int, from + n), mask@),
{
    let ghost raw = payload@.subrange(from as int, from + n);
    let mut i: usize = 0;
    while i < n
        invariant
            i <= n,
            from + n <= payload.len(),
            raw == payload@.subrange(from as int, from + n),
            out@ == old(out)@ + masked(raw, mask@).take(i as int),
        decreases n - i,
    {
        let b: u8 = payload[from + i] ^ mask[i % 4];
        out.push(b);
        assert(b == masked(raw, mask@)[i as int]);
        i = i + 1;
        assert(out@ == old(out)@ + masked(raw, mask@).take(i as int));
    }
    assert(masked(raw, mask@).take(n as int) == masked(raw, mask@));
}

/// Builds a frame of the client: final, with a masked payload.
pub fn build_frame(opcode: u8, payload: &[u8], mask: [u8; 4]) -> (frame: Vec<u8>)
    ensures
        frame@ == frame_bytes(opcode, payload@, mask@),
{
    let mut frame: Vec<u8> = Vec::new();
    frame.push(opcode | 0x80);
    let len: usize = payload.len();
    if len < 126 {
        frame.push(128 + len as u8);
    } else if len <= 0xFFFF {
        frame.push(254);
        push_be(&mut frame, len as u64, 2);
    } else {
        frame.push(255);
        push_be(&mut frame, len as u64, 8);
    }
    assert(frame@ == seq![opcode | 0x80u8] + length_field(payload@.len()));
    let mut i: usize = 0;
    while i < 4
        invariant
            i <= 4,
            frame@ == seq![opcode | 0x80u8] + length_field(payload@.len()) + mask@.take(i as int),
        decreases 4 - i,
    {
        frame.push(mask[i]);
        i = i + 1;
        assert(frame@ == seq![opcode | 0x80u8] + length_field(payload@.len()) + mask@.take(
            i as int,
        ));
    }
    assert(mask@.take(4) == mask@);
    apply_mask(&mut frame, payload, 0, len, mask);
    assert(payload@.subrange(0, len as int) == payload@);
    frame
}

/// Parses the frame at the front of `buf`: opcode, payload and the bytes it took.
/// Nothing is returned while the frame is incomplete.
pub fn parse_frame(buf: &[u8]) -> (r: Option<(u8, Vec<u8>, usize)>)
    ensures
        r is Some <==> complete(buf@),
        r matches Some((opcode, payload, consumed)) ==> parsed(buf@) == Some(
            (opcode, payload@, consumed as int),
        ) && 2 <= consumed <= buf.len(),
{
    if buf.len() < 2 {
        return None;
    }
    let opcode: u8 = buf[0] % 16;
    let len7: u8 = buf[1] % 128;
    let mut off: usize = 2;
    let mut len: u64 = len7 as u64;
    if len7 == 126 {
        if buf.len() < 4 {
            return None;
        }
        len = read_be(buf, 2, 2);
        off = 4;
    } else if len7 == 127 {
        if buf.len() < 10 {
            return None;
        }
        len = read_be(buf, 2, 8);
        off = 10;
    }
    assert(len == payload_length(buf@));
    let mut mask: [u8; 4] = [0u8; 4];
    let is_masked: bool = buf[1] >= 128;
    if is_masked {
        if buf.len() < off + 4 {
            return None;
        }
        mask = [buf[off], buf[off + 1], buf[off + 2], buf[off + 3]];
        assert(mask@ == buf@.subrange(off as int, off + 4));
        off = off + 4;
    }
    assert(off == payload_offset(buf@));
    if len > (buf.len() - off) as u64 {
        return None;
    }
    let n: usize = len as usize;
    let mut payload: Vec<u8> = Vec::new();
    let ghost raw = buf@.subrange(off as int, off + n);
    if is_masked {
        apply_mask(&mut payload, buf, off, n, mask);
        assert(payload@ == payload_of(buf@));
    } else {
        let mut i: usize = 0;
        while i < n
            invariant
                i <= n,
                off + n <= buf.len(),
                raw == buf@.subrange(off as int, off + n),
                payload@ == raw.take(i as int),
            decreases n - i,
        {
            payload.push(buf[off + i]);
            i = i + 1;
            assert(payload@ == raw.take(i as int));
        }
        assert(payload@ == payload_of(buf@));
    }
    Some((opcode, payload, off + n))
}

proof fn lemma_header(opcode: u8, payload: Seq<u8>, mask: Seq<u8>, buf: Seq<u8>)
    requires
        mask.len() == 4,
        payload.len() <= u64::MAX,
        buf.len() >= 2 + extended(length_field(payload.len())[0]),
        buf.take(2 + extended(length_field(payload.len())[0])) == frame_bytes(
            opcode,
            payload,
            mask,
        ).take(2 + extended(length_field(payload.len())[0])),
    ensures
        length_field(payload.len()).len() == 1 + extended(length_field(payload.len())[0]),
        buf[1] >= 128,
        extended(buf[1]) == extended(length_field(payload.len())[0]),
        payload_length(buf) == payload.len(),
{
    let n = payload.len();
    let f = frame_bytes(opcode, payload, mask);
    let e = extended(length_field(n)[0]);
    crate::bytes::lemma_byte_range();
    crate::bytes::lemma_be_bytes_len(n, 2);
    crate::bytes::lemma_be_bytes_len(n, 8);
    assert(f[1] == length_field(n)[0]);
    assert(buf[1] == buf.take(2 + e)[1]);
    assert(f.take(2 + e)[1] == f[1]);
    if n < 126 {
    } else if n <= 0xFFFF {
        crate::bytes::law_be_round_trip(n, 2);
        assert(buf.subrange(2, 4) == buf.take(4).subrange(2, 4));
        assert(f.take(4).subrange(2, 4) == crate::bytes::be_bytes(n, 2));
    } else {
        crate::bytes::law_be_round_trip(n, 8);
        assert(buf.subrange(2, 10) == buf.take(10).subrange(2, 10));
        assert(f.take(10).subrange(2, 10) == crate::bytes::be_bytes(n, 8));
    }
}

/// A frame that was built parses as what it was built from, whatever follows it.
pub proof fn law_frame_round_trip(opcode: u8, payload: Seq<u8>, mask: Seq<u8>, rest: Seq<u8>)
    requires
        mask.len() == 4,
        payload.len() <= u64::MAX,
    ensures
        parsed(frame_bytes(opcode, payload, mask) + rest) == Some(
            ((opcode % 16) as u8, payload, frame_bytes(opcode, payload, mask).len() as int),
        ),
{
    let f = frame_bytes(opcode, payload, mask);
    let buf = f + rest;
    let e = extended(length_field(payload.len())[0]);
    crate::bytes::lemma_be_bytes_len(payload.len(), 2);
    crate::bytes::lemma_be_bytes_len(payload.len(), 8);
    assert(buf.take(2 + e) == f.take(2 + e));
    lemma_header(opcode, payload, mask, buf);
    assert((opcode | 0x80u8) % 16 == opcode % 16) by (bit_vector);
    let off = payload_offset(buf);
    assert(off == 6 + e);
    assert(buf.subrange(off - 4, off) == mask);
    let raw = buf.subrange(off, off + payload.len());
    assert(raw == masked(payload, mask));
    assert forall|i: int| 0 <= i < payload.len() implies masked_byte(raw, mask, i)
        == payload[i] by {
        let x = payload[i];
        let m = mask[i % 4];
        assert((x ^ m) ^ m == x) by (bit_vector);
    }
    assert(payload_of(buf) == payload);
}

/// A frame that was cut short does not parse.
pub proof fn law_frame_incomplete(opcode: u8, payload: Seq<u8>, mask: Seq<u8>, k: int)
    requires
        mask.len() == 4,
        payload.len() <= u64::MAX,
        0 <= k < frame_bytes(opcode, payload, mask).len(),
    ensures
        parsed(frame_bytes(opcode, payload, mask).take(k)) is None,
{
    let f = frame_bytes(opcode, payload, mask);
    law_frame_round_trip(opcode, payload, mask, Seq::empty());
    assert(f + Seq::<u8>::empty() == f);
    law_frame_stream(f, k, Seq::empty());
}

/// A complete frame parses the same however much follows it, and no shorter part of
/// it parses at all.
pub proof fn law_frame_stream(buf: Seq<u8>, k: int, rest: Seq<u8>)
    requires
        parsed(buf) is Some,
    ensures
        0 < frame_size(buf) <= buf.len(),
        parsed(buf + rest) == parsed(buf),
        0 <= k < frame_size(buf) ==> parsed(buf.take(k)) is None,
{
    let long = buf + rest;
    let e = extended(buf[1]);
    assert(long.subrange(2, 2 + e) == buf.subrange(2, 2 + e));
    let off = payload_offset(buf);
    let n = payload_length(buf);
    assert(long.subrange(off, off + n) == buf.subrange(off, off + n));
    if buf[1] >= 128 {
        assert(long.subrange(off - 4, off) == buf.subrange(off - 4, off));
    }
    if 0 <= k < frame_size(buf) {
        let short = buf.take(k);
        if k >= 2 && k >= 2 + e {
            assert(short.subrange(2, 2 + e) == buf.subrange(2, 2 + e));
        }
    }
}

/// The bytes of a final frame of the server, which are not masked.
pub open spec fn server_bytes(opcode: u8, payload: Seq<u8>) -> Seq<u8> {
    let n = payload.len();
    let length = if n < 126 {
        seq![n as u8]
    } else if n < 0x1_0000 {
        seq![126u8] + crate::bytes::be_bytes(n, 2)
    } else {
        seq![127u8] + crate::bytes::be_bytes(n, 8)
    };
    seq![opcode | 0x80u8] + length + payload
}

/// A frame of the server parses as what it was built from, whatever follows it.
pub proof fn law_server_frames(opcode: u8, payload: Seq<u8>, rest: Seq<u8>)
    requires
        payload.len() <= u64::MAX,
    ensures
        parsed(server_bytes(opcode, payload) + rest) == Some(
            ((opcode % 16) as u8, payload, server_bytes(opcode, payload).len() as int),
        ),
{
    let n = payload.len();
    let f = server_bytes(opcode, payload);
    let buf = f + rest;
    crate::bytes::lemma_byte_range();
    crate::bytes::lemma_be_bytes_len(n, 2);
    crate::bytes::lemma_be_bytes_len(n, 8);
    assert((opcode | 0x80u8) % 16 == opcode % 16) by (bit_vector);
    assert(buf[0] == opcode | 0x80u8);
    if n < 126 {
        assert(buf[1] == n);
    } else if n < 0x1_0000 {
        crate::bytes::law_be_round_trip(n, 2);
        assert(buf[1] == 126);
        assert(buf.subrange(2, 4) == crate::bytes::be_bytes(n, 2));
    } else {
        crate::bytes::law_be_round_trip(n, 8);
        assert(buf[1] == 127);
        assert(buf.subrange(2, 10) == crate::bytes::be_bytes(n, 8));
    }
    let off = payload_offset(buf);
    assert(off == 2 + extended(buf[1]));
    assert(buf.subrange(off, off + n) == payload);
}

/// A frame of the client is final, has its mask bit set, and takes 6, 8 or 14 bytes more than
/// its payload.
pub proof fn law_client_frame_size(opcode: u8, payload: Seq<u8>, mask: Seq<u8>)
    requires
        mask.len() == 4,
    ensures
        ({
            let f = frame_bytes(opcode, payload, mask);
            &&& f[0] >= 128
            &&& f[1] >= 128
            &&& payload.len() < 126 ==> f.len() == payload.len() + 6
            &&& 126 <= payload.len() < 0x1_0000 ==> f.len() == payload.len() + 8
            &&& payload.len() >= 0x1_0000 ==> f.len() == payload.len() + 14
        }),
{
    crate::bytes::lemma_be_bytes_len(payload.len(), 2);
    crate::bytes::lemma_be_bytes_len(payload.len(), 8);
    assert((opcode | 0x80u8) >= 128) by (bit_vector);
}

/// The payload of a client's frame is masked on the wire: the four bytes before it are the
/// mask, and each of its bytes is combined with the byte of the mask that is its turn.
pub proof fn law_masking(opcode: u8, payload: Seq<u8>, mask: Seq<u8>, i: int)
    requires
        mask.len() == 4,
        0 <= i < payload.len(),
    ensures
        ({
            let f = frame_bytes(opcode, payload, mask);
            let off = f.len() - payload.len();
            &&& f.subrange(off - 4, off) == mask
            &&& f[off + i] == payload[i] ^ mask[i % 4]
            &&& f[0] == opcode | 0x80u8
        }),
{
    let f = frame_bytes(opcode, payload, mask);
    let off = f.len() - payload.len();
    crate::bytes::lemma_be_bytes_len(payload.len(), 2);
    crate::bytes::lemma_be_bytes_len(payload.len(), 8);
    assert(f.subrange(off - 4, off) == mask);
    assert(f[off + i] == masked(payload, mask)[i]);
}

} // verus!
