//! Properties of the protocol as a whole, relating the builder, the buffer
//! policy and the parser.
use vstd::prelude::*;

use crate::checksum::{crc16_of, lemma_crc_detects_one_byte_change};
use crate::parser::{
    candidate_size, checksum_ok, kept_on_overflow, next_state, push_all, skip_to_stx, Outcome,
    ParseError,
};
use crate::wire::{
    encode_frame, frame_body, hi_byte, lemma_le_u16_join, lemma_le_u16_split, lo_byte, MAX_PAYLOAD,
    STREAM_BUF_CAP, STX,
};

verus! {

/// Bytes pushed one chunk after another.
pub open spec fn push_chunks(buf: Seq<u8>, chunks: Seq<Seq<u8>>) -> Seq<u8>
    decreases chunks.len(),
{
    if chunks.len() == 0 {
        buf
    } else {
        push_chunks(push_all(buf, chunks[0]), chunks.drop_first())
    }
}

/// The buffer after `n` calls of `next_frame`.
pub open spec fn state_after(buf: Seq<u8>, n: nat) -> Seq<u8>
    decreases n,
{
    if n == 0 {
        buf
    } else {
        state_after(next_state(buf).0, (n - 1) as nat)
    }
}

/// The resynchronized buffer is a suffix of the buffer.
pub proof fn lemma_skip_to_stx_suffix(s: Seq<u8>)
    ensures
        skip_to_stx(s).len() <= s.len(),
        skip_to_stx(s) == s.skip(s.len() - skip_to_stx(s).len()),
        skip_to_stx(s).len() > 0 ==> skip_to_stx(s)[0] == STX,
    decreases s.len(),
{
    if s.len() == 0 {
        assert(s.skip(0) =~= s);
    } else if s[0] == STX {
        assert(s.skip(0) =~= s);
    } else {
        lemma_skip_to_stx_suffix(s.drop_first());
        let t = s.drop_first();
        assert(t.skip(t.len() - skip_to_stx(t).len()) =~= s.skip(s.len() - skip_to_stx(t).len()));
    }
}

/// A built frame at the front of the buffer is decoded exactly, whatever
/// follows it, and only its bytes are consumed.
pub proof fn law_decode_built_frame(addr: u8, cmd: u8, payload: Seq<u8>, rest: Seq<u8>)
    requires
        payload.len() <= MAX_PAYLOAD,
    ensures
        next_state(encode_frame(addr, cmd, payload) + rest) == (
            rest,
            Outcome::Decoded(addr, cmd, payload),
        ),
{
    let e = encode_frame(addr, cmd, payload);
    let s = e + rest;
    let body = frame_body(addr, cmd, payload);
    let n = payload.len() as int + 6;
    assert(s[0] == STX);
    assert(skip_to_stx(s) == s);
    assert(s[1] as int == payload.len() + 2);
    assert(candidate_size(s[1]) == n);
    let c = s.subrange(0, n);
    assert(c =~= e);
    assert(c.subrange(0, n - 2) =~= body);
    lemma_le_u16_split(crc16_of(body));
    assert(checksum_ok(c));
    assert(s.skip(n) =~= rest);
    assert(s.subrange(4, s[1] as int + 2) =~= payload);
}

/// Building a frame and pushing its bytes into a fresh parser decodes the
/// same address, command and payload, and leaves the buffer empty.
pub proof fn law_round_trip(addr: u8, cmd: u8, payload: Seq<u8>)
    requires
        payload.len() <= MAX_PAYLOAD,
    ensures
        next_state(push_all(Seq::empty(), encode_frame(addr, cmd, payload))) == (
            Seq::<u8>::empty(),
            Outcome::Decoded(addr, cmd, payload),
        ),
{
    let e = encode_frame(addr, cmd, payload);
    assert(Seq::<u8>::empty() + e =~= e);
    assert(e + Seq::<u8>::empty() =~= e);
    law_decode_built_frame(addr, cmd, payload, Seq::empty());
}

/// Flipping any one bit of the address, command or payload of a built frame
/// makes the parser report a checksum mismatch instead of a frame.
pub proof fn law_checksum_sensitivity(addr: u8, cmd: u8, payload: Seq<u8>, k: int, bit: u8)
    requires
        payload.len() <= MAX_PAYLOAD,
        2 <= k < payload.len() + 4,
        bit < 8,
    ensures
        ({
            let e = encode_frame(addr, cmd, payload);
            let f = e.update(k, e[k] ^ (1u8 << bit));
            next_state(push_all(Seq::empty(), f)) == (
                f.drop_first(),
                Outcome::Malformed(ParseError::CrcMismatch),
            )
        }),
{
    let e = encode_frame(addr, cmd, payload);
    let body = frame_body(addr, cmd, payload);
    let x = e[k] ^ (1u8 << bit);
    let v = e[k];
    assert((v ^ (1u8 << bit)) != v) by (bit_vector)
        requires
            bit < 8,
    ;
    let f = e.update(k, x);
    let n = payload.len() as int + 6;
    assert(Seq::<u8>::empty() + f =~= f);
    assert(f[0] == STX);
    assert(skip_to_stx(f) == f);
    assert(f[1] as int == payload.len() + 2);
    assert(candidate_size(f[1]) == n);
    let c = f.subrange(0, n);
    assert(c =~= f);
    assert(c.subrange(0, n - 2) =~= body.update(k, x));
    lemma_crc_detects_one_byte_change(body, k, x);
    lemma_le_u16_split(crc16_of(body));
    assert(!checksum_ok(c));
}

/// Every call that reports a fault or a frame shrinks the buffer.
pub proof fn law_progress(buf: Seq<u8>)
    ensures
        !(next_state(buf).1 is Pending) ==> next_state(buf).0.len() < buf.len(),
        next_state(buf).0.len() <= buf.len(),
{
    lemma_skip_to_stx_suffix(buf);
}

/// Whatever the buffer holds, one of the first `buf.len() + 1` calls of
/// `next_frame` reports that no frame is ready: the parser never spins.
pub proof fn law_resync_terminates(buf: Seq<u8>)
    ensures
        exists|k: nat| k <= buf.len() && #[trigger] next_state(state_after(buf, k)).1 is Pending,
    decreases buf.len(),
{
    if next_state(buf).1 is Pending {
        assert(state_after(buf, 0) == buf);
        assert(next_state(state_after(buf, 0)).1 is Pending);
    } else {
        law_progress(buf);
        let rest = next_state(buf).0;
        law_resync_terminates(rest);
        let k = choose|k: nat| k <= rest.len() && #[trigger] next_state(state_after(rest, k)).1 is Pending;
        assert(state_after(buf, k + 1) == state_after(rest, k));
        assert(next_state(state_after(buf, k + 1)).1 is Pending);
    }
}

/// Pushing bytes in two chunks leaves the same buffer as pushing them at
/// once, as long as everything fits in the buffer.
pub proof fn law_push_two_chunks(buf: Seq<u8>, a: Seq<u8>, b: Seq<u8>)
    requires
        buf.len() + a.len() + b.len() <= STREAM_BUF_CAP,
    ensures
        push_all(push_all(buf, a), b) == push_all(buf, a + b),
{
    assert(buf + a + b =~= buf + (a + b));
}

/// Flattening never shortens: the total length of the chunks.
proof fn lemma_flatten_len(chunks: Seq<Seq<u8>>)
    ensures
        chunks.len() > 0 ==> chunks[0].len() + chunks.drop_first().flatten().len()
            == chunks.flatten().len(),
{
}

/// Pushing bytes in any number of chunks, down to single bytes or empty
/// chunks, leaves the same buffer as pushing them all at once, as long as
/// everything fits; the buffer is the parser's only state, so the frames it
/// yields are the same.
pub proof fn law_fragmentation(buf: Seq<u8>, chunks: Seq<Seq<u8>>)
    requires
        buf.len() + chunks.flatten().len() <= STREAM_BUF_CAP,
    ensures
        push_chunks(buf, chunks) == push_all(buf, chunks.flatten()),
    decreases chunks.len(),
{
    if chunks.len() > 0 {
        lemma_flatten_len(chunks);
        law_fragmentation(push_all(buf, chunks[0]), chunks.drop_first());
        law_push_two_chunks(buf, chunks[0], chunks.drop_first().flatten());
    }
}

/// A valid frame pushed in any chunks into a fresh parser is decoded as it
/// was built.
pub proof fn law_fragmented_round_trip(addr: u8, cmd: u8, payload: Seq<u8>, chunks: Seq<Seq<u8>>)
    requires
        payload.len() <= MAX_PAYLOAD,
        chunks.flatten() == encode_frame(addr, cmd, payload),
    ensures
        next_state(push_chunks(Seq::empty(), chunks)) == (
            Seq::<u8>::empty(),
            Outcome::Decoded(addr, cmd, payload),
        ),
{
    law_fragmentation(Seq::empty(), chunks);
    law_round_trip(addr, cmd, payload);
}

/// While only part of a valid frame has arrived, in any chunks, the buffer
/// holds exactly the bytes pushed so far and every call of `next_frame`
/// reports that no frame is ready and discards nothing.
pub proof fn law_partial_frame_waits(addr: u8, cmd: u8, payload: Seq<u8>, chunks: Seq<Seq<u8>>)
    requires
        payload.len() <= MAX_PAYLOAD,
        chunks.flatten().len() < encode_frame(addr, cmd, payload).len(),
        chunks.flatten() == encode_frame(addr, cmd, payload).subrange(0, chunks.flatten().len() as int),
    ensures
        push_chunks(Seq::empty(), chunks) == chunks.flatten(),
        next_state(chunks.flatten()) == (chunks.flatten(), Outcome::Pending),
{
    law_fragmentation(Seq::empty(), chunks);
    assert(Seq::<u8>::empty() + chunks.flatten() =~= chunks.flatten());
    let s = chunks.flatten();
    if s.len() > 0 {
        assert(s[0] == STX);
        assert(skip_to_stx(s) == s);
        if s.len() >= 2 {
            assert(s[1] as int == payload.len() + 2);
        }
    }
}

/// However many bytes are pushed, the buffer stays within its capacity and
/// is a contiguous tail of the old buffer followed by the new bytes. When a
/// chunk does not fit, no byte of the old buffer is kept: the buffer is the
/// newest bytes of the chunk, up to the capacity.
pub proof fn law_overflow_keeps_contiguous_tail(buf: Seq<u8>, bs: Seq<u8>)
    requires
        buf.len() <= STREAM_BUF_CAP,
    ensures
        push_all(buf, bs).len() <= STREAM_BUF_CAP,
        push_all(buf, bs) == (buf + bs).skip((buf + bs).len() - push_all(buf, bs).len()),
        buf.len() + bs.len() > STREAM_BUF_CAP ==> {
            &&& push_all(buf, bs).len() == kept_on_overflow(bs.len())
            &&& push_all(buf, bs) == bs.skip(bs.len() - push_all(buf, bs).len())
            &&& bs.len() > 0 ==> push_all(buf, bs).len() > 0
        },
{
    if buf.len() + bs.len() <= STREAM_BUF_CAP {
        assert((buf + bs).skip(0) =~= buf + bs);
    } else {
        let k = kept_on_overflow(bs.len());
        assert(bs.skip(bs.len() - k) =~= (buf + bs).skip((buf + bs).len() - k));
    }
}

/// The buffer after any number of `next_frame` calls is a tail of the buffer
/// before them.
pub proof fn law_calls_keep_tail(buf: Seq<u8>, n: nat)
    ensures
        state_after(buf, n).len() <= buf.len(),
        state_after(buf, n) == buf.skip(buf.len() - state_after(buf, n).len()),
    decreases n,
{
    if n == 0 {
        assert(buf.skip(0) =~= buf);
    } else {
        let (rest, _) = next_state(buf);
        law_progress(buf);
        law_next_state_tail(buf);
        law_calls_keep_tail(rest, (n - 1) as nat);
        let m = state_after(rest, (n - 1) as nat);
        assert(rest.skip(rest.len() - m.len()) =~= buf.skip(buf.len() - m.len()));
    }
}

/// The buffer after one `next_frame` call is a tail of the buffer before it.
pub proof fn law_next_state_tail(buf: Seq<u8>)
    ensures
        next_state(buf).0 == buf.skip(buf.len() - next_state(buf).0.len()),
{
    lemma_skip_to_stx_suffix(buf);
    let b = skip_to_stx(buf);
    let r = next_state(buf).0;
    if b.len() >= 2 {
        assert(b.drop_first() =~= buf.skip(buf.len() - b.len() + 1));
    } else {
        assert(r == b);
    }
    if b.len() >= 2 && b[1] >= 2 && b.len() >= candidate_size(b[1]) {
        assert(b.skip(candidate_size(b[1])) =~= buf.skip(buf.len() - b.len() + candidate_size(b[1])));
    }
}

/// Whatever number of `next_frame` calls are made without pushing, every
/// decoded frame is the encoding of its fields read from one contiguous run
/// of the buffer: bytes that hold no valid frame never yield one.
pub proof fn law_frames_come_from_buffer(buf: Seq<u8>, n: nat)
    ensures
        next_state(state_after(buf, n)).1 matches Outcome::Decoded(a, c, p) ==> exists|i: int|
            0 <= i && i + p.len() + 6 <= buf.len() && #[trigger] buf.subrange(i, i + p.len() + 6)
                == encode_frame(a, c, p),
{
    law_calls_keep_tail(buf, n);
    let s = state_after(buf, n);
    law_decoded_frame_is_contiguous(s);
    lemma_skip_to_stx_suffix(s);
    if next_state(s).1 is Decoded {
        let p = next_state(s).1->Decoded_2;
        let j = s.len() - skip_to_stx(s).len();
        let i = (buf.len() - s.len()) + j;
        assert(buf.subrange(i, i + p.len() + 6) =~= s.subrange(j, j + p.len() + 6));
    }
}

/// After a chunk overflows the buffer, whatever number of `next_frame` calls
/// follow, every decoded frame is the encoding of its fields read from one
/// contiguous run of that chunk: no byte held before the overflow is part of
/// a decoded frame.
pub proof fn law_overflow_safety(buf: Seq<u8>, bs: Seq<u8>, n: nat)
    requires
        buf.len() <= STREAM_BUF_CAP,
        buf.len() + bs.len() > STREAM_BUF_CAP,
    ensures
        next_state(state_after(push_all(buf, bs), n)).1 matches Outcome::Decoded(a, c, p) ==> exists|
            i: int,
        |
            0 <= i && i + p.len() + 6 <= bs.len() && #[trigger] bs.subrange(i, i + p.len() + 6)
                == encode_frame(a, c, p),
{
    law_overflow_keeps_contiguous_tail(buf, bs);
    let q = push_all(buf, bs);
    law_frames_come_from_buffer(q, n);
    if next_state(state_after(q, n)).1 is Decoded {
        let p = next_state(state_after(q, n)).1->Decoded_2;
        let i = choose|i: int|
            0 <= i && i + p.len() + 6 <= q.len() && #[trigger] q.subrange(i, i + p.len() + 6)
                == encode_frame(next_state(state_after(q, n)).1->Decoded_0, next_state(state_after(q, n)).1->Decoded_1, p);
        let o = bs.len() - q.len();
        assert(bs.subrange(o + i, o + i + p.len() + 6) =~= q.subrange(i, i + p.len() + 6));
    }
}

/// A decoded frame is exactly the encoding of its fields, read from one
/// contiguous run of the buffer, and only that run and what precedes it are
/// consumed.
pub proof fn law_decoded_frame_is_contiguous(buf: Seq<u8>)
    ensures
        next_state(buf).1 matches Outcome::Decoded(a, c, p) ==> {
            let i = buf.len() - skip_to_stx(buf).len();
            &&& p.len() <= MAX_PAYLOAD
            &&& buf.subrange(i, i + p.len() + 6) == encode_frame(a, c, p)
            &&& next_state(buf).0 == buf.skip(i + p.len() + 6)
        },
{
    lemma_skip_to_stx_suffix(buf);
    let b = skip_to_stx(buf);
    if next_state(buf).1 is Decoded {
        let i = buf.len() - b.len();
        let l = b[1];
        let n = candidate_size(l);
        let cand = b.subrange(0, n);
        let a = b[2];
        let c = b[3];
        let p = b.subrange(4, l as int + 2);
        assert(checksum_ok(cand));
        let body = frame_body(a, c, p);
        assert(cand.subrange(0, n - 2) =~= body);
        lemma_le_u16_join(cand[n - 2], cand[n - 1]);
        assert(lo_byte(crc16_of(body)) == cand[n - 2]);
        assert(hi_byte(crc16_of(body)) == cand[n - 1]);
        assert(cand =~= encode_frame(a, c, p));
        assert(buf.subrange(i, i + p.len() + 6) =~= cand);
        assert(b.skip(n) =~= buf.skip(i + p.len() + 6));
    }
}

} // verus!
