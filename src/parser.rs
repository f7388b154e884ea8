//! The stream parser: buffers arbitrarily chunked input and extracts
//! checksum-valid frames, resynchronizing on the start marker.
use vstd::prelude::*;

use crate::checksum::{crc16_modbus, crc16_of};
use crate::stream::{
    payload_bytes, payload_from_slice, payload_slice, stream_bytes, stream_clear, stream_new,
    stream_push, stream_set, stream_slice, stream_truncate,
};
use crate::wire::{le_u16, MAX_FRAME, MAX_PAYLOAD, STREAM_BUF_CAP, STX};

verus! {

/// Structural faults of a candidate frame. Each is recovered by dropping the
/// candidate's start marker; the caller calls `next_frame` again.
#[derive(Copy, Clone, Debug, PartialEq, Eq, Structural)]
pub enum ParseError {
    LenTooSmall,
    LenTooBig,
    CrcMismatch,
}

/// A decoded frame.
#[derive(Clone, Debug, PartialEq, Eq)]
pub struct Frame {
    pub addr: u8,
    pub cmd: u8,
    pub payload: heapless::Vec<u8, 253>,
}

impl Frame {
    /// The payload's bytes.
    pub open spec fn payload_view(&self) -> Seq<u8> {
        payload_bytes(self.payload)
    }

    /// The first payload byte, the status of a status-first response.
    pub fn status(&self) -> (r: Option<u8>)
        ensures
            r == (if self.payload_view().len() > 0 {
                Some(self.payload_view()[0])
            } else {
                None
            }),
    {
        let s = payload_slice(&self.payload);
        if s.len() > 0 {
            Some(s[0])
        } else {
            None
        }
    }
}

/// What one call of `next_frame` reports, as a mathematical value.
pub enum Outcome {
    /// No complete frame yet.
    Pending,
    /// A structural fault; one byte was dropped.
    Malformed(ParseError),
    /// A decoded frame: address, command, payload.
    Decoded(u8, u8, Seq<u8>),
}

/// The buffer from its first start marker on; empty when there is none.
pub open spec fn skip_to_stx(s: Seq<u8>) -> Seq<u8>
    decreases s.len(),
{
    if s.len() == 0 {
        s
    } else if s[0] == STX {
        s
    } else {
        skip_to_stx(s.drop_first())
    }
}

/// Total size of a candidate frame whose LENGTH byte is `len`.
pub open spec fn candidate_size(len: u8) -> int {
    len as int + 4
}

/// The checksum of a candidate (the whole candidate, trailing code included)
/// matches its bytes.
pub open spec fn checksum_ok(c: Seq<u8>) -> bool {
    crc16_of(c.subrange(0, c.len() - 2)) == le_u16(c[c.len() - 2], c[c.len() - 1])
}

/// One extraction attempt on buffer `buf`: the buffer afterwards, and what is
/// reported.
pub open spec fn next_state(buf: Seq<u8>) -> (Seq<u8>, Outcome) {
    let b = skip_to_stx(buf);
    if b.len() < 2 {
        (b, Outcome::Pending)
    } else if b[1] < 2 {
        (b.drop_first(), Outcome::Malformed(ParseError::LenTooSmall))
    } else if candidate_size(b[1]) > MAX_FRAME {
        (b.drop_first(), Outcome::Malformed(ParseError::LenTooBig))
    } else if b.len() < candidate_size(b[1]) {
        (b, Outcome::Pending)
    } else if !checksum_ok(b.subrange(0, candidate_size(b[1]))) {
        (b.drop_first(), Outcome::Malformed(ParseError::CrcMismatch))
    } else {
        (
            b.skip(candidate_size(b[1])),
            Outcome::Decoded(b[2], b[3], b.subrange(4, b[1] as int + 2)),
        )
    }
}

/// What a result of `next_frame` reports.
pub open spec fn outcome_of(r: Result<Option<Frame>, ParseError>) -> Outcome {
    match r {
        Ok(None) => Outcome::Pending,
        Ok(Some(f)) => Outcome::Decoded(f.addr, f.cmd, f.payload_view()),
        Err(e) => Outcome::Malformed(e),
    }
}

/// How many bytes of a chunk of `n` bytes the buffer keeps after an overflow:
/// the newest ones, up to the capacity.
pub open spec fn kept_on_overflow(n: nat) -> nat {
    if n <= STREAM_BUF_CAP {
        n
    } else {
        STREAM_BUF_CAP as nat
    }
}

/// Appending a chunk: when it fits it is appended; otherwise the whole old
/// buffer is discarded and the newest bytes of the chunk, up to the capacity,
/// are kept.
pub open spec fn push_all(buf: Seq<u8>, bs: Seq<u8>) -> Seq<u8> {
    if buf.len() + bs.len() <= STREAM_BUF_CAP {
        buf + bs
    } else {
        bs.skip(bs.len() - kept_on_overflow(bs.len()))
    }
}

/// How many bytes of the chunk `bs` stay in the buffer after `push_all`.
pub open spec fn retained(buf: Seq<u8>, bs: Seq<u8>) -> nat {
    if buf.len() + bs.len() <= STREAM_BUF_CAP {
        bs.len()
    } else {
        kept_on_overflow(bs.len())
    }
}

/// Drops the first `count` bytes of `buf` (all of them when `count` is not
/// less than the length).
fn drop_front(buf: &mut heapless::Vec<u8, 512>, count: usize)
    ensures
        count >= stream_bytes(*old(buf)).len() ==> stream_bytes(*final(buf)) == Seq::<u8>::empty(),
        count < stream_bytes(*old(buf)).len() ==> stream_bytes(*final(buf)) == stream_bytes(
            *old(buf),
        ).skip(count as int),
{
    let len: usize = stream_slice(buf).len();
    if count >= len {
        stream_clear(buf);
        return;
    }
    let ghost orig = stream_bytes(*buf);
    let mut i: usize = 0;
    while i < len - count
        invariant
            count < len,
            len == orig.len(),
            i <= len - count,
            stream_bytes(*buf).len() == len,
            forall|j: int| 0 <= j < i ==> #[trigger] stream_bytes(*buf)[j] == orig[j + count],
            forall|j: int| i <= j < len ==> #[trigger] stream_bytes(*buf)[j] == orig[j],
        decreases len - count - i,
    {
        let b: u8 = stream_slice(buf)[i + count];
        stream_set(buf, i, b);
        i = i + 1;
    }
    stream_truncate(buf, len - count);
    proof {
        assert(stream_bytes(*buf) =~= orig.skip(count as int));
    }
}

/// Stream parser for `[STX, LEN, ...]` frames.
pub struct Parser {
    buf: heapless::Vec<u8, 512>,
}

impl View for Parser {
    type V = Seq<u8>;

    /// The buffered bytes not yet consumed.
    closed spec fn view(&self) -> Seq<u8> {
        stream_bytes(self.buf)
    }
}

impl Parser {
    /// The buffer never holds more than its capacity.
    pub open spec fn wf(&self) -> bool {
        self@.len() <= STREAM_BUF_CAP
    }

    /// A parser with an empty buffer.
    pub fn new() -> (r: Self)
        ensures
            r@ == Seq::<u8>::empty(),
            r.wf(),
    {
        Parser { buf: stream_new() }
    }

    /// Appends the chunk `bytes` to the buffer. When it does not fit, the
    /// whole old buffer is discarded first and the newest bytes of the chunk,
    /// up to the capacity, are kept. Returns how many bytes of the chunk stay
    /// in the buffer.
    pub fn push_bytes(&mut self, bytes: &[u8]) -> (r: usize)
        ensures
            final(self)@ == push_all(old(self)@, bytes@),
            old(self).wf() ==> final(self).wf(),
            r == retained(old(self)@, bytes@),
    {
        let len: usize = stream_slice(&self.buf).len();
        let n: usize = bytes.len();
        let mut start: usize = 0;
        if len > STREAM_BUF_CAP || n > STREAM_BUF_CAP - len {
            stream_clear(&mut self.buf);
            if n > STREAM_BUF_CAP {
                start = n - STREAM_BUF_CAP;
            }
        }
        let ghost base = self@;
        let mut i: usize = start;
        while i < n
            invariant
                start <= i <= n,
                n == bytes@.len(),
                base.len() + (n - start) <= STREAM_BUF_CAP,
                self@ == base + bytes@.subrange(start as int, i as int),
            decreases n - i,
        {
            let pushed: bool = stream_push(&mut self.buf, bytes[i]);
            proof {
                assert(pushed);
                assert(bytes@.subrange(start as int, i + 1) =~= bytes@.subrange(start as int, i as int).push(bytes@[i as int]));
            }
            i = i + 1;
        }
        proof {
            if start == 0 && base.len() == old(self)@.len() {
                assert(bytes@.subrange(0, n as int) =~= bytes@);
            }
            assert(bytes@.subrange(start as int, n as int) =~= bytes@.skip(start as int));
            assert(bytes@.skip(0) =~= bytes@);
            assert(Seq::<u8>::empty() + bytes@.skip(start as int) =~= bytes@.skip(start as int));
        }
        n - start
    }

    /// Attempts to extract the next frame.
    ///
    /// `Ok(Some(frame))` consumes that frame's bytes; `Ok(None)` means no
    /// complete frame is buffered yet; `Err(e)` reports a structural fault,
    /// after which one byte has been dropped and the caller should call again.
    pub fn next_frame(&mut self) -> (r: Result<Option<Frame>, ParseError>)
        ensures
            final(self)@ == next_state(old(self)@).0,
            outcome_of(r) == next_state(old(self)@).1,
            old(self).wf() ==> final(self).wf(),
    {
        let ghost start = self@;
        let s = stream_slice(&self.buf);
        let mut p: usize = 0;
        proof {
            assert(start.skip(0) =~= start);
        }
        while p < s.len() && s[p] != STX
            invariant
                p <= s@.len(),
                s@ == start,
                skip_to_stx(start) == skip_to_stx(start.skip(p as int)),
            decreases s@.len() - p,
        {
            proof {
                assert(start.skip(p as int).drop_first() =~= start.skip(p + 1));
            }
            p = p + 1;
        }
        if p == s.len() {
            proof {
                assert(start.skip(p as int) =~= Seq::<u8>::empty());
            }
            stream_clear(&mut self.buf);
            return Ok(None);
        }
        proof {
            assert(start.skip(p as int)[0] == STX);
        }
        if p > 0 {
            drop_front(&mut self.buf, p);
        }
        let s = stream_slice(&self.buf);
        proof {
            assert(s@ =~= skip_to_stx(start));
        }

        if s.len() < 2 {
            return Ok(None);
        }
        let len: usize = s[1] as usize;
        if len < 2 {
            drop_front(&mut self.buf, 1);
            return Err(ParseError::LenTooSmall);
        }
        let total: usize = 1 + 1 + len + 2;
        if total > MAX_FRAME {
            drop_front(&mut self.buf, 1);
            return Err(ParseError::LenTooBig);
        }
        if s.len() < total {
            return Ok(None);
        }

        let candidate: &[u8] = &s[0..total];
        let computed: u16 = crc16_modbus(&candidate[0..total - 2]);
        let got: u16 = ((candidate[total - 1] as u16) << 8) | (candidate[total - 2] as u16);
        if computed != got {
            drop_front(&mut self.buf, 1);
            return Err(ParseError::CrcMismatch);
        }

        let addr: u8 = candidate[2];
        let cmd: u8 = candidate[3];
        let payload_end: usize = 2 + len;
        let payload = match payload_from_slice(&candidate[4..payload_end]) {
            Ok(v) => v,
            Err(_) => {
                // LEN is one byte, so the payload never exceeds MAX_PAYLOAD.
                assert(false);
                return Ok(None);
            },
        };
        proof {
            assert(candidate@.subrange(0, total - 2) =~= s@.subrange(0, candidate_size(s@[1])).subrange(0, total - 2));
            assert(payload_bytes(payload) =~= s@.subrange(4, s@[1] as int + 2));
        }
        drop_front(&mut self.buf, total);
        Ok(Some(Frame { addr, cmd, payload }))
    }
}

} // verus!
