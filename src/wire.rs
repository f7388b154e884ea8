//! Wire layout of a frame:
//! `[START, LENGTH, ADDRESS, COMMAND, PAYLOAD.., CHECKSUM_LOW, CHECKSUM_HIGH]`.
use vstd::prelude::*;

use crate::checksum::crc16_of;

verus! {

/// Start marker, used to find the beginning of a frame again after noise.
pub const STX: u8 = 0xA5;

/// LENGTH is one byte and covers ADDRESS and COMMAND, so a payload holds at
/// most 255 - 2 bytes.
pub const MAX_PAYLOAD: usize = 253;

/// START + LENGTH + 255 covered bytes + two checksum bytes.
pub const MAX_FRAME: usize = 259;

/// Capacity of the parser's stream buffer (room for more than one frame).
pub const STREAM_BUF_CAP: usize = 512;

/// Bytes of a frame besides its payload.
pub const FRAME_OVERHEAD: usize = 6;

/// Low byte of a 16-bit value.
pub open spec fn lo_byte(c: u16) -> u8 {
    (c & 0xff) as u8
}

/// High byte of a 16-bit value.
pub open spec fn hi_byte(c: u16) -> u8 {
    (c >> 8u16) as u8
}

/// The 16-bit value stored little-endian in `lo`, `hi`.
pub open spec fn le_u16(lo: u8, hi: u8) -> u16 {
    ((hi as u16) << 8u16) | (lo as u16)
}

/// Everything the checksum covers: START through the end of the payload.
pub open spec fn frame_body(addr: u8, cmd: u8, payload: Seq<u8>) -> Seq<u8> {
    seq![STX, (payload.len() + 2) as u8, addr, cmd] + payload
}

/// The complete frame: the body followed by its checksum, little-endian.
pub open spec fn encode_frame(addr: u8, cmd: u8, payload: Seq<u8>) -> Seq<u8> {
    let body = frame_body(addr, cmd, payload);
    body + seq![lo_byte(crc16_of(body)), hi_byte(crc16_of(body))]
}

/// Splitting a value into bytes and reading them back little-endian gives the value.
pub proof fn lemma_le_u16_split(c: u16)
    ensures
        le_u16(lo_byte(c), hi_byte(c)) == c,
{
    assert((((((c >> 8u16) as u8) as u16) << 8u16) | ((c & 0xff) as u8) as u16) == c) by (bit_vector);
}

/// A value read little-endian from two bytes splits back into those bytes.
pub proof fn lemma_le_u16_join(lo: u8, hi: u8)
    ensures
        lo_byte(le_u16(lo, hi)) == lo,
        hi_byte(le_u16(lo, hi)) == hi,
{
    assert(((((hi as u16) << 8u16) | (lo as u16)) & 0xff) as u8 == lo) by (bit_vector);
    assert(((((hi as u16) << 8u16) | (lo as u16)) >> 8u16) as u8 == hi) by (bit_vector);
}

} // verus!
