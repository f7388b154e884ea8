//! Building outgoing frames, into fixed-capacity vectors (no allocation).
use vstd::prelude::*;

use crate::checksum::{crc16_modbus, crc16_of};
use crate::stream::{frame_bytes, frame_new, frame_push, frame_slice, payload_bytes, payload_new, payload_push, payload_slice};
use crate::wire::{encode_frame, frame_body, hi_byte, lo_byte, FRAME_OVERHEAD, MAX_PAYLOAD, STX};

verus! {

/// Builds `[STX, LEN, ADDR, CMD, payload.., CRCL, CRCH]`.
///
/// Fails, producing nothing, when the payload is longer than `MAX_PAYLOAD`
/// or the whole frame would not fit in `OUT_CAP` bytes.
pub fn build_frame<const OUT_CAP: usize>(addr: u8, cmd: u8, payload: &[u8]) -> (r: Result<heapless::Vec<u8, 259>, ()>)
    ensures
        r.is_ok() == (payload@.len() <= MAX_PAYLOAD && payload@.len() + FRAME_OVERHEAD <= OUT_CAP),
        r matches Ok(v) ==> frame_bytes(v) == encode_frame(addr, cmd, payload@),
{
    if payload.len() > MAX_PAYLOAD {
        return Err(());
    }
    let len: usize = 2 + payload.len();
    let total: usize = 1 + 1 + len + 2;
    if total > OUT_CAP {
        return Err(());
    }

    let mut out = frame_new();
    frame_push(&mut out, STX);
    frame_push(&mut out, len as u8);
    frame_push(&mut out, addr);
    frame_push(&mut out, cmd);
    let mut i: usize = 0;
    while i < payload.len()
        invariant
            i <= payload@.len(),
            payload@.len() <= MAX_PAYLOAD,
            len == payload@.len() + 2,
            frame_bytes(out) == seq![STX, len as u8, addr, cmd] + payload@.subrange(0, i as int),
        decreases payload@.len() - i,
    {
        frame_push(&mut out, payload[i]);
        proof {
            assert(payload@.subrange(0, i + 1) =~= payload@.subrange(0, i as int).push(payload@[i as int]));
        }
        i = i + 1;
    }
    proof {
        assert(payload@.subrange(0, payload@.len() as int) =~= payload@);
        assert(frame_bytes(out) =~= frame_body(addr, cmd, payload@));
    }

    let crc: u16 = crc16_modbus(frame_slice(&out));
    frame_push(&mut out, (crc & 0xff) as u8);
    frame_push(&mut out, (crc >> 8) as u8);
    proof {
        assert(crc == crc16_of(frame_body(addr, cmd, payload@)));
        assert(frame_bytes(out) =~= encode_frame(addr, cmd, payload@));
    }
    Ok(out)
}

/// Acknowledgement: payload `[0]` (status success).
pub fn build_ack<const OUT_CAP: usize>(addr: u8, cmd: u8) -> (r: Result<heapless::Vec<u8, 259>, ()>)
    ensures
        r.is_ok() == (1 + FRAME_OVERHEAD <= OUT_CAP),
        r matches Ok(v) ==> frame_bytes(v) == encode_frame(addr, cmd, seq![0u8]),
{
    let payload: [u8; 1] = [0u8];
    proof {
        assert(payload@ =~= seq![0u8]);
    }
    build_frame::<OUT_CAP>(addr, cmd, payload.as_slice())
}

/// Error response: payload `[err_code]`.
pub fn build_err<const OUT_CAP: usize>(addr: u8, cmd: u8, err_code: u8) -> (r: Result<heapless::Vec<u8, 259>, ()>)
    ensures
        r.is_ok() == (1 + FRAME_OVERHEAD <= OUT_CAP),
        r matches Ok(v) ==> frame_bytes(v) == encode_frame(addr, cmd, seq![err_code]),
{
    let payload: [u8; 1] = [err_code];
    proof {
        assert(payload@ =~= seq![err_code]);
    }
    build_frame::<OUT_CAP>(addr, cmd, payload.as_slice())
}

/// The payload of a data response: `[status = 0, byte count, data..]`.
pub open spec fn data_payload(data: Seq<u8>) -> Seq<u8> {
    seq![0u8, data.len() as u8] + data
}

/// Data response: payload `[0, data.len(), data..]`.
///
/// Fails when `data` is longer than `MAX_PAYLOAD - 2` bytes or the frame
/// would not fit in `OUT_CAP` bytes.
pub fn build_data<const OUT_CAP: usize>(addr: u8, cmd: u8, data: &[u8]) -> (r: Result<heapless::Vec<u8, 259>, ()>)
    ensures
        r.is_ok() == (data@.len() <= MAX_PAYLOAD - 2 && data@.len() + 2 + FRAME_OVERHEAD
            <= OUT_CAP),
        r matches Ok(v) ==> frame_bytes(v) == encode_frame(addr, cmd, data_payload(data@)),
{
    if data.len() > MAX_PAYLOAD - 2 {
        return Err(());
    }
    if data.len() > 255 {
        return Err(());
    }

    let mut payload = payload_new();
    payload_push(&mut payload, 0x00);
    payload_push(&mut payload, data.len() as u8);
    let mut i: usize = 0;
    while i < data.len()
        invariant
            i <= data@.len(),
            data@.len() <= MAX_PAYLOAD - 2,
            payload_bytes(payload) == seq![0u8, data@.len() as u8] + data@.subrange(0, i as int),
        decreases data@.len() - i,
    {
        payload_push(&mut payload, data[i]);
        proof {
            assert(data@.subrange(0, i + 1) =~= data@.subrange(0, i as int).push(data@[i as int]));
        }
        i = i + 1;
    }
    proof {
        assert(data@.subrange(0, data@.len() as int) =~= data@);
        assert(payload_bytes(payload) =~= data_payload(data@));
    }
    build_frame::<OUT_CAP>(addr, cmd, payload_slice(&payload))
}

} // verus!
