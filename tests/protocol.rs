use frame_link::{
    build_ack, build_data, build_err, build_frame, crc16_modbus, Frame, ParseError, Parser,
    MAX_FRAME, MAX_PAYLOAD, STREAM_BUF_CAP, STX,
};

fn decode_one(bytes: &[u8]) -> Frame {
    let mut p = Parser::new();
    assert_eq!(p.push_bytes(bytes), bytes.len());
    match p.next_frame() {
        Ok(Some(f)) => f,
        other => panic!("expected a frame, got {:?}", other),
    }
}

#[test]
fn crc_of_empty_is_initial_register() {
    assert_eq!(crc16_modbus(&[]), 0xFFFF);
}

#[test]
fn crc_check_value() {
    assert_eq!(crc16_modbus(b"123456789"), 0x4B37);
}

#[test]
fn crc_of_single_zero_byte() {
    assert_eq!(crc16_modbus(&[0x00]), 0x40BF);
}

#[test]
fn build_frame_layout() {
    let out = build_frame::<64>(0x01, 0x02, &[0xAA, 0xBB]).unwrap();
    assert_eq!(out.len(), 8);
    assert_eq!(&out[..6], &[STX, 4, 0x01, 0x02, 0xAA, 0xBB]);
    let crc = crc16_modbus(&out[..6]);
    assert_eq!(out[6], (crc & 0xff) as u8);
    assert_eq!(out[7], (crc >> 8) as u8);
}

#[test]
fn build_frame_known_bytes() {
    let out = build_frame::<16>(0x01, 0x01, &[]).unwrap();
    let crc = crc16_modbus(&[0xA5, 0x02, 0x01, 0x01]);
    assert_eq!(&out[..], &[0xA5, 0x02, 0x01, 0x01, (crc & 0xff) as u8, (crc >> 8) as u8][..]);
    assert_ne!(crc, 0xFFFF);
}

#[test]
fn build_frame_rejects_large_payload() {
    let payload = vec![0u8; MAX_PAYLOAD + 1];
    assert_eq!(build_frame::<512>(1, 2, &payload), Err(()));
}

#[test]
fn build_frame_accepts_largest_payload() {
    let payload = vec![7u8; MAX_PAYLOAD];
    let out = build_frame::<512>(1, 2, &payload).unwrap();
    assert_eq!(out.len(), MAX_FRAME);
    assert_eq!(out[1], 255);
}

#[test]
fn build_frame_rejects_small_destination() {
    assert_eq!(build_frame::<7>(1, 2, &[1, 2]), Err(()));
    assert!(build_frame::<8>(1, 2, &[1, 2]).is_ok());
}

#[test]
fn ack_payload_is_zero_status() {
    let out = build_ack::<64>(0x01, 0x02).unwrap();
    assert_eq!(out[1], 3);
    let f = decode_one(&out);
    assert_eq!(f.addr, 0x01);
    assert_eq!(f.cmd, 0x02);
    assert_eq!(&f.payload[..], &[0x00]);
    assert_eq!(f.status(), Some(0));
}

#[test]
fn ack_needs_seven_bytes() {
    assert_eq!(build_ack::<6>(1, 1), Err(()));
    assert!(build_ack::<7>(1, 1).is_ok());
}

#[test]
fn err_payload_carries_code() {
    let out = build_err::<64>(0x05, 0x77, 0x02).unwrap();
    let f = decode_one(&out);
    assert_eq!(f.addr, 0x05);
    assert_eq!(f.cmd, 0x77);
    assert_eq!(&f.payload[..], &[0x02]);
    assert_eq!(f.status(), Some(2));
}

#[test]
fn data_response_layout() {
    let out = build_data::<64>(0x01, 0x20, &[1, 2, 3]).unwrap();
    assert_eq!(out[1], 7);
    let f = decode_one(&out);
    assert_eq!(f.addr, 0x01);
    assert_eq!(f.cmd, 0x20);
    assert_eq!(&f.payload[..], &[0x00, 0x03, 1, 2, 3]);
}

#[test]
fn data_response_limits() {
    let ok = vec![9u8; MAX_PAYLOAD - 2];
    assert!(build_data::<512>(1, 2, &ok).is_ok());
    let too_long = vec![9u8; MAX_PAYLOAD - 1];
    assert_eq!(build_data::<512>(1, 2, &too_long), Err(()));
    assert_eq!(build_data::<64>(1, 2, &[0u8; 60]), Err(()));
}

#[test]
fn status_of_empty_payload_is_none() {
    let out = build_frame::<64>(3, 4, &[]).unwrap();
    let f = decode_one(&out);
    assert_eq!(f.status(), None);
    assert!(f.payload.is_empty());
}

#[test]
fn round_trip_various_payloads() {
    for n in [0usize, 1, 2, 17, 100, MAX_PAYLOAD] {
        let payload: Vec<u8> = (0..n).map(|i| (i * 31 + 7) as u8).collect();
        let out = build_frame::<512>(0x42, 0x99, &payload).unwrap();
        let mut p = Parser::new();
        p.push_bytes(&out);
        let f = p.next_frame().unwrap().unwrap();
        assert_eq!(f.addr, 0x42);
        assert_eq!(f.cmd, 0x99);
        assert_eq!(&f.payload[..], &payload[..]);
        assert!(matches!(p.next_frame(), Ok(None)));
    }
}

#[test]
fn checksum_flip_is_detected() {
    let out = build_frame::<64>(0x10, 0x20, &[1, 2, 3, 4]).unwrap();
    for k in 2..out.len() - 2 {
        for bit in 0..8 {
            let mut bad = out.clone();
            bad[k] ^= 1 << bit;
            let mut p = Parser::new();
            p.push_bytes(&bad);
            assert!(matches!(p.next_frame(), Err(ParseError::CrcMismatch)));
        }
    }
}

#[test]
fn corrupted_trailer_is_detected() {
    let mut out = build_ack::<64>(1, 2).unwrap();
    let last = out.len() - 1;
    out[last] ^= 0x80;
    let mut p = Parser::new();
    p.push_bytes(&out);
    assert!(matches!(p.next_frame(), Err(ParseError::CrcMismatch)));
    assert!(matches!(p.next_frame(), Ok(None)));
}

#[test]
fn len_too_small_resyncs_past_start_byte() {
    let mut p = Parser::new();
    assert_eq!(p.push_bytes(&[0xA5, 0x01, 0xFF, 0xFF]), 4);
    assert!(matches!(p.next_frame(), Err(ParseError::LenTooSmall)));
    assert!(matches!(p.next_frame(), Ok(None)));
    let out = build_ack::<64>(1, 2).unwrap();
    p.push_bytes(&out);
    assert_eq!(p.next_frame().unwrap().unwrap().cmd, 2);
}

#[test]
fn len_too_small_then_frame_in_same_buffer() {
    let mut bytes = vec![0xA5, 0x00];
    bytes.extend(build_err::<64>(9, 8, 7).unwrap());
    let mut p = Parser::new();
    p.push_bytes(&bytes);
    assert!(matches!(p.next_frame(), Err(ParseError::LenTooSmall)));
    let f = p.next_frame().unwrap().unwrap();
    assert_eq!((f.addr, f.cmd, f.status()), (9, 8, Some(7)));
}

#[test]
fn empty_parser_has_no_frame() {
    let mut p = Parser::new();
    assert!(matches!(p.next_frame(), Ok(None)));
    assert_eq!(p.push_bytes(&[]), 0);
    assert!(matches!(p.next_frame(), Ok(None)));
}

#[test]
fn noise_before_frame_is_skipped() {
    let mut bytes = vec![0x00, 0x13, 0xFF, 0x37];
    bytes.extend(build_data::<64>(1, 0x20, &[5, 6]).unwrap());
    let mut p = Parser::new();
    p.push_bytes(&bytes);
    let f = p.next_frame().unwrap().unwrap();
    assert_eq!(&f.payload[..], &[0, 2, 5, 6]);
    assert!(matches!(p.next_frame(), Ok(None)));
}

#[test]
fn noise_only_drains() {
    let mut p = Parser::new();
    let noise: Vec<u8> = (0..300u32).map(|i| (i % 200) as u8 ^ 0x5A).collect();
    p.push_bytes(&noise);
    let mut calls = 0;
    loop {
        calls += 1;
        assert!(calls <= noise.len() + 1);
        match p.next_frame() {
            Ok(None) => break,
            Ok(Some(_)) => panic!("noise decoded as a frame"),
            Err(_) => continue,
        }
    }
}

#[test]
fn partial_frame_waits_for_rest() {
    let out = build_data::<64>(1, 0x20, &[1, 2, 3, 4, 5, 6, 7, 8]).unwrap();
    let mut p = Parser::new();
    p.push_bytes(&out[..5]);
    assert!(matches!(p.next_frame(), Ok(None)));
    assert!(matches!(p.next_frame(), Ok(None)));
    p.push_bytes(&out[5..]);
    let f = p.next_frame().unwrap().unwrap();
    assert_eq!(&f.payload[2..], &[1, 2, 3, 4, 5, 6, 7, 8]);
}

#[test]
fn byte_by_byte_matches_whole() {
    let out = build_frame::<64>(0x33, 0x44, &[9, 8, 7, 6, 5]).unwrap();
    let mut p = Parser::new();
    for b in &out {
        assert_eq!(p.push_bytes(&[*b]), 1);
    }
    let a = p.next_frame().unwrap().unwrap();
    let b = decode_one(&out);
    assert_eq!((a.addr, a.cmd, &a.payload[..]), (b.addr, b.cmd, &b.payload[..]));
    assert_eq!(a, b);
    assert_eq!(a.clone(), b);
}

#[test]
fn uneven_chunks_match_whole() {
    let out = build_frame::<64>(0x01, 0x02, &[1, 2, 3, 4, 5, 6, 7]).unwrap();
    let mut p = Parser::new();
    p.push_bytes(&out[..1]);
    p.push_bytes(&out[1..4]);
    p.push_bytes(&[]);
    p.push_bytes(&out[4..]);
    let f = p.next_frame().unwrap().unwrap();
    assert_eq!(&f.payload[..], &[1, 2, 3, 4, 5, 6, 7]);
}

#[test]
fn two_frames_in_one_chunk() {
    let mut bytes = build_ack::<64>(1, 1).unwrap();
    bytes.extend(build_err::<64>(2, 3, 4).unwrap());
    let mut p = Parser::new();
    p.push_bytes(&bytes);
    let f1 = p.next_frame().unwrap().unwrap();
    assert_eq!((f1.addr, f1.cmd, f1.status()), (1, 1, Some(0)));
    let f2 = p.next_frame().unwrap().unwrap();
    assert_eq!((f2.addr, f2.cmd, f2.status()), (2, 3, Some(4)));
    assert!(matches!(p.next_frame(), Ok(None)));
}

#[test]
fn overflow_keeps_only_newest_bytes() {
    let mut p = Parser::new();
    let filler = vec![0x11u8; STREAM_BUF_CAP];
    assert_eq!(p.push_bytes(&filler), STREAM_BUF_CAP);
    let out = build_ack::<64>(7, 8).unwrap();
    assert_eq!(p.push_bytes(&out), out.len());
    let f = p.next_frame().unwrap().unwrap();
    assert_eq!((f.addr, f.cmd), (7, 8));
    assert!(matches!(p.next_frame(), Ok(None)));
}

#[test]
fn overflow_drops_old_partial_frame() {
    let mut p = Parser::new();
    let out = build_ack::<64>(7, 8).unwrap();
    assert_eq!(p.push_bytes(&out[..3]), 3);
    let filler = vec![0x11u8; STREAM_BUF_CAP - 2];
    assert_eq!(p.push_bytes(&filler), filler.len());
    assert_eq!(p.push_bytes(&out[3..]), out.len() - 3);
    loop {
        match p.next_frame() {
            Ok(None) => break,
            Ok(Some(_)) => panic!("a frame spanning the discarded boundary was decoded"),
            Err(_) => continue,
        }
    }
}

#[test]
fn overflowing_chunk_is_kept_whole() {
    let mut p = Parser::new();
    let filler = vec![0x11u8; STREAM_BUF_CAP - 3];
    assert_eq!(p.push_bytes(&filler), filler.len());
    let out = build_ack::<64>(7, 8).unwrap();
    assert_eq!(p.push_bytes(&out), out.len());
    let f = p.next_frame().unwrap().unwrap();
    assert_eq!((f.addr, f.cmd, f.status()), (7, 8, Some(0)));
    assert!(matches!(p.next_frame(), Ok(None)));
}

#[test]
fn full_buffer_then_two_bytes_keeps_both() {
    let mut p = Parser::new();
    assert_eq!(p.push_bytes(&vec![0x11u8; STREAM_BUF_CAP - 1]), STREAM_BUF_CAP - 1);
    let out = build_ack::<64>(1, 2).unwrap();
    assert_eq!(p.push_bytes(&out[..2]), 2);
    assert!(matches!(p.next_frame(), Ok(None)));
    assert_eq!(p.push_bytes(&out[2..]), out.len() - 2);
    let f = p.next_frame().unwrap().unwrap();
    assert_eq!((f.addr, f.cmd), (1, 2));
}

#[test]
fn oversized_chunk_keeps_newest_bytes() {
    let mut p = Parser::new();
    let mut chunk = vec![0xA5u8; 40];
    chunk.extend(vec![0x00u8; STREAM_BUF_CAP - 7]);
    let out = build_err::<64>(3, 4, 5).unwrap();
    chunk.extend(&out);
    assert_eq!(chunk.len(), STREAM_BUF_CAP + 40);
    assert_eq!(p.push_bytes(&chunk), STREAM_BUF_CAP);
    loop {
        match p.next_frame() {
            Ok(Some(f)) => {
                assert_eq!((f.addr, f.cmd, f.status()), (3, 4, Some(5)));
                break;
            }
            Ok(None) => panic!("the newest frame was lost"),
            Err(_) => continue,
        }
    }
}

#[test]
fn chunk_of_capacity_plus_one_into_empty_parser() {
    let mut p = Parser::new();
    assert_eq!(p.push_bytes(&vec![0x22u8; STREAM_BUF_CAP + 1]), STREAM_BUF_CAP);
    assert_eq!(p.push_bytes(&[0x22]), 1);
}

#[test]
fn push_far_more_than_capacity() {
    let mut p = Parser::new();
    let big: Vec<u8> = (0..3 * STREAM_BUF_CAP).map(|i| (i % 251) as u8).collect();
    assert_eq!(p.push_bytes(&big), STREAM_BUF_CAP);
    let mut calls = 0;
    loop {
        calls += 1;
        assert!(calls <= STREAM_BUF_CAP + 1);
        if let Ok(None) = p.next_frame() {
            break;
        }
    }
}
