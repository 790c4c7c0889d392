use fast_ws::buffer::StreamBuffer;
use fast_ws::frame::encode_frame;
use fast_ws::frame::FrameDecoder;
use fast_ws::frame::OpCode;
use fast_ws::frame::Outcome;
use fast_ws::frame::ProtocolError;

const CEILING: usize = 1 << 20;

fn buffer_with(bytes: &[u8]) -> StreamBuffer {
    let mut b = StreamBuffer::new(CEILING);
    b.append(bytes).expect("append within ceiling");
    b
}

fn client_decoder() -> FrameDecoder {
    FrameDecoder::new(1 << 24)
}

fn server_decoder() -> FrameDecoder {
    FrameDecoder::new_with_role(1 << 24, true)
}

fn mask_bytes(payload: &[u8], key: [u8; 4]) -> Vec<u8> {
    payload.iter().enumerate().map(|(i, b)| b ^ key[i % 4]).collect()
}

#[test]
fn parses_unmasked_text_hello() {
    let bytes = [0x81, 0x05, b'H', b'e', b'l', b'l', b'o'];
    let buf = buffer_with(&bytes);
    match client_decoder().try_parse(&buf) {
        Outcome::Frame { header, payload, bytes_consumed } => {
            assert!(header.fin);
            assert_eq!(header.opcode, OpCode::Text);
            assert_eq!(header.payload_len, 5);
            assert_eq!(header.masking_key, None);
            assert_eq!(payload, b"Hello".to_vec());
            assert_eq!(bytes_consumed, 7);
        },
        _ => panic!("expected a frame"),
    }
}

#[test]
fn incremental_feed_agrees_with_single_shot() {
    let bytes = [0x82, 0x86, 0x01, 0x02, 0x03, 0x04, 0x11, 0x22, 0x33, 0x44, 0x55, 0x66];
    let decoder = server_decoder();
    let whole = {
        let buf = buffer_with(&bytes);
        decoder.try_parse(&buf)
    };
    let (whole_header, whole_payload, whole_consumed) = match whole {
        Outcome::Frame { header, payload, bytes_consumed } => (header, payload, bytes_consumed),
        _ => panic!("whole input must parse"),
    };
    for split in 0..bytes.len() {
        let mut buf = StreamBuffer::new(CEILING);
        buf.append(&bytes[..split]).unwrap();
        for cut in split..bytes.len() {
            match decoder.try_parse(&buf) {
                Outcome::NeedMoreBytes(hint) => assert!(hint > 0),
                other => panic!("prefix of length {} gave {:?} instead of NeedMoreBytes", cut, kind_of(&other)),
            }
            buf.append(&bytes[cut..cut + 1]).unwrap();
        }
        match decoder.try_parse(&buf) {
            Outcome::Frame { header, payload, bytes_consumed } => {
                assert_eq!(header.fin, whole_header.fin);
                assert_eq!(header.opcode, whole_header.opcode);
                assert_eq!(header.payload_len, whole_header.payload_len);
                assert_eq!(header.masking_key, whole_header.masking_key);
                assert_eq!(payload, whole_payload);
                assert_eq!(bytes_consumed, whole_consumed);
            },
            _ => panic!("complete input must parse identically"),
        }
    }
}

fn kind_of(o: &Outcome) -> &'static str {
    match o {
        Outcome::NeedMoreBytes(_) => "NeedMoreBytes",
        Outcome::Frame { .. } => "Frame",
        Outcome::Violation(_) => "Violation",
    }
}

#[test]
fn rsv_bits_rejected() {
    for rsv in [0x10u8, 0x20, 0x40, 0x70] {
        let bytes = [0x81 | rsv, 0x00];
        let buf = buffer_with(&bytes);
        match client_decoder().try_parse(&buf) {
            Outcome::Violation(e) => assert_eq!(e, ProtocolError::ReservedBitsSet),
            _ => panic!("rsv {:#x} must be rejected", rsv),
        }
    }
}

#[test]
fn unknown_opcode_rejected() {
    let bytes = [0x83, 0x00];
    let buf = buffer_with(&bytes);
    match client_decoder().try_parse(&buf) {
        Outcome::Violation(e) => assert_eq!(e, ProtocolError::UnknownOpcode),
        _ => panic!("opcode 0x3 must be rejected"),
    }
}

#[test]
fn masked_frame_rejected_for_client_role() {
    let bytes = [0x81, 0x85, 1, 2, 3, 4, 0, 0, 0, 0, 0];
    let buf = buffer_with(&bytes);
    match client_decoder().try_parse(&buf) {
        Outcome::Violation(e) => assert_eq!(e, ProtocolError::UnexpectedMaskedFrame),
        _ => panic!("masked frame must be rejected in client role"),
    }
}

#[test]
fn unmasked_frame_rejected_for_server_role() {
    let bytes = [0x81, 0x05, b'H', b'e', b'l', b'l', b'o'];
    let buf = buffer_with(&bytes);
    match server_decoder().try_parse(&buf) {
        Outcome::Violation(e) => assert_eq!(e, ProtocolError::ExpectedMaskedFrame),
        _ => panic!("unmasked frame must be rejected in server role"),
    }
}

#[test]
fn masked_payload_is_unmasked() {
    let key = [0xA1, 0xB2, 0xC3, 0xD4];
    let clear = b"masked payload!";
    let mut bytes = vec![0x82, 0x80 | clear.len() as u8];
    bytes.extend_from_slice(&key);
    bytes.extend_from_slice(&mask_bytes(clear, key));
    let buf = buffer_with(&bytes);
    match server_decoder().try_parse(&buf) {
        Outcome::Frame { header, payload, bytes_consumed } => {
            assert_eq!(header.masking_key, Some(key));
            assert_eq!(payload, clear.to_vec());
            assert_eq!(bytes_consumed, bytes.len());
        },
        _ => panic!("masked frame must parse in server role"),
    }
}

#[test]
fn sixteen_bit_extended_length() {
    let payload: Vec<u8> = (0..300u32).map(|i| (i % 251) as u8).collect();
    let mut bytes = vec![0x82, 126, (300u16 >> 8) as u8, (300u16 & 0xFF) as u8];
    bytes.extend_from_slice(&payload);
    let buf = buffer_with(&bytes);
    match client_decoder().try_parse(&buf) {
        Outcome::Frame { header, payload: got, bytes_consumed } => {
            assert_eq!(header.payload_len, 300);
            assert_eq!(got, payload);
            assert_eq!(bytes_consumed, 304);
        },
        _ => panic!("extended 16-bit length must parse"),
    }
}

#[test]
fn sixty_four_bit_extended_length() {
    let payload: Vec<u8> = vec![0x7E; 70000];
    let mut bytes = vec![0x82, 127, 0, 0, 0, 0, 0, 1, 0x11, 0x70];
    bytes.extend_from_slice(&payload);
    let buf = buffer_with(&bytes);
    match client_decoder().try_parse(&buf) {
        Outcome::Frame { header, payload: got, bytes_consumed } => {
            assert_eq!(header.payload_len, 70000);
            assert_eq!(got.len(), 70000);
            assert_eq!(got, payload);
            assert_eq!(bytes_consumed, 70010);
        },
        _ => panic!("extended 64-bit length must parse"),
    }
}

#[test]
fn sixty_four_bit_length_top_bit_rejected() {
    let bytes = [0x82, 127, 0x80, 0, 0, 0, 0, 0, 0, 1];
    let buf = buffer_with(&bytes);
    match client_decoder().try_parse(&buf) {
        Outcome::Violation(e) => assert_eq!(e, ProtocolError::InvalidLength),
        _ => panic!("length with top bit set must be rejected"),
    }
}

#[test]
fn oversized_announcement_rejected_before_payload_arrives() {
    let decoder = FrameDecoder::new(1024);
    // Only the four header bytes are present: not one payload byte has
    // been read when the announcement is refused.
    let bytes = [0x82, 126, 0x08, 0x00];
    let buf = buffer_with(&bytes);
    match decoder.try_parse(&buf) {
        Outcome::Violation(e) => assert_eq!(e, ProtocolError::PayloadTooLarge),
        _ => panic!("oversized announcement must be rejected at once"),
    }
}

#[test]
fn control_frame_longer_than_125_rejected() {
    let bytes = [0x89, 126, 0x00, 0x7E];
    let buf = buffer_with(&bytes);
    match client_decoder().try_parse(&buf) {
        Outcome::Violation(e) => assert_eq!(e, ProtocolError::InvalidControlFrame),
        _ => panic!("oversized control frame must be rejected"),
    }
}

#[test]
fn fragmented_control_frame_rejected() {
    let bytes = [0x09, 0x00];
    let buf = buffer_with(&bytes);
    match client_decoder().try_parse(&buf) {
        Outcome::Violation(e) => assert_eq!(e, ProtocolError::InvalidControlFrame),
        _ => panic!("non-final control frame must be rejected"),
    }
}

#[test]
fn zero_length_payload_yields_frame() {
    let bytes = [0x8A, 0x00];
    let buf = buffer_with(&bytes);
    match client_decoder().try_parse(&buf) {
        Outcome::Frame { header, payload, bytes_consumed } => {
            assert_eq!(header.opcode, OpCode::Pong);
            assert!(payload.is_empty());
            assert_eq!(bytes_consumed, 2);
        },
        _ => panic!("zero-length frame must parse"),
    }
}

#[test]
fn encode_unmasked_matches_wire_bytes() {
    let payload = b"Hello".to_vec();
    let frame = encode_frame(true, OpCode::Text, &payload, None);
    assert_eq!(frame, vec![0x81, 0x05, b'H', b'e', b'l', b'l', b'o']);
}

#[test]
fn encode_masked_parses_back() {
    let payload: Vec<u8> = (0..200u32).map(|i| (i * 7 % 256) as u8).collect();
    let key = [0x0F, 0xF0, 0x55, 0xAA];
    let frame = encode_frame(true, OpCode::Binary, &payload, Some(key));
    assert_eq!(frame[0], 0x82);
    assert_eq!(frame[1], 0x80 | 126);
    let buf = buffer_with(&frame);
    match server_decoder().try_parse(&buf) {
        Outcome::Frame { header, payload: got, bytes_consumed } => {
            assert_eq!(header.opcode, OpCode::Binary);
            assert_eq!(header.masking_key, Some(key));
            assert_eq!(got, payload);
            assert_eq!(bytes_consumed, frame.len());
        },
        _ => panic!("encoded frame must parse back"),
    }
}

#[test]
fn buffer_overflow_reported() {
    let mut buf = StreamBuffer::new(8);
    assert!(buf.append(&[1, 2, 3, 4, 5]).is_ok());
    assert!(buf.append(&[6, 7, 8, 9]).is_err());
    assert_eq!(buf.unconsumed_len(), 5);
}

#[test]
fn buffer_advance_and_compact_keep_contents() {
    let mut buf = StreamBuffer::new(64);
    buf.append(&[10, 20, 30, 40, 50]).unwrap();
    buf.advance_consumed(2);
    assert_eq!(buf.unconsumed_len(), 3);
    assert_eq!(buf.get(0), 30);
    buf.compact();
    assert_eq!(buf.unconsumed_len(), 3);
    assert_eq!(buf.get(0), 30);
    assert_eq!(buf.get(2), 50);
    buf.append(&[60]).unwrap();
    assert_eq!(buf.copy_range(0, 4), vec![30, 40, 50, 60]);
}

#[test]
fn encode_pong_reply_exact_bytes() {
    let payload = b"abc".to_vec();
    let frame = encode_frame(true, OpCode::Pong, &payload, None);
    assert_eq!(frame, vec![0x8A, 0x03, b'a', b'b', b'c']);
}

#[test]
fn encode_large_unmasked_parses_back() {
    let payload: Vec<u8> = (0..70000u32).map(|i| (i % 253) as u8).collect();
    let frame = encode_frame(true, OpCode::Binary, &payload, None);
    assert_eq!(frame[1], 127);
    assert_eq!(&frame[2..10], &[0, 0, 0, 0, 0, 1, 0x11, 0x70]);
    let buf = buffer_with(&frame);
    match client_decoder().try_parse(&buf) {
        Outcome::Frame { header, payload: got, bytes_consumed } => {
            assert_eq!(header.payload_len, 70000);
            assert_eq!(got, payload);
            assert_eq!(bytes_consumed, frame.len());
        },
        _ => panic!("large encoded frame must parse back"),
    }
}
