use live_reload::ws::{
    accept_key, control_frame, encode_digest, read_frame, send_pong, text_frame, FrameReader,
    Incoming, OP_PONG,
};

#[test]
fn computes_the_handshake_accept_value_from_rfc_6455() {
    // The worked example in RFC 6455 section 1.3.
    assert_eq!(
        accept_key("dGhlIHNhbXBsZSBub25jZQ=="),
        "s3pPLMBiTxaQ9kYGzzhZRbK+xOo="
    );
}

#[test]
fn writes_digests_in_base64() {
    assert_eq!(encode_digest(b""), "");
    assert_eq!(encode_digest(b"f"), "Zg==");
    assert_eq!(encode_digest(b"fo"), "Zm8=");
    assert_eq!(encode_digest(b"foo"), "Zm9v");
    assert_eq!(encode_digest(&[0xfb, 0xff, 0xfe]), "+//+");
}

#[test]
fn encodes_short_payloads_with_a_single_length_byte() {
    let frame = text_frame("hi");
    assert_eq!(frame, vec![0x81, 0x02, b'h', b'i']);
}

#[test]
fn switches_to_the_16_bit_length_form_at_126_bytes() {
    let frame = text_frame(&"x".repeat(126));
    assert_eq!(&frame[..4], &[0x81, 126, 0x00, 126]);
    assert_eq!(frame.len(), 4 + 126);
}

#[test]
fn switches_to_the_64_bit_length_form_past_u16() {
    let payload = "x".repeat(u16::MAX as usize + 1);
    let frame = text_frame(&payload);
    assert_eq!(frame[1], 127);
    assert_eq!(
        u64::from_be_bytes(frame[2..10].try_into().unwrap()),
        payload.len() as u64
    );
}

#[test]
fn caps_control_frame_payloads_at_the_protocol_limit() {
    let frame = control_frame(OP_PONG, &[0u8; 200]);
    assert_eq!(frame[1], 125);
    assert_eq!(frame.len(), 127);
}

#[test]
fn answers_a_ping_with_its_payload() {
    assert_eq!(send_pong(b"ab"), vec![0x8a, 2, b'a', b'b']);
}

fn client_frame(opcode: u8, payload: &[u8]) -> Vec<u8> {
    let mask = [1u8, 2, 3, 4];
    let mut frame = vec![0x80 | opcode];
    if payload.len() < 126 {
        frame.push(0x80 | payload.len() as u8);
    } else {
        frame.push(0x80 | 126);
        frame.extend_from_slice(&(payload.len() as u16).to_be_bytes());
    }
    frame.extend_from_slice(&mask);
    for (index, byte) in payload.iter().enumerate() {
        frame.push(byte ^ mask[index % 4]);
    }
    frame
}

#[test]
fn unmasks_the_payload_of_a_ping() {
    for length in [0usize, 1, 5, 125, 126, 300] {
        let payload: Vec<u8> = (0..length).map(|index| index as u8).collect();
        match read_frame(&client_frame(0x9, &payload)) {
            Incoming::Pong(back) => assert_eq!(back, payload),
            _ => panic!("expected a ping"),
        }
    }
}

#[test]
fn reads_unmasked_frames_too() {
    match read_frame(&[0x89, 2, b'h', b'i']) {
        Incoming::Pong(back) => assert_eq!(back, b"hi"),
        _ => panic!("expected a ping"),
    }
}

#[test]
fn closes_on_a_close_frame_and_ignores_the_rest() {
    assert!(matches!(read_frame(&client_frame(0x8, b"")), Incoming::Close));
    assert!(matches!(read_frame(&client_frame(0x1, b"hello")), Incoming::Ignore));
    assert!(matches!(read_frame(&client_frame(0xA, b"")), Incoming::Ignore));
    assert!(matches!(read_frame(&client_frame(0x2, b"")), Incoming::Ignore));
}

#[test]
fn closes_on_a_stream_that_ends_early() {
    let frame = client_frame(0x9, b"hello");
    for length in 0..frame.len() {
        assert!(matches!(read_frame(&frame[..length]), Incoming::Close));
    }
}

#[test]
fn closes_on_a_frame_that_is_too_long() {
    let mut frame = vec![0x89, 127];
    frame.extend_from_slice(&65537u64.to_be_bytes());
    frame.extend_from_slice(&vec![0u8; 65537]);
    assert!(matches!(read_frame(&frame), Incoming::Close));

    let mut frame = vec![0x89, 127];
    frame.extend_from_slice(&65536u64.to_be_bytes());
    frame.extend_from_slice(&vec![7u8; 65536]);
    match read_frame(&frame) {
        Incoming::Pong(back) => assert_eq!(back.len(), 65536),
        _ => panic!("expected a ping"),
    }
}

#[test]
fn the_reader_asks_for_one_piece_at_a_time() {
    let frame = client_frame(0x9, b"hey");
    let reader = FrameReader::new();
    assert_eq!(reader.wanted(), 2);
    let reader = reader.feed(Some(frame[..2].to_vec()));
    assert_eq!(reader.wanted(), 4);
    let reader = reader.feed(Some(frame[2..6].to_vec()));
    assert_eq!(reader.wanted(), 3);
    let reader = reader.feed(Some(frame[6..].to_vec()));
    assert_eq!(reader.wanted(), 0);
    match reader {
        FrameReader::Done(Incoming::Pong(back)) => assert_eq!(back, b"hey"),
        _ => panic!("expected a ping"),
    }
}

#[test]
fn the_reader_closes_when_a_read_fails() {
    let reader = FrameReader::new().feed(None);
    assert!(matches!(reader, FrameReader::Done(Incoming::Close)));
}
