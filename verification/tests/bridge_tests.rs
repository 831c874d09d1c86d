use rshell_core::bridge::{
    decode_input_frame, encode_input_frame, BridgePort, Coalescer, FrameError, WsMessage,
    FLUSH_BYTES, FLUSH_INTERVAL_MS, FRAME_ID_LEN, INPUT_FRAME_COMMAND,
};

fn sample_id() -> Vec<u8> {
    (0..FRAME_ID_LEN as u8).map(|i| b'a' + (i % 26)).collect()
}

#[test]
fn test_frame_round_trip() {
    let id = sample_id();
    let payload = b"ls -la\n".to_vec();
    let frame = encode_input_frame(&id, &payload);
    assert_eq!(frame.len(), 1 + FRAME_ID_LEN + payload.len());
    assert_eq!(frame[0], INPUT_FRAME_COMMAND);
    let (got_id, got_payload) = decode_input_frame(&frame).expect("decode");
    assert_eq!(got_id, id);
    assert_eq!(got_payload, payload);
}

#[test]
fn test_frame_round_trip_empty_payload() {
    let id = sample_id();
    let frame = encode_input_frame(&id, &[]);
    let (got_id, got_payload) = decode_input_frame(&frame).expect("decode");
    assert_eq!(got_id, id);
    assert!(got_payload.is_empty());
}

#[test]
fn test_frame_too_short() {
    assert_eq!(decode_input_frame(&[]), Err(FrameError::TooShort));
    let short = vec![INPUT_FRAME_COMMAND; FRAME_ID_LEN];
    assert_eq!(decode_input_frame(&short), Err(FrameError::TooShort));
}

#[test]
fn test_frame_unknown_command() {
    let mut frame = encode_input_frame(&sample_id(), b"x");
    frame[0] = 0x7f;
    assert_eq!(decode_input_frame(&frame), Err(FrameError::UnknownCommand));
}

#[test]
fn test_coalescer_flushes_on_size() {
    let mut c = Coalescer::new(0);
    // Small reads accumulate without flushing while under both
    // thresholds.
    assert_eq!(c.feed(&[1u8; 100], 1), None);
    assert_eq!(c.feed(&[2u8; 100], 2), None);
    // Crossing the size threshold flushes everything fed so far.
    let out = c.feed(&vec![3u8; FLUSH_BYTES], 3).expect("flush");
    assert_eq!(out.len(), 200 + FLUSH_BYTES);
    assert_eq!(&out[..100], &[1u8; 100][..]);
    assert_eq!(&out[100..200], &[2u8; 100][..]);
}

#[test]
fn test_coalescer_flushes_on_time() {
    let mut c = Coalescer::new(0);
    assert_eq!(c.feed(b"a", 1), None);
    assert_eq!(c.feed(b"b", 2), None);
    // The time threshold elapsed: the batch goes out in feed order.
    let out = c.feed(b"c", FLUSH_INTERVAL_MS).expect("flush");
    assert_eq!(out, b"abc".to_vec());
    // The clock anchor moved: the next small feed buffers again.
    assert_eq!(c.feed(b"d", FLUSH_INTERVAL_MS + 1), None);
    let rest = c.flush_now(FLUSH_INTERVAL_MS + 2).expect("flush");
    assert_eq!(rest, b"d".to_vec());
    assert_eq!(c.flush_now(FLUSH_INTERVAL_MS + 3), None);
}

#[test]
fn test_bridge_port_set_once() {
    let mut p = BridgePort::new();
    assert_eq!(p.query(), None);
    assert!(p.publish(9001));
    assert_eq!(p.query(), Some(9001));
    // A second publication is refused and changes nothing.
    assert!(!p.publish(9002));
    assert_eq!(p.query(), Some(9001));
}

#[test]
fn test_ws_message_close_carries_generation() {
    let msg = WsMessage::Close { session_id: "c1".to_string(), generation: Some(2) };
    match msg {
        WsMessage::Close { session_id, generation } => {
            assert_eq!(session_id, "c1");
            assert_eq!(generation, Some(2));
        }
        _ => panic!("expected Close"),
    }
}
