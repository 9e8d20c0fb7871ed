use pixelstrom::compress::{compress_message, web_socket_closed_because_of_lag_message};
use pixelstrom::framebuffer::FrameBuffer;
use pixelstrom::message::{
    encode_to_vec, CurrentlyPaintingUser, Payload, UserStatistics, UserStatisticsUpdate, WebSocketClosedBecauseOfLag,
    WebSocketMessage,
};
use pixelstrom::spectator::{spectator_step, BroadcastReceive, SpectatorAction};

fn lag(n: u64) -> WebSocketMessage {
    WebSocketMessage { payload: Some(Payload::WebSocketClosedBecauseOfLag(WebSocketClosedBecauseOfLag { lag: n })) }
}

#[test]
fn encodes_lag_message_exactly() {
    assert_eq!(encode_to_vec(&lag(6)), vec![0x2a, 0x02, 0x08, 0x06]);
    assert_eq!(encode_to_vec(&lag(300)), vec![0x2a, 0x03, 0x08, 0xac, 0x02]);
    assert_eq!(encode_to_vec(&WebSocketMessage { payload: None }), Vec::<u8>::new());
}

#[test]
fn encodes_currently_painting_and_statistics() {
    let m = WebSocketMessage {
        payload: Some(Payload::CurrentlyPaintingUser(CurrentlyPaintingUser { currently_painting: "u1".to_string() })),
    };
    assert_eq!(encode_to_vec(&m), vec![0x1a, 0x04, 0x0a, 0x02, b'u', b'1']);
    let s = WebSocketMessage {
        payload: Some(Payload::UserStatisticsUpdate(UserStatisticsUpdate {
            statistics: vec![UserStatistics {
                username: "a".to_string(),
                average_pixels_per_round_bits: 1.5f32.to_bits(),
                average_response_time_milliseconds_bits: 0,
            }],
        })),
    };
    let mut inner = vec![0x0a, 0x01, b'a', 0x15];
    inner.extend_from_slice(&1.5f32.to_le_bytes());
    inner.extend_from_slice(&[0x1d, 0, 0, 0, 0]);
    let mut entry = vec![0x0a, inner.len() as u8];
    entry.extend_from_slice(&inner);
    let mut expected = vec![0x22, entry.len() as u8];
    expected.extend_from_slice(&entry);
    assert_eq!(encode_to_vec(&s), expected);
}

#[test]
fn encodes_screen_sync() {
    let fb = FrameBuffer::new(2, 1);
    let m = WebSocketMessage { payload: Some(Payload::ScreenSync(fb.to_screen_sync())) };
    assert_eq!(encode_to_vec(&m), vec![0x12, 0x0e, 0x08, 0x02, 0x10, 0x01, 0x1a, 0x08, 0, 0, 0, 0, 0, 0, 0, 0]);
}

#[test]
fn compressed_frame_decompresses_to_the_encoding() {
    let mut fb = FrameBuffer::new(8, 8);
    let event = fb.set_multi("zoe".to_string(), &[pixelstrom::framebuffer::PixelUpdate { x: 1, y: 1, rgba: 5 }]);
    let frame = compress_message(&event).unwrap();
    assert_ne!(frame, encode_to_vec(&event));
    assert_eq!(zstd::decode_all(frame.as_slice()).unwrap(), encode_to_vec(&event));
}

#[test]
fn lag_message_decompresses_to_lag_encoding() {
    let frame = web_socket_closed_because_of_lag_message(6).unwrap();
    assert_eq!(zstd::decode_all(frame.as_slice()).unwrap(), vec![0x2a, 0x02, 0x08, 0x06]);
}

#[test]
fn lagging_spectator_gets_one_lag_frame() {
    let (tx, mut rx) = tokio::sync::broadcast::channel::<Vec<u8>>(4);
    for i in 0..10u8 {
        tx.send(vec![i]).unwrap();
    }
    let received = match rx.try_recv() {
        Err(tokio::sync::broadcast::error::TryRecvError::Lagged(n)) => BroadcastReceive::Lagged(n),
        other => panic!("expected lag, got {:?}", other),
    };
    match spectator_step(received) {
        SpectatorAction::SendThenClose(frame) => {
            assert_eq!(zstd::decode_all(frame.as_slice()).unwrap(), encode_to_vec(&lag(6)));
        }
        _ => panic!("expected a last frame"),
    }
}

#[test]
fn frames_are_forwarded_and_closing_closes() {
    match spectator_step(BroadcastReceive::Frame(vec![1, 2, 3])) {
        SpectatorAction::Forward(f) => assert_eq!(f, vec![1, 2, 3]),
        _ => panic!("expected forward"),
    }
    assert!(matches!(spectator_step(BroadcastReceive::Closed), SpectatorAction::Close));
}
