use pixelstrom::framebuffer::{FrameBuffer, PixelUpdate};
use pixelstrom::message::Payload;

fn painted_bytes(m: &pixelstrom::message::WebSocketMessage) -> (String, Vec<u8>) {
    match &m.payload {
        Some(Payload::UserPainting(p)) => (p.username.clone(), p.painted.clone()),
        _ => panic!("expected a UserPainting event"),
    }
}

#[test]
fn new_canvas_is_black_and_bounded() {
    let fb = FrameBuffer::new(4, 3);
    assert_eq!(fb.width(), 4);
    assert_eq!(fb.height(), 3);
    assert_eq!(fb.num_pixels(), 12);
    assert_eq!(fb.get(0, 0), Some(0));
    assert_eq!(fb.get(3, 2), Some(0));
    assert_eq!(fb.get(4, 0), None);
    assert_eq!(fb.get(0, 3), None);
}

#[test]
fn set_multi_applies_in_order_and_ignores_off_canvas() {
    let mut fb = FrameBuffer::new(4, 4);
    let updates = vec![
        PixelUpdate { x: 1, y: 2, rgba: 0xff0000 },
        PixelUpdate { x: 1, y: 2, rgba: 0x00ff00 },
        PixelUpdate { x: 9, y: 9, rgba: 0x123456 },
        PixelUpdate { x: 3, y: 0, rgba: 0x0000ff },
    ];
    let event = fb.set_multi("alice".to_string(), &updates);
    assert_eq!(fb.get(1, 2), Some(0x00ff00));
    assert_eq!(fb.get(3, 0), Some(0x0000ff));
    assert_eq!(fb.get(0, 0), Some(0));
    let (name, bytes) = painted_bytes(&event);
    assert_eq!(name, "alice");
    assert_eq!(bytes.len(), 32);
    assert_eq!(&bytes[0..8], &[1, 0, 2, 0, 0x00, 0x00, 0xff, 0x00]);
    assert_eq!(&bytes[16..24], &[9, 0, 9, 0, 0x56, 0x34, 0x12, 0x00]);
}

#[test]
fn packed_pixels_are_little_endian() {
    let mut fb = FrameBuffer::new(2, 2);
    let event = fb.set_multi("bob".to_string(), &[PixelUpdate { x: 0x0102, y: 0x0304, rgba: 0x0a0b0c0d }]);
    let (_, bytes) = painted_bytes(&event);
    assert_eq!(bytes, vec![0x02, 0x01, 0x04, 0x03, 0x0d, 0x0c, 0x0b, 0x0a]);
    assert_eq!(fb.get(0, 0), Some(0));
}

#[test]
fn empty_batch_changes_nothing() {
    let mut fb = FrameBuffer::new(2, 2);
    let event = fb.set_multi("carol".to_string(), &[]);
    let (_, bytes) = painted_bytes(&event);
    assert!(bytes.is_empty());
    assert_eq!(fb.get(1, 1), Some(0));
}

#[test]
fn screen_sync_round_trips() {
    let mut fb = FrameBuffer::new(3, 2);
    fb.set_multi(
        "dave".to_string(),
        &[
            PixelUpdate { x: 0, y: 0, rgba: 0x11223344 },
            PixelUpdate { x: 2, y: 1, rgba: 0xffffffff },
            PixelUpdate { x: 1, y: 1, rgba: 7 },
        ],
    );
    let sync = fb.to_screen_sync();
    assert_eq!(sync.width, 3);
    assert_eq!(sync.height, 2);
    assert_eq!(sync.pixels.len(), 24);
    assert_eq!(&sync.pixels[0..4], &[0x44, 0x33, 0x22, 0x11]);
    let pixels = sync.to_pixels();
    assert_eq!(pixels, vec![0x11223344, 0, 0, 0, 7, 0xffffffff]);
}

#[test]
fn to_pixels_ignores_trailing_partial_pixel() {
    let sync = pixelstrom::message::ScreenSync { width: 1, height: 1, pixels: vec![1, 0, 0, 0, 9, 9] };
    assert_eq!(sync.to_pixels(), vec![1]);
}

#[test]
fn fill_with_rgb_puts_red_in_the_lowest_byte() {
    let mut fb = FrameBuffer::new(2, 1);
    fb.fill_with_rgb(&[(0x10, 0x20, 0x30)]);
    assert_eq!(fb.get(0, 0), Some(0x302010));
    assert_eq!(fb.get(1, 0), Some(0));
    fb.fill_with_rgb(&[(1, 0, 0), (0, 1, 0), (0, 0, 1)]);
    assert_eq!(fb.get(0, 0), Some(0x000001));
    assert_eq!(fb.get(1, 0), Some(0x000100));
}
