use pixelstrom::framebuffer::FrameBuffer;
use pixelstrom::message::Payload;
use pixelstrom::response::Response;
use pixelstrom::scheduler::UserScheduler;
use pixelstrom::session::{ClientConnection, SlotEvent, Step};

fn logged_in(name: &str, max: u32, fb: &mut FrameBuffer) -> ClientConnection {
    let mut c = ClientConnection::new(max, 500, fb.width(), fb.height());
    let line = format!("LOGIN {} secret", name);
    match c.process_line(&line, fb) {
        Step::CheckCredentials { username, password } => {
            assert_eq!(username, name);
            assert_eq!(password, "secret");
            assert_eq!(c.login_result(username, true), Response::LoginSucceeded);
        }
        _ => panic!("expected a credential check"),
    }
    c
}

fn reply(step: Step) -> Option<Response> {
    match step {
        Step::Reply(r) => Some(r),
        Step::Silent => None,
        _ => panic!("expected a plain reply"),
    }
}

#[test]
fn first_login_asks_for_credentials_then_succeeds() {
    let mut fb = FrameBuffer::new(4, 4);
    let mut c = logged_in("alice", 10, &mut fb);
    assert_eq!(c.username().map(|s| s.as_str()), Some("alice"));
    assert_eq!(reply(c.process_line("LOGIN alice hunter2", &mut fb)), Some(Response::AlreadyLoggedIn));
}

#[test]
fn failed_login_closes() {
    let mut fb = FrameBuffer::new(4, 4);
    let mut c = ClientConnection::new(10, 500, 4, 4);
    assert!(matches!(c.process_line("LOGIN bob wrong", &mut fb), Step::CheckCredentials { .. }));
    let r = c.login_result("bob".to_string(), false);
    assert_eq!(r, Response::LoginFailed);
    assert!(r.closes_connection());
    assert!(c.username().is_none());
}

#[test]
fn pixel_write_before_start_is_not_your_slot() {
    let mut fb = FrameBuffer::new(4, 4);
    let mut c = logged_in("alice", 10, &mut fb);
    let r = reply(c.process_line("PX 1 2 ff0000", &mut fb)).unwrap();
    assert_eq!(r, Response::NotYourSlot);
    assert!(r.closes_connection());
    assert_eq!(fb.get(1, 2), Some(0));
}

#[test]
fn pixel_write_without_login_is_login_needed() {
    let mut fb = FrameBuffer::new(4, 4);
    let mut c = ClientConnection::new(10, 500, 4, 4);
    assert_eq!(c.on_slot_event(SlotEvent::SlotStart), Some(Response::Start { max_pixels_per_slot: 10, slot_duration_ms: 500 }));
    assert_eq!(reply(c.process_line("PX 1 2 ff0000", &mut fb)), Some(Response::LoginNeeded));
    assert_eq!(reply(c.process_line("DONE", &mut fb)), Some(Response::LoginNeeded));
}

#[test]
fn quota_is_enforced_and_pixels_appear_on_done() {
    let mut fb = FrameBuffer::new(10, 10);
    let mut c = logged_in("bob", 3, &mut fb);
    let start = c.on_slot_event(SlotEvent::SlotStart).unwrap();
    assert_eq!(String::from_utf8(start.to_line()).unwrap(), "START 3 500");
    for (i, line) in ["PX 0 0 ff0000", "PX 1 0 00ff00", "PX 2 0 0000ff"].iter().enumerate() {
        assert!(matches!(c.process_line(line, &mut fb), Step::Silent), "line {}", i);
        assert_eq!(fb.get(i as u16, 0), Some(0));
    }
    let r = reply(c.process_line("PX 3 0 ffffff", &mut fb)).unwrap();
    assert_eq!(r, Response::QuotaExceeded { max_pixels_per_slot: 3 });
    assert!(r.closes_connection());
    match c.process_line("DONE", &mut fb) {
        Step::Publish { event, response } => {
            assert_eq!(response, Response::Done { num_pixels: 3 });
            match event.payload {
                Some(Payload::UserPainting(p)) => {
                    assert_eq!(p.username, "bob");
                    assert_eq!(p.painted.len(), 24);
                }
                _ => panic!("expected UserPainting"),
            }
        }
        _ => panic!("expected a publish step"),
    }
    assert_eq!(fb.get(0, 0), Some(0xff0000));
    assert_eq!(fb.get(1, 0), Some(0x00ff00));
    assert_eq!(fb.get(2, 0), Some(0x0000ff));
    assert_eq!(fb.get(3, 0), Some(0));
}

#[test]
fn quota_counts_the_whole_slot_across_done() {
    let mut fb = FrameBuffer::new(10, 10);
    let mut c = logged_in("bob", 2, &mut fb);
    c.on_slot_event(SlotEvent::SlotStart);
    assert!(matches!(c.process_line("PX 0 0 ff0000", &mut fb), Step::Silent));
    assert!(matches!(c.process_line("DONE", &mut fb), Step::Publish { .. }));
    assert!(matches!(c.process_line("PX 1 0 ff0000", &mut fb), Step::Silent));
    assert_eq!(reply(c.process_line("PX 2 0 ff0000", &mut fb)), Some(Response::QuotaExceeded { max_pixels_per_slot: 2 }));
    c.on_slot_event(SlotEvent::SlotEnd);
    c.on_slot_event(SlotEvent::SlotStart);
    assert!(matches!(c.process_line("PX 3 0 ff0000", &mut fb), Step::Silent));
}

#[test]
fn missing_done_ends_the_connection_and_drops_the_pixel() {
    let mut fb = FrameBuffer::new(4, 4);
    let mut c = logged_in("carol", 10, &mut fb);
    c.on_slot_event(SlotEvent::SlotStart);
    assert!(matches!(c.process_line("PX 1 1 abcdef", &mut fb), Step::Silent));
    let r = c.on_slot_event(SlotEvent::SlotEnd).unwrap();
    assert_eq!(r, Response::SlotNotClosedInTime { slot_duration_ms: 500 });
    assert!(r.closes_connection());
    assert_eq!(fb.get(1, 1), Some(0));
}

#[test]
fn done_in_time_closes_the_slot_silently() {
    let mut fb = FrameBuffer::new(4, 4);
    let mut c = logged_in("dave", 10, &mut fb);
    c.on_slot_event(SlotEvent::SlotStart);
    assert!(matches!(c.process_line("DONE", &mut fb), Step::Publish { .. }));
    assert_eq!(c.on_slot_event(SlotEvent::SlotEnd), None);
    assert_eq!(reply(c.process_line("PX 0 0 ffffff", &mut fb)), Some(Response::NotYourSlot));
}

#[test]
fn stray_slot_events_are_ignored() {
    let mut fb = FrameBuffer::new(4, 4);
    let mut c = logged_in("erin", 10, &mut fb);
    assert_eq!(c.on_slot_event(SlotEvent::SlotEnd), None);
    assert!(c.on_slot_event(SlotEvent::SlotStart).is_some());
    assert!(matches!(c.process_line("PX 0 0 ffffff", &mut fb), Step::Silent));
    assert_eq!(c.on_slot_event(SlotEvent::SlotStart), None);
    assert!(matches!(c.process_line("DONE", &mut fb), Step::Publish { .. }));
    assert_eq!(fb.get(0, 0), Some(0xffffff));
}

#[test]
fn reads_sizes_and_errors_do_not_touch_the_canvas() {
    let mut fb = FrameBuffer::new(4, 3);
    let mut c = ClientConnection::new(10, 500, 4, 3);
    assert_eq!(reply(c.process_line("SIZE", &mut fb)), Some(Response::Size { width: 4, height: 3 }));
    assert_eq!(reply(c.process_line("HELP", &mut fb)), Some(Response::Help));
    assert_eq!(reply(c.process_line("PX 1 1", &mut fb)), Some(Response::GetPixel { x: 1, y: 1, rgba: 0 }));
    assert_eq!(reply(c.process_line("PX 9 9", &mut fb)), None);
    assert_eq!(reply(c.process_line("", &mut fb)), None);
    assert_eq!(reply(c.process_line("BOGUS", &mut fb)), Some(Response::InvalidRequest));
    assert_eq!(reply(c.process_line("SIZE please", &mut fb)), Some(Response::TrailingInput));
}

#[test]
fn upper_case_colour_is_an_invalid_request() {
    let mut fb = FrameBuffer::new(4, 4);
    let mut c = logged_in("fay", 10, &mut fb);
    c.on_slot_event(SlotEvent::SlotStart);
    assert_eq!(reply(c.process_line("PX 1 2 FF0000", &mut fb)), Some(Response::InvalidRequest));
    assert!(matches!(c.process_line("DONE", &mut fb), Step::Publish { .. }));
    assert_eq!(fb.get(1, 2), Some(0));
}

#[test]
fn complete_login_registers_the_painter() {
    let mut scheduler: UserScheduler<u8> = UserScheduler::new(500);
    let mut a = ClientConnection::new(10, 500, 4, 4);
    assert_eq!(a.complete_login(&mut scheduler, "gus".to_string(), true, 1), Response::LoginSucceeded);
    assert_eq!(a.username().map(|s| s.as_str()), Some("gus"));
    assert_eq!(scheduler.all_users_as_ordered_list(), vec!["gus".to_string()]);
    assert_eq!(scheduler.next_painter().map(|u| u.mailbox), Some(1));
}

#[test]
fn second_connection_of_an_active_user_is_refused() {
    let mut scheduler: UserScheduler<u8> = UserScheduler::new(500);
    let mut a = ClientConnection::new(10, 500, 4, 4);
    let mut b = ClientConnection::new(10, 500, 4, 4);
    assert_eq!(a.complete_login(&mut scheduler, "hal".to_string(), true, 1), Response::LoginSucceeded);
    let r = b.complete_login(&mut scheduler, "hal".to_string(), true, 2);
    assert_eq!(r, Response::RegistrationRefused);
    assert!(r.closes_connection());
    assert!(b.username().is_none());
    assert_eq!(scheduler.all_users_as_ordered_list(), vec!["hal".to_string()]);
}

#[test]
fn rejected_credentials_register_nobody() {
    let mut scheduler: UserScheduler<u8> = UserScheduler::new(500);
    let mut a = ClientConnection::new(10, 500, 4, 4);
    assert_eq!(a.complete_login(&mut scheduler, "ivy".to_string(), false, 1), Response::LoginFailed);
    assert!(a.username().is_none());
    assert!(scheduler.next_painter().is_none());
}
