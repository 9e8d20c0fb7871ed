use pixelstrom::parser::{parse_request, Request};
use pixelstrom::response::{connection_limit_message, Response};

fn parsed(line: &str) -> Option<(Request, usize)> {
    parse_request(line)
}

fn text(r: Response) -> String {
    String::from_utf8(r.to_line()).unwrap()
}

#[test]
fn parses_simple_requests() {
    assert!(matches!(parsed("HELP"), Some((Request::Help, 4))));
    assert!(matches!(parsed("SIZE"), Some((Request::Size, 4))));
    assert!(matches!(parsed("DONE"), Some((Request::Done, 4))));
}

#[test]
fn parses_login() {
    match parsed("LOGIN alice hunter2") {
        Some((Request::Login { username, password }, n)) => {
            assert_eq!(username, "alice");
            assert_eq!(password, "hunter2");
            assert_eq!(n, 19);
        }
        other => panic!("unexpected {:?}", other),
    }
    assert!(parsed("LOGIN alice").is_none());
    assert!(parsed("LOGIN al-ice pw").is_none());
    assert!(matches!(parsed("LOGIN a b c"), Some((Request::Login { .. }, 9))));
}

#[test]
fn parses_pixel_reads_and_writes() {
    assert!(matches!(parsed("PX 1 2"), Some((Request::GetPixel { x: 1, y: 2 }, 6))));
    assert!(matches!(parsed("PX 1 2 ff0000"), Some((Request::SetPixel { x: 1, y: 2, rgba: 0xff0000 }, 13))));
    assert!(matches!(parsed("PX 65535 007 0a0b0c"), Some((Request::SetPixel { x: 65535, y: 7, rgba: 0x0a0b0c }, 19))));
    assert!(matches!(parsed("PX 1 2 ff0000aa"), Some((Request::SetPixel { rgba: 0xff0000, .. }, 13))));
}

#[test]
fn rejects_malformed_pixel_requests() {
    assert!(parsed("PX 70000 1").is_none());
    assert!(parsed("PX 1 2 zz0000").is_none());
    assert!(parsed("PX 1 2 FF0000").is_none());
    assert!(parsed("PX 1 2 ff00Aa").is_none());
    assert!(parsed("PX 1 2 ff00").is_none());
    assert!(parsed("PX 1").is_none());
    assert!(parsed("PX -1 2").is_none());
    assert!(parsed("PX 1 2x").is_none());
    assert!(parsed("").is_none());
    assert!(parsed("help").is_none());
}

#[test]
fn renders_replies() {
    assert_eq!(text(Response::Size { width: 4, height: 4 }), "SIZE 4 4");
    assert_eq!(text(Response::GetPixel { x: 1, y: 2, rgba: 0xff00 }), "PX 1 2 00ff00");
    assert_eq!(text(Response::GetPixel { x: 0, y: 0, rgba: 0x1abcdef0 }), "PX 0 0 1abcdef0");
    assert_eq!(text(Response::Start { max_pixels_per_slot: 3, slot_duration_ms: 500 }), "START 3 500");
    assert_eq!(text(Response::Done { num_pixels: 0 }), "DONE 0");
    assert_eq!(text(Response::Done { num_pixels: 10000 }), "DONE 10000");
    assert_eq!(text(Response::LoginSucceeded), "LOGIN SUCCEEDED");
    assert_eq!(text(Response::LoginFailed), "ERROR LOGIN FAILED");
    assert_eq!(text(Response::LoginNeeded), "ERROR LOGIN NEEDED");
    assert_eq!(text(Response::AlreadyLoggedIn), "ERROR Already logged in");
    assert!(text(Response::NotYourSlot).starts_with("ERROR NOT YOUR SLOT"));
    assert!(text(Response::QuotaExceeded { max_pixels_per_slot: 3 }).starts_with("ERROR QUOTA EXCEEDED"));
    assert!(text(Response::QuotaExceeded { max_pixels_per_slot: 3 }).contains(" 3 pixels"));
    assert!(text(Response::SlotNotClosedInTime { slot_duration_ms: 500 }).starts_with("ERROR Slot not closed in time"));
    assert!(text(Response::SlotNotClosedInTime { slot_duration_ms: 500 }).contains("500ms"));
    assert!(text(Response::LineTooLong { max_line_length: 128 }).contains("too long"));
    assert!(text(Response::LineTooLong { max_line_length: 128 }).contains(" 128 "));
    assert!(text(Response::InvalidRequest).starts_with("ERROR Invalid request"));
    assert!(text(Response::TrailingInput).starts_with("ERROR Invalid request"));
    assert!(text(Response::Help).contains("LOGIN"));
    assert_eq!(text(Response::StoreUnavailable), "ERROR Credential store unavailable, please try again later");
    assert!(text(Response::RegistrationRefused).starts_with("ERROR LOGIN FAILED"));
}

#[test]
fn closing_replies() {
    assert!(Response::LoginNeeded.closes_connection());
    assert!(Response::LoginFailed.closes_connection());
    assert!(Response::NotYourSlot.closes_connection());
    assert!(Response::QuotaExceeded { max_pixels_per_slot: 1 }.closes_connection());
    assert!(Response::SlotNotClosedInTime { slot_duration_ms: 1 }.closes_connection());
    assert!(Response::LineTooLong { max_line_length: 128 }.closes_connection());
    assert!(Response::RegistrationRefused.closes_connection());
    assert!(!Response::StoreUnavailable.closes_connection());
    assert!(!Response::AlreadyLoggedIn.closes_connection());
    assert!(!Response::LoginSucceeded.closes_connection());
    assert!(!Response::Help.closes_connection());
    assert!(!Response::InvalidRequest.closes_connection());
    assert!(!Response::Done { num_pixels: 1 }.closes_connection());
}

#[test]
fn connection_limit_text() {
    assert_eq!(
        String::from_utf8(connection_limit_message()).unwrap(),
        "ERROR Connection limit of 2 connections per IP reached"
    );
}
