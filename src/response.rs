//! Replies of the painter protocol.
use vstd::prelude::*;

use vstd::string::StringSliceAdditionalSpecFns;

use crate::bytes::push_bytes;
use crate::limits::MAX_CONNECTIONS_PER_IP;

verus! {

/// The longest request line accepted, newline excluded.
pub const MAX_INPUT_LINE_LENGTH: usize = 128;

/// ASCII digit for a value below 16 (lower-case letters from 10).
pub open spec fn digit_char(d: nat) -> u8 {
    if d < 10 {
        (48 + d) as u8
    } else {
        (87 + d) as u8
    }
}

/// `n` written in hex where `base` is 16 and in decimal otherwise, most
/// significant digit first, without leading zeros.
pub open spec fn digits(n: nat, base: nat) -> Seq<u8>
    decreases n,
{
    let b: nat = if base == 16 { 16 } else { 10 };
    if n < b {
        seq![digit_char(n)]
    } else {
        digits(n / b, base).push(digit_char(n % b))
    }
}

/// `n` in lower-case hex, padded with zeros to at least 6 digits.
pub open spec fn hex6(n: nat) -> Seq<u8> {
    let h = digits(n, 16);
    if h.len() < 6 {
        Seq::new((6 - h.len()) as nat, |i: int| 48u8) + h
    } else {
        h
    }
}

/// Appends the digits of `n` in base `base`.
fn push_digits(out: &mut Vec<u8>, n: u64, base: u64)
    requires
        base == 10 || base == 16,
    ensures
        final(out)@ == old(out)@ + digits(n as nat, base as nat),
    decreases n,
{
    if n >= base {
        push_digits(out, n / base, base);
    }
    let d = n % base;
    let c: u8 = if d < 10 { (48 + d) as u8 } else { (87 + d) as u8 };
    out.push(c);
    assert(final(out)@ =~= old(out)@ + digits(n as nat, base as nat));
}

/// Appends `n` as 6 or more lower-case hex digits.
fn push_hex6(out: &mut Vec<u8>, n: u32)
    ensures
        final(out)@ == old(out)@ + hex6(n as nat),
{
    let mut h: Vec<u8> = Vec::new();
    push_digits(&mut h, n as u64, 16);
    assert(h@ =~= digits(n as nat, 16));
    let ghost start = out@;
    if h.len() < 6 {
        let pad = 6 - h.len();
        let mut i: usize = 0;
        while i < pad
            invariant
                i <= pad,
                out@ == start + Seq::new(i as nat, |k: int| 48u8),
            decreases pad - i,
        {
            out.push(48u8);
            assert(out@ =~= start + Seq::new(i as nat + 1, |k: int| 48u8));
            i = i + 1;
        }
    }
    push_bytes(out, h.as_slice());
    assert(out@ =~= start + hex6(n as nat));
}

/// A reply to a painter. Some of them end the connection once sent.
#[derive(Debug, Clone, Copy, PartialEq, Eq)]
pub enum Response {
    Help,
    Size { width: u16, height: u16 },
    LoginNeeded,
    LoginSucceeded,
    LoginFailed,
    AlreadyLoggedIn,
    GetPixel { x: u16, y: u16, rgba: u32 },
    Start { max_pixels_per_slot: u32, slot_duration_ms: u64 },
    Done { num_pixels: u32 },
    NotYourSlot,
    QuotaExceeded { max_pixels_per_slot: u32 },
    SlotNotClosedInTime { slot_duration_ms: u64 },
    /// The line matched no request.
    InvalidRequest,
    /// The line started with a request but went on after it.
    TrailingInput,
    /// The line was longer than the protocol allows.
    LineTooLong { max_line_length: u64 },
    /// The credential store could not be read or written; the request was
    /// not carried out.
    StoreUnavailable,
    /// The credentials were right but the scheduler refused the painter:
    /// the user is already painting on another connection.
    RegistrationRefused,
}

/// Whether the connection is closed once `r` has been sent.
pub open spec fn closes(r: Response) -> bool {
    match r {
        Response::LoginNeeded | Response::LoginFailed | Response::NotYourSlot
        | Response::QuotaExceeded { .. } | Response::SlotNotClosedInTime { .. }
        | Response::LineTooLong { .. } | Response::RegistrationRefused => true,
        _ => false,
    }
}

impl Response {
    /// Whether the connection is closed once this reply has been sent.
    pub fn closes_connection(&self) -> (r: bool)
        ensures
            r == closes(*self),
    {
        match self {
            Response::LoginNeeded | Response::LoginFailed | Response::NotYourSlot
            | Response::QuotaExceeded { .. } | Response::SlotNotClosedInTime { .. }
            | Response::LineTooLong { .. } | Response::RegistrationRefused => true,
            _ => false,
        }
    }
}

/// The text of reply `r`, without its newline.
pub open spec fn response_line(r: Response) -> Seq<u8> {
    match r {
        Response::Help => HELP_TEXT.spec_bytes(),
        Response::Size { width, height } => "SIZE ".spec_bytes() + digits(width as nat, 10) + " ".spec_bytes()
            + digits(height as nat, 10),
        Response::LoginNeeded => "ERROR LOGIN NEEDED".spec_bytes(),
        Response::LoginSucceeded => "LOGIN SUCCEEDED".spec_bytes(),
        Response::LoginFailed => "ERROR LOGIN FAILED".spec_bytes(),
        Response::AlreadyLoggedIn => "ERROR Already logged in".spec_bytes(),
        Response::GetPixel { x, y, rgba } => "PX ".spec_bytes() + digits(x as nat, 10) + " ".spec_bytes() + digits(
            y as nat,
            10,
        ) + " ".spec_bytes() + hex6(rgba as nat),
        Response::Start { max_pixels_per_slot, slot_duration_ms } => "START ".spec_bytes() + digits(
            max_pixels_per_slot as nat,
            10,
        ) + " ".spec_bytes() + digits(slot_duration_ms as nat, 10),
        Response::Done { num_pixels } => "DONE ".spec_bytes() + digits(num_pixels as nat, 10),
        Response::NotYourSlot => "ERROR NOT YOUR SLOT. Please wait until you get a START command!".spec_bytes(),
        Response::QuotaExceeded { max_pixels_per_slot } => "ERROR QUOTA EXCEEDED. You are only allowed to set ".spec_bytes()
            + digits(max_pixels_per_slot as nat, 10) + " pixels per slot, please play fair!".spec_bytes(),
        Response::SlotNotClosedInTime { slot_duration_ms } =>
            "ERROR Slot not closed in time. After drawing your pixels you need to send \"DONE\" within your slot, which lasts ".spec_bytes()
            + digits(slot_duration_ms as nat, 10) + "ms (keep the network delay in mind)".spec_bytes(),
        Response::InvalidRequest => "ERROR Invalid request, send HELP for the list of requests".spec_bytes(),
        Response::TrailingInput => "ERROR Invalid request: unexpected characters after the request".spec_bytes(),
        Response::LineTooLong { max_line_length } => "ERROR The request line was too long. You can send at a maximum ".spec_bytes()
            + digits(max_line_length as nat, 10) + " characters before you need to send a newline".spec_bytes(),
        Response::StoreUnavailable => "ERROR Credential store unavailable, please try again later".spec_bytes(),
        Response::RegistrationRefused => "ERROR LOGIN FAILED: this user is already painting on another connection".spec_bytes(),
    }
}

pub const HELP_TEXT: &'static str = "Requests: HELP | SIZE | LOGIN <user> <password> | PX <x> <y> | PX <x> <y> <rrggbb> | DONE";

impl Response {
    /// The text of this reply, without its newline.
    pub fn to_line(&self) -> (r: Vec<u8>)
        ensures
            r@ == response_line(*self),
    {
        let mut out: Vec<u8> = Vec::new();
        match *self {
            Response::Help => push_bytes(&mut out, HELP_TEXT.as_bytes()),
            Response::Size { width, height } => {
                push_bytes(&mut out, "SIZE ".as_bytes());
                push_digits(&mut out, width as u64, 10);
                push_bytes(&mut out, " ".as_bytes());
                push_digits(&mut out, height as u64, 10);
            },
            Response::LoginNeeded => push_bytes(&mut out, "ERROR LOGIN NEEDED".as_bytes()),
            Response::LoginSucceeded => push_bytes(&mut out, "LOGIN SUCCEEDED".as_bytes()),
            Response::LoginFailed => push_bytes(&mut out, "ERROR LOGIN FAILED".as_bytes()),
            Response::AlreadyLoggedIn => push_bytes(&mut out, "ERROR Already logged in".as_bytes()),
            Response::GetPixel { x, y, rgba } => {
                push_bytes(&mut out, "PX ".as_bytes());
                push_digits(&mut out, x as u64, 10);
                push_bytes(&mut out, " ".as_bytes());
                push_digits(&mut out, y as u64, 10);
                push_bytes(&mut out, " ".as_bytes());
                push_hex6(&mut out, rgba);
            },
            Response::Start { max_pixels_per_slot, slot_duration_ms } => {
                push_bytes(&mut out, "START ".as_bytes());
                push_digits(&mut out, max_pixels_per_slot as u64, 10);
                push_bytes(&mut out, " ".as_bytes());
                push_digits(&mut out, slot_duration_ms, 10);
            },
            Response::Done { num_pixels } => {
                push_bytes(&mut out, "DONE ".as_bytes());
                push_digits(&mut out, num_pixels as u64, 10);
            },
            Response::NotYourSlot => push_bytes(
                &mut out,
                "ERROR NOT YOUR SLOT. Please wait until you get a START command!".as_bytes(),
            ),
            Response::QuotaExceeded { max_pixels_per_slot } => {
                push_bytes(&mut out, "ERROR QUOTA EXCEEDED. You are only allowed to set ".as_bytes());
                push_digits(&mut out, max_pixels_per_slot as u64, 10);
                push_bytes(&mut out, " pixels per slot, please play fair!".as_bytes());
            },
            Response::SlotNotClosedInTime { slot_duration_ms } => {
                push_bytes(
                    &mut out,
                    "ERROR Slot not closed in time. After drawing your pixels you need to send \"DONE\" within your slot, which lasts ".as_bytes(),
                );
                push_digits(&mut out, slot_duration_ms, 10);
                push_bytes(&mut out, "ms (keep the network delay in mind)".as_bytes());
            },
            Response::InvalidRequest => push_bytes(
                &mut out,
                "ERROR Invalid request, send HELP for the list of requests".as_bytes(),
            ),
            Response::TrailingInput => push_bytes(
                &mut out,
                "ERROR Invalid request: unexpected characters after the request".as_bytes(),
            ),
            Response::LineTooLong { max_line_length } => {
                push_bytes(&mut out, "ERROR The request line was too long. You can send at a maximum ".as_bytes());
                push_digits(&mut out, max_line_length, 10);
                push_bytes(&mut out, " characters before you need to send a newline".as_bytes());
            },
            Response::StoreUnavailable => push_bytes(
                &mut out,
                "ERROR Credential store unavailable, please try again later".as_bytes(),
            ),
            Response::RegistrationRefused => push_bytes(
                &mut out,
                "ERROR LOGIN FAILED: this user is already painting on another connection".as_bytes(),
            ),
        }
        out
    }
}

/// The line sent to a connection refused for the per-IP cap.
pub open spec fn connection_limit_line() -> Seq<u8> {
    "ERROR Connection limit of ".spec_bytes() + digits(MAX_CONNECTIONS_PER_IP as nat, 10)
        + " connections per IP reached".spec_bytes()
}

/// The line sent to a connection refused for the per-IP cap, without its
/// newline.
pub fn connection_limit_message() -> (r: Vec<u8>)
    ensures
        r@ == connection_limit_line(),
{
    let mut out: Vec<u8> = Vec::new();
    push_bytes(&mut out, "ERROR Connection limit of ".as_bytes());
    push_digits(&mut out, MAX_CONNECTIONS_PER_IP as u64, 10);
    push_bytes(&mut out, " connections per IP reached".as_bytes());
    out
}

} // verus!
