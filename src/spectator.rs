//! What a spectator connection does with each outcome of reading the
//! egress broadcast.
use vstd::prelude::*;

use crate::compress::{lag_frame, web_socket_closed_because_of_lag_message};

verus! {

/// One read of the egress broadcast.
pub enum BroadcastReceive {
    /// The next compressed frame.
    Frame(Vec<u8>),
    /// The spectator fell behind and this many frames were skipped.
    Lagged(u64),
    /// The broadcast has shut down.
    Closed,
}

/// What the spectator connection does next.
pub enum SpectatorAction {
    /// Send this frame and keep going.
    Forward(Vec<u8>),
    /// Send this last frame, then close whether or not sending worked.
    SendThenClose(Vec<u8>),
    /// Close now.
    Close,
}

/// Frames are forwarded as they are; a lagging spectator gets one lag
/// notice and is closed (closed at once where zstd gives no frame for the
/// notice); a closed broadcast closes the connection.
pub fn spectator_step(received: BroadcastReceive) -> (r: SpectatorAction)
    ensures
        match received {
            BroadcastReceive::Frame(f) => r matches SpectatorAction::Forward(g) && g@ == f@,
            BroadcastReceive::Lagged(lag) => match lag_frame(lag) {
                Some(f) => r matches SpectatorAction::SendThenClose(g) && g@ == f,
                None => r is Close,
            },
            BroadcastReceive::Closed => r is Close,
        },
{
    match received {
        BroadcastReceive::Frame(f) => SpectatorAction::Forward(f),
        BroadcastReceive::Lagged(lag) => match web_socket_closed_because_of_lag_message(lag) {
            Ok(frame) => SpectatorAction::SendThenClose(frame),
            Err(_) => SpectatorAction::Close,
        },
        BroadcastReceive::Closed => SpectatorAction::Close,
    }
}

} // verus!
