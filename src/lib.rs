//! A shared pixel canvas where authenticated painters take turns drawing.
//!
//! The library holds the canvas, the painter protocol (grammar, replies
//! and the per-connection state machine), the round-robin slot scheduler,
//! the per-IP connection cap, the credential store and the wire form of
//! the events sent to spectators, each with its contract proved. The
//! network, the clock and the files are left to the caller.

pub mod bytes;
pub mod compress;
pub mod credentials;
pub mod framebuffer;
pub mod limits;
pub mod message;
pub mod parser;
pub mod response;
pub mod scheduler;
pub mod session;
pub mod spectator;
