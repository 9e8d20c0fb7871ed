//! Compressed spectator frames: each event is encoded once and compressed
//! once, whatever the number of spectators.
use vstd::prelude::*;

use crate::message::{encode_message, encode_to_vec, Payload, WebSocketClosedBecauseOfLag, WebSocketMessage};

verus! {

/// `std::io::Error`, the error of `zstd::encode_all`, carried as an opaque
/// value.
/// The frame telling a spectator that it was dropped after missing `lag`
/// frames, where zstd gives one.
pub open spec fn lag_frame(lag: u64) -> Option<Seq<u8>> {
    zstd_frame(
        encode_message(
            WebSocketMessage { payload: Some(Payload::WebSocketClosedBecauseOfLag(WebSocketClosedBecauseOfLag { lag })) },
        ),
    )
}

#[verifier::external_type_specification]
#[verifier::external_body]
pub struct ExIoError(std::io::Error);

/// The zstd frame that `zstd::encode_all` produces for `data` at zstd's
/// default level, or `None` where it fails on `data`.
pub uninterp spec fn zstd_frame(data: Seq<u8>) -> Option<Seq<u8>>;

/// Relies on zstd::encode_all at zstd's default level: whether it
/// succeeds, and the frame it gives, depend on the input bytes alone.
#[verifier::external_body]
fn zstd_encode_all(data: &[u8]) -> (r: Result<Vec<u8>, std::io::Error>)
    ensures
        match r {
            Ok(v) => zstd_frame(data@) == Some(v@),
            Err(_) => zstd_frame(data@) is None,
        },
{
    zstd::encode_all(data, zstd::DEFAULT_COMPRESSION_LEVEL)
}

/// Why a frame could not be made.
#[derive(Debug, Clone, Copy, PartialEq, Eq)]
pub enum CompressError {
    /// The compressor reported an error.
    Zstd,
}

/// Encodes `m` and compresses the bytes into one spectator frame.
pub fn compress_message(m: &WebSocketMessage) -> (r: Result<Vec<u8>, CompressError>)
    ensures
        match r {
            Ok(v) => zstd_frame(encode_message(*m)) == Some(v@),
            Err(e) => zstd_frame(encode_message(*m)) is None && e == CompressError::Zstd,
        },
{
    let uncompressed = encode_to_vec(m);
    match zstd_encode_all(uncompressed.as_slice()) {
        Ok(v) => Ok(v),
        Err(_) => Err(CompressError::Zstd),
    }
}

/// The frame sent to a spectator just before it is dropped for missing
/// `lag` frames.
pub fn web_socket_closed_because_of_lag_message(lag: u64) -> (r: Result<Vec<u8>, CompressError>)
    ensures
        match r {
            Ok(v) => lag_frame(lag) == Some(v@),
            Err(e) => lag_frame(lag) is None && e == CompressError::Zstd,
        },
{
    let m = WebSocketMessage {
        payload: Some(Payload::WebSocketClosedBecauseOfLag(WebSocketClosedBecauseOfLag { lag })),
    };
    compress_message(&m)
}

} // verus!
