//! Events published to spectators, and their wire encoding.
use vstd::prelude::*;
use vstd::utf8::encode_utf8;

use crate::bytes::{le32_byte, push_bytes, push_le32};

verus! {

/// One batch of pixels applied by a painter; `painted` holds 8 bytes per
/// update (`x`, `y` as little-endian u16, `rgba` as little-endian u32).
pub struct UserPainting {
    pub username: String,
    pub painted: Vec<u8>,
}

/// A full canvas refresh; `pixels` holds 4 little-endian bytes per pixel,
/// row by row.
pub struct ScreenSync {
    pub width: u32,
    pub height: u32,
    pub pixels: Vec<u8>,
}

/// The painter whose slot has just started.
pub struct CurrentlyPaintingUser {
    pub currently_painting: String,
}

/// Moving averages of one painter. The averages are single-precision
/// floats carried by their IEEE-754 bit patterns.
pub struct UserStatistics {
    pub username: String,
    pub average_pixels_per_round_bits: u32,
    pub average_response_time_milliseconds_bits: u32,
}

/// Statistics of all active painters, in play order.
pub struct UserStatisticsUpdate {
    pub statistics: Vec<UserStatistics>,
}

/// The last frame a spectator gets before it is dropped for lagging.
pub struct WebSocketClosedBecauseOfLag {
    pub lag: u64,
}

pub enum Payload {
    UserPainting(UserPainting),
    ScreenSync(ScreenSync),
    CurrentlyPaintingUser(CurrentlyPaintingUser),
    UserStatisticsUpdate(UserStatisticsUpdate),
    WebSocketClosedBecauseOfLag(WebSocketClosedBecauseOfLag),
}

pub struct WebSocketMessage {
    pub payload: Option<Payload>,
}

/// `m` carries a `UserPainting` of `username` with the packed bytes `packed`.
pub open spec fn is_user_painting(m: WebSocketMessage, username: Seq<char>, packed: Seq<u8>) -> bool {
    match m.payload {
        Some(Payload::UserPainting(p)) => p.username@ == username && p.painted@ == packed,
        _ => false,
    }
}

/// LEB128 form of `v`: 7 bits per byte, lowest group first, the high bit
/// set on every byte but the last.
pub open spec fn varint(v: nat) -> Seq<u8>
    decreases v,
{
    if v < 128 {
        seq![v as u8]
    } else {
        seq![(v % 128 + 128) as u8] + varint(v / 128)
    }
}

/// Field key: field number and wire type.
pub open spec fn field_key(field: nat, wire_type: nat) -> Seq<u8> {
    varint(field * 8 + wire_type)
}

/// A length-delimited field (wire type 2).
pub open spec fn delimited_field(field: nat, body: Seq<u8>) -> Seq<u8> {
    field_key(field, 2) + varint(body.len()) + body
}

/// An unsigned integer field (wire type 0).
pub open spec fn uint_field(field: nat, v: nat) -> Seq<u8> {
    field_key(field, 0) + varint(v)
}

/// A 32-bit fixed-width field (wire type 5), little-endian.
pub open spec fn fixed32_field(field: nat, v: u32) -> Seq<u8> {
    field_key(field, 5) + seq![le32_byte(v, 0), le32_byte(v, 1), le32_byte(v, 2), le32_byte(v, 3)]
}

pub open spec fn encode_user_painting(p: UserPainting) -> Seq<u8> {
    delimited_field(1, encode_utf8(p.username@)) + delimited_field(2, p.painted@)
}

pub open spec fn encode_screen_sync(s: ScreenSync) -> Seq<u8> {
    uint_field(1, s.width as nat) + uint_field(2, s.height as nat) + delimited_field(3, s.pixels@)
}

pub open spec fn encode_currently_painting(c: CurrentlyPaintingUser) -> Seq<u8> {
    delimited_field(1, encode_utf8(c.currently_painting@))
}

pub open spec fn encode_user_statistics(s: UserStatistics) -> Seq<u8> {
    delimited_field(1, encode_utf8(s.username@)) + fixed32_field(2, s.average_pixels_per_round_bits)
        + fixed32_field(3, s.average_response_time_milliseconds_bits)
}

/// The repeated `statistics` field: one delimited entry per element.
pub open spec fn encode_statistics_list(list: Seq<UserStatistics>) -> Seq<u8>
    decreases list.len(),
{
    if list.len() == 0 {
        seq![]
    } else {
        encode_statistics_list(list.drop_last()) + delimited_field(1, encode_user_statistics(list.last()))
    }
}

pub open spec fn encode_lag(l: WebSocketClosedBecauseOfLag) -> Seq<u8> {
    uint_field(1, l.lag as nat)
}

/// The protobuf encoding of a message: the payload, if any, as the
/// delimited field of its variant (1 to 5 in declaration order).
pub open spec fn encode_message(m: WebSocketMessage) -> Seq<u8> {
    match m.payload {
        None => seq![],
        Some(Payload::UserPainting(p)) => delimited_field(1, encode_user_painting(p)),
        Some(Payload::ScreenSync(s)) => delimited_field(2, encode_screen_sync(s)),
        Some(Payload::CurrentlyPaintingUser(c)) => delimited_field(3, encode_currently_painting(c)),
        Some(Payload::UserStatisticsUpdate(u)) => delimited_field(4, encode_statistics_list(u.statistics@)),
        Some(Payload::WebSocketClosedBecauseOfLag(l)) => delimited_field(5, encode_lag(l)),
    }
}

/// Relies on prost::encoding::encode_varint, which appends the LEB128 form
/// of `value` (its loop puts `value & 0x7f | 0x80` while `value >= 0x80`,
/// then `value`, shifting by 7 each time).
#[verifier::external_body]
fn put_varint(buf: &mut Vec<u8>, value: u64)
    ensures
        final(buf)@ == old(buf)@ + varint(value as nat),
{
    prost::encoding::encode_varint(value, buf)
}

fn put_key(out: &mut Vec<u8>, field: u64, wire_type: u64)
    requires
        field <= 1000,
        wire_type < 8,
    ensures
        final(out)@ == old(out)@ + field_key(field as nat, wire_type as nat),
{
    put_varint(out, field * 8 + wire_type);
}

fn put_delimited(out: &mut Vec<u8>, field: u64, body: &[u8])
    requires
        field <= 1000,
    ensures
        final(out)@ == old(out)@ + delimited_field(field as nat, body@),
{
    put_key(out, field, 2);
    put_varint(out, body.len() as u64);
    push_bytes(out, body);
    assert(final(out)@ =~= old(out)@ + delimited_field(field as nat, body@));
}

fn put_uint(out: &mut Vec<u8>, field: u64, v: u64)
    requires
        field <= 1000,
    ensures
        final(out)@ == old(out)@ + uint_field(field as nat, v as nat),
{
    put_key(out, field, 0);
    put_varint(out, v);
    assert(final(out)@ =~= old(out)@ + uint_field(field as nat, v as nat));
}

fn put_fixed32(out: &mut Vec<u8>, field: u64, v: u32)
    requires
        field <= 1000,
    ensures
        final(out)@ == old(out)@ + fixed32_field(field as nat, v),
{
    put_key(out, field, 5);
    push_le32(out, v);
    assert(final(out)@ =~= old(out)@ + fixed32_field(field as nat, v));
}

fn put_string(out: &mut Vec<u8>, field: u64, s: &String)
    requires
        field <= 1000,
    ensures
        final(out)@ == old(out)@ + delimited_field(field as nat, encode_utf8(s@)),
{
    put_delimited(out, field, s.as_str().as_bytes());
}

fn encode_user_statistics_exec(s: &UserStatistics) -> (r: Vec<u8>)
    ensures
        r@ == encode_user_statistics(*s),
{
    let mut out: Vec<u8> = Vec::new();
    put_string(&mut out, 1, &s.username);
    put_fixed32(&mut out, 2, s.average_pixels_per_round_bits);
    put_fixed32(&mut out, 3, s.average_response_time_milliseconds_bits);
    assert(out@ =~= encode_user_statistics(*s));
    out
}

/// The payload body of a message, with the field number of its variant.
fn encode_payload(p: &Payload) -> (r: (u64, Vec<u8>))
    ensures
        r.0 <= 5,
        delimited_field(r.0 as nat, r.1@) == encode_message(WebSocketMessage { payload: Some(*p) }),
{
    let mut out: Vec<u8> = Vec::new();
    match p {
        Payload::UserPainting(u) => {
            put_string(&mut out, 1, &u.username);
            put_delimited(&mut out, 2, u.painted.as_slice());
            assert(out@ =~= encode_user_painting(*u));
            (1, out)
        },
        Payload::ScreenSync(s) => {
            put_uint(&mut out, 1, s.width as u64);
            put_uint(&mut out, 2, s.height as u64);
            put_delimited(&mut out, 3, s.pixels.as_slice());
            assert(out@ =~= encode_screen_sync(*s));
            (2, out)
        },
        Payload::CurrentlyPaintingUser(c) => {
            put_string(&mut out, 1, &c.currently_painting);
            (3, out)
        },
        Payload::UserStatisticsUpdate(u) => {
            let mut i: usize = 0;
            while i < u.statistics.len()
                invariant
                    i <= u.statistics@.len(),
                    out@ == encode_statistics_list(u.statistics@.take(i as int)),
                decreases u.statistics@.len() - i,
            {
                let body = encode_user_statistics_exec(&u.statistics[i]);
                put_delimited(&mut out, 1, body.as_slice());
                assert(u.statistics@.take(i as int + 1).drop_last() =~= u.statistics@.take(i as int));
                i = i + 1;
            }
            assert(u.statistics@.take(i as int) =~= u.statistics@);
            (4, out)
        },
        Payload::WebSocketClosedBecauseOfLag(l) => {
            put_uint(&mut out, 1, l.lag);
            (5, out)
        },
    }
}

/// The protobuf encoding of `m`.
pub fn encode_to_vec(m: &WebSocketMessage) -> (r: Vec<u8>)
    ensures
        r@ == encode_message(*m),
{
    match &m.payload {
        None => {
            let r: Vec<u8> = Vec::new();
            assert(r@ =~= encode_message(*m));
            r
        },
        Some(p) => {
            let (field, body) = encode_payload(p);
            let mut out: Vec<u8> = Vec::new();
            put_delimited(&mut out, field, body.as_slice());
            assert(out@ =~= encode_message(*m));
            out
        },
    }
}

} // verus!
