//! Little-endian byte layouts shared by the canvas snapshot and the
//! packed pixel diffs.
use vstd::prelude::*;

verus! {

/// Byte `k` (0 = least significant) of a 32-bit value.
pub open spec fn le32_byte(v: u32, k: int) -> u8 {
    if k == 0 {
        (v % 256) as u8
    } else if k == 1 {
        ((v / 256) % 256) as u8
    } else if k == 2 {
        ((v / 65536) % 256) as u8
    } else {
        (v / 16777216) as u8
    }
}

/// Byte `k` (0 = least significant) of a 16-bit value.
pub open spec fn le16_byte(v: u16, k: int) -> u8 {
    if k == 0 {
        (v % 256) as u8
    } else {
        (v / 256) as u8
    }
}

/// The value of four little-endian bytes.
pub open spec fn le32_value(b0: u8, b1: u8, b2: u8, b3: u8) -> int {
    b0 + 256 * b1 + 65536 * b2 + 16777216 * b3
}

pub proof fn lemma_le32_bytes_value(v: u32)
    ensures
        le32_value(le32_byte(v, 0), le32_byte(v, 1), le32_byte(v, 2), le32_byte(v, 3)) == v,
{
}

/// Appends the four little-endian bytes of `v`.
pub fn push_le32(out: &mut Vec<u8>, v: u32)
    ensures
        final(out)@ == old(out)@ + seq![le32_byte(v, 0), le32_byte(v, 1), le32_byte(v, 2), le32_byte(v, 3)],
{
    out.push((v % 256) as u8);
    out.push(((v / 256) % 256) as u8);
    out.push(((v / 65536) % 256) as u8);
    out.push((v / 16777216) as u8);
}

/// Appends the two little-endian bytes of `v`.
pub fn push_le16(out: &mut Vec<u8>, v: u16)
    ensures
        final(out)@ == old(out)@ + seq![le16_byte(v, 0), le16_byte(v, 1)],
{
    out.push((v % 256) as u8);
    out.push((v / 256) as u8);
}

/// Appends `bytes`.
pub fn push_bytes(out: &mut Vec<u8>, bytes: &[u8])
    ensures
        final(out)@ == old(out)@ + bytes@,
{
    let ghost start = out@;
    let mut i: usize = 0;
    while i < bytes.len()
        invariant
            i <= bytes@.len(),
            out@ == start + bytes@.take(i as int),
        decreases bytes@.len() - i,
    {
        out.push(bytes[i]);
        assert(out@ =~= start + bytes@.take(i as int + 1));
        i = i + 1;
    }
    assert(bytes@.take(i as int) =~= bytes@);
}

} // verus!
