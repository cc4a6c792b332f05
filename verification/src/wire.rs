//! Fixed-width fields of the SSH wire format. All integers are big-endian.

use vstd::prelude::*;

verus! {

/// The value of four bytes read as a big-endian unsigned integer.
pub open spec fn be_u32(bytes: Seq<u8>) -> int
    recommends
        bytes.len() == 4,
{
    bytes[0] * 0x100_0000 + bytes[1] * 0x1_0000 + bytes[2] * 0x100 + bytes[3]
}

/// The four bytes that encode `value` as a big-endian unsigned integer.
pub open spec fn u32_be_bytes(value: int) -> Seq<u8>
    recommends
        0 <= value <= u32::MAX,
{
    seq![
        (value / 0x100_0000) as u8,
        (value / 0x1_0000 % 0x100) as u8,
        (value / 0x100 % 0x100) as u8,
        (value % 0x100) as u8,
    ]
}

/// Reading back what [`u32_be_bytes`] wrote gives the value again.
pub proof fn lemma_be_u32_round_trip(value: int)
    requires
        0 <= value <= u32::MAX,
    ensures
        u32_be_bytes(value).len() == 4,
        be_u32(u32_be_bytes(value)) == value,
{
}

/// The big-endian integer in the four bytes of `bytes` that start at
/// `offset`, or `None` where fewer than four bytes are left there.
pub fn read_u32(bytes: &[u8], offset: usize) -> (value: Option<u32>)
    ensures
        value is Some <==> offset + 4 <= bytes@.len(),
        value matches Some(v) ==> v == be_u32(bytes@.subrange(offset as int, offset + 4)),
{
    if bytes.len() < 4 || offset > bytes.len() - 4 {
        return None;
    }
    let b0: u32 = bytes[offset] as u32;
    let b1: u32 = bytes[offset + 1] as u32;
    let b2: u32 = bytes[offset + 2] as u32;
    let b3: u32 = bytes[offset + 3] as u32;
    Some(b0 * 0x100_0000 + b1 * 0x1_0000 + b2 * 0x100 + b3)
}

} // verus!
